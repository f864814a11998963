//! The retained-object core of a declarative UI toolkit: user-authored
//! widget descriptions are materialized into an arena-backed object graph,
//! per-node application state survives full-tree rebuilds through
//! rebuild-stable keys and a generation-to-generation intern table, and a
//! flexbox layout tree is derived from the widgets' intents — the external
//! constraint solver itself is a host concern, consumed as a black box.
//!
//! Every rebuild recomputes the entire tree from scratch; only state, not
//! structure, is preserved across passes.

use vstd::prelude::*;

mod graph;
mod layout;
mod state;
mod storage;
mod view;
pub mod widgets;

pub use graph::Graph;
pub use graph::GraphNode;
pub use graph::NodeId;
pub use layout::FlexEdge;
pub use layout::Layout;
pub use layout::LayoutNode;
pub use layout::Layouter;
pub use layout::ParentLayout;
pub use layout::Size;
pub use layout::lemma_flex_reports_solver;
pub use layout::lemma_layout_pass_through;
pub use layout::spec_apply;
pub use layout::spec_ctx_at;
pub use layout::spec_edge_at;
pub use layout::spec_children_edges;
pub use layout::spec_subtree_edges;
pub use layout::spec_layout_node_at;
pub use layout::spec_node_of;
pub use layout::spec_parent_ctx;
pub use layout::spec_size_at;
pub use layout::spec_transparent_to_root;
pub use state::StateCache;
pub use state::StateSlot;
pub use state::lemma_identity_stability;
pub use state::lemma_resolve_substitutes;
pub use state::lemma_state_type_swap;
pub use storage::Storage;
pub use storage::lemma_arena_density;
pub use view::ViewInner;
pub use view::WidgetView;

verus! {

/// Dense per-pass identity of a widget: an index into the arena stores.
/// Generated by a monotonic counter that restarts at zero on every rebuild,
/// so a `WidgetId` is meaningless across rebuilds.
#[derive(Copy, Clone, Debug, PartialEq, Eq, Hash, Structural)]
pub struct WidgetId(pub usize);

/// Identity of one node during one build pass: the widget id indexing the
/// arena stores, and the graph node carrying the tree structure. The two
/// are allocated in lockstep, so they always hold the same index.
#[derive(Copy, Clone, Debug, PartialEq, Eq, Hash, Structural)]
pub struct Id {
    pub widget: WidgetId,
    pub node: NodeId,
}

/// Rebuild-stable identity of a node, independent of its `WidgetId`.
///
/// `Global` keys are supplied explicitly by the caller; `Local` keys are
/// derived from the parent's `WidgetId` and the zero-based sibling index,
/// and are assigned automatically to nodes without an explicit key.
#[derive(Copy, Clone, Debug, PartialEq, Eq, Hash, Structural)]
pub enum Key {
    Global(usize),
    Local { parent: WidgetId, local: usize },
}

/// The reserved global key that the root node receives on every rebuild.
pub open spec fn spec_root_key() -> Key {
    Key::Global(0)
}

/// Generator for explicit `Global` keys. Key 0 is reserved for the root, so
/// generation starts at 1.
pub struct GlobalKeygen {
    next: usize,
}

impl GlobalKeygen {
    pub closed spec fn spec_next(&self) -> usize {
        self.next
    }

    /// The reserved root key, `Key::Global(0)`, which `generate` never
    /// hands out.
    pub fn root_key() -> (k: Key)
        ensures
            k == spec_root_key(),
    {
        Key::Global(0)
    }

    pub fn new() -> (g: Self)
        ensures
            g.spec_next() == 1,
    {
        GlobalKeygen { next: 1 }
    }

    pub fn generate(&mut self) -> (k: Key)
        requires
            old(self).spec_next() < usize::MAX,
        ensures
            k == Key::Global(old(self).spec_next() as usize),
            final(self).spec_next() == old(self).spec_next() + 1,
    {
        let id = self.next;
        self.next += 1;
        Key::Global(id)
    }
}

/// Generator for per-pass `WidgetId`s: a monotonic counter starting at
/// zero, reset at the beginning of every rebuild.
pub struct WidgetIdGen {
    next: usize,
}

impl WidgetIdGen {
    pub closed spec fn spec_next(&self) -> usize {
        self.next
    }

    pub fn new() -> (g: Self)
        ensures
            g.spec_next() == 0,
    {
        WidgetIdGen { next: 0 }
    }

    pub fn generate(&mut self) -> (id: WidgetId)
        requires
            old(self).spec_next() < usize::MAX,
        ensures
            id == WidgetId(old(self).spec_next() as usize),
            final(self).spec_next() == old(self).spec_next() + 1,
    {
        let id = self.next;
        self.next += 1;
        WidgetId(id)
    }
}

/// How a child declaration can fail. Both cases are contract violations of
/// the host, reported rather than silently absorbed: the driver is expected
/// to treat them as fatal.
#[derive(Copy, Clone, Debug, PartialEq, Eq, Structural)]
pub enum BuildError {
    /// The per-pass child budget is spent.
    OutOfFuel,
    /// The view handed to `add_view` was already consumed into the graph.
    ViewAlreadyAttached,
}

/// The per-pass child budget. One unit is spent per node allocation, which
/// also bounds the depth-first work list and keeps id arithmetic in range.
pub const PASS_FUEL: usize = usize::MAX - 1;

/// The polymorphic capability every tree node implements: declaring
/// children (`build`) and announcing a sizing intent (`layout`).
///
/// `W` is the widget type the enclosing build pass stores — for a
/// homogeneous tree it is `Self`; a heterogeneous tree uses one enum type
/// for `W` whose `build` dispatches to values like [`widgets::Row`].
pub trait Widget<S, W>: Sized {
    /// The sizing intent as a specification-level value; `layout` must
    /// agree with it.
    spec fn layout_spec(&self) -> Layout;

    /// Declares this widget's children by calling `add`/`add_view` zero or
    /// more times on the supplied context, and resolves persisted state via
    /// `create_state`/`try_create_state`. It must leave the context
    /// well-formed and on the same current node, and can stage new children
    /// only by spending build budget.
    fn build(&mut self, ctxt: &mut Build<S, W>)
        requires
            old(ctxt).inv(),
            old(ctxt).spec_count() >= 1,
        ensures
            final(ctxt).inv(),
            final(ctxt).spec_id() == old(ctxt).spec_id(),
            final(ctxt).spec_count() >= old(ctxt).spec_count(),
            final(ctxt).spec_fuel() <= old(ctxt).spec_fuel(),
            final(ctxt).spec_staged().len() <= old(ctxt).spec_staged().len() + (old(ctxt).spec_fuel() - final(ctxt).spec_fuel()),
            forall|j: int|
                0 <= j < old(ctxt).spec_count() ==> (#[trigger] final(ctxt).key_at(j)) == old(ctxt).key_at(j),
            forall|k: Key|
                old(ctxt).spec_states().has_key(k) ==> (#[trigger] final(ctxt).spec_states().has_key(k)),
            old(ctxt).spec_states().spec_next_interns().len() == old(ctxt).spec_count() ==> final(ctxt).spec_states().spec_next_interns().len() == final(ctxt).spec_count(),
    ;

    /// The widget's layout intent: a pure function of the widget's own
    /// configuration.
    fn layout(&self) -> (l: Layout)
        ensures
            l == self.layout_spec(),
    ;
}

/// The mutable build context threaded through one rebuild: the arena
/// stores, the widget graph, the id generator, the persisted state cache,
/// and the work list of children staged for their own build.
pub struct Build<S, W> {
    /// The node whose widget is currently being built.
    pub id: Id,
    widgets: Storage<Option<W>>,
    graph: Graph,
    widget_ids: WidgetIdGen,
    keys: Storage<Key>,
    layouts: Storage<LayoutNode>,
    states: StateCache<S>,
    staged: Vec<Id>,
    fuel: usize,
}

impl<S, W> Build<S, W> {
    /// The node whose widget is currently being built.
    pub closed spec fn spec_id(&self) -> Id {
        self.id
    }

    /// Number of nodes allocated in the current pass.
    pub closed spec fn spec_count(&self) -> nat {
        self.widgets@.len()
    }

    pub closed spec fn widget_at(&self, i: int) -> Option<W> {
        self.widgets@[i]
    }

    pub closed spec fn spec_keys(&self) -> Seq<Key> {
        self.keys@
    }

    pub open spec fn key_at(&self, i: int) -> Key {
        self.spec_keys()[i]
    }

    pub closed spec fn spec_layouts(&self) -> Seq<LayoutNode> {
        self.layouts@
    }

    pub open spec fn layout_at(&self, i: int) -> LayoutNode {
        self.spec_layouts()[i]
    }

    pub closed spec fn spec_graph(&self) -> Graph {
        self.graph
    }

    pub closed spec fn spec_staged(&self) -> Seq<Id> {
        self.staged@
    }

    pub closed spec fn spec_fuel(&self) -> usize {
        self.fuel
    }

    pub closed spec fn spec_states(&self) -> StateCache<S> {
        self.states
    }

    /// Every allocated widget id addresses a stored widget.
    pub open spec fn stored_all(&self) -> bool {
        forall|i: int| 0 <= i < self.spec_count() ==> (#[trigger] self.widget_at(i)) is Some
    }

    /// Build completeness: every id allocated this pass addresses exactly
    /// one key, one layout record and one graph node carrying that id; and
    /// outside the node currently being built, one stored widget.
    pub open spec fn complete(&self) -> bool {
        &&& self.spec_graph().wf()
        &&& self.spec_graph().nodes@.len() == self.spec_count()
        &&& self.spec_keys().len() == self.spec_count()
        &&& self.spec_layouts().len() == self.spec_count()
        &&& forall|i: int|
            0 <= i < self.spec_count() ==> (#[trigger] self.spec_graph().nodes@[i]).data
                == WidgetId(i as usize)
    }

    /// The context's well-formedness, maintained by every method and
    /// demanded of every widget's `build`. While a node is being built its
    /// own widget is checked out of the store, so the store may have a hole
    /// at the current id and nowhere else.
    pub closed spec fn inv(&self) -> bool {
        &&& self.complete()
        &&& self.widget_ids.spec_next() == self.spec_count()
        &&& self.spec_count() + self.fuel <= usize::MAX
        &&& self.states.wf()
        &&& self.spec_count() > 0 ==> (self.id.widget.0 < self.spec_count() && self.id.node.0
            == self.id.widget.0)
        &&& forall|i: int|
            0 <= i < self.spec_count() && i != self.id.widget.0 ==> (#[trigger] self.widget_at(
                i,
            )) is Some
        &&& forall|j: int|
            0 <= j < self.staged@.len() ==> {
                let s = #[trigger] self.staged@[j];
                &&& s.widget.0 < self.spec_count()
                &&& s.node.0 == s.widget.0
                &&& self.widget_at(s.widget.0 as int) is Some
            }
    }

    /// A fresh engine: no pass has run and no state is persisted yet.
    pub fn new() -> (b: Self)
        ensures
            b.inv(),
            b.stored_all(),
            b.spec_count() == 0,
            b.spec_staged().len() == 0,
            b.spec_states().spec_next_cell() == 0,
            forall|k: Key| !b.spec_states().has_key(k),
    {
        Build {
            id: Id { widget: WidgetId(0), node: NodeId(0) },
            widgets: Storage::new(),
            graph: Graph::new(),
            widget_ids: WidgetIdGen::new(),
            keys: Storage::new(),
            layouts: Storage::new(),
            states: StateCache::new(),
            staged: Vec::new(),
            fuel: PASS_FUEL,
        }
    }

    /// Reset and Root-Allocate: discards the previous pass's graph, arena
    /// stores and key table, resets the id counter, allocates id 0 for the
    /// root under the reserved root key, and stages the root for building.
    /// The persisted state cache survives.
    pub fn start(&mut self, root: W)
        requires
            old(self).inv(),
        ensures
            final(self).inv(),
            final(self).stored_all(),
            final(self).spec_count() == 1,
            final(self).spec_id() == (Id { widget: WidgetId(0), node: NodeId(0) }),
            final(self).key_at(0) == spec_root_key(),
            final(self).widget_at(0) == Some(root),
            final(self).layout_at(0) == LayoutNode::Transparent,
            final(self).spec_staged() =~= seq![Id { widget: WidgetId(0), node: NodeId(0) }],
            final(self).spec_graph().nodes@[0].parent is None,
            final(self).spec_graph().nodes@[0].children@ =~= Seq::<NodeId>::empty(),
            final(self).spec_fuel() == PASS_FUEL,
            final(self).spec_states().entries_unchanged(old(self).spec_states()),
            final(self).spec_states().spec_prev_interns() == old(self).spec_states().spec_prev_interns(),
            final(self).spec_states().spec_next_interns() =~= seq![Option::<WidgetId>::None],
    {
        self.widget_ids = WidgetIdGen::new();
        self.graph = Graph::new();
        self.widgets.clear();
        self.keys.clear();
        self.layouts.clear();
        self.staged.clear();
        self.fuel = PASS_FUEL;
        self.states.begin();

        let widget_id = self.widget_ids.generate();
        let node = self.graph.new_node(widget_id);
        let id = Id { widget: widget_id, node };
        self.id = id;
        self.states.push_intern(None);
        self.keys.push(GlobalKeygen::root_key());
        self.widgets.push(Some(root));
        self.layouts.push(LayoutNode::Transparent);
        self.staged.push(id);
    }

    /// Relates the context before and after one successful child
    /// allocation: the child gets the next dense id, its widget, key and
    /// layout record are stored at that id, the graph gains its node as the
    /// last child of `pre.id`, the child is staged for building, one unit
    /// of budget is spent, and — for an explicitly keyed child — the intern
    /// table records the id's original identity.
    pub open spec fn add_post(pre: Self, post: Self, widget: W, global_key: Option<Key>, id: Id) -> bool {
        let n = pre.spec_count() as int;
        &&& id == (Id { widget: WidgetId(n as usize), node: NodeId(n as usize) })
        &&& post.spec_count() == n + 1
        &&& post.spec_id() == pre.spec_id()
        &&& post.widget_at(n) == Some(widget)
        &&& forall|j: int| 0 <= j < n ==> (#[trigger] post.widget_at(j)) == pre.widget_at(j)
        &&& post.key_at(n) == (match global_key {
            Some(k) => k,
            None => Key::Local {
                parent: pre.spec_id().widget,
                local: pre.spec_graph().nodes@[pre.spec_id().node.0 as int].children@.len() as usize,
            },
        })
        &&& forall|j: int| 0 <= j < n ==> (#[trigger] post.key_at(j)) == pre.key_at(j)
        &&& post.layout_at(n) == LayoutNode::Transparent
        &&& forall|j: int| 0 <= j < n ==> (#[trigger] post.layout_at(j)) == pre.layout_at(j)
        &&& post.spec_graph().nodes@.len() == n + 1
        &&& post.spec_graph().nodes@[n].parent == Some(pre.spec_id().node)
        &&& post.spec_graph().nodes@[n].children@ =~= Seq::<NodeId>::empty()
        &&& post.spec_graph().nodes@[pre.spec_id().node.0 as int].children@
            =~= pre.spec_graph().nodes@[pre.spec_id().node.0 as int].children@.push(id.node)
        &&& forall|j: int|
            0 <= j < n && j != pre.spec_id().node.0 ==> (#[trigger] post.spec_graph().nodes@[j]).parent
                == pre.spec_graph().nodes@[j].parent && post.spec_graph().nodes@[j].children@
                == pre.spec_graph().nodes@[j].children@
        &&& post.spec_staged() =~= pre.spec_staged().push(id)
        &&& post.spec_fuel() == pre.spec_fuel() - 1
        &&& post.spec_states().entries_unchanged(pre.spec_states())
        &&& post.spec_states().spec_prev_interns() == pre.spec_states().spec_prev_interns()
        &&& post.spec_states().spec_next_interns() =~= pre.spec_states().spec_next_interns().push(
            match global_key {
                Some(_) => Some(pre.spec_states().spec_prev_intern(WidgetId(n as usize))),
                None => None,
            },
        )
    }

    /// Allocates a new child node of the current node for an owned widget:
    /// a fresh dense id, the widget pushed into storage, a key — the
    /// explicit one if given, else a `Local` key from the parent id and the
    /// sibling index — and a layout slot; the child is staged so the engine
    /// builds it depth-first. Returns `None`, changing nothing, once the
    /// per-pass child budget is spent.
    pub fn add(&mut self, widget: W, global_key: Option<Key>) -> (r: Option<Id>)
        requires
            old(self).inv(),
            old(self).spec_count() >= 1,
        ensures
            final(self).inv(),
            old(self).spec_fuel() == 0 ==> r is None && *final(self) == *old(self),
            old(self).spec_fuel() > 0 ==> (match r {
                Some(id) => Self::add_post(*old(self), *final(self), widget, global_key, id),
                None => false,
            }),
    {
        if self.fuel == 0 {
            return None;
        }
        self.fuel = self.fuel - 1;
        let widget_id = self.widget_ids.generate();
        let node = self.graph.new_node(widget_id);
        let id = Id { widget: widget_id, node };

        match global_key {
            Some(_) => {
                let orig = self.states.prev_intern(widget_id);
                self.states.push_intern(Some(orig));
            },
            None => {
                self.states.push_intern(None);
            },
        }

        let local = self.graph.append(self.id.node, node);
        let key = match global_key {
            Some(k) => k,
            None => Key::Local { parent: self.id.widget, local },
        };
        self.widgets.push(Some(widget));
        self.keys.push(key);
        self.layouts.push(LayoutNode::Transparent);
        self.staged.push(id);
        proof {
            assert forall|i: int|
                0 <= i < self.spec_count() && i != self.id.widget.0 implies (
            #[trigger] self.widget_at(i)) is Some by {
                if i < old(self).spec_count() {
                    assert(self.widget_at(i) == old(self).widget_at(i));
                }
            }
        }
        Some(id)
    }

    /// Attaches a previously-deferred view: swaps it to `Ref` recording
    /// the identity it became, and otherwise proceeds exactly as `add`
    /// with no explicit key. A view may be consumed at most once:
    /// consuming an already-attached view is a fatal programming-contract
    /// violation, so the contract demands a view that still owns its
    /// widget, and no verified caller can attach one twice.
    pub fn add_view(&mut self, view: &mut WidgetView<W>) -> (r: Result<Id, BuildError>)
        requires
            old(self).inv(),
            old(self).spec_count() >= 1,
            old(view).0 is Owned,
        ensures
            final(self).inv(),
            old(self).spec_fuel() == 0 ==> r == Err::<Id, BuildError>(BuildError::OutOfFuel)
                && *final(self) == *old(self) && *final(view) == *old(view),
            old(self).spec_fuel() > 0 ==> (match r {
                Ok(id) => Self::add_post(
                    *old(self),
                    *final(self),
                    old(view).0->Owned_0,
                    None,
                    id,
                ) && *final(view) == WidgetView(ViewInner::<W>::Ref(id)),
                Err(_) => false,
            }),
    {
        match &view.0 {
            ViewInner::Ref(_) => {
                // outside the contract: an unverified caller consuming a
                // view twice still has the violation reported, not absorbed
                return Err(BuildError::ViewAlreadyAttached);
            },
            ViewInner::Owned(_) => {},
        }
        if self.fuel == 0 {
            return Err(BuildError::OutOfFuel);
        }
        let mut inner = ViewInner::Ref(Id { widget: WidgetId(0), node: NodeId(0) });
        core::mem::swap(&mut view.0, &mut inner);
        let widget = match inner {
            ViewInner::Owned(w) => w,
            ViewInner::Ref(_) => {
                proof {
                    assert(false);
                }
                return Err(BuildError::ViewAlreadyAttached);
            },
        };
        let r = self.add(widget, None);
        let id = match r {
            Some(id) => id,
            None => {
                proof {
                    assert(false);
                }
                return Err(BuildError::OutOfFuel);
            },
        };
        view.0 = ViewInner::Ref(id);
        Ok(id)
    }

    /// Everything but the state cache is untouched.
    pub open spec fn only_states_changed(pre: Self, post: Self) -> bool {
        &&& post.spec_id() == pre.spec_id()
        &&& post.spec_count() == pre.spec_count()
        &&& forall|j: int|
            0 <= j < pre.spec_count() ==> (#[trigger] post.widget_at(j)) == pre.widget_at(j)
        &&& post.spec_keys() == pre.spec_keys()
        &&& post.spec_layouts() == pre.spec_layouts()
        &&& post.spec_graph() == pre.spec_graph()
        &&& post.spec_staged() == pre.spec_staged()
        &&& post.spec_fuel() == pre.spec_fuel()
    }

    /// Resolves the persisted state of the node currently being built: its
    /// assigned key is looked up (with intern substitution for `Local`
    /// keys) in the state cache, which hands back the persisted cell when
    /// one exists under the same type tag and otherwise installs a fresh
    /// cell holding `default`.
    pub fn create_state(&mut self, ty: u64, default: S) -> (cell: usize)
        requires
            old(self).inv(),
            old(self).spec_count() >= 1,
            old(self).spec_states().spec_next_cell() < usize::MAX,
        ensures
            final(self).inv(),
            Self::only_states_changed(*old(self), *final(self)),
            StateCache::resolve_post(
                old(self).spec_states(),
                final(self).spec_states(),
                old(self).key_at(old(self).spec_id().widget.0 as int),
                ty,
                default,
                cell,
            ),
    {
        let key = *self.keys.get(self.id.widget.0);
        let cell = self.states.resolve_state(key, ty, default);
        proof {
            assert forall|i: int|
                0 <= i < self.spec_count() && i != self.id.widget.0 implies (
            #[trigger] self.widget_at(i)) is Some by {
                assert(self.widget_at(i) == old(self).widget_at(i));
            }
        }
        cell
    }

    /// As `create_state`, but reports cell-identity exhaustion — a machine
    /// limit no real pass reaches — as `None` instead of requiring the
    /// caller to rule it out.
    pub fn try_create_state(&mut self, ty: u64, default: S) -> (r: Option<usize>)
        requires
            old(self).inv(),
            old(self).spec_count() >= 1,
        ensures
            final(self).inv(),
            old(self).spec_states().spec_next_cell() < usize::MAX <==> r is Some,
            match r {
                Some(cell) => Self::only_states_changed(*old(self), *final(self))
                    && StateCache::resolve_post(
                    old(self).spec_states(),
                    final(self).spec_states(),
                    old(self).key_at(old(self).spec_id().widget.0 as int),
                    ty,
                    default,
                    cell,
                ),
                None => *final(self) == *old(self),
            },
    {
        if self.states.next_cell_left() {
            Some(self.create_state(ty, default))
        } else {
            None
        }
    }

    /// The value currently stored in the state cell `cell`.
    pub fn state_value(&self, cell: usize) -> (r: Option<&S>)
        requires
            self.inv(),
        ensures
            match r {
                Some(v) => exists|k: Key|
                    self.spec_states().has_key(k) && (#[trigger] self.spec_states().slot_of(
                        k,
                    )).cell == cell && self.spec_states().slot_of(k).value == *v,
                None => forall|k: Key|
                    self.spec_states().has_key(k) ==> (#[trigger] self.spec_states().slot_of(
                        k,
                    )).cell != cell,
            },
    {
        proof {
            assert(self.spec_states() == self.states);
        }
        self.states.state_value(cell)
    }

    /// Overwrites the value stored in the state cell `cell`; returns
    /// whether such a cell exists.
    pub fn set_state_value(&mut self, cell: usize, value: S) -> (ok: bool)
        requires
            old(self).inv(),
        ensures
            final(self).inv(),
            Self::only_states_changed(*old(self), *final(self)),
            ok == exists|k: Key|
                old(self).spec_states().has_key(k) && (#[trigger] old(self).spec_states().slot_of(
                    k,
                )).cell == cell,
            forall|k: Key|
                (#[trigger] final(self).spec_states().has_key(k)) == old(self).spec_states().has_key(k),
            forall|k: Key|
                old(self).spec_states().has_key(k) && (#[trigger] old(self).spec_states().slot_of(k)).cell == cell ==> final(self).spec_states().slot_of(k)
                    == (StateSlot {
                    ty: old(self).spec_states().slot_of(k).ty,
                    cell,
                    value,
                }),
            forall|k: Key|
                old(self).spec_states().has_key(k) && (#[trigger] old(self).spec_states().slot_of(k)).cell != cell ==> final(self).spec_states().slot_of(k)
                    == old(self).spec_states().slot_of(k),
    {
        let ok = self.states.set_state_value(cell, value);
        proof {
            assert forall|i: int|
                0 <= i < self.spec_count() && i != self.id.widget.0 implies (
            #[trigger] self.widget_at(i)) is Some by {
                assert(self.widget_at(i) == old(self).widget_at(i));
            }
        }
        ok
    }

    /// End-of-rebuild finalize: the intern table accumulated this pass
    /// becomes the map of record for the following rebuild.
    pub fn finish(&mut self)
        requires
            old(self).inv(),
        ensures
            final(self).inv(),
            final(self).spec_states().spec_prev_interns() == old(self).spec_states().spec_next_interns(),
            final(self).spec_states().spec_next_interns().len() == 0,
            final(self).spec_states().entries_unchanged(old(self).spec_states()),
            Self::only_states_changed(*old(self), *final(self)),
            final(self).stored_all() == old(self).stored_all(),
    {
        self.states.finalize();
        proof {
            assert forall|i: int|
                0 <= i < self.spec_count() && i != self.id.widget.0 implies (
            #[trigger] self.widget_at(i)) is Some by {
                assert(self.widget_at(i) == old(self).widget_at(i));
            }
            assert forall|i: int| 0 <= i < self.spec_count() implies (#[trigger] self.widget_at(
                i,
            )) == old(self).widget_at(i) by {}
            assert(self.stored_all() == old(self).stored_all()) by {
                if old(self).stored_all() {
                    assert forall|i: int|
                        0 <= i < self.spec_count() implies (#[trigger] self.widget_at(
                    i)) is Some by {
                        assert(old(self).widget_at(i) is Some);
                    }
                }
                if self.stored_all() {
                    assert forall|i: int|
                        0 <= i < old(self).spec_count() implies (#[trigger] old(self).widget_at(
                    i)) is Some by {
                        assert(self.widget_at(i) is Some);
                    }
                }
            }
        }
    }

    /// The number of nodes allocated in the current pass.
    pub fn len(&self) -> (n: usize)
        ensures
            n == self.spec_count(),
    {
        self.widgets.len()
    }

    /// The key assigned to `id` this pass, if `id` was allocated.
    pub fn key_of(&self, id: WidgetId) -> (r: Option<Key>)
        requires
            self.inv(),
        ensures
            match r {
                Some(k) => id.0 < self.spec_count() && k == self.key_at(id.0 as int),
                None => id.0 >= self.spec_count(),
            },
    {
        if id.0 < self.keys.len() {
            Some(*self.keys.get(id.0))
        } else {
            None
        }
    }

    /// The layout record of `id`, if `id` was allocated.
    pub fn layout_of(&self, id: WidgetId) -> (r: Option<LayoutNode>)
        requires
            self.inv(),
        ensures
            match r {
                Some(l) => id.0 < self.spec_count() && l == self.layout_at(id.0 as int),
                None => id.0 >= self.spec_count(),
            },
    {
        if id.0 < self.layouts.len() {
            Some(*self.layouts.get(id.0))
        } else {
            None
        }
    }

    /// The widget stored under `id`, if `id` was allocated and its widget
    /// is not currently checked out for building.
    pub fn widget(&self, id: WidgetId) -> (r: Option<&W>)
        requires
            self.inv(),
        ensures
            match r {
                Some(w) => id.0 < self.spec_count() && self.widget_at(id.0 as int) == Some(*w),
                None => id.0 >= self.spec_count() || self.widget_at(id.0 as int) is None,
            },
    {
        if id.0 < self.widgets.len() {
            match self.widgets.get(id.0) {
                Some(w) => Some(w),
                None => None,
            }
        } else {
            None
        }
    }

    /// Everything but the layout table is untouched.
    pub open spec fn only_layouts_changed(pre: Self, post: Self) -> bool {
        &&& post.spec_id() == pre.spec_id()
        &&& post.spec_count() == pre.spec_count()
        &&& forall|j: int|
            0 <= j < pre.spec_count() ==> (#[trigger] post.widget_at(j)) == pre.widget_at(j)
        &&& post.spec_keys() == pre.spec_keys()
        &&& post.spec_graph() == pre.spec_graph()
        &&& post.spec_staged() == pre.spec_staged()
        &&& post.spec_fuel() == pre.spec_fuel()
        &&& post.spec_states() == pre.spec_states()
        &&& post.spec_layouts().len() == pre.spec_layouts().len()
    }

    /// Overwrites the layout record of widget `i`; the tree-generation pass
    /// uses this to classify each node.
    pub fn set_layout(&mut self, i: usize, l: LayoutNode)
        requires
            old(self).inv(),
            i < old(self).spec_count(),
        ensures
            final(self).inv(),
            Self::only_layouts_changed(*old(self), *final(self)),
            final(self).spec_layouts() == old(self).spec_layouts().update(i as int, l),
    {
        let r = self.layouts.get_mut(i);
        *r = l;
        proof {
            assert forall|j: int|
                0 <= j < self.spec_count() && j != self.id.widget.0 implies (
            #[trigger] self.widget_at(j)) is Some by {
                assert(self.widget_at(j) == old(self).widget_at(j));
            }
            assert forall|j: int|
                0 <= j < self.staged@.len() implies {
                let st = #[trigger] self.spec_staged()[j];
                &&& st.widget.0 < self.spec_count()
                &&& st.node.0 == st.widget.0
                &&& self.widget_at(st.widget.0 as int) is Some
            } by {
                assert(old(self).spec_staged()[j] == self.spec_staged()[j]);
                assert(self.widget_at(self.spec_staged()[j].widget.0 as int) == old(self).widget_at(self.spec_staged()[j].widget.0 as int));
            }
        }
    }

    /// Caps the remaining per-pass child budget, clamped so that id
    /// arithmetic stays in range. A driver can use a small budget to bound
    /// runaway widget recursion.
    pub fn set_fuel(&mut self, f: usize)
        requires
            old(self).inv(),
        ensures
            final(self).inv(),
            final(self).spec_fuel() == (if f + old(self).spec_count() <= usize::MAX {
                f
            } else {
                (usize::MAX - old(self).spec_count()) as usize
            }),
            final(self).spec_count() == old(self).spec_count(),
            final(self).spec_id() == old(self).spec_id(),
            forall|j: int|
                0 <= j < old(self).spec_count() ==> (#[trigger] final(self).widget_at(j)) == old(self).widget_at(j),
            final(self).spec_keys() == old(self).spec_keys(),
            final(self).spec_layouts() == old(self).spec_layouts(),
            final(self).spec_graph() == old(self).spec_graph(),
            final(self).spec_staged() == old(self).spec_staged(),
            final(self).spec_states() == old(self).spec_states(),
    {
        let n = self.widgets.len();
        if f <= usize::MAX - n {
            self.fuel = f;
        } else {
            self.fuel = usize::MAX - n;
        }
        proof {
            assert forall|i: int|
                0 <= i < self.spec_count() && i != self.id.widget.0 implies (
            #[trigger] self.widget_at(i)) is Some by {
                assert(self.widget_at(i) == old(self).widget_at(i));
            }
            assert forall|j: int|
                0 <= j < self.staged@.len() implies {
                let st = #[trigger] self.spec_staged()[j];
                &&& st.widget.0 < self.spec_count()
                &&& st.node.0 == st.widget.0
                &&& self.widget_at(st.widget.0 as int) is Some
            } by {
                assert(old(self).spec_staged()[j] == self.spec_staged()[j]);
                assert(self.widget_at(self.spec_staged()[j].widget.0 as int) == old(self).widget_at(self.spec_staged()[j].widget.0 as int));
            }
        }
    }

    /// The widget graph built this pass.
    pub fn graph(&self) -> (g: &Graph)
        ensures
            *g == self.spec_graph(),
    {
        &self.graph
    }
}

impl<S, W: Widget<S, W>> Build<S, W> {
    /// The layout intent of the widget stored under `i`.
    pub open spec fn intent_at(&self, i: int) -> Layout {
        self.widget_at(i)->Some_0.layout_spec()
    }

    /// The layout intent of every widget of this pass, in id order.
    pub open spec fn spec_intents(&self) -> Seq<Layout> {
        Seq::new(self.spec_count(), |i: int| self.intent_at(i))
    }

    /// Asks the widget stored under `i` for its layout intent.
    pub fn intent_of(&self, i: usize) -> (l: Layout)
        requires
            self.inv(),
            i < self.spec_count(),
            self.widget_at(i as int) is Some,
        ensures
            l == self.intent_at(i as int),
    {
        match self.widgets.get(i) {
            Some(w) => w.layout(),
            None => {
                proof {
                    assert(false);
                }
                Layout::Pass
            },
        }
    }

    /// Drives the depth-first build: repeatedly takes the next pending
    /// node, checks its widget out of the store, invokes its build
    /// behavior, puts the widget back, and queues the children it staged in
    /// front of the remaining work — so a node's children are fully built,
    /// left to right, before its next sibling begins.
    pub fn run(&mut self)
        requires
            old(self).inv(),
            old(self).spec_count() >= 1,
            old(self).stored_all(),
        ensures
            final(self).inv(),
            final(self).stored_all(),
            final(self).spec_count() >= old(self).spec_count(),
            final(self).spec_staged().len() == 0,
            forall|j: int|
                0 <= j < old(self).spec_count() ==> (#[trigger] final(self).key_at(j)) == old(self).key_at(j),
            forall|k: Key|
                old(self).spec_states().has_key(k) ==> (#[trigger] final(self).spec_states().has_key(k)),
            old(self).spec_states().spec_next_interns().len() == old(self).spec_count() ==> final(self).spec_states().spec_next_interns().len() == final(self).spec_count(),
    {
        let mut pending: Vec<Id> = Vec::new();
        core::mem::swap(&mut pending, &mut self.staged);
        proof {
            assert(old(self).stored_all());
            assert forall|i: int| 0 <= i < self.spec_count() implies (#[trigger] self.widget_at(
                i,
            )) is Some by {
                assert(old(self).widget_at(i) is Some);
                assert(self.widget_at(i) == old(self).widget_at(i));
            }
            assert(self.spec_graph() == old(self).spec_graph());
            assert(self.spec_keys() == old(self).spec_keys());
            assert(self.spec_layouts() == old(self).spec_layouts());
            assert(self.spec_states() == old(self).spec_states());
            assert forall|j: int|
                0 <= j < pending@.len() implies (#[trigger] pending@[j]).widget.0
                < self.spec_count() && pending@[j].node.0 == pending@[j].widget.0 by {
                assert(old(self).spec_staged()[j] == pending@[j]);
            }
        }
        #[verifier::loop_isolation(false)]
        while pending.len() > 0
            invariant
                self.inv(),
                self.stored_all(),
                self.spec_count() >= old(self).spec_count(),
                self.spec_staged().len() == 0,
                forall|j: int|
                    0 <= j < old(self).spec_count() ==> (#[trigger] self.key_at(j)) == old(self).key_at(j),
                forall|k: Key|
                    old(self).spec_states().has_key(k) ==> (#[trigger] self.spec_states().has_key(
                        k,
                    )),
                old(self).spec_states().spec_next_interns().len() == old(self).spec_count()
                    ==> self.spec_states().spec_next_interns().len() == self.spec_count(),
                forall|j: int|
                    0 <= j < pending@.len() ==> (#[trigger] pending@[j]).widget.0
                        < self.spec_count() && pending@[j].node.0 == pending@[j].widget.0,
            decreases self.spec_fuel(), pending@.len(),
        {
            let ghost s0 = *self;
            let ghost fuel0 = self.spec_fuel();
            let ghost pend0 = pending@.len();
            let id = pending.pop().unwrap();
            let taken = self.widgets.replace(id.widget.0, None);
            self.id = id;
            proof {
                assert(s0.stored_all());
                assert(self.spec_graph() == s0.spec_graph());
                assert(self.spec_keys() == s0.spec_keys());
                assert(self.spec_layouts() == s0.spec_layouts());
                assert(self.spec_states() == s0.spec_states());
                assert(self.spec_staged() == s0.spec_staged());
                assert forall|i: int|
                    0 <= i < self.spec_count() && i != self.id.widget.0 implies (
                #[trigger] self.widget_at(i)) is Some by {
                    assert(s0.widget_at(i) is Some);
                    assert(self.widget_at(i) == s0.widget_at(i));
                }
                assert(taken == s0.widget_at(id.widget.0 as int));
                assert(s0.widget_at(id.widget.0 as int) is Some);
            }
            let mut w = taken.unwrap();
            w.build(self);
            let ghost s1 = *self;
            let ghost fuel_mid = self.spec_fuel();
            let ghost kids = self.spec_staged().len();
            let _ = self.widgets.replace(id.widget.0, Some(w));
            proof {
                assert(self.spec_graph() == s1.spec_graph());
                assert(self.spec_keys() == s1.spec_keys());
                assert(self.spec_layouts() == s1.spec_layouts());
                assert(self.spec_states() == s1.spec_states());
                assert(self.spec_staged() == s1.spec_staged());
                assert forall|i: int| 0 <= i < self.spec_count() implies (
                #[trigger] self.widget_at(i)) is Some by {
                    if i != id.widget.0 {
                        assert(s1.widget_at(i) is Some);
                        assert(self.widget_at(i) == s1.widget_at(i));
                    }
                }
                assert forall|j: int|
                    0 <= j < self.staged@.len() implies {
                    let st = #[trigger] self.spec_staged()[j];
                    &&& st.widget.0 < self.spec_count()
                    &&& st.node.0 == st.widget.0
                    &&& self.widget_at(st.widget.0 as int) is Some
                } by {
                    assert(s1.spec_staged()[j] == self.spec_staged()[j]);
                }
            }
            #[verifier::loop_isolation(false)]
            while self.staged.len() > 0
                invariant
                    self.inv(),
                    self.stored_all(),
                    self.spec_fuel() == fuel_mid,
                    self.spec_count() == s1.spec_count(),
                    self.spec_keys() == s1.spec_keys(),
                    self.spec_states() == s1.spec_states(),
                    pending@.len() + self.spec_staged().len() == pend0 - 1 + kids,
                    kids <= fuel0 - fuel_mid,
                    forall|j: int|
                        0 <= j < self.spec_staged().len() ==> (
                        #[trigger] self.spec_staged()[j]).widget.0 < self.spec_count() && self.spec_staged()[j].node.0
                            == self.spec_staged()[j].widget.0,
                    forall|j: int|
                        0 <= j < pending@.len() ==> (#[trigger] pending@[j]).widget.0
                            < self.spec_count() && pending@[j].node.0 == pending@[j].widget.0,
                decreases self.spec_staged().len(),
            {
                let ghost s2 = *self;
                let c = self.staged.pop().unwrap();
                pending.push(c);
                proof {
                    assert(self.spec_graph() == s2.spec_graph());
                    assert(self.spec_keys() == s2.spec_keys());
                    assert(self.spec_layouts() == s2.spec_layouts());
                    assert(self.spec_states() == s2.spec_states());
                    assert forall|i: int| 0 <= i < self.spec_count() implies (
                    #[trigger] self.widget_at(i)) is Some by {
                        assert(s2.widget_at(i) is Some);
                        assert(self.widget_at(i) == s2.widget_at(i));
                    }
                    assert forall|j: int|
                        0 <= j < self.spec_staged().len() implies {
                        let st = #[trigger] self.spec_staged()[j];
                        &&& st.widget.0 < self.spec_count()
                        &&& st.node.0 == st.widget.0
                        &&& self.widget_at(st.widget.0 as int) is Some
                    } by {
                        assert(s2.spec_staged()[j] == self.spec_staged()[j]);
                    }
                }
            }
            proof {
                assert forall|j: int|
                    0 <= j < old(self).spec_count() implies (#[trigger] self.key_at(j)) == old(
                    self).key_at(j) by {
                    assert(s0.key_at(j) == old(self).key_at(j));
                    assert(s1.key_at(j) == s0.key_at(j));
                    assert(self.key_at(j) == s1.key_at(j));
                }
                assert forall|k: Key|
                    old(self).spec_states().has_key(k) implies (
                #[trigger] self.spec_states().has_key(k)) by {
                    assert(s0.spec_states().has_key(k));
                    assert(s1.spec_states().has_key(k));
                    assert(self.spec_states() == s1.spec_states());
                }
            }
        }
    }
}

/// The retained-object core: a long-lived engine owning the widget graph,
/// the arena stores and the persisted state cache. `build` reinitializes
/// graph, arena and key table on every call while the state cache survives
/// by design.
pub struct FehUI<S, W> {
    pass: Build<S, W>,
    layouter: Layouter,
    /// The root allocated by the most recent build pass.
    pub root: Option<Id>,
}

impl<S, W: Widget<S, W>> FehUI<S, W> {
    /// The engine is well-formed: its build context is, and no widget is
    /// checked out of the store.
    pub open spec fn wf(&self) -> bool {
        &&& self.spec_pass().inv()
        &&& self.spec_pass().stored_all()
    }

    pub closed spec fn spec_pass(&self) -> Build<S, W> {
        self.pass
    }

    /// The root allocated by the most recent build pass, if any.
    pub closed spec fn spec_root(&self) -> Option<Id> {
        self.root
    }

    pub fn new() -> (ui: Self)
        ensures
            ui.wf(),
            ui.spec_pass().spec_count() == 0,
            ui.spec_root() is None,
            ui.spec_pass().spec_states().spec_next_cell() == 0,
            forall|k: Key| !ui.spec_pass().spec_states().has_key(k),
    {
        FehUI { pass: Build::new(), layouter: Layouter::new(), root: None }
    }

    /// Read access to the build context of the most recent pass: the
    /// graph, the stores, the keys and the persisted state.
    pub fn pass(&self) -> (r: &Build<S, W>)
        ensures
            *r == self.spec_pass(),
    {
        &self.pass
    }

    /// One full rebuild: Reset, Root-Allocate under the reserved root key,
    /// a depth-first build of the whole tree, and the intern-table
    /// promotion. The previous graph is fully discarded and recomputed from
    /// scratch; only persisted state survives.
    pub fn build(&mut self, widget: W)
        requires
            old(self).wf(),
        ensures
            final(self).wf(),
            final(self).spec_pass().complete(),
            final(self).spec_pass().stored_all(),
            final(self).spec_pass().spec_count() >= 1,
            final(self).spec_root() == Some(Id { widget: WidgetId(0), node: NodeId(0) }),
            final(self).spec_pass().key_at(0) == spec_root_key(),
            final(self).spec_pass().spec_staged().len() == 0,
            forall|k: Key|
                old(self).spec_pass().spec_states().has_key(k) ==> (#[trigger] final(self).spec_pass().spec_states().has_key(k)),
            final(self).spec_pass().spec_states().spec_next_interns().len() == 0,
            final(self).spec_pass().spec_states().spec_prev_interns().len() == final(self).spec_pass().spec_count(),
    {
        self.pass.start(widget);
        proof {
            assert(self.pass.key_at(0) == spec_root_key());
            assert(self.pass.spec_states().spec_next_interns().len() == self.pass.spec_count());
        }
        self.pass.run();
        proof {
            assert(self.pass.key_at(0) == spec_root_key());
            assert(self.pass.spec_states().spec_next_interns().len() == self.pass.spec_count());
        }
        self.pass.finish();
        proof {
            assert(self.pass.key_at(0) == spec_root_key());
            assert(self.pass.spec_states().spec_prev_interns().len() == self.pass.spec_count());
        }
        self.root = Some(Id { widget: WidgetId(0), node: NodeId(0) });
    }

    /// The flexbox nodes of the most recent tree-generation pass, in the
    /// order the solver tree is to be built — depth-first, each flexbox
    /// node before the nodes attached under it: what the host hands to
    /// the external solver, together with each owning widget's style.
    pub closed spec fn spec_flex(&self) -> Seq<FlexEdge> {
        self.layouter.spec_flex()
    }

    pub fn flex_nodes(&self) -> (r: &Vec<FlexEdge>)
        ensures
            r@ == self.spec_flex(),
    {
        self.layouter.flex_nodes()
    }

    /// Phase 1 of the layout pipeline: classifies every node of the
    /// current graph from its widget's layout intent and collects the
    /// flexbox nodes the external solver is to be run on. Runs only on
    /// explicit request, not automatically after a build.
    pub fn generate_layout(&mut self)
        requires
            old(self).wf(),
        ensures
            final(self).wf(),
            final(self).spec_root() == old(self).spec_root(),
            Build::only_layouts_changed(old(self).spec_pass(), final(self).spec_pass()),
            forall|i: int|
                0 <= i < final(self).spec_pass().spec_count()
                    ==> (#[trigger] final(self).spec_pass().layout_at(i)) == spec_layout_node_at(
                    final(self).spec_pass().spec_graph(),
                    final(self).spec_pass().spec_intents(),
                    i,
                ),
            final(self).spec_pass().spec_count() > 0 ==> final(self).spec_flex()
                =~= spec_subtree_edges(
                final(self).spec_pass().spec_graph(),
                final(self).spec_pass().spec_intents(),
                0,
            ),
            final(self).spec_pass().spec_count() == 0 ==> final(self).spec_flex() =~= Seq::<
                FlexEdge,
            >::empty(),
    {
        self.layouter.generate_tree(&mut self.pass);
    }

    /// Phase 2 of the layout pipeline: given the external solver's output
    /// for every flexbox node, reports each widget's concrete size — flex
    /// nodes report their solved size, transparent nodes pass their
    /// parent's size through, and the root starts from `(width, height)`.
    pub fn compute_layout(&self, width: u32, height: u32, solved: &Vec<Option<Size>>) -> (sizes:
        Vec<Size>)
        requires
            self.wf(),
            solved@.len() == self.spec_pass().spec_count(),
            forall|i: int|
                0 <= i < self.spec_pass().spec_count() && ((#[trigger] self.spec_pass().layout_at(
                    i,
                )) is FlexRoot || self.spec_pass().layout_at(i) is Flex) ==> solved@[i] is Some,
        ensures
            sizes@.len() == self.spec_pass().spec_count(),
            forall|i: int|
                0 <= i < self.spec_pass().spec_count() ==> (#[trigger] sizes@[i]) == spec_size_at(
                    self.spec_pass().spec_graph(),
                    self.spec_pass().spec_layouts(),
                    solved@,
                    width,
                    height,
                    i,
                ),
    {
        self.layouter.compute_layout(&self.pass, width, height, solved)
    }

    /// Both layout passes in order: tree generation, then constraint-solve
    /// propagation from the solver output the host obtained for the
    /// (deterministic) generated tree.
    pub fn layout(&mut self, width: u32, height: u32, solved: &Vec<Option<Size>>) -> (sizes: Vec<
        Size,
    >)
        requires
            old(self).wf(),
            solved@.len() == old(self).spec_pass().spec_count(),
            forall|i: int|
                0 <= i < old(self).spec_pass().spec_count() && ((#[trigger] spec_layout_node_at(
                    old(self).spec_pass().spec_graph(),
                    old(self).spec_pass().spec_intents(),
                    i,
                )) is FlexRoot || spec_layout_node_at(
                    old(self).spec_pass().spec_graph(),
                    old(self).spec_pass().spec_intents(),
                    i,
                ) is Flex) ==> solved@[i] is Some,
        ensures
            final(self).wf(),
            final(self).spec_root() == old(self).spec_root(),
            Build::only_layouts_changed(old(self).spec_pass(), final(self).spec_pass()),
            forall|i: int|
                0 <= i < final(self).spec_pass().spec_count()
                    ==> (#[trigger] final(self).spec_pass().layout_at(i)) == spec_layout_node_at(
                    final(self).spec_pass().spec_graph(),
                    final(self).spec_pass().spec_intents(),
                    i,
                ),
            sizes@.len() == final(self).spec_pass().spec_count(),
            forall|i: int|
                0 <= i < final(self).spec_pass().spec_count() ==> (#[trigger] sizes@[i])
                    == spec_size_at(
                    final(self).spec_pass().spec_graph(),
                    final(self).spec_pass().spec_layouts(),
                    solved@,
                    width,
                    height,
                    i,
                ),
    {
        self.generate_layout();
        proof {
            assert(self.spec_pass().spec_graph() == old(self).spec_pass().spec_graph());
            assert(self.spec_pass().spec_intents() =~= old(self).spec_pass().spec_intents());
            assert forall|i: int|
                0 <= i < self.spec_pass().spec_count() && ((#[trigger] self.spec_pass().layout_at(
                    i,
                )) is FlexRoot || self.spec_pass().layout_at(i) is Flex) implies solved@[
                i] is Some by {
                assert(self.spec_pass().layout_at(i) == spec_layout_node_at(
                    old(self).spec_pass().spec_graph(),
                    old(self).spec_pass().spec_intents(),
                    i,
                ));
            }
        }
        self.compute_layout(width, height, solved)
    }

    /// The value currently stored in the persisted state cell `cell`.
    pub fn state_value(&self, cell: usize) -> (r: Option<&S>)
        requires
            self.wf(),
        ensures
            match r {
                Some(v) => exists|k: Key|
                    self.spec_pass().spec_states().has_key(k) && (
                    #[trigger] self.spec_pass().spec_states().slot_of(k)).cell == cell
                        && self.spec_pass().spec_states().slot_of(k).value == *v,
                None => forall|k: Key|
                    self.spec_pass().spec_states().has_key(k) ==> (
                    #[trigger] self.spec_pass().spec_states().slot_of(k)).cell != cell,
            },
    {
        self.pass.state_value(cell)
    }

    /// Overwrites the value stored in the persisted state cell `cell`;
    /// returns whether such a cell exists.
    pub fn set_state_value(&mut self, cell: usize, value: S) -> (ok: bool)
        requires
            old(self).wf(),
        ensures
            final(self).wf(),
            final(self).spec_root() == old(self).spec_root(),
            Build::only_states_changed(old(self).spec_pass(), final(self).spec_pass()),
            ok == exists|k: Key|
                old(self).spec_pass().spec_states().has_key(k)
                    && (#[trigger] old(self).spec_pass().spec_states().slot_of(k)).cell == cell,
            forall|k: Key|
                old(self).spec_pass().spec_states().has_key(k)
                    && (#[trigger] old(self).spec_pass().spec_states().slot_of(k)).cell == cell
                    ==> final(self).spec_pass().spec_states().slot_of(k) == (StateSlot {
                    ty: old(self).spec_pass().spec_states().slot_of(k).ty,
                    cell,
                    value,
                }),
    {
        self.pass.set_state_value(cell, value)
    }
}

} // verus!
