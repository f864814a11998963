use vstd::prelude::*;

use crate::Build;
use crate::Graph;
use crate::Widget;

verus! {

/// A widget's layout intent: either it owns a flexbox node (whose style the
/// host supplies to the external constraint solver), or it is
/// layout-transparent and delegates sizing to its parent's flex context.
#[derive(Copy, Clone, Debug, PartialEq, Eq, Structural)]
pub enum Layout {
    Flex,
    Pass,
}

/// Per-widget record produced by the tree-generation pass. A widget that
/// owns a flexbox node with no flex ancestor is a `FlexRoot`; one parented
/// to an ancestor flex node is `Flex` and remembers which root it belongs
/// to; a layout-transparent widget is `Transparent`. Flexbox nodes are
/// identified by the widget that owns them.
#[derive(Copy, Clone, Debug, PartialEq, Eq, Structural)]
pub enum LayoutNode {
    FlexRoot,
    Flex { root: crate::WidgetId },
    Transparent,
}

/// The flex context carried down the tree during generation: the nearest
/// ancestor flexbox node and the flex root it belongs to.
#[derive(Copy, Clone, Debug, PartialEq, Eq, Structural)]
pub enum ParentLayout {
    Node { node: crate::WidgetId, root: crate::WidgetId },
}

/// One flexbox node the host must create for the external solver: the
/// widget owning it, and the flexbox node it is to be attached under
/// (`None` for a flex root). Edges come in depth-first pre-order, so a
/// parent always precedes the nodes attached under it.
#[derive(Copy, Clone, Debug, PartialEq, Eq, Structural)]
pub struct FlexEdge {
    pub node: crate::WidgetId,
    pub parent: Option<crate::WidgetId>,
}

/// A concrete size, in whole pixels.
#[derive(Copy, Clone, Debug, PartialEq, Eq, Structural)]
pub struct Size {
    pub width: u32,
    pub height: u32,
}

/// The flex context a node passes to its children, given its own intent
/// and the context it received: a flex node becomes the new nearest
/// ancestor (establishing itself as root when it had none), a transparent
/// node forwards the received context unchanged.
pub open spec fn spec_apply(intent: Layout, pctx: Option<ParentLayout>, i: int) -> Option<
    ParentLayout,
> {
    match intent {
        Layout::Pass => pctx,
        Layout::Flex => match pctx {
            Some(ParentLayout::Node { node: _, root }) => Some(
                ParentLayout::Node { node: crate::WidgetId(i as usize), root },
            ),
            None => Some(
                ParentLayout::Node {
                    node: crate::WidgetId(i as usize),
                    root: crate::WidgetId(i as usize),
                },
            ),
        },
    }
}

/// The layout record a node receives, given its intent and the flex
/// context in effect at it.
pub open spec fn spec_node_of(intent: Layout, pctx: Option<ParentLayout>) -> LayoutNode {
    match intent {
        Layout::Pass => LayoutNode::Transparent,
        Layout::Flex => match pctx {
            Some(ParentLayout::Node { node: _, root }) => LayoutNode::Flex { root },
            None => LayoutNode::FlexRoot,
        },
    }
}

/// The flex context in effect at node `i`: what its parent chain, each
/// node applying its own intent, hands down. A node without a parent
/// starts with no flex context.
pub open spec fn spec_parent_ctx(g: Graph, intents: Seq<Layout>, i: int) -> Option<ParentLayout>
    decreases i,
{
    if 0 <= i < g.nodes@.len() {
        match g.nodes@[i].parent {
            Some(p) => if p.0 < i {
                spec_apply(intents[p.0 as int], spec_parent_ctx(g, intents, p.0 as int), p.0 as int)
            } else {
                None
            },
            None => None,
        }
    } else {
        None
    }
}

/// The flex context in effect below node `i`.
pub open spec fn spec_ctx_at(g: Graph, intents: Seq<Layout>, i: int) -> Option<ParentLayout> {
    spec_apply(intents[i], spec_parent_ctx(g, intents, i), i)
}

/// The layout record node `i` receives in the tree-generation pass.
pub open spec fn spec_layout_node_at(g: Graph, intents: Seq<Layout>, i: int) -> LayoutNode {
    spec_node_of(intents[i], spec_parent_ctx(g, intents, i))
}

/// The flexbox node that node `i` contributes, when its intent is `Flex`.
pub open spec fn spec_edge_at(g: Graph, intents: Seq<Layout>, i: int) -> FlexEdge {
    FlexEdge {
        node: crate::WidgetId(i as usize),
        parent: match spec_parent_ctx(g, intents, i) {
            Some(ParentLayout::Node { node, root: _ }) => Some(node),
            None => None,
        },
    }
}

/// The flexbox nodes of the subtree rooted at `i`, in depth-first
/// pre-order: the node's own flexbox node when its intent is `Flex`, then
/// each child's subtree, left to right — the order in which the solver
/// tree is to be built, so a flexbox node always precedes the nodes
/// attached under it.
pub open spec fn spec_subtree_edges(g: Graph, intents: Seq<Layout>, i: int) -> Seq<FlexEdge>
    decreases g.nodes@.len() - i, 1int, 0int,
{
    if 0 <= i < g.nodes@.len() {
        let own: Seq<FlexEdge> = if intents[i] is Flex {
            seq![spec_edge_at(g, intents, i)]
        } else {
            Seq::empty()
        };
        own + spec_children_edges(g, intents, i, 0)
    } else {
        Seq::empty()
    }
}

/// The flexbox nodes of the subtrees of children `k..` of node `i`, left
/// to right.
pub open spec fn spec_children_edges(g: Graph, intents: Seq<Layout>, i: int, k: int) -> Seq<
    FlexEdge,
>
    decreases g.nodes@.len() - i, 0int, g.nodes@[i].children@.len() - k,
{
    if 0 <= i < g.nodes@.len() && 0 <= k < g.nodes@[i].children@.len() {
        let c = g.nodes@[i].children@[k].0 as int;
        let rest = spec_children_edges(g, intents, i, k + 1);
        if i < c < g.nodes@.len() {
            spec_subtree_edges(g, intents, c) + rest
        } else {
            rest
        }
    } else {
        Seq::empty()
    }
}

/// The size node `i` reports in the constraint-solve pass: a flex node
/// reports the solver's size for its own flexbox node; a transparent node
/// passes its parent's size through unchanged; a node without a parent
/// receives the root input size.
pub open spec fn spec_size_at(
    g: Graph,
    nodes: Seq<LayoutNode>,
    solved: Seq<Option<Size>>,
    width: u32,
    height: u32,
    i: int,
) -> Size
    decreases i,
{
    match nodes[i] {
        LayoutNode::FlexRoot => solved[i]->Some_0,
        LayoutNode::Flex { root: _ } => solved[i]->Some_0,
        LayoutNode::Transparent => if 0 <= i < g.nodes@.len() {
            match g.nodes@[i].parent {
                Some(p) => if p.0 < i {
                    spec_size_at(g, nodes, solved, width, height, p.0 as int)
                } else {
                    Size { width, height }
                },
                None => Size { width, height },
            }
        } else {
            Size { width, height }
        },
    }
}

/// Whether node `i` and every node on its parent chain up to the root are
/// layout-transparent.
pub open spec fn spec_transparent_to_root(g: Graph, nodes: Seq<LayoutNode>, i: int) -> bool
    decreases i,
{
    if 0 <= i < g.nodes@.len() {
        nodes[i] is Transparent && (match g.nodes@[i].parent {
            Some(p) => if p.0 < i {
                spec_transparent_to_root(g, nodes, p.0 as int)
            } else {
                false
            },
            None => true,
        })
    } else {
        false
    }
}

/// Layout pass-through: along a chain of transparent nodes reaching the
/// root, the root input size arrives unchanged — every node on the chain
/// reports exactly `(width, height)`.
pub proof fn lemma_layout_pass_through(
    g: Graph,
    nodes: Seq<LayoutNode>,
    solved: Seq<Option<Size>>,
    width: u32,
    height: u32,
    i: int,
)
    requires
        spec_transparent_to_root(g, nodes, i),
    ensures
        spec_size_at(g, nodes, solved, width, height, i) == (Size { width, height }),
    decreases i,
{
    if 0 <= i < g.nodes@.len() {
        match g.nodes@[i].parent {
            Some(p) => {
                if p.0 < i {
                    lemma_layout_pass_through(g, nodes, solved, width, height, p.0 as int);
                }
            },
            None => {},
        }
    }
}

/// A widget that owns a flexbox node reports the solver's output for that
/// single node, whatever stands above it.
pub proof fn lemma_flex_reports_solver(
    g: Graph,
    nodes: Seq<LayoutNode>,
    solved: Seq<Option<Size>>,
    width: u32,
    height: u32,
    i: int,
)
    requires
        nodes[i] is FlexRoot || nodes[i] is Flex,
    ensures
        spec_size_at(g, nodes, solved, width, height, i) == solved[i]->Some_0,
{
}

/// Appends, depth-first and left-to-right from `node`, one flex edge per
/// flex widget in the subtree — the order the solver tree is built in,
/// with every flexbox node preceding the nodes attached under it. The
/// classification pass has already decided every node's record and flex
/// context.
fn emit_subtree_edges<S, W: Widget<S, W>>(
    pass: &Build<S, W>,
    ctxs: &Vec<Option<ParentLayout>>,
    node: usize,
    flex: &mut Vec<FlexEdge>,
)
    requires
        pass.inv(),
        node < pass.spec_count(),
        ctxs@.len() == pass.spec_count(),
        forall|j: int|
            0 <= j < pass.spec_count() ==> (#[trigger] ctxs@[j]) == spec_ctx_at(
                pass.spec_graph(),
                pass.spec_intents(),
                j,
            ),
        forall|j: int|
            0 <= j < pass.spec_count() ==> (#[trigger] pass.layout_at(j)) == spec_layout_node_at(
                pass.spec_graph(),
                pass.spec_intents(),
                j,
            ),
    ensures
        final(flex)@ =~= old(flex)@ + spec_subtree_edges(
            pass.spec_graph(),
            pass.spec_intents(),
            node as int,
        ),
    decreases pass.spec_count() - node,
{
    let ghost g = pass.spec_graph();
    let ghost intents = pass.spec_intents();
    let record = match pass.layout_of(crate::WidgetId(node)) {
        Some(l) => l,
        None => {
            proof {
                assert(false);
            }
            LayoutNode::Transparent
        },
    };
    match record {
        LayoutNode::Transparent => {
            proof {
                assert(intents[node as int] is Pass);
            }
        },
        _ => {
            proof {
                assert(intents[node as int] is Flex);
            }
            let parent = pass.graph().nodes[node].parent;
            let pctx: Option<ParentLayout> = match parent {
                Some(p) => {
                    proof {
                        assert(g.wf());
                        assert(g.node_wf(node as int));
                    }
                    ctxs[p.0]
                },
                None => None,
            };
            proof {
                assert(pctx == spec_parent_ctx(g, intents, node as int));
            }
            let e = match pctx {
                Some(ParentLayout::Node { node: pn, root: _ }) => FlexEdge {
                    node: crate::WidgetId(node),
                    parent: Some(pn),
                },
                None => FlexEdge { node: crate::WidgetId(node), parent: None },
            };
            flex.push(e);
            proof {
                assert(e == spec_edge_at(g, intents, node as int));
            }
        },
    }
    let children = pass.graph().children(crate::NodeId(node));
    let mut k: usize = 0;
    proof {
        assert(flex@ + spec_children_edges(g, intents, node as int, 0) =~= old(flex)@
            + spec_subtree_edges(g, intents, node as int));
    }
    #[verifier::loop_isolation(false)]
    while k < children.len()
        invariant
            k <= children@.len(),
            children@ == g.nodes@[node as int].children@,
            flex@ + spec_children_edges(g, intents, node as int, k as int) =~= old(flex)@
                + spec_subtree_edges(g, intents, node as int),
        decreases children@.len() - k,
    {
        let c = children[k];
        proof {
            assert(g.node_wf(node as int));
            assert(node < c.0 < pass.spec_count());
            assert(spec_children_edges(g, intents, node as int, k as int) =~= spec_subtree_edges(
                g,
                intents,
                c.0 as int,
            ) + spec_children_edges(g, intents, node as int, k + 1));
        }
        emit_subtree_edges(pass, ctxs, c.0, flex);
        proof {
            assert(flex@ + spec_children_edges(g, intents, node as int, k + 1) =~= old(flex)@
                + spec_subtree_edges(g, intents, node as int));
        }
        k += 1;
    }
    proof {
        assert(spec_children_edges(g, intents, node as int, children@.len() as int) =~= Seq::<
            FlexEdge,
        >::empty());
    }
}

/// Drives the two layout passes over a completed widget graph. Nodes are
/// visited in id order: a node's parent always carries a smaller id, so
/// the parent's flex context and size are already decided when a node is
/// reached — the same pre-order information flow as a recursive walk,
/// without the recursion.
pub struct Layouter {
    ctxs: Vec<Option<ParentLayout>>,
    flex: Vec<FlexEdge>,
}

impl Layouter {
    /// The flexbox nodes of the most recent tree-generation pass, in
    /// depth-first attachment order: what the host hands to the external
    /// solver.
    pub closed spec fn spec_flex(&self) -> Seq<FlexEdge> {
        self.flex@
    }

    pub fn new() -> (l: Self)
        ensures
            l.spec_flex() == Seq::<FlexEdge>::empty(),
    {
        Layouter { ctxs: Vec::new(), flex: Vec::new() }
    }

    /// The flexbox nodes of the most recent tree-generation pass.
    pub fn flex_nodes(&self) -> (r: &Vec<FlexEdge>)
        ensures
            r@ == self.spec_flex(),
    {
        &self.flex
    }

    /// Phase 1 — tree generation: walks the widget graph, asks every
    /// widget for its layout intent, and classifies each node as
    /// `FlexRoot`, `Flex` or `Transparent`, collecting the flexbox nodes
    /// the host must create for the external solver. Children inherit the
    /// flex context in effect at their parent, after the parent's own
    /// processing.
    pub fn generate_tree<S, W: Widget<S, W>>(&mut self, pass: &mut Build<S, W>)
        requires
            old(pass).inv(),
            old(pass).stored_all(),
        ensures
            final(pass).inv(),
            final(pass).stored_all(),
            Build::only_layouts_changed(*old(pass), *final(pass)),
            forall|i: int|
                0 <= i < final(pass).spec_count() ==> (#[trigger] final(pass).layout_at(i))
                    == spec_layout_node_at(
                    final(pass).spec_graph(),
                    final(pass).spec_intents(),
                    i,
                ),
            final(pass).spec_count() > 0 ==> final(self).spec_flex() =~= spec_subtree_edges(
                final(pass).spec_graph(),
                final(pass).spec_intents(),
                0,
            ),
            final(pass).spec_count() == 0 ==> final(self).spec_flex() =~= Seq::<
                FlexEdge,
            >::empty(),
    {
        self.ctxs = Vec::new();
        self.flex = Vec::new();
        let ghost g = pass.spec_graph();
        let ghost intents = pass.spec_intents();
        let n = pass.len();
        let mut i: usize = 0;
        #[verifier::loop_isolation(false)]
        while i < n
            invariant
                pass.inv(),
                pass.stored_all(),
                Build::only_layouts_changed(*old(pass), *pass),
                pass.spec_graph() == g,
                pass.spec_intents() == intents,
                pass.spec_count() == n,
                i <= n,
                self.ctxs@.len() == i,
                forall|j: int|
                    0 <= j < i ==> (#[trigger] self.ctxs@[j]) == spec_ctx_at(g, intents, j),
                forall|j: int|
                    0 <= j < i ==> (#[trigger] pass.layout_at(j)) == spec_layout_node_at(
                        g,
                        intents,
                        j,
                    ),
                forall|j: int|
                    i <= j < n ==> (#[trigger] pass.layout_at(j)) == old(pass).layout_at(j),
                self.flex@ =~= Seq::<FlexEdge>::empty(),
            decreases n - i,
        {
            let ghost s0 = *pass;
            let parent = pass.graph().nodes[i].parent;
            let intent = pass.intent_of(i);
            let pctx: Option<ParentLayout> = match parent {
                Some(p) => {
                    proof {
                        assert(g.wf());
                        assert(g.node_wf(i as int));
                    }
                    self.ctxs[p.0]
                },
                None => None,
            };
            proof {
                assert(pctx == spec_parent_ctx(g, intents, i as int));
                assert(intent == intents[i as int]);
            }
            let (node, ctx): (LayoutNode, Option<ParentLayout>) = match intent {
                Layout::Flex => match pctx {
                    Some(ParentLayout::Node { node: _, root }) => (
                        LayoutNode::Flex { root },
                        Some(ParentLayout::Node { node: crate::WidgetId(i), root }),
                    ),
                    None => (
                        LayoutNode::FlexRoot,
                        Some(
                            ParentLayout::Node {
                                node: crate::WidgetId(i),
                                root: crate::WidgetId(i),
                            },
                        ),
                    ),
                },
                Layout::Pass => (LayoutNode::Transparent, pctx),
            };
            pass.set_layout(i, node);
            self.ctxs.push(ctx);
            proof {
                assert(pass.spec_intents() =~= intents);
                assert forall|j: int|
                    0 <= j < i + 1 implies (#[trigger] pass.layout_at(j)) == spec_layout_node_at(
                    g,
                    intents,
                    j,
                ) by {
                    if j < i {
                        assert(pass.layout_at(j) == s0.layout_at(j));
                    }
                }
                assert forall|j: int|
                    i + 1 <= j < n implies (#[trigger] pass.layout_at(j)) == old(
                    pass,
                ).layout_at(j) by {
                    assert(pass.layout_at(j) == s0.layout_at(j));
                    assert(s0.layout_at(j) == old(pass).layout_at(j));
                }
            }
            i += 1;
        }
        if n > 0 {
            emit_subtree_edges(pass, &self.ctxs, 0, &mut self.flex);
        }
    }

    /// Phase 2 — constraint-solve propagation: given the solver's output
    /// for every flexbox node, walks the graph in id order and reports
    /// each widget's concrete size — a flex node reports its solved size,
    /// a transparent node passes its parent's size through, and a node
    /// without a parent starts from the supplied root size.
    pub fn compute_layout<S, W>(
        &self,
        pass: &Build<S, W>,
        width: u32,
        height: u32,
        solved: &Vec<Option<Size>>,
    ) -> (sizes: Vec<Size>)
        requires
            pass.inv(),
            solved@.len() == pass.spec_count(),
            forall|i: int|
                0 <= i < pass.spec_count() && ((#[trigger] pass.layout_at(i)) is FlexRoot
                    || pass.layout_at(i) is Flex) ==> solved@[i] is Some,
        ensures
            sizes@.len() == pass.spec_count(),
            forall|i: int|
                0 <= i < pass.spec_count() ==> (#[trigger] sizes@[i]) == spec_size_at(
                    pass.spec_graph(),
                    pass.spec_layouts(),
                    solved@,
                    width,
                    height,
                    i,
                ),
    {
        let ghost g = pass.spec_graph();
        let ghost nodes = pass.spec_layouts();
        let n = pass.len();
        let mut sizes: Vec<Size> = Vec::new();
        let mut i: usize = 0;
        #[verifier::loop_isolation(false)]
        while i < n
            invariant
                i <= n,
                sizes@.len() == i,
                forall|j: int|
                    0 <= j < i ==> (#[trigger] sizes@[j]) == spec_size_at(
                        g,
                        nodes,
                        solved@,
                        width,
                        height,
                        j,
                    ),
            decreases n - i,
        {
            let record = match pass.layout_of(crate::WidgetId(i)) {
                Some(l) => l,
                None => {
                    proof {
                        assert(false);
                    }
                    LayoutNode::Transparent
                },
            };
            let size: Size = match record {
                LayoutNode::FlexRoot => solved[i].unwrap(),
                LayoutNode::Flex { root: _ } => solved[i].unwrap(),
                LayoutNode::Transparent => {
                    let parent = pass.graph().nodes[i].parent;
                    match parent {
                        Some(p) => {
                            proof {
                                assert(g.wf());
                                assert(g.node_wf(i as int));
                            }
                            sizes[p.0]
                        },
                        None => Size { width, height },
                    }
                },
            };
            sizes.push(size);
            i += 1;
        }
        sizes
    }
}

} // verus!
