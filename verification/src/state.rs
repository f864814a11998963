use vstd::prelude::*;

use crate::Key;
use crate::WidgetId;

verus! {

/// One persisted state slot: the type tag the state was created under, the
/// identity of its cell, and the stored value. Cell identities are allocated
/// by a counter that is never reset, so a cell identity pins one creation
/// event for the cache's whole lifetime.
pub struct StateSlot<S> {
    pub ty: u64,
    pub cell: usize,
    pub value: S,
}

struct StateEntry<S> {
    key: Key,
    slot: StateSlot<S>,
}

/// Maps rebuild-stable [`Key`]s to persisted, type-tagged state slots, and
/// reconciles key identity across successive rebuilds via a
/// generation-to-generation intern table.
///
/// `prev_interns` reflects the mapping established at the end of the previous
/// rebuild; `next_interns` accumulates the mapping for the in-progress
/// rebuild; [`StateCache::finalize`] promotes the new map at a rebuild
/// boundary. Both tables are dense: the entry for a `WidgetId` sits at its
/// index.
pub struct StateCache<S> {
    entries: Vec<StateEntry<S>>,
    prev_interns: Vec<Option<WidgetId>>,
    next_interns: Vec<Option<WidgetId>>,
    next_cell: usize,
}

impl<S> StateCache<S> {
    /// Well-formedness: keys are stored at most once, every issued cell
    /// identity is below the allocation counter, and cell identities are
    /// pairwise distinct.
    pub closed spec fn wf(&self) -> bool {
        &&& forall|i: int, j: int|
            0 <= i < j < self.entries@.len() ==> (#[trigger] self.entries@[i]).key != (
            #[trigger] self.entries@[j]).key
        &&& forall|i: int|
            0 <= i < self.entries@.len() ==> (#[trigger] self.entries@[i]).slot.cell
                < self.next_cell
        &&& forall|i: int, j: int|
            0 <= i < j < self.entries@.len() ==> (#[trigger] self.entries@[i]).slot.cell != (
            #[trigger] self.entries@[j]).slot.cell
    }

    /// Whether some state is persisted under `k`.
    pub closed spec fn has_key(&self, k: Key) -> bool {
        exists|i: int| 0 <= i < self.entries@.len() && (#[trigger] self.entries@[i]).key == k
    }

    closed spec fn idx_of(&self, k: Key) -> int {
        choose|i: int| 0 <= i < self.entries@.len() && (#[trigger] self.entries@[i]).key == k
    }

    /// The slot persisted under `k` (meaningful only when `has_key(k)`).
    pub closed spec fn slot_of(&self, k: Key) -> StateSlot<S> {
        self.entries@[self.idx_of(k)].slot
    }

    /// The next cell identity the cache will issue.
    pub closed spec fn spec_next_cell(&self) -> usize {
        self.next_cell
    }

    pub closed spec fn spec_next_interns(&self) -> Seq<Option<WidgetId>> {
        self.next_interns@
    }

    pub closed spec fn spec_prev_interns(&self) -> Seq<Option<WidgetId>> {
        self.prev_interns@
    }

    /// Key resolution for the in-progress rebuild: a `Local` key whose
    /// parent has an entry in `next_interns` is rewritten to the original
    /// parent id the persisted state was first associated with; any other
    /// key is used as it stands.
    pub open spec fn spec_resolve(&self, key: Key) -> Key {
        match key {
            Key::Global(_) => key,
            Key::Local { parent, local } => {
                if parent.0 < self.spec_next_interns().len() {
                    match self.spec_next_interns()[parent.0 as int] {
                        Some(orig) => Key::Local { parent: orig, local },
                        None => key,
                    }
                } else {
                    key
                }
            },
        }
    }

    /// What the intern table of the previous rebuild maps `id` to: the
    /// recorded original id, or `id` itself when no mapping exists.
    pub open spec fn spec_prev_intern(&self, id: WidgetId) -> WidgetId {
        if id.0 < self.spec_prev_interns().len() {
            match self.spec_prev_interns()[id.0 as int] {
                Some(orig) => orig,
                None => id,
            }
        } else {
            id
        }
    }

    pub fn new() -> (c: Self)
        ensures
            c.wf(),
            c.spec_next_cell() == 0,
            c.spec_next_interns() == Seq::<Option<WidgetId>>::empty(),
            c.spec_prev_interns() == Seq::<Option<WidgetId>>::empty(),
            forall|k: Key| !c.has_key(k),
    {
        StateCache {
            entries: Vec::new(),
            prev_interns: Vec::new(),
            next_interns: Vec::new(),
            next_cell: 0,
        }
    }

    /// Appends the intern record for the widget id equal to the current
    /// length of `next_interns`; the engine allocates ids densely and pushes
    /// one record per allocation.
    pub fn push_intern(&mut self, m: Option<WidgetId>)
        ensures
            final(self).spec_next_interns() == old(self).spec_next_interns().push(m),
            final(self).spec_prev_interns() == old(self).spec_prev_interns(),
            final(self).entries_unchanged(*old(self)),
    {
        self.next_interns.push(m);
    }

    /// Looks `id` up in the previous rebuild's intern table.
    pub fn prev_intern(&self, id: WidgetId) -> (r: WidgetId)
        ensures
            r == self.spec_prev_intern(id),
    {
        if id.0 < self.prev_interns.len() {
            match self.prev_interns[id.0] {
                Some(orig) => orig,
                None => id,
            }
        } else {
            id
        }
    }

    /// Resolves `key` against the in-progress intern table.
    pub fn resolve_key(&self, key: Key) -> (r: Key)
        ensures
            r == self.spec_resolve(key),
    {
        match key {
            Key::Global(_) => key,
            Key::Local { parent, local } => {
                if parent.0 < self.next_interns.len() {
                    match self.next_interns[parent.0] {
                        Some(orig) => Key::Local { parent: orig, local },
                        None => key,
                    }
                } else {
                    key
                }
            },
        }
    }

    /// Whether another cell identity can still be issued.
    pub fn next_cell_left(&self) -> (r: bool)
        ensures
            r == (self.spec_next_cell() < usize::MAX),
    {
        self.next_cell < usize::MAX
    }

    /// Begins a rebuild: intern accumulation for the new pass starts
    /// empty. (A no-op in the ordinary build cycle, where `finalize` has
    /// already promoted and emptied the table.)
    pub fn begin(&mut self)
        ensures
            final(self).spec_next_interns() == Seq::<Option<WidgetId>>::empty(),
            final(self).spec_prev_interns() == old(self).spec_prev_interns(),
            final(self).entries_unchanged(*old(self)),
    {
        self.next_interns.clear();
    }

    /// End-of-rebuild promotion: the accumulated `next_interns` becomes the
    /// map of record for the following rebuild, and accumulation restarts
    /// empty.
    pub fn finalize(&mut self)
        ensures
            final(self).spec_prev_interns() == old(self).spec_next_interns(),
            final(self).spec_next_interns() == Seq::<Option<WidgetId>>::empty(),
            final(self).entries_unchanged(*old(self)),
    {
        core::mem::swap(&mut self.prev_interns, &mut self.next_interns);
        self.next_interns.clear();
    }

    /// The persisted slots and the cell counter are untouched.
    pub open spec fn entries_unchanged(&self, other: Self) -> bool {
        &&& self.wf() == other.wf()
        &&& self.spec_next_cell() == other.spec_next_cell()
        &&& forall|k: Key| self.has_key(k) == other.has_key(k)
        &&& forall|k: Key| other.has_key(k) ==> self.slot_of(k) == other.slot_of(k)
    }

    proof fn lemma_found(&self, k: Key, i: int)
        requires
            self.wf(),
            0 <= i < self.entries@.len(),
            self.entries@[i].key == k,
        ensures
            self.has_key(k),
            self.idx_of(k) == i,
            self.slot_of(k) == self.entries@[i].slot,
    {
        assert(self.has_key(k));
        let j = self.idx_of(k);
        assert(0 <= j < self.entries@.len() && self.entries@[j].key == k);
        if i < j {
            assert(self.entries@[i].key != self.entries@[j].key);
        } else if j < i {
            assert(self.entries@[j].key != self.entries@[i].key);
        }
    }

    /// Relates a cache before and after one `resolve_state` call that was
    /// given `key`, `ty` and `default` and returned `cell`.
    pub open spec fn resolve_post(pre: Self, post: Self, key: Key, ty: u64, default: S, cell: usize) -> bool {
        let qk = pre.spec_resolve(key);
        if pre.has_key(qk) && pre.slot_of(qk).ty == ty {
            &&& cell == pre.slot_of(qk).cell
            &&& post == pre
        } else {
            &&& cell == pre.spec_next_cell()
            // on a type swap the slot is freshly initialized: the cell is a
            // new identity, never the one that held the old state
            &&& (pre.has_key(qk) ==> cell != pre.slot_of(qk).cell)
            &&& post.wf()
            &&& post.has_key(qk)
            &&& post.slot_of(qk) == (StateSlot { ty, cell, value: default })
            &&& post.spec_next_cell() == pre.spec_next_cell() + 1
            &&& post.spec_next_interns() == pre.spec_next_interns()
            &&& post.spec_prev_interns() == pre.spec_prev_interns()
            &&& forall|k2: Key|
                k2 != qk ==> (#[trigger] post.has_key(k2)) == pre.has_key(k2)
            &&& forall|k2: Key|
                k2 != qk && pre.has_key(k2) ==> (#[trigger] post.slot_of(k2)) == pre.slot_of(k2)
        }
    }

    /// Resolves `key` (intern substitution included), then hands back the
    /// persisted cell for the resolved key when one exists under the same
    /// type tag; otherwise — no entry yet, or an entry whose stored type
    /// differs — installs a fresh slot holding `default` under a fresh cell
    /// identity and hands that back.
    pub fn resolve_state(&mut self, key: Key, ty: u64, default: S) -> (cell: usize)
        requires
            old(self).wf(),
            old(self).spec_next_cell() < usize::MAX,
        ensures
            final(self).wf(),
            Self::resolve_post(*old(self), *final(self), key, ty, default, cell),
    {
        let qk = self.resolve_key(key);
        let ghost pre = *self;
        let mut i: usize = 0;
        #[verifier::loop_isolation(false)]
        while i < self.entries.len()
            invariant
                *self == pre,
                i <= self.entries@.len(),
                forall|j: int| 0 <= j < i ==> (#[trigger] self.entries@[j]).key != qk,
            decreases self.entries@.len() - i,
        {
            if self.entries[i].key == qk {
                proof {
                    self.lemma_found(qk, i as int);
                }
                if self.entries[i].slot.ty == ty {
                    return self.entries[i].slot.cell;
                }
                // A state of a different type is requested under an identity
                // that previously held something else: discard and
                // re-initialize rather than reinterpret.
                let cell = self.next_cell;
                self.next_cell += 1;
                let e = &mut self.entries[i];
                e.slot = StateSlot { ty, cell, value: default };
                proof {
                    assert(self.entries@.len() == pre.entries@.len());
                    assert(forall|j: int|
                        0 <= j < self.entries@.len() && j != i ==> self.entries@[j]
                            == pre.entries@[j]);
                    assert(forall|j: int|
                        0 <= j < self.entries@.len() ==> (#[trigger] self.entries@[j]).key
                            == pre.entries@[j].key);
                    self.lemma_found(qk, i as int);
                    assert forall|k2: Key| k2 != qk implies (#[trigger] self.has_key(k2))
                        == pre.has_key(k2) by {
                        if pre.has_key(k2) {
                            let j = pre.idx_of(k2);
                            assert(self.entries@[j].key == k2);
                        }
                        if self.has_key(k2) {
                            let j = self.idx_of(k2);
                            assert(pre.entries@[j].key == k2);
                        }
                    }
                    assert forall|k2: Key| k2 != qk && pre.has_key(k2) implies (
                    #[trigger] self.slot_of(k2)) == pre.slot_of(k2) by {
                        let j = pre.idx_of(k2);
                        pre.lemma_found(k2, j);
                        self.lemma_found(k2, j);
                        assert(j != i as int);
                    }
                }
                return cell;
            }
            i += 1;
        }
        // No entry under this identity yet: create one.
        let cell = self.next_cell;
        self.next_cell += 1;
        self.entries.push(StateEntry { key: qk, slot: StateSlot { ty, cell, value: default } });
        proof {
            let n = pre.entries@.len() as int;
            assert(!pre.has_key(qk));
            assert(self.entries@[n].key == qk);
            assert(forall|j: int| 0 <= j < n ==> self.entries@[j] == pre.entries@[j]);
            self.lemma_found(qk, n);
            assert forall|k2: Key| k2 != qk implies (#[trigger] self.has_key(k2)) == pre.has_key(
                k2,
            ) by {
                if pre.has_key(k2) {
                    let j = pre.idx_of(k2);
                    assert(self.entries@[j].key == k2);
                }
                if self.has_key(k2) {
                    let j = self.idx_of(k2);
                    assert(j != n);
                    assert(pre.entries@[j].key == k2);
                }
            }
            assert forall|k2: Key| k2 != qk && pre.has_key(k2) implies (#[trigger] self.slot_of(
                k2,
            )) == pre.slot_of(k2) by {
                let j = pre.idx_of(k2);
                pre.lemma_found(k2, j);
                self.lemma_found(k2, j);
            }
        }
        cell
    }

    /// The value currently stored in the slot whose cell identity is `cell`.
    pub fn state_value(&self, cell: usize) -> (r: Option<&S>)
        requires
            self.wf(),
        ensures
            match r {
                Some(v) => exists|k: Key|
                    self.has_key(k) && (#[trigger] self.slot_of(k)).cell == cell && self.slot_of(
                        k,
                    ).value == *v,
                None => forall|k: Key|
                    self.has_key(k) ==> (#[trigger] self.slot_of(k)).cell != cell,
            },
    {
        let mut i: usize = 0;
        #[verifier::loop_isolation(false)]
        while i < self.entries.len()
            invariant
                i <= self.entries@.len(),
                forall|j: int| 0 <= j < i ==> (#[trigger] self.entries@[j]).slot.cell != cell,
            decreases self.entries@.len() - i,
        {
            if self.entries[i].slot.cell == cell {
                proof {
                    self.lemma_found(self.entries@[i as int].key, i as int);
                }
                return Some(&self.entries[i].slot.value);
            }
            i += 1;
        }
        proof {
            assert forall|k: Key| self.has_key(k) implies (#[trigger] self.slot_of(k)).cell
                != cell by {
                let j = self.idx_of(k);
                assert(self.entries@[j].slot.cell != cell);
            }
        }
        None
    }

    /// Overwrites the value stored in the slot whose cell identity is
    /// `cell`, leaving its key, type tag and identity as they were; returns
    /// whether such a slot exists.
    pub fn set_state_value(&mut self, cell: usize, value: S) -> (ok: bool)
        requires
            old(self).wf(),
        ensures
            final(self).wf(),
            ok == exists|k: Key|
                old(self).has_key(k) && (#[trigger] old(self).slot_of(k)).cell == cell,
            final(self).spec_next_cell() == old(self).spec_next_cell(),
            final(self).spec_next_interns() == old(self).spec_next_interns(),
            final(self).spec_prev_interns() == old(self).spec_prev_interns(),
            forall|k: Key| (#[trigger] final(self).has_key(k)) == old(self).has_key(k),
            forall|k: Key|
                old(self).has_key(k) && (#[trigger] old(self).slot_of(k)).cell != cell
                    ==> final(self).slot_of(k) == old(self).slot_of(k),
            forall|k: Key|
                old(self).has_key(k) && (#[trigger] old(self).slot_of(k)).cell == cell
                    ==> final(self).slot_of(k) == (StateSlot {
                    ty: old(self).slot_of(k).ty,
                    cell,
                    value,
                }),
    {
        let ghost pre = *self;
        let mut i: usize = 0;
        #[verifier::loop_isolation(false)]
        while i < self.entries.len()
            invariant
                *self == pre,
                i <= self.entries@.len(),
                forall|j: int| 0 <= j < i ==> (#[trigger] self.entries@[j]).slot.cell != cell,
            decreases self.entries@.len() - i,
        {
            if self.entries[i].slot.cell == cell {
                let ty = self.entries[i].slot.ty;
                let e = &mut self.entries[i];
                e.slot = StateSlot { ty, cell, value };
                proof {
                    assert(forall|j: int|
                        0 <= j < self.entries@.len() && j != i ==> self.entries@[j]
                            == pre.entries@[j]);
                    assert(forall|j: int|
                        0 <= j < self.entries@.len() ==> (#[trigger] self.entries@[j]).key
                            == pre.entries@[j].key);
                    pre.lemma_found(pre.entries@[i as int].key, i as int);
                    assert forall|k: Key| (#[trigger] self.has_key(k)) == pre.has_key(k) by {
                        if pre.has_key(k) {
                            let j = pre.idx_of(k);
                            assert(self.entries@[j].key == k);
                        }
                        if self.has_key(k) {
                            let j = self.idx_of(k);
                            assert(pre.entries@[j].key == k);
                        }
                    }
                    assert forall|k: Key|
                        pre.has_key(k) && (#[trigger] pre.slot_of(k)).cell != cell implies self
                        .slot_of(k) == pre.slot_of(k) by {
                        let j = pre.idx_of(k);
                        pre.lemma_found(k, j);
                        self.lemma_found(k, j);
                        assert(j != i as int);
                    }
                    assert forall|k: Key|
                        pre.has_key(k) && (#[trigger] pre.slot_of(k)).cell == cell implies self
                        .slot_of(k) == (StateSlot { ty: pre.slot_of(k).ty, cell, value }) by {
                        let j = pre.idx_of(k);
                        pre.lemma_found(k, j);
                        self.lemma_found(k, j);
                        assert(j == i as int);
                    }
                }
                return true;
            }
            i += 1;
        }
        proof {
            assert forall|k: Key| pre.has_key(k) implies (#[trigger] pre.slot_of(k)).cell
                != cell by {
                let j = pre.idx_of(k);
                assert(self.entries@[j].slot.cell != cell);
            }
        }
        false
    }
}

/// Identity stability: two successive state resolutions whose keys resolve
/// to the same rebuild-stable identity, requested under the same type tag,
/// hand back the same cell — the second resolution finds the slot the first
/// one created or found, and leaves the cache untouched.
pub proof fn lemma_identity_stability<S>(
    c0: StateCache<S>,
    c1: StateCache<S>,
    c2: StateCache<S>,
    k1: Key,
    k2: Key,
    ty: u64,
    d1: S,
    d2: S,
    cell1: usize,
    cell2: usize,
)
    requires
        c0.wf(),
        StateCache::resolve_post(c0, c1, k1, ty, d1, cell1),
        StateCache::resolve_post(c1, c2, k2, ty, d2, cell2),
        c1.spec_resolve(k2) == c0.spec_resolve(k1),
    ensures
        cell2 == cell1,
        c2 == c1,
{
    let qk = c0.spec_resolve(k1);
    if c0.has_key(qk) && c0.slot_of(qk).ty == ty {
        assert(c1 == c0);
    } else {
        assert(c1.has_key(qk) && c1.slot_of(qk).ty == ty);
    }
}

/// State type-swap: resolving under an identity that currently holds state
/// of a different type tag hands back a freshly initialized slot — a new
/// cell identity holding exactly the supplied default — rather than a
/// reinterpretation of the old state.
pub proof fn lemma_state_type_swap<S>(
    c0: StateCache<S>,
    c1: StateCache<S>,
    key: Key,
    ty_new: u64,
    d: S,
    cell: usize,
)
    requires
        c0.wf(),
        c0.has_key(c0.spec_resolve(key)),
        c0.slot_of(c0.spec_resolve(key)).ty != ty_new,
        StateCache::resolve_post(c0, c1, key, ty_new, d, cell),
    ensures
        cell != c0.slot_of(c0.spec_resolve(key)).cell,
        c1.slot_of(c1.spec_resolve(key)) == (StateSlot { ty: ty_new, cell, value: d }),
{
    let qk = c0.spec_resolve(key);
    assert(c0.slot_of(qk).cell < c0.spec_next_cell());
    assert(c1.spec_next_interns() == c0.spec_next_interns());
    assert(c1.spec_resolve(key) == qk);
}

/// Intern substitution: a `Local` key whose parent id has a recorded intern
/// mapping resolves to the same `Local` identity under the recorded original
/// parent id, so the persisted slot survives the parent's id churn.
pub proof fn lemma_resolve_substitutes<S>(c: StateCache<S>, parent: WidgetId, local: usize, orig: WidgetId)
    requires
        parent.0 < c.spec_next_interns().len(),
        c.spec_next_interns()[parent.0 as int] == Some(orig),
    ensures
        c.spec_resolve(Key::Local { parent, local }) == (Key::Local { parent: orig, local }),
{
}

} // verus!
