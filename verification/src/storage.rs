use vstd::prelude::*;

verus! {

/// Append-only, index-addressed storage for values of one type.
///
/// `push` hands out dense indices: index `i` always names the `i`-th value
/// pushed since the last `clear`. There is no removal, so indices stay valid
/// until the store is wholesale-cleared between build passes.
pub struct Storage<T> {
    items: Vec<T>,
}

impl<T> View for Storage<T> {
    type V = Seq<T>;

    closed spec fn view(&self) -> Seq<T> {
        self.items@
    }
}

impl<T> Storage<T> {
    pub fn new() -> (s: Self)
        ensures
            s@ == Seq::<T>::empty(),
    {
        Storage { items: Vec::new() }
    }

    /// Resets the length to zero, releasing all elements and invalidating
    /// every previously issued index.
    pub fn clear(&mut self)
        ensures
            final(self)@ == Seq::<T>::empty(),
    {
        self.items.clear();
    }

    /// Appends `value` and returns its index: exactly the number of pushes
    /// since the last `clear`, so the very first push after a `clear`
    /// returns 0.
    pub fn push(&mut self, value: T) -> (idx: usize)
        ensures
            idx == old(self)@.len(),
            final(self)@ == old(self)@.push(value),
    {
        let idx = self.items.len();
        self.items.push(value);
        idx
    }

    pub fn len(&self) -> (n: usize)
        ensures
            n == self@.len(),
    {
        self.items.len()
    }

    pub fn get(&self, idx: usize) -> (r: &T)
        requires
            idx < self@.len(),
        ensures
            *r == self@[idx as int],
    {
        &self.items[idx]
    }

    pub fn get_mut(&mut self, idx: usize) -> (r: &mut T)
        requires
            idx < old(self)@.len(),
        ensures
            *r == old(self)@[idx as int],
            final(self)@ == old(self)@.update(idx as int, *final(r)),
    {
        &mut self.items[idx]
    }

    /// Replaces the value at `idx`, returning the one stored before.
    pub fn replace(&mut self, idx: usize, value: T) -> (prev: T)
        requires
            idx < old(self)@.len(),
        ensures
            prev == old(self)@[idx as int],
            final(self)@ == old(self)@.update(idx as int, value),
    {
        let mut v = value;
        let r = &mut self.items[idx];
        core::mem::swap(r, &mut v);
        v
    }
}

/// Arena density: across any run of pushes since the last `clear` (whose
/// contract makes the view empty), the store's length after `i` pushes is
/// exactly `i` — so the index the `i`-th push hands out (the pre-push
/// length, per `push`'s contract) is `i`, and in particular the very
/// first push after a `clear` returns 0.
pub proof fn lemma_arena_density<T>(views: Seq<Seq<T>>, values: Seq<T>, i: int)
    requires
        views.len() == values.len() + 1,
        views[0] =~= Seq::<T>::empty(),
        forall|j: int| 1 <= j <= values.len() ==> (#[trigger] views[j]) =~= views[j - 1].push(
            values[j - 1],
        ),
        0 <= i <= values.len(),
    ensures
        views[i].len() == i,
    decreases i,
{
    if i > 0 {
        lemma_arena_density(views, values, i - 1);
        assert(views[i] =~= views[i - 1].push(values[i - 1]));
    }
}

} // verus!
