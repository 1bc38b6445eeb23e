use vstd::prelude::*;

use crate::model::{first_live, last_live};
use crate::Freelist;

verus! {

/// A mutating cursor over a `Freelist`.  The cursor holds only its two
/// converging ends; each step borrows the container afresh and yields a
/// mutable reference to the next live element, skipping vacant cells.  Only
/// the yielded elements can change: no cell is vacated, filled, or moved.
pub struct IterMutFl {
    start: usize,
    end: usize,
}

impl IterMutFl {
    /// The forward cursor: cells below it have been visited.
    pub closed spec fn pos(&self) -> int {
        self.start as int
    }

    /// The backward cursor: it sits one past the last unvisited cell.
    pub closed spec fn end_pos(&self) -> int {
        self.end as int
    }

    /// The cursors stay ordered and inside the cells of `fl`.
    pub open spec fn valid_for<T>(&self, fl: &Freelist<T>) -> bool {
        0 <= self.pos() <= self.end_pos() <= fl@.len()
    }

    /// A cursor over the whole of `fl`.
    pub fn new<T>(fl: &Freelist<T>) -> (it: Self)
        ensures
            it.valid_for(fl),
            it.pos() == 0,
            it.end_pos() == fl@.len(),
    {
        IterMutFl { start: 0, end: fl.size() }
    }

    /// Mutably borrows the first live element of `fl` the forward cursor
    /// has not visited, or yields `None` once the cursors have met.
    pub fn next<'a, T>(&mut self, fl: &'a mut Freelist<T>) -> (r: Option<&'a mut T>)
        requires
            old(fl).wf(),
            old(self).valid_for(old(fl)),
        ensures
            final(self).end_pos() == old(self).end_pos(),
            ({
                let k = first_live(old(fl)@, old(self).pos(), old(self).end_pos());
                if k == old(self).end_pos() {
                    &&& r is None
                    &&& *final(fl) == *old(fl)
                    &&& final(self).pos() == old(self).end_pos()
                } else {
                    &&& r is Some
                    &&& *r.unwrap() == old(fl)@[k].unwrap()
                    &&& final(fl)@ == old(fl)@.update(k, Some(*final(r.unwrap())))
                    &&& final(fl).free_list() == old(fl).free_list()
                    &&& final(fl).wf()
                    &&& final(self).pos() == k + 1
                }
            }),
    {
        while self.start < self.end
            invariant
                old(fl).wf(),
                *fl == *old(fl),
                old(self).pos() <= self.pos() <= self.end_pos() <= fl@.len(),
                self.end == old(self).end,
                first_live(fl@, old(self).pos(), self.end_pos()) == first_live(
                    fl@,
                    self.pos(),
                    self.end_pos(),
                ),
            decreases self.end - self.start,
        {
            let cur = self.start;
            self.start = cur + 1;
            let live = fl.get(cur).is_some();
            if live {
                return Some(fl.get_unchecked_mut(cur));
            }
        }
        None
    }

    /// Mutably borrows the last live element of `fl` the backward cursor
    /// has not visited, or yields `None` once the cursors have met.
    pub fn next_back<'a, T>(&mut self, fl: &'a mut Freelist<T>) -> (r: Option<&'a mut T>)
        requires
            old(fl).wf(),
            old(self).valid_for(old(fl)),
        ensures
            final(self).pos() == old(self).pos(),
            ({
                let k = last_live(old(fl)@, old(self).pos(), old(self).end_pos());
                if k < old(self).pos() {
                    &&& r is None
                    &&& *final(fl) == *old(fl)
                    &&& final(self).end_pos() == old(self).pos()
                } else {
                    &&& r is Some
                    &&& *r.unwrap() == old(fl)@[k].unwrap()
                    &&& final(fl)@ == old(fl)@.update(k, Some(*final(r.unwrap())))
                    &&& final(fl).free_list() == old(fl).free_list()
                    &&& final(fl).wf()
                    &&& final(self).end_pos() == k
                }
            }),
    {
        while self.start < self.end
            invariant
                old(fl).wf(),
                *fl == *old(fl),
                old(self).pos() <= self.pos() <= self.end_pos() <= fl@.len(),
                self.start == old(self).start,
                self.end_pos() <= old(self).end_pos(),
                last_live(fl@, self.pos(), old(self).end_pos()) == last_live(
                    fl@,
                    self.pos(),
                    self.end_pos(),
                ),
            decreases self.end - self.start,
        {
            let cur = self.end - 1;
            self.end = cur;
            let live = fl.get(cur).is_some();
            if live {
                return Some(fl.get_unchecked_mut(cur));
            }
        }
        None
    }

    /// How many cells are still unscanned, as both bounds of a size hint.
    /// This is an upper bound on the number of live elements left, not an
    /// exact count: vacant cells in the range have not been skipped yet.
    pub fn size_hint(&self) -> (r: (usize, Option<usize>))
        requires
            self.pos() <= self.end_pos(),
        ensures
            r.0 == self.end_pos() - self.pos(),
            r.1 == Some(r.0),
    {
        let n = self.end - self.start;
        (n, Some(n))
    }
}

} // verus!
