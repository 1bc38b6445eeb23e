use vstd::prelude::*;

use crate::iterators::IntoIterFl;
use crate::model::live_values;
use crate::Freelist;

verus! {

/// An earlier shape of the owning cursor, kept for callers that use it: it
/// drains the live elements in index order from either end, but reports a
/// filter-style size hint whose lower bound is zero.
pub struct FreelistIter<T> {
    inner: IntoIterFl<T>,
}

impl<T> FreelistIter<T> {
    /// The live elements not yet yielded, in forward order.
    pub closed spec fn remaining(&self) -> Seq<T> {
        self.inner.remaining()
    }

    /// The cursors of the underlying range stay ordered and in bounds.
    pub closed spec fn wf(&self) -> bool {
        self.inner.wf()
    }

    /// Takes a container apart into an owning cursor over its live elements.
    pub fn new(freelist: Freelist<T>) -> (it: Self)
        ensures
            it.wf(),
            it.remaining() == live_values(freelist@),
    {
        FreelistIter { inner: IntoIterFl::new(freelist) }
    }

    /// Moves the first live element not yet consumed out, or yields `None`
    /// once the cursor is exhausted.
    pub fn next(&mut self) -> (r: Option<T>)
        requires
            old(self).wf(),
        ensures
            final(self).wf(),
            old(self).remaining().len() == 0 ==> r is None && final(self).remaining().len() == 0,
            old(self).remaining().len() > 0 ==> r == Some(old(self).remaining()[0]) && final(self).remaining() == old(self).remaining().drop_first(),
    {
        self.inner.next()
    }

    /// Moves the last live element not yet consumed out, or yields `None`
    /// once the cursor is exhausted.
    pub fn next_back(&mut self) -> (r: Option<T>)
        requires
            old(self).wf(),
        ensures
            final(self).wf(),
            old(self).remaining().len() == 0 ==> r is None && final(self).remaining().len() == 0,
            old(self).remaining().len() > 0 ==> r == Some(old(self).remaining().last()) && final(self).remaining() == old(self).remaining().drop_last(),
    {
        self.inner.next_back()
    }

    /// A filter-style size hint: the lower bound is zero, since every
    /// unscanned cell could be vacant, and the upper bound is the number of
    /// unscanned cells.
    pub fn size_hint(&self) -> (r: (usize, Option<usize>))
        requires
            self.wf(),
        ensures
            r.0 == 0,
            (match r.1 {
                Some(n) => self.remaining().len() <= n,
                None => false,
            }),
    {
        let (_, upper) = self.inner.size_hint();
        (0, upper)
    }
}

} // verus!
