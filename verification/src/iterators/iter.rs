use vstd::prelude::*;

use crate::model::{first_live, last_live, lemma_live_values_concat, lemma_live_values_singleton,
    lemma_num_live_le_len, live_values};
use crate::slot::{slots_view, Slot};

verus! {

/// A borrowing cursor over a sequence of cells.  It yields a reference to
/// every live element between its two ends, in either direction, and skips
/// vacant cells.  The two ends converge: once they meet, the cursor is
/// exhausted.
pub struct IterFl<'a, T> {
    slots: &'a Vec<Slot<T>>,
    start: usize,
    end: usize,
}

impl<'a, T> IterFl<'a, T> {
    /// The abstract contents of the cells being traversed.
    pub closed spec fn cells(&self) -> Seq<Option<T>> {
        slots_view(self.slots@)
    }

    /// The forward cursor: cells below it have been visited.
    pub closed spec fn pos(&self) -> int {
        self.start as int
    }

    /// The backward cursor: it sits one past the last unvisited cell.
    pub closed spec fn end_pos(&self) -> int {
        self.end as int
    }

    /// The cursors stay ordered and inside the cell range.
    pub open spec fn wf(&self) -> bool {
        0 <= self.pos() <= self.end_pos() <= self.cells().len()
    }

    /// The live elements not yet yielded, in forward order.
    pub open spec fn remaining(&self) -> Seq<T> {
        live_values(self.cells().subrange(self.pos(), self.end_pos()))
    }

    /// A cursor over the whole of `slots`.
    pub fn new(slots: &'a Vec<Slot<T>>) -> (it: Self)
        ensures
            it.wf(),
            it.cells() == slots_view(slots@),
            it.pos() == 0,
            it.end_pos() == slots@.len(),
    {
        IterFl { slots, start: 0, end: slots.len() }
    }

    /// Yields a reference to the first live element not yet visited, or
    /// `None` once the cursors have met.  Vacant cells are skipped.
    pub fn next(&mut self) -> (r: Option<&'a T>)
        requires
            old(self).wf(),
        ensures
            final(self).wf(),
            final(self).cells() == old(self).cells(),
            final(self).end_pos() == old(self).end_pos(),
            old(self).remaining().len() == 0 ==> r is None && final(self).pos() == final(self).end_pos(),
            old(self).remaining().len() > 0 ==> r is Some && *r.unwrap() == old(self).remaining()[0]
                && final(self).remaining() == old(self).remaining().drop_first()
                && final(self).pos() == first_live(
                old(self).cells(),
                old(self).pos(),
                old(self).end_pos(),
            ) + 1,
    {
        let ghost c = self.cells();
        let ghost e = old(self).end_pos();
        while self.start < self.end
            invariant
                self.slots == old(self).slots,
                self.end == old(self).end,
                old(self).pos() <= self.pos() <= self.end_pos() <= c.len(),
                c == self.cells(),
                e == self.end_pos(),
                self.remaining() == old(self).remaining(),
                first_live(c, old(self).pos(), e) == first_live(c, self.pos(), e),
            decreases self.end - self.start,
        {
            let cur = self.start;
            self.start = cur + 1;
            proof {
                assert(c.subrange(cur as int, e).drop_first() =~= c.subrange(cur + 1 as int, e));
            }
            let slots = self.slots;
            match &slots[cur] {
                Slot::Value(v) => {
                    proof {
                        assert(c[cur as int] == Some(*v));
                        assert(old(self).remaining() == live_values(c.subrange(cur as int, e)));
                        assert(first_live(c, cur as int, e) == cur as int);
                    }
                    return Some(v);
                },
                _ => {
                    proof {
                        assert(c[cur as int] is None);
                    }
                },
            }
        }
        proof {
            assert(c.subrange(self.pos(), e).len() == 0);
            assert(c.subrange(self.pos(), e) =~= Seq::<Option<T>>::empty());
        }
        None
    }

    /// Yields a reference to the last live element not yet visited, or
    /// `None` once the cursors have met.  Vacant cells are skipped.
    pub fn next_back(&mut self) -> (r: Option<&'a T>)
        requires
            old(self).wf(),
        ensures
            final(self).wf(),
            final(self).cells() == old(self).cells(),
            final(self).pos() == old(self).pos(),
            old(self).remaining().len() == 0 ==> r is None && final(self).pos() == final(self).end_pos(),
            old(self).remaining().len() > 0 ==> r is Some && *r.unwrap()
                == old(self).remaining().last() && final(self).remaining() == old(self).remaining().drop_last()
                && final(self).end_pos() == last_live(
                old(self).cells(),
                old(self).pos(),
                old(self).end_pos(),
            ),
    {
        let ghost c = self.cells();
        let ghost b = old(self).pos();
        while self.start < self.end
            invariant
                self.slots == old(self).slots,
                self.start == old(self).start,
                b <= self.pos() <= self.end_pos() <= c.len(),
                c == self.cells(),
                b == self.pos(),
                self.remaining() == old(self).remaining(),
                last_live(c, b, old(self).end_pos()) == last_live(c, b, self.end_pos()),
            decreases self.end - self.start,
        {
            let cur = self.end - 1;
            self.end = cur;
            proof {
                assert(c.subrange(b, cur + 1 as int) =~= c.subrange(b, cur as int) + seq![
                    c[cur as int],
                ]);
                lemma_live_values_concat(c.subrange(b, cur as int), seq![c[cur as int]]);
                lemma_live_values_singleton(c[cur as int]);
            }
            let slots = self.slots;
            match &slots[cur] {
                Slot::Value(v) => {
                    proof {
                        assert(c[cur as int] == Some(*v));
                        assert(last_live(c, b, cur + 1 as int) == cur as int);
                    }
                    return Some(v);
                },
                _ => {
                    proof {
                        assert(c[cur as int] is None);
                        assert(self.remaining() =~= old(self).remaining());
                    }
                },
            }
        }
        proof {
            assert(c.subrange(b, self.end_pos()).len() == 0);
            assert(c.subrange(b, self.end_pos()) =~= Seq::<Option<T>>::empty());
        }
        None
    }

    /// How many cells are still unscanned, as both bounds of a size hint.
    /// This is an upper bound on the number of live elements left, not an
    /// exact count: vacant cells in the range have not been skipped yet.
    pub fn size_hint(&self) -> (r: (usize, Option<usize>))
        requires
            self.wf(),
        ensures
            r.0 == self.end_pos() - self.pos(),
            r.1 == Some(r.0),
            self.remaining().len() <= r.0,
    {
        proof {
            lemma_num_live_le_len(self.cells().subrange(self.pos(), self.end_pos()));
        }
        let n = self.end - self.start;
        (n, Some(n))
    }
}

} // verus!
