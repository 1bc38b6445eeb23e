use vstd::prelude::*;

use crate::model::{first_live, last_live, lemma_live_values_concat, lemma_live_values_singleton,
    lemma_num_live_le_len, live_values};
use crate::slot::{exchange, lemma_slots_view_update, slots_view, Slot};
use crate::Freelist;

verus! {

/// An owning cursor over a dismantled `Freelist`.  It yields every live
/// element by value, from either end, skipping vacant cells; the two ends
/// converge.  Whatever it has not yielded when it is dropped is released
/// with it, since it owns the cells outright.
pub struct IntoIterFl<T> {
    slots: Vec<Slot<T>>,
    start: usize,
    end: usize,
}

impl<T> IntoIterFl<T> {
    /// The abstract contents of the cells being consumed.
    pub closed spec fn cells(&self) -> Seq<Option<T>> {
        slots_view(self.slots@)
    }

    /// The forward cursor: cells below it have been consumed.
    pub closed spec fn pos(&self) -> int {
        self.start as int
    }

    /// The backward cursor: it sits one past the last unconsumed cell.
    pub closed spec fn end_pos(&self) -> int {
        self.end as int
    }

    /// The cursors stay ordered and inside the cell range.
    pub open spec fn wf(&self) -> bool {
        0 <= self.pos() <= self.end_pos() <= self.cells().len()
    }

    /// The live elements not yet yielded, in forward order.
    pub open spec fn remaining(&self) -> Seq<T> {
        live_values(self.cells().subrange(self.pos(), self.end_pos()))
    }

    /// Takes a container apart into an owning cursor over all its cells.
    pub fn new(fl: Freelist<T>) -> (it: Self)
        ensures
            it.wf(),
            it.pos() == 0,
            it.cells() == fl@,
            it.remaining() == live_values(fl@),
    {
        let slots = fl.into_slots();
        let end = slots.len();
        let it = IntoIterFl { slots, start: 0, end };
        proof {
            assert(it.cells().subrange(0, it.cells().len() as int) =~= it.cells());
        }
        it
    }

    /// Moves the first live element not yet consumed out, or yields `None`
    /// once the cursors have met.  Vacant cells are skipped.
    pub fn next(&mut self) -> (r: Option<T>)
        requires
            old(self).wf(),
        ensures
            final(self).wf(),
            final(self).end_pos() == old(self).end_pos(),
            old(self).remaining().len() == 0 ==> r is None && final(self).pos() == final(self).end_pos(),
            old(self).remaining().len() > 0 ==> r == Some(old(self).remaining()[0]) && final(self).remaining() == old(self).remaining().drop_first()
                && final(self).pos() == first_live(
                old(self).cells(),
                old(self).pos(),
                old(self).end_pos(),
            ) + 1,
    {
        while self.start < self.end
            invariant
                old(self).pos() <= self.pos() <= self.end_pos() <= self.cells().len(),
                self.end == old(self).end,
                self.cells().len() == old(self).cells().len(),
                self.remaining() == old(self).remaining(),
                self.cells().subrange(self.pos(), self.end_pos()) == old(self).cells().subrange(
                    self.pos(),
                    self.end_pos(),
                ),
                first_live(old(self).cells(), old(self).pos(), self.end_pos()) == first_live(
                    old(self).cells(),
                    self.pos(),
                    self.end_pos(),
                ),
            decreases self.end - self.start,
        {
            let ghost c = self.cells();
            let ghost e = self.end_pos();
            let cur = self.start;
            self.start = cur + 1;
            proof {
                broadcast use lemma_slots_view_update;

                assert(c.subrange(cur as int, e).drop_first() =~= c.subrange(cur + 1 as int, e));
                assert(old(self).cells()[cur as int] == c.subrange(cur as int, e)[0]);
            }
            let sl = exchange(&mut self.slots[cur], Slot::Empty);
            proof {
                assert(self.cells() =~= c.update(cur as int, None));
                assert(self.cells().subrange(cur + 1 as int, e) =~= c.subrange(cur + 1 as int, e));
                assert(self.cells().subrange(cur + 1 as int, e) =~= old(self).cells().subrange(
                    cur + 1 as int,
                    e,
                ));
            }
            match sl {
                Slot::Value(v) => {
                    proof {
                        assert(c[cur as int] == Some(v));
                        assert(old(self).cells()[cur as int] == Some(v));
                        assert(first_live(old(self).cells(), cur as int, e) == cur as int);
                    }
                    return Some(v);
                },
                _ => {
                    proof {
                        assert(c[cur as int] is None);
                        assert(old(self).cells()[cur as int] is None);
                    }
                },
            }
        }
        proof {
            assert(self.cells().subrange(self.pos(), self.end_pos()) =~= Seq::<
                Option<T>,
            >::empty());
        }
        None
    }

    /// Moves the last live element not yet consumed out, or yields `None`
    /// once the cursors have met.  Vacant cells are skipped.
    pub fn next_back(&mut self) -> (r: Option<T>)
        requires
            old(self).wf(),
        ensures
            final(self).wf(),
            final(self).pos() == old(self).pos(),
            old(self).remaining().len() == 0 ==> r is None && final(self).pos() == final(self).end_pos(),
            old(self).remaining().len() > 0 ==> r == Some(old(self).remaining().last()) && final(self).remaining() == old(self).remaining().drop_last()
                && final(self).end_pos() == last_live(
                old(self).cells(),
                old(self).pos(),
                old(self).end_pos(),
            ),
    {
        while self.start < self.end
            invariant
                old(self).pos() <= self.pos() <= self.end_pos() <= self.cells().len(),
                self.start == old(self).start,
                self.cells().len() == old(self).cells().len(),
                self.remaining() == old(self).remaining(),
                self.cells().subrange(self.pos(), self.end_pos()) == old(self).cells().subrange(
                    self.pos(),
                    self.end_pos(),
                ),
                last_live(old(self).cells(), self.pos(), old(self).end_pos()) == last_live(
                    old(self).cells(),
                    self.pos(),
                    self.end_pos(),
                ),
            decreases self.end - self.start,
        {
            let ghost c = self.cells();
            let ghost b = self.pos();
            let cur = self.end - 1;
            self.end = cur;
            proof {
                broadcast use lemma_slots_view_update;

                assert(c.subrange(b, cur + 1 as int) =~= c.subrange(b, cur as int) + seq![
                    c[cur as int],
                ]);
                lemma_live_values_concat(c.subrange(b, cur as int), seq![c[cur as int]]);
                lemma_live_values_singleton(c[cur as int]);
                assert(old(self).cells()[cur as int] == c.subrange(b, cur + 1 as int)[cur - b]);
            }
            let sl = exchange(&mut self.slots[cur], Slot::Empty);
            proof {
                assert(self.cells() =~= c.update(cur as int, None));
                assert(self.cells().subrange(b, cur as int) =~= c.subrange(b, cur as int));
                assert(self.cells().subrange(b, cur as int) =~= old(self).cells().subrange(
                    b,
                    cur as int,
                ));
            }
            match sl {
                Slot::Value(v) => {
                    proof {
                        assert(c[cur as int] == Some(v));
                        assert(old(self).cells()[cur as int] == Some(v));
                        assert(last_live(old(self).cells(), b, cur + 1 as int) == cur as int);
                    }
                    return Some(v);
                },
                _ => {
                    proof {
                        assert(c[cur as int] is None);
                        assert(old(self).cells()[cur as int] is None);
                        assert(self.remaining() =~= old(self).remaining());
                    }
                },
            }
        }
        proof {
            assert(self.cells().subrange(self.pos(), self.end_pos()) =~= Seq::<
                Option<T>,
            >::empty());
        }
        None
    }

    /// How many cells are still unscanned, as both bounds of a size hint.
    /// This is an upper bound on the number of live elements left, not an
    /// exact count: vacant cells in the range have not been skipped yet.
    pub fn size_hint(&self) -> (r: (usize, Option<usize>))
        requires
            self.wf(),
        ensures
            r.0 == self.end_pos() - self.pos(),
            r.1 == Some(r.0),
            self.remaining().len() <= r.0,
    {
        proof {
            lemma_num_live_le_len(self.cells().subrange(self.pos(), self.end_pos()));
        }
        let n = self.end - self.start;
        (n, Some(n))
    }
}

} // verus!
