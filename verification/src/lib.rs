//! An index-stable, slot-recycling container.
//!
//! A `Freelist` hands out an integer index for every insertion.  The index
//! stays valid until that element is removed, however many other elements
//! come and go around it.  Vacated cells are threaded into a free chain that
//! runs through the backing storage itself, and insertion reuses the chain
//! head before it ever grows the storage.

use vstd::prelude::*;

mod freelist2;
mod into_iter;
mod iterators;
pub mod model;
pub mod slot;

pub use freelist2::Freelist2;
pub use into_iter::FreelistIter;
pub use iterators::IntoIterFl;
pub use iterators::IterFl;
pub use iterators::IterMutFl;
pub use slot::Slot;

use model::{
    inv, lemma_chain_cons, lemma_chain_split, lemma_live_values_all_none,
    lemma_live_values_all_some, lemma_live_values_concat, lemma_live_values_push,
    lemma_live_values_relocate, lemma_live_values_update, lemma_num_live_le_len,
    lemma_num_live_update_some, live_values, num_live, spec_compact, spec_compactify,
    spec_next_available, spec_push, spec_remove,
};
use slot::{exchange, lemma_slots_view_update, slot_opt, slots_view, values_to_slots};

verus! {

/// A growable sequence of cells whose indices are stable handles.
///
/// Abstractly (`self@`) the container is a sequence with one `Option` per
/// cell: `Some(v)` where the cell holds a live element, `None` where it is
/// vacant.  The vacant cells form the free chain `self.free_list()`, ordered
/// head first; insertion always fills the head.
#[derive(Clone)]
pub struct Freelist<T> {
    slots: Vec<Slot<T>>,
    next: Slot<T>,
    filled_length: usize,
    free: Ghost<Seq<int>>,
}

impl<T> View for Freelist<T> {
    type V = Seq<Option<T>>;

    closed spec fn view(&self) -> Seq<Option<T>> {
        slots_view(self.slots@)
    }
}

impl<T> Freelist<T> {
    /// The free chain: the indices of the vacant cells, head first.
    pub closed spec fn free_list(&self) -> Seq<int> {
        self.free@
    }

    /// The container's invariant: the live-element counter is accurate, the
    /// free chain names exactly the vacant cells with no cell repeated, each
    /// link of the chain is stored in the cell it leaves, and the chain-head
    /// register points at the first link.
    pub closed spec fn wf(&self) -> bool {
        &&& self.filled_length == num_live(self@)
        &&& self.free@.len() + self.filled_length == self.slots@.len()
        &&& (if self.free@.len() == 0 {
            self.next is Empty
        } else {
            self.next == Slot::<T>::Next(self.free@[0] as usize)
        })
        &&& forall|k: int| 0 <= k < self.free@.len() ==> 0 <= #[trigger] self.free@[k]
            < self.slots@.len()
        &&& forall|k: int|
            0 <= k < self.free@.len() - 1 ==> self.slots@[#[trigger] self.free@[k]]
                == Slot::<T>::Next(self.free@[k + 1] as usize)
        &&& (self.free@.len() > 0 ==> self.slots@[self.free@.last()] is Empty)
        &&& forall|k1: int, k2: int|
            0 <= k1 < k2 < self.free@.len() ==> self.free@[k1] != self.free@[k2]
        &&& forall|i: int|
            0 <= i < self.slots@.len() ==> (!((#[trigger] self.slots@[i]) is Value)
                <==> self.free@.contains(i))
    }

    /// A well-formed container is a consistent state of the abstract model.
    pub proof fn lemma_wf_implies_inv(&self)
        requires
            self.wf(),
        ensures
            inv(self@, self.free_list()),
    {
        assert forall|i: int| 0 <= i < self@.len() implies ((#[trigger] self@[i]) is None
            <==> self.free_list().contains(i)) by {
            assert(self@[i] == slot_opt(self.slots@[i]));
        }
    }

    /// Constructs an empty container.  It does not allocate until an element
    /// is pushed.
    pub fn new() -> (fl: Self)
        ensures
            fl.wf(),
            fl@ == Seq::<Option<T>>::empty(),
            fl.free_list() == Seq::<int>::empty(),
    {
        let fl = Freelist {
            slots: Vec::new(),
            next: Slot::Empty,
            filled_length: 0,
            free: Ghost(Seq::empty()),
        };
        proof {
            assert(fl@ =~= Seq::<Option<T>>::empty());
        }
        fl
    }

    /// Constructs an empty container whose storage can hold at least
    /// `capacity` elements before reallocating.
    pub fn with_capacity(capacity: usize) -> (fl: Self)
        ensures
            fl.wf(),
            fl@ == Seq::<Option<T>>::empty(),
            fl.free_list() == Seq::<int>::empty(),
    {
        let fl = Freelist {
            slots: Vec::with_capacity(capacity),
            next: Slot::Empty,
            filled_length: 0,
            free: Ghost(Seq::empty()),
        };
        proof {
            assert(fl@ =~= Seq::<Option<T>>::empty());
        }
        fl
    }

    /// The number of live elements.
    pub fn filled(&self) -> (n: usize)
        requires
            self.wf(),
        ensures
            n == num_live(self@),
    {
        self.filled_length
    }

    /// The number of cells, vacant ones included: one past the largest index
    /// ever handed out and not yet discarded.
    pub fn size(&self) -> (n: usize)
        ensures
            n == self@.len(),
    {
        self.slots.len()
    }

    /// The number of vacant cells: how many insertions will recycle storage
    /// before it grows again.
    pub fn free(&self) -> (n: usize)
        requires
            self.wf(),
        ensures
            n == self.free_list().len(),
            n == self@.len() - num_live(self@),
    {
        self.slots.len() - self.filled_length
    }

    /// Inserts `value` into the first vacant cell, or into a fresh cell at
    /// the end when no cell is vacant, and returns the index it now
    /// occupies.  The index is always the one `next_available` reported.
    pub fn push(&mut self, value: T) -> (idx: usize)
        requires
            old(self).wf(),
            old(self)@.len() < usize::MAX,
        ensures
            final(self).wf(),
            ({
                let (s2, f2, i2) = spec_push(old(self)@, old(self).free_list(), value);
                final(self)@ == s2 && final(self).free_list() == f2 && idx as int == i2
            }),
            idx as int == spec_next_available(old(self)@, old(self).free_list()),
            num_live(final(self)@) == num_live(old(self)@) + 1,
    {
        proof {
            lemma_num_live_le_len(old(self)@);
        }
        self.filled_length = self.filled_length + 1;
        let slot_in = Slot::Value(value);
        let head = exchange(&mut self.next, Slot::Empty);
        match head {
            Slot::Next(index) => {
                let ghost s = old(self)@;
                let ghost f = old(self).free_list();
                let ghost i = f[0];
                proof {
                    assert(index == i);
                }
                let prev = exchange(&mut self.slots[index], slot_in);
                self.next = prev;
                self.free = Ghost(self.free@.drop_first());
                proof {
                    assert(f[0] == i);
                    assert(f.contains(i));
                    assert(s[i] is None);
                    assert(self@ =~= s.update(i, Some(value)));
                    lemma_live_values_update(s, i, Some(value));
                    assert(num_live(self@) == num_live(s) + 1);
                    assert forall|j: int| 0 <= j < self.slots@.len() implies (!((
                    #[trigger] self.slots@[j]) is Value) <==> self.free@.contains(j)) by {
                        lemma_chain_split(f, j);
                        if j == i {
                            if self.free@.contains(i) {
                                let k = choose|k: int|
                                    0 <= k < self.free@.len() && self.free@[k] == i;
                                assert(f[k + 1] == f[0]);
                            }
                        }
                    }
                    assert forall|k: int| 0 <= k < self.free@.len() - 1 implies self.slots@[
                    #[trigger] self.free@[k]] == Slot::<T>::Next(self.free@[k + 1] as usize) by {
                        assert(self.free@[k] == f[k + 1]);
                        assert(f[k + 1] != f[0]);
                    }
                    if self.free@.len() > 0 {
                        assert(self.free@.last() == f.last());
                        assert(f.last() != f[0]);
                        assert(self.slots@[self.free@.last()] is Empty);
                        assert(self.next == Slot::<T>::Next(self.free@[0] as usize));
                    } else {
                        assert(f.len() == 1);
                        assert(f.last() == f[0]);
                        assert(self.next is Empty);
                    }
                }
                index
            },
            Slot::Empty => {
                let ghost s = old(self)@;
                self.slots.push(slot_in);
                proof {
                    assert(self@ =~= s.push(Some(value)));
                    lemma_live_values_push(s, Some(value));
                    assert forall|j: int| 0 <= j < self.slots@.len() implies (!((
                    #[trigger] self.slots@[j]) is Value) <==> self.free@.contains(j)) by {
                        if j < s.len() {
                            assert(self.slots@[j] == old(self).slots@[j]);
                        }
                    }
                }
                self.filled_length - 1
            },
            Slot::Value(_) => unreached(),
        }
    }

    /// The index the next insertion will hand out: the head of the free
    /// chain, or the current size when no cell is vacant.  Nothing changes.
    pub fn next_available(&self) -> (idx: usize)
        requires
            self.wf(),
        ensures
            idx as int == spec_next_available(self@, self.free_list()),
    {
        match &self.next {
            Slot::Next(index) => {
                proof {
                    assert(self.free_list().len() > 0);
                    assert(0 <= self.free_list()[0] < self.slots@.len());
                    assert(self.slots@.len() <= usize::MAX) by {
                        vstd::std_specs::vec::axiom_spec_len(&self.slots);
                    }
                }
                *index
            },
            Slot::Empty => self.filled_length,
            Slot::Value(_) => unreached(),
        }
    }

    /// Removes and returns the element at `index`, turning its cell into the
    /// new head of the free chain.  A cell that is already vacant is left
    /// alone and yields `None`, so removing twice is harmless.  No other
    /// cell moves.
    pub fn remove(&mut self, index: usize) -> (r: Option<T>)
        requires
            old(self).wf(),
            index < old(self)@.len(),
        ensures
            final(self).wf(),
            ({
                let (s2, f2, r2) = spec_remove(old(self)@, old(self).free_list(), index as int);
                final(self)@ == s2 && final(self).free_list() == f2 && r == r2
            }),
    {
        let is_live = self.slots[index].is_value();
        if is_live {
            let ghost s = old(self)@;
            let ghost f = old(self).free_list();
            let ghost i = index as int;
            proof {
                assert(s[i] is Some);
                lemma_live_values_update(s, i, None);
                assert(num_live(s) >= 1);
            }
            self.filled_length = self.filled_length - 1;
            let head = exchange(&mut self.next, Slot::Next(index));
            let prev = exchange(&mut self.slots[index], head);
            self.free = Ghost(seq![index as int] + self.free@);
            proof {
                assert(!f.contains(i));
                assert(forall|k: int| 0 <= k < f.len() ==> #[trigger] f[k] != i);
                assert(self@ =~= s.update(i, None));
                assert(num_live(self@) == num_live(s) - 1);
                assert(self.free@[0] == i);
                assert(self.free@.drop_first() =~= f);
                assert forall|j: int| 0 <= j < self.slots@.len() implies (!((
                #[trigger] self.slots@[j]) is Value) <==> self.free@.contains(j)) by {
                    lemma_chain_cons(f, i, j);
                }
                assert forall|k: int| 0 <= k < self.free@.len() - 1 implies self.slots@[
                #[trigger] self.free@[k]] == Slot::<T>::Next(self.free@[k + 1] as usize) by {
                    if k > 0 {
                        assert(self.free@[k] == f[k - 1]);
                        assert(f[k - 1] != i);
                    }
                }
                if f.len() == 0 {
                    assert(self.free@.last() == i);
                } else {
                    assert(self.free@.last() == f.last());
                    assert(f.last() != i);
                }
            }
            prev.to_some_unchecked()
        } else {
            None
        }
    }

    /// Empties the container: every element is dropped, the storage is
    /// truncated to nothing, and the free chain is reset.
    pub fn clear(&mut self)
        requires
            old(self).wf(),
        ensures
            final(self).wf(),
            final(self)@ == Seq::<Option<T>>::empty(),
            final(self).free_list() == Seq::<int>::empty(),
    {
        self.slots.clear();
        self.next = Slot::Empty;
        self.filled_length = 0;
        self.free = Ghost(Seq::empty());
        proof {
            assert(self@ =~= Seq::<Option<T>>::empty());
        }
    }

    /// Borrows the element at `index`, or yields `None` if that cell is
    /// vacant.  Accessing a previously removed index is not a fault; it is
    /// how a caller learns the handle is stale.
    pub fn get(&self, index: usize) -> (r: Option<&T>)
        requires
            index < self@.len(),
        ensures
            (match r {
                Some(v) => self@[index as int] == Some(*v),
                None => self@[index as int] is None,
            }),
    {
        match &self.slots[index] {
            Slot::Value(v) => Some(v),
            _ => None,
        }
    }

    /// Mutably borrows the element at `index`, or yields `None` if that cell
    /// is vacant.  Only the borrowed element can change; the cell stays
    /// live and every other cell is untouched.
    pub fn get_mut(&mut self, index: usize) -> (r: Option<&mut T>)
        requires
            old(self).wf(),
            index < old(self)@.len(),
        ensures
            old(self)@[index as int] is None ==> r is None && *final(self) == *old(self),
            old(self)@[index as int] is Some ==> r is Some
                && *r.unwrap() == old(self)@[index as int].unwrap()
                && final(self)@ == old(self)@.update(index as int, Some(*final(r.unwrap())))
                && final(self).free_list() == old(self).free_list()
                && final(self).wf(),
    {
        let is_live = self.slots[index].is_value();
        if is_live {
            proof {
                broadcast use lemma_slots_view_update;
                broadcast use lemma_num_live_update_some;

                assert(old(self)@[index as int] is Some);
            }
            let slot = &mut self.slots[index];
            let v = slot.as_value_unchecked_mut();
            Some(v)
        } else {
            None
        }
    }

    /// Borrows the element at `index` without checking that the cell is
    /// live.  Callers must prove it; there is no run-time check and no
    /// `Option`.
    pub fn get_unchecked(&self, index: usize) -> (r: &T)
        requires
            index < self@.len(),
            self@[index as int] is Some,
        ensures
            Some(*r) == self@[index as int],
    {
        self.slots[index].as_value_unchecked()
    }

    /// Mutably borrows the element at `index` without checking that the
    /// cell is live.  Callers must prove it; there is no run-time check.
    pub fn get_unchecked_mut(&mut self, index: usize) -> (r: &mut T)
        requires
            old(self).wf(),
            index < old(self)@.len(),
            old(self)@[index as int] is Some,
        ensures
            *r == old(self)@[index as int].unwrap(),
            final(self)@ == old(self)@.update(index as int, Some(*final(r))),
            final(self).free_list() == old(self).free_list(),
            final(self).wf(),
    {
        proof {
            broadcast use lemma_slots_view_update;
            broadcast use lemma_num_live_update_some;

        }
        let slot = &mut self.slots[index];
        slot.as_value_unchecked_mut()
    }

    /// Defragments the container in place, in one linear pass and with no
    /// auxiliary buffer: every live element is relocated into the contiguous
    /// prefix `[0, filled())`, the storage is truncated to exactly the live
    /// count, and the free chain becomes empty.
    ///
    /// Placement is exactly the two-cursor pass of `spec_compactify`: a live
    /// cell that ends up below the new length keeps its index and element,
    /// and each hole below the new length is filled from the rearmost
    /// remaining live cell, scanning back to front.  Indices handed out
    /// before the call are invalidated where relocation reassigned them.
    /// The collection of live elements is preserved exactly: none
    /// duplicated, none dropped.
    pub fn compactify(&mut self)
        requires
            old(self).wf(),
        ensures
            final(self).wf(),
            final(self)@ == spec_compactify(old(self)@),
            final(self)@.len() == num_live(old(self)@),
            forall|i: int| 0 <= i < final(self)@.len() ==> (#[trigger] final(self)@[i]) is Some,
            forall|i: int|
                0 <= i < final(self)@.len() && old(self)@[i] is Some ==> final(self)@[i] == old(
                    self,
                )@[i],
            final(self).free_list() == Seq::<int>::empty(),
            live_values(final(self)@).to_multiset() == live_values(old(self)@).to_multiset(),
    {
        proof {
            broadcast use lemma_slots_view_update;

        }
        let ghost orig = old(self)@;
        let mut front: usize = 0;
        let mut back: usize = self.slots.len();
        while front < back
            invariant
                front <= back <= self.slots@.len(),
                self.slots@.len() == orig.len(),
                self@.len() == orig.len(),
                self.filled_length == old(self).filled_length,
                self.filled_length == num_live(self@),
                num_live(self@) == num_live(orig),
                live_values(self@).to_multiset() == live_values(orig).to_multiset(),
                spec_compact(self@, front as int, back as int) == spec_compact(
                    orig,
                    0,
                    orig.len() as int,
                ),
                forall|i: int| 0 <= i < front ==> (#[trigger] self@[i]) is Some,
                forall|i: int| back <= i < self@.len() ==> (#[trigger] self@[i]) is None,
                forall|i: int| front <= i < back ==> #[trigger] self@[i] == orig[i],
                forall|i: int|
                    0 <= i < front && orig[i] is Some ==> #[trigger] self@[i] == orig[i],
            decreases back - front,
        {
            proof {
                broadcast use lemma_slots_view_update;

            }
            let front_live = self.slots[front].is_value();
            if front_live {
                front = front + 1;
            } else {
                let back_live = self.slots[back - 1].is_value();
                if !back_live {
                    back = back - 1;
                } else {
                    let ghost s = self@;
                    let plug = exchange(&mut self.slots[back - 1], Slot::Empty);
                    let _hole = exchange(&mut self.slots[front], plug);
                    proof {
                        assert(self@ =~= s.update(back - 1 as int, None).update(
                            front as int,
                            Some(s[back - 1 as int].unwrap()),
                        ));
                        assert(self@ =~= s.update(front as int, s[back - 1 as int]).update(
                            back - 1 as int,
                            None,
                        ));
                        lemma_live_values_relocate(s, front as int, back - 1 as int);
                    }
                    front = front + 1;
                    back = back - 1;
                }
            }
        }
        proof {
            let sv = self@;
            assert(spec_compact(sv, front as int, front as int) == sv);
            assert(sv =~= sv.take(front as int) + sv.skip(front as int));
            lemma_live_values_concat(sv.take(front as int), sv.skip(front as int));
            lemma_live_values_all_some(sv.take(front as int));
            lemma_live_values_all_none(sv.skip(front as int));
            assert(live_values(sv) =~= live_values(sv.take(front as int)));
            assert(num_live(sv) == front);
        }
        let ghost before = self@;
        self.slots.truncate(self.filled_length);
        self.next = Slot::Empty;
        self.free = Ghost(Seq::empty());
        proof {
            assert(self@ =~= before.take(self.filled_length as int));
            assert(self@ == spec_compactify(orig));
            assert forall|j: int| 0 <= j < self.slots@.len() implies (#[trigger] self.slots@[j])
                is Value by {
                assert(self@[j] is Some);
            }
            lemma_live_values_all_some(self@);
        }
    }

    /// Grows the storage so that `additional` more insertions are possible
    /// without reallocating, counting the cells that are already vacant.
    /// `additional` must be at least the current number of vacant cells.
    pub fn reserve(&mut self, additional: usize)
        requires
            old(self).wf(),
            additional >= old(self).free_list().len(),
        ensures
            final(self).wf(),
            final(self)@ == old(self)@,
            final(self).free_list() == old(self).free_list(),
    {
        let extra = additional - (self.slots.len() - self.filled_length);
        vec_reserve_exact(&mut self.slots, extra);
    }

    /// The number of elements the storage can hold without reallocating.
    pub fn capacity(&self) -> (n: usize)
        ensures
            n >= self@.len(),
    {
        vec_capacity(&self.slots)
    }

    /// Dismantles the container into a `Vec` of its live elements, in index
    /// order; vacant cells are skipped.
    pub fn to_vec(self) -> (r: Vec<T>)
        ensures
            r@ == live_values(self@),
    {
        let ghost orig = self@;
        let Freelist { slots, .. } = self;
        let mut slots = slots;
        let mut result: Vec<T> = Vec::new();
        let mut i: usize = 0;
        while i < slots.len()
            invariant
                i <= slots@.len() == orig.len(),
                forall|j: int| i <= j < slots@.len() ==> slots_view(slots@)[j] == orig[j],
                result@ == live_values(orig.take(i as int)),
            decreases slots@.len() - i,
        {
            proof {
                broadcast use lemma_slots_view_update;

                assert(orig.take(i + 1 as int) =~= orig.take(i as int).push(orig[i as int]));
                lemma_live_values_push(orig.take(i as int), orig[i as int]);
            }
            let sl = exchange(&mut slots[i], Slot::Empty);
            match sl {
                Slot::Value(v) => result.push(v),
                _ => (),
            }
            i = i + 1;
        }
        proof {
            assert(orig.take(orig.len() as int) =~= orig);
        }
        result
    }

    /// Surrenders the backing cells themselves, for the owning cursor.
    pub(crate) fn into_slots(self) -> (v: Vec<Slot<T>>)
        ensures
            slots_view(v@) == self@,
    {
        let Freelist { slots, .. } = self;
        slots
    }

    /// A borrowing cursor over all the cells: it yields a reference to every
    /// live element, in index order (or in reverse), skipping vacant cells.
    /// It can be taken afresh as often as wanted.
    pub fn iter(&self) -> (it: IterFl<T>)
        ensures
            it.wf(),
            it.pos() == 0,
            it.cells() == self@,
            it.remaining() == live_values(self@),
    {
        let it = IterFl::new(&self.slots);
        proof {
            assert(self@.subrange(0, self@.len() as int) =~= self@);
        }
        it
    }

    /// A mutating cursor over all the cells; each of its steps borrows the
    /// container afresh and yields a mutable reference to the next live
    /// element.
    pub fn iter_mut(&mut self) -> (it: IterMutFl)
        ensures
            *final(self) == *old(self),
            it.valid_for(old(self)),
            it.pos() == 0,
            it.end_pos() == old(self)@.len(),
    {
        IterMutFl::new(self)
    }

    /// Consumes the container into an owning cursor that yields every live
    /// element by value, in index order (or in reverse), skipping vacant
    /// cells.
    pub fn into_iter(self) -> (it: IntoIterFl<T>)
        ensures
            it.wf(),
            it.pos() == 0,
            it.cells() == self@,
            it.remaining() == live_values(self@),
    {
        IntoIterFl::new(self)
    }

    /// Builds a container from the elements of a vector, exactly as `from`
    /// does: every element is live at its original position.
    pub fn from_iter(data: Vec<T>) -> (fl: Self)
        ensures
            fl.wf(),
            fl@ == Seq::new(data@.len(), |i: int| Some(data@[i])),
            fl.free_list() == Seq::<int>::empty(),
    {
        Freelist::from(data)
    }
}

impl<T> Default for Freelist<T> {
    /// An empty container, exactly as `new` builds it.
    fn default() -> (fl: Self)
        ensures
            fl.wf(),
            fl@ == Seq::<Option<T>>::empty(),
            fl.free_list() == Seq::<int>::empty(),
    {
        Freelist::new()
    }
}

impl<T> From<Vec<T>> for Freelist<T> {
    /// Builds a container whose cells hold exactly the elements of `data`,
    /// all live, at their original positions, with nothing vacant.
    fn from(data: Vec<T>) -> (fl: Self)
        ensures
            fl.wf(),
            fl@ == Seq::new(data@.len(), |i: int| Some(data@[i])),
            fl.free_list() == Seq::<int>::empty(),
    {
        let ghost orig = data@;
        let filled_length = data.len();
        let slots = values_to_slots(data);
        let fl = Freelist { slots, next: Slot::Empty, filled_length, free: Ghost(Seq::empty()) };
        proof {
            assert(fl@ =~= Seq::new(orig.len(), |i: int| Some(orig[i])));
            lemma_live_values_all_some(fl@);
        }
        fl
    }
}

impl<T> vstd::std_specs::convert::FromSpecImpl<Vec<T>> for Freelist<T> {
    open spec fn obeys_from_spec() -> bool {
        false
    }

    open spec fn from_spec(v: Vec<T>) -> Self {
        arbitrary()
    }
}

impl<T, const N: usize> From<[T; N]> for Freelist<T> {
    /// Builds a container whose cells hold exactly the elements of `data`,
    /// all live, at their original positions, with nothing vacant.
    fn from(data: [T; N]) -> (fl: Self)
        ensures
            fl.wf(),
            fl@ == Seq::new(data@.len(), |i: int| Some(data@[i])),
            fl.free_list() == Seq::<int>::empty(),
    {
        Freelist::from(vec_from_array(data))
    }
}

impl<T, const N: usize> vstd::std_specs::convert::FromSpecImpl<[T; N]> for Freelist<T> {
    open spec fn obeys_from_spec() -> bool {
        false
    }

    open spec fn from_spec(v: [T; N]) -> Self {
        arbitrary()
    }
}

impl<T> vstd::std_specs::core::IndexSpecImpl<usize> for Freelist<T> {
    open spec fn index_req(&self, index: &usize) -> bool {
        *index < self@.len() && self@[*index as int] is Some
    }
}

impl<T> core::ops::Index<usize> for Freelist<T> {
    type Output = T;

    /// Borrows the element at `index`.  Callers must show the cell is live;
    /// `get` is the checked way in.
    fn index(&self, index: usize) -> (r: &T)
        ensures
            Some(*r) == self@[index as int],
    {
        match &self.slots[index] {
            Slot::Value(v) => v,
            _ => unreached(),
        }
    }
}

impl<T> core::ops::IndexMut<usize> for Freelist<T> {
    /// Mutably borrows the element at `index`.  Callers must show the cell
    /// is live; `get_mut` is the checked way in.
    fn index_mut(&mut self, index: usize) -> (r: &mut T)
        requires
            old(self).wf(),
            index < old(self)@.len(),
            old(self)@[index as int] is Some,
        ensures
            *r == old(self)@[index as int].unwrap(),
            final(self)@ == old(self)@.update(index as int, Some(*final(r))),
            final(self).free_list() == old(self).free_list(),
            final(self).wf(),
    {
        self.get_unchecked_mut(index)
    }
}

/// Relies on `Vec::reserve_exact`: it only grows the capacity and leaves the
/// elements unchanged.
#[verifier::external_body]
pub(crate) fn vec_reserve_exact<T>(v: &mut Vec<T>, additional: usize)
    ensures
        final(v)@ == old(v)@,
{
    v.reserve_exact(additional)
}

/// Relies on `Vec::from` on an array: the vector holds exactly the array's
/// elements, in order.
#[verifier::external_body]
fn vec_from_array<T, const N: usize>(data: [T; N]) -> (r: Vec<T>)
    ensures
        r@ == data@,
{
    Vec::from(data)
}

/// Relies on `Vec::capacity`: the capacity is never below the length.
#[verifier::external_body]
fn vec_capacity<T>(v: &Vec<T>) -> (n: usize)
    ensures
        n >= v@.len(),
{
    v.capacity()
}

} // verus!
