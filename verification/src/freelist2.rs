use vstd::prelude::*;

use crate::model::{
    lemma_chain_cons, lemma_chain_split, lemma_live_values_all_some, lemma_live_values_push,
    lemma_live_values_update, lemma_num_live_le_len, lemma_num_live_update_some, live_values,
    num_live, spec_next_available, spec_push, spec_remove,
};
use crate::slot::{exchange, values_to_slots, Slot};

verus! {

/// One cell of the sentinel layout: the element, when the cell is live, and
/// the forwarding link used while the cell sits in the free chain.
#[derive(Clone)]
struct Container<T> {
    datum: Option<T>,
    next: Option<usize>,
}

impl<T> Container<T> {
    /// A fresh live cell, not on any chain.
    fn new(datum: T) -> (c: Self)
        ensures
            c.datum == Some(datum),
            c.next is None,
    {
        Container { datum: Some(datum), next: None }
    }
}

/// The abstract contents of the sentinel layout: cell 0 is the reserved
/// sentinel, so external index `e` reads internal cell `e + 1`.
spec fn cont_view<T>(d: Seq<Container<T>>) -> Seq<Option<T>>
    recommends
        d.len() >= 1,
{
    Seq::new((d.len() - 1) as nat, |e: int| d[e + 1].datum)
}

/// Rewriting one internal cell rewrites one entry of the abstract contents.
broadcast proof fn lemma_cont_view_update<T>(d: Seq<Container<T>>, i: int, c: Container<T>)
    requires
        1 <= i < d.len(),
    ensures
        #[trigger] cont_view(d.update(i, c)) == cont_view(d).update(i - 1, c.datum),
{
    assert(cont_view(d.update(i, c)) =~= cont_view(d).update(i - 1, c.datum));
}

/// The same slot-recycling container as `Freelist`, in an alternative
/// layout: internal cell 0 is a permanently vacant sentinel, so every
/// externally visible index is offset by one inside, and each cell keeps its
/// forwarding link beside the element instead of in its place.  The layout
/// pays one spare cell for extra constant-time operations: `replace`,
/// `swap_remove` and `delete`.
///
/// Abstractly (`self@`) it is the same model: one `Option` per external
/// cell, and a free chain `self.free_list()` ordered head first.
pub struct Freelist2<T> {
    data: Vec<Container<T>>,
    next: Option<usize>,
    free: Ghost<Seq<int>>,
}

impl<T> View for Freelist2<T> {
    type V = Seq<Option<T>>;

    closed spec fn view(&self) -> Seq<Option<T>> {
        cont_view(self.data@)
    }
}

impl<T> Freelist2<T> {
    /// The free chain: the external indices of the vacant cells, head first.
    pub closed spec fn free_list(&self) -> Seq<int> {
        self.free@
    }

    /// The container's invariant: the sentinel is vacant, the free chain
    /// names exactly the vacant external cells with no cell repeated, each
    /// link of the chain is stored beside the cell it leaves, and the
    /// chain-head register points at the first link.
    pub closed spec fn wf(&self) -> bool {
        &&& self.data@.len() >= 1
        &&& self.data@.len() == self@.len() + 1
        &&& self.data@[0].datum is None
        &&& self.free@.len() + num_live(self@) == self@.len()
        &&& (if self.free@.len() == 0 {
            self.next is None
        } else {
            self.next == Some((self.free@[0] + 1) as usize)
        })
        &&& forall|k: int| 0 <= k < self.free@.len() ==> 0 <= #[trigger] self.free@[k] < self@.len()
        &&& forall|k: int|
            0 <= k < self.free@.len() - 1 ==> self.data@[#[trigger] self.free@[k] + 1].next
                == Some((self.free@[k + 1] + 1) as usize)
        &&& (self.free@.len() > 0 ==> self.data@[self.free@.last() + 1].next is None)
        &&& forall|k1: int, k2: int|
            0 <= k1 < k2 < self.free@.len() ==> self.free@[k1] != self.free@[k2]
        &&& forall|e: int|
            0 <= e < self@.len() ==> ((#[trigger] self@[e]) is None <==> self.free@.contains(e))
    }

    /// A well-formed container is a consistent state of the abstract model.
    pub proof fn lemma_wf_implies_inv(&self)
        requires
            self.wf(),
        ensures
            crate::model::inv(self@, self.free_list()),
    {
    }

    /// Constructs an empty container: just the sentinel cell, no chain.
    pub fn new() -> (fl: Self)
        ensures
            fl.wf(),
            fl@ == Seq::<Option<T>>::empty(),
            fl.free_list() == Seq::<int>::empty(),
    {
        let mut data: Vec<Container<T>> = Vec::new();
        data.push(Container { datum: None, next: None });
        let fl = Freelist2 { data, next: None, free: Ghost(Seq::empty()) };
        proof {
            assert(fl@ =~= Seq::<Option<T>>::empty());
        }
        fl
    }

    /// Grows the storage so that `n` more cells fit without reallocating.
    pub fn reserve(&mut self, n: usize)
        requires
            old(self).wf(),
        ensures
            final(self).wf(),
            final(self)@ == old(self)@,
            final(self).free_list() == old(self).free_list(),
    {
        crate::vec_reserve_exact(&mut self.data, n);
    }

    /// Inserts `datum` into the first vacant cell, or into a fresh cell at
    /// the end when no cell is vacant, and returns the external index it
    /// now occupies.
    pub fn push(&mut self, datum: T) -> (idx: usize)
        requires
            old(self).wf(),
            old(self)@.len() + 1 < usize::MAX,
        ensures
            final(self).wf(),
            ({
                let (s2, f2, i2) = spec_push(old(self)@, old(self).free_list(), datum);
                final(self)@ == s2 && final(self).free_list() == f2 && idx as int == i2
            }),
            idx as int == spec_next_available(old(self)@, old(self).free_list()),
    {
        proof {
            broadcast use lemma_cont_view_update;

            lemma_num_live_le_len(old(self)@);
        }
        match self.next {
            None => {
                let ghost s = old(self)@;
                self.data.push(Container::new(datum));
                proof {
                    assert(self@ =~= s.push(Some(datum)));
                    lemma_live_values_push(s, Some(datum));
                    assert forall|e: int| 0 <= e < self@.len() implies ((#[trigger] self@[e])
                        is None <==> self.free@.contains(e)) by {
                        if e < s.len() {
                            assert(self@[e] == s[e]);
                        }
                    }
                }
                self.data.len() - 2
            },
            Some(internal) => {
                let ghost s = old(self)@;
                let ghost f = old(self).free_list();
                let ghost e0 = f[0];
                proof {
                    assert(internal == (e0 + 1) as usize);
                    assert(f.contains(e0));
                    assert(s[e0] is None);
                }
                let prev = exchange(
                    &mut self.data[internal],
                    Container { datum: Some(datum), next: None },
                );
                self.next = prev.next;
                self.free = Ghost(self.free@.drop_first());
                proof {
                    assert(self@ =~= s.update(e0, Some(datum)));
                    lemma_live_values_update(s, e0, Some(datum));
                    assert forall|e: int| 0 <= e < self@.len() implies (!((#[trigger] self@[e])
                        is Some) <==> self.free@.contains(e)) by {
                        lemma_chain_split(f, e);
                        if e == e0 {
                            if self.free@.contains(e0) {
                                let k = choose|k: int|
                                    0 <= k < self.free@.len() && self.free@[k] == e0;
                                assert(f[k + 1] == f[0]);
                            }
                        }
                    }
                    assert forall|k: int| 0 <= k < self.free@.len() - 1 implies self.data@[
                    #[trigger] self.free@[k] + 1].next == Some((self.free@[k + 1] + 1) as usize) by {
                        assert(self.free@[k] == f[k + 1]);
                        assert(f[k + 1] != f[0]);
                    }
                    if self.free@.len() > 0 {
                        assert(self.free@.last() == f.last());
                        assert(f.last() != f[0]);
                    } else {
                        assert(f.len() == 1);
                        assert(f.last() == f[0]);
                    }
                }
                internal - 1
            },
        }
    }

    /// Removes and returns the element at `idx`, making its cell the new
    /// head of the free chain.  A cell that is already vacant is left alone
    /// and yields `None`, so removing twice is harmless.
    pub fn remove(&mut self, idx: usize) -> (r: Option<T>)
        requires
            old(self).wf(),
            idx < old(self)@.len(),
        ensures
            final(self).wf(),
            ({
                let (s2, f2, r2) = spec_remove(old(self)@, old(self).free_list(), idx as int);
                final(self)@ == s2 && final(self).free_list() == f2 && r == r2
            }),
    {
        proof {
            vstd::std_specs::vec::axiom_spec_len(&self.data);
        }
        let internal = idx + 1;
        let node = &self.data[internal];
        if node.datum.is_some() {
            let taken = self.vacate(idx);
            proof {
                assert(taken is Some);
            }
            taken
        } else {
            None
        }
    }

    /// Removes and returns the element at `idx` without checking that the
    /// cell is live.  Callers must prove it; there is no run-time check and
    /// no `Option`.
    pub fn remove_unchecked(&mut self, idx: usize) -> (r: T)
        requires
            old(self).wf(),
            idx < old(self)@.len(),
            old(self)@[idx as int] is Some,
        ensures
            final(self).wf(),
            Some(r) == old(self)@[idx as int],
            final(self)@ == old(self)@.update(idx as int, None),
            final(self).free_list() == seq![idx as int] + old(self).free_list(),
    {
        let taken = self.vacate(idx);
        taken.unwrap()
    }

    /// Overwrites the element of a live cell in place and returns the old
    /// element; a vacant cell is rejected with `None` and nothing changes.
    pub fn replace(&mut self, idx: usize, datum: T) -> (r: Option<T>)
        requires
            old(self).wf(),
            idx < old(self)@.len(),
        ensures
            final(self).wf(),
            final(self).free_list() == old(self).free_list(),
            old(self)@[idx as int] is Some ==> r == old(self)@[idx as int] && final(self)@ == old(
                self,
            )@.update(idx as int, Some(datum)),
            old(self)@[idx as int] is None ==> r is None && final(self)@ == old(self)@,
    {
        proof {
            broadcast use lemma_cont_view_update;

            vstd::std_specs::vec::axiom_spec_len(&self.data);
        }
        let internal = idx + 1;
        let node = &self.data[internal];
        if node.datum.is_some() {
            let prev = exchange(
                &mut self.data[internal],
                Container { datum: Some(datum), next: None },
            );
            proof {
                assert(self@ =~= old(self)@.update(idx as int, Some(datum)));
                lemma_num_live_update_some(old(self)@, idx as int, datum);
                assert forall|e: int| 0 <= e < self@.len() implies ((#[trigger] self@[e]) is None
                    <==> self.free@.contains(e)) by {
                    if e != idx as int {
                        assert(self@[e] == old(self)@[e]);
                    }
                }
                assert forall|k: int| 0 <= k < self.free@.len() - 1 implies self.data@[
                #[trigger] self.free@[k] + 1].next == Some((self.free@[k + 1] + 1) as usize) by {
                    assert(!old(self).free@.contains(idx as int));
                    assert(self.free@[k] != idx as int);
                }
            }
            prev.datum
        } else {
            None
        }
    }

    /// Overwrites the element at `idx` in place and returns the old element,
    /// without checking that the cell is live.  Callers must prove it.
    pub fn replace_unchecked(&mut self, idx: usize, datum: T) -> (r: T)
        requires
            old(self).wf(),
            idx < old(self)@.len(),
            old(self)@[idx as int] is Some,
        ensures
            final(self).wf(),
            final(self).free_list() == old(self).free_list(),
            Some(r) == old(self)@[idx as int],
            final(self)@ == old(self)@.update(idx as int, Some(datum)),
    {
        let r = self.replace(idx, datum);
        r.unwrap()
    }

    /// Moves the element at `b` into cell `a`, vacates cell `b`, and
    /// returns the element that `a` held before the move.  Both cells must
    /// be live, else nothing changes and the result is `None`.  With
    /// `a == b` this simply removes the element.
    pub fn swap_remove(&mut self, a: usize, b: usize) -> (r: Option<T>)
        requires
            old(self).wf(),
            a < old(self)@.len(),
            b < old(self)@.len(),
        ensures
            final(self).wf(),
            old(self)@[a as int] is Some && old(self)@[b as int] is Some ==> r == old(self)@[a as int]
                && final(self).free_list() == seq![b as int] + old(self).free_list() && (if a == b {
                final(self)@ == old(self)@.update(a as int, None)
            } else {
                final(self)@ == old(self)@.update(a as int, old(self)@[b as int]).update(
                    b as int,
                    None,
                )
            }),
            !(old(self)@[a as int] is Some && old(self)@[b as int] is Some) ==> r is None && final(self)@ == old(self)@ && final(self).free_list() == old(self).free_list(),
    {
        proof {
            broadcast use lemma_cont_view_update;

            vstd::std_specs::vec::axiom_spec_len(&self.data);
        }
        let live_a = self.data[a + 1].datum.is_some();
        let live_b = self.data[b + 1].datum.is_some();
        if live_a && live_b {
            let taken_b = self.vacate(b);
            if a != b {
                let ghost mid = self@;
                let prev_a = exchange(
                    &mut self.data[a + 1],
                    Container { datum: taken_b, next: None },
                );
                proof {
                    assert(self@ =~= mid.update(a as int, old(self)@[b as int]));
                    assert(self@ =~= old(self)@.update(a as int, old(self)@[b as int]).update(
                        b as int,
                        None,
                    ));
                    assert(mid[a as int] == old(self)@[a as int]);
                    lemma_num_live_update_some(mid, a as int, old(self)@[b as int].unwrap());
                    assert forall|e: int| 0 <= e < self@.len() implies ((#[trigger] self@[e])
                        is None <==> self.free@.contains(e)) by {
                        if e != a as int {
                            assert(self@[e] == mid[e]);
                        }
                    }
                    assert forall|k: int| 0 <= k < self.free@.len() - 1 implies self.data@[
                    #[trigger] self.free@[k] + 1].next == Some((self.free@[k + 1] + 1) as usize) by {
                        assert(self.free@[k] != a as int);
                    }
                    if self.free@.len() > 0 {
                        assert(self.free@.last() != a as int);
                    }
                }
                prev_a.datum
            } else {
                taken_b
            }
        } else {
            None
        }
    }

    /// Moves the element at `b` into cell `a`, vacates cell `b`, and
    /// returns the element that `a` held, without checking that the cells
    /// are live.  Callers must prove both are.
    pub fn swap_remove_unchecked(&mut self, a: usize, b: usize) -> (r: T)
        requires
            old(self).wf(),
            a < old(self)@.len(),
            b < old(self)@.len(),
            old(self)@[a as int] is Some,
            old(self)@[b as int] is Some,
        ensures
            final(self).wf(),
            Some(r) == old(self)@[a as int],
            final(self).free_list() == seq![b as int] + old(self).free_list(),
            a == b ==> final(self)@ == old(self)@.update(a as int, None),
            a != b ==> final(self)@ == old(self)@.update(a as int, old(self)@[b as int]).update(
                b as int,
                None,
            ),
    {
        let r = self.swap_remove(a, b);
        r.unwrap()
    }

    /// Vacates the cell at `idx` and drops its element without handing it
    /// back.  A cell that is already vacant is left alone.
    pub fn delete(&mut self, idx: usize)
        requires
            old(self).wf(),
            idx < old(self)@.len(),
        ensures
            final(self).wf(),
            ({
                let (s2, f2, _r2) = spec_remove(old(self)@, old(self).free_list(), idx as int);
                final(self)@ == s2 && final(self).free_list() == f2
            }),
    {
        proof {
            vstd::std_specs::vec::axiom_spec_len(&self.data);
        }
        let node = &self.data[idx + 1];
        if node.datum.is_some() {
            let _dropped = self.vacate(idx);
        }
    }

    /// Vacates the cell at `idx` and drops its element, without checking
    /// that the cell is live.  Callers must prove it.
    pub fn delete_unchecked(&mut self, idx: usize)
        requires
            old(self).wf(),
            idx < old(self)@.len(),
            old(self)@[idx as int] is Some,
        ensures
            final(self).wf(),
            final(self)@ == old(self)@.update(idx as int, None),
            final(self).free_list() == seq![idx as int] + old(self).free_list(),
    {
        let _dropped = self.vacate(idx);
    }

    /// Borrows the element at `idx` without checking that the cell is live.
    /// Callers must prove it; there is no run-time check and no `Option`.
    pub fn get_unchecked(&self, idx: usize) -> (r: &T)
        requires
            self.wf(),
            idx < self@.len(),
            self@[idx as int] is Some,
        ensures
            Some(*r) == self@[idx as int],
    {
        proof {
            vstd::std_specs::vec::axiom_spec_len(&self.data);
        }
        let node = &self.data[idx + 1];
        match &node.datum {
            Some(v) => v,
            None => unreached(),
        }
    }

    /// Mutably borrows the element at `idx` without checking that the cell
    /// is live.  Callers must prove it.  The cell stays live: only its
    /// element can change through the borrow.
    pub fn get_unchecked_mut(&mut self, idx: usize) -> (r: &mut T)
        requires
            old(self).wf(),
            idx < old(self)@.len(),
            old(self)@[idx as int] is Some,
        ensures
            *r == old(self)@[idx as int].unwrap(),
            final(self)@ == old(self)@.update(idx as int, Some(*final(r))),
            final(self).free_list() == old(self).free_list(),
            final(self).wf(),
    {
        proof {
            broadcast use lemma_cont_view_update;
            broadcast use lemma_num_live_update_some;

            vstd::std_specs::vec::axiom_spec_len(&self.data);
        }
        let internal = idx + 1;
        let node = &mut self.data[internal];
        let d = &mut node.datum;
        match d.as_mut() {
            Some(v) => v,
            None => unreached(),
        }
    }

    /// Dismantles the container into a `Vec` of its live elements, in
    /// external index order; vacant cells and the sentinel are skipped.
    pub fn to_vec(self) -> (r: Vec<T>)
        requires
            self.wf(),
        ensures
            r@ == live_values(self@),
    {
        proof {
            broadcast use lemma_cont_view_update;

        }
        let ghost orig = self@;
        let Freelist2 { data, .. } = self;
        let mut data = data;
        let mut result: Vec<T> = Vec::new();
        let mut i: usize = 1;
        while i < data.len()
            invariant
                orig == self@,
                1 <= i <= data@.len(),
                data@.len() == orig.len() + 1,
                forall|j: int| i <= j < data@.len() ==> data@[j] == self.data@[j],
                result@ == live_values(orig.take(i - 1 as int)),
            decreases data@.len() - i,
        {
            proof {
                assert(orig.take(i as int) =~= orig.take(i - 1 as int).push(orig[i - 1 as int]));
                lemma_live_values_push(orig.take(i - 1 as int), orig[i - 1 as int]);
            }
            let node = exchange(&mut data[i], Container { datum: None, next: None });
            proof {
                assert(orig[i - 1 as int] == self.data@[i as int].datum);
            }
            match node.datum {
                Some(v) => {
                    result.push(v);
                    proof {
                        assert(result@ =~= live_values(orig.take(i as int)));
                    }
                },
                None => {
                    proof {
                        assert(result@ =~= live_values(orig.take(i as int)));
                    }
                },
            }
            i = i + 1;
        }
        proof {
            assert(orig.take(orig.len() as int) =~= orig);
        }
        result
    }

    /// Vacates the live cell at `idx`: threads it onto the free chain as
    /// the new head and hands its element back.
    fn vacate(&mut self, idx: usize) -> (r: Option<T>)
        requires
            old(self).wf(),
            idx < old(self)@.len(),
            old(self)@[idx as int] is Some,
        ensures
            final(self).wf(),
            r == old(self)@[idx as int],
            final(self)@ == old(self)@.update(idx as int, None),
            final(self).free_list() == seq![idx as int] + old(self).free_list(),
    {
        proof {
            broadcast use lemma_cont_view_update;

        }
        let ghost s = old(self)@;
        let ghost f = old(self).free_list();
        let ghost i = idx as int;
        proof {
            vstd::std_specs::vec::axiom_spec_len(&self.data);
            assert(!f.contains(i));
            assert(forall|k: int| 0 <= k < f.len() ==> #[trigger] f[k] != i);
            lemma_live_values_update(s, i, None);
        }
        let internal = idx + 1;
        let head = self.next;
        let taken = exchange(&mut self.data[internal], Container { datum: None, next: head });
        self.next = Some(internal);
        self.free = Ghost(seq![i] + self.free@);
        proof {
            assert(self@ =~= s.update(i, None));
            assert(self.free@[0] == i);
            assert(self.free@.drop_first() =~= f);
            assert forall|e: int| 0 <= e < self@.len() implies ((#[trigger] self@[e]) is None
                <==> self.free@.contains(e)) by {
                lemma_chain_cons(f, i, e);
            }
            assert forall|k: int| 0 <= k < self.free@.len() - 1 implies self.data@[
            #[trigger] self.free@[k] + 1].next == Some((self.free@[k + 1] + 1) as usize) by {
                if k > 0 {
                    assert(self.free@[k] == f[k - 1]);
                    assert(f[k - 1] != i);
                }
            }
            if f.len() == 0 {
                assert(self.free@.last() == i);
            } else {
                assert(self.free@.last() == f.last());
                assert(f.last() != i);
            }
        }
        taken.datum
    }
}

impl<T: Clone> Freelist2<T> {
    /// Clones the live elements into a `Vec`, in external index order,
    /// leaving the container untouched.  Each entry is whatever `T::clone`
    /// yields for the corresponding live element.
    pub fn clone_as_vec(&self) -> (r: Vec<T>)
        requires
            self.wf(),
        ensures
            r@.len() == live_values(self@).len(),
            forall|j: int|
                0 <= j < r@.len() ==> cloned::<T>(live_values(self@)[j], #[trigger] r@[j]),
    {
        let ghost s = self@;
        let mut result: Vec<T> = Vec::new();
        let n = self.size_internal();
        proof {
            vstd::std_specs::vec::axiom_spec_len(&self.data);
        }
        let mut i: usize = 1;
        while i <= n
            invariant
                self.wf(),
                s == self@,
                n == s.len(),
                n < usize::MAX,
                1 <= i <= self@.len() + 1,
                result@.len() == live_values(s.take(i - 1 as int)).len(),
                forall|j: int|
                    0 <= j < result@.len() ==> cloned::<T>(
                        live_values(s.take(i - 1 as int))[j],
                        #[trigger] result@[j],
                    ),
            decreases self@.len() + 1 - i,
        {
            proof {
                assert(s.take(i as int) =~= s.take(i - 1 as int).push(s[i - 1 as int]));
                lemma_live_values_push(s.take(i - 1 as int), s[i - 1 as int]);
            }
            let node = &self.data[i];
            match &node.datum {
                Some(v) => {
                    let c = v.clone();
                    result.push(c);
                },
                None => (),
            }
            i = i + 1;
        }
        proof {
            assert(s.take(s.len() as int) =~= s);
        }
        result
    }
}

impl<T> Freelist2<T> {
    /// The number of internal cells past the sentinel.
    fn size_internal(&self) -> (n: usize)
        requires
            self.wf(),
        ensures
            n == self@.len(),
    {
        self.data.len() - 1
    }
}

impl<T> From<Vec<T>> for Freelist2<T> {
    /// Builds a container whose external cells hold exactly the elements of
    /// `data`, all live, at their original positions, with nothing vacant.
    fn from(data: Vec<T>) -> (fl: Self)
        ensures
            fl.wf(),
            fl@ == Seq::new(data@.len(), |i: int| Some(data@[i])),
            fl.free_list() == Seq::<int>::empty(),
    {
        let ghost orig = data@;
        let slots = values_to_slots(data);
        let mut slots = slots;
        let mut cells: Vec<Container<T>> = Vec::new();
        cells.push(Container { datum: None, next: None });
        let mut i: usize = 0;
        while i < slots.len()
            invariant
                i <= slots@.len() == orig.len(),
                cells@.len() == i + 1,
                cells@[0].datum is None,
                forall|j: int| i <= j < slots@.len() ==> slots@[j] == Slot::Value(orig[j]),
                forall|j: int|
                    1 <= j < cells@.len() ==> (#[trigger] cells@[j]).datum == Some(orig[j - 1])
                        && cells@[j].next is None,
            decreases slots@.len() - i,
        {
            let sl = exchange(&mut slots[i], Slot::Empty);
            match sl {
                Slot::Value(v) => cells.push(Container::new(v)),
                _ => unreached(),
            }
            i = i + 1;
        }
        let fl = Freelist2 { data: cells, next: None, free: Ghost(Seq::empty()) };
        proof {
            assert(fl@ =~= Seq::new(orig.len(), |j: int| Some(orig[j])));
            lemma_live_values_all_some(fl@);
        }
        fl
    }
}

impl<T> vstd::std_specs::core::IndexSpecImpl<usize> for Freelist2<T> {
    open spec fn index_req(&self, index: &usize) -> bool {
        self.wf() && *index < self@.len() && self@[*index as int] is Some
    }
}

impl<T> core::ops::Index<usize> for Freelist2<T> {
    type Output = T;

    /// Borrows the element at `index`.  Callers must show the cell is live;
    /// `get_unchecked` carries the same contract under the usual name.
    fn index(&self, index: usize) -> (r: &T)
        ensures
            Some(*r) == self@[index as int],
    {
        self.get_unchecked(index)
    }
}

impl<T> core::ops::IndexMut<usize> for Freelist2<T> {
    /// Mutably borrows the element at `index`.  Callers must show the cell
    /// is live; the cell stays live and every other cell is untouched.
    fn index_mut(&mut self, index: usize) -> (r: &mut T)
        requires
            old(self).wf(),
            index < old(self)@.len(),
            old(self)@[index as int] is Some,
        ensures
            *r == old(self)@[index as int].unwrap(),
            final(self)@ == old(self)@.update(index as int, Some(*final(r))),
            final(self).free_list() == old(self).free_list(),
            final(self).wf(),
    {
        self.get_unchecked_mut(index)
    }
}

impl<T> vstd::std_specs::convert::FromSpecImpl<Vec<T>> for Freelist2<T> {
    open spec fn obeys_from_spec() -> bool {
        false
    }

    open spec fn from_spec(v: Vec<T>) -> Self {
        arbitrary()
    }
}

} // verus!
