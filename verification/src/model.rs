use vstd::prelude::*;

verus! {

// The abstract model shared by both storage layouts.
//
// A container state is a pair: the contents `s` (one `Option` per cell, in
// index order) and the free chain `f` (the indices of the vacant cells, in
// the order the chain visits them, head first).  Every operation of the
// library is specified as a function of such a pair.

/// The sequence a single optional element contributes: one element or none.
pub open spec fn opt_seq<T>(o: Option<T>) -> Seq<T> {
    match o {
        Some(v) => seq![v],
        None => Seq::empty(),
    }
}

/// The live elements of the contents, in index order.
pub open spec fn live_values<T>(s: Seq<Option<T>>) -> Seq<T>
    decreases s.len(),
{
    if s.len() == 0 {
        Seq::empty()
    } else {
        opt_seq(s[0]) + live_values(s.drop_first())
    }
}

/// How many cells are live.
pub open spec fn num_live<T>(s: Seq<Option<T>>) -> nat {
    live_values(s).len()
}

/// What makes a contents/free-chain pair a consistent container state: the
/// chain indices are in bounds, visit no cell twice, and name exactly the
/// vacant cells; the live and vacant cells together fill the storage.
pub open spec fn inv<T>(s: Seq<Option<T>>, f: Seq<int>) -> bool {
    &&& forall|k: int| 0 <= k < f.len() ==> 0 <= #[trigger] f[k] < s.len()
    &&& forall|k1: int, k2: int| 0 <= k1 < k2 < f.len() ==> f[k1] != f[k2]
    &&& forall|i: int| 0 <= i < s.len() ==> ((#[trigger] s[i]) is None <==> f.contains(i))
    &&& num_live(s) + f.len() == s.len()
}

/// The index insertion hands out next: the chain head, or one past the end
/// when no cell is vacant.
pub open spec fn spec_next_available<T>(s: Seq<Option<T>>, f: Seq<int>) -> int {
    if f.len() == 0 {
        s.len() as int
    } else {
        f[0]
    }
}

/// Insertion: fill the chain head if there is one, else append a fresh cell.
/// Yields the new contents, the new chain, and the index handed out.
pub open spec fn spec_push<T>(s: Seq<Option<T>>, f: Seq<int>, v: T) -> (Seq<Option<T>>, Seq<
    int,
>, int) {
    if f.len() == 0 {
        (s.push(Some(v)), f, s.len() as int)
    } else {
        (s.update(f[0], Some(v)), f.drop_first(), f[0])
    }
}

/// Removal: vacate a live cell and make it the new chain head; a cell that is
/// already vacant is left alone.  Yields the new contents, the new chain, and
/// the element taken out, if any.
pub open spec fn spec_remove<T>(s: Seq<Option<T>>, f: Seq<int>, i: int) -> (Seq<Option<T>>, Seq<
    int,
>, Option<T>) {
    if s[i] is Some {
        (s.update(i, None), seq![i] + f, s[i])
    } else {
        (s, f, None)
    }
}

/// The index of the first live cell in `[lo, hi)`, or `hi` when every cell
/// there is vacant.
pub open spec fn first_live<T>(s: Seq<Option<T>>, lo: int, hi: int) -> int
    decreases hi - lo,
{
    if lo >= hi {
        hi
    } else if s[lo] is Some {
        lo
    } else {
        first_live(s, lo + 1, hi)
    }
}

/// The index of the last live cell in `[lo, hi)`, or `lo - 1` when every
/// cell there is vacant.
pub open spec fn last_live<T>(s: Seq<Option<T>>, lo: int, hi: int) -> int
    decreases hi - lo,
{
    if hi <= lo {
        lo - 1
    } else if s[hi - 1] is Some {
        hi - 1
    } else {
        last_live(s, lo, hi - 1)
    }
}

/// One two-cursor compaction pass between `front` and `back`: the forward
/// cursor seeks the next hole, the backward cursor the last live cell, and
/// each hole is overwritten with that cell's element until the cursors
/// cross.  This fixes exactly where compaction places every element.
pub open spec fn spec_compact<T>(s: Seq<Option<T>>, front: int, back: int) -> Seq<Option<T>>
    recommends
        0 <= front <= back <= s.len(),
    decreases back - front,
{
    if front >= back {
        s
    } else if s[front] is Some {
        spec_compact(s, front + 1, back)
    } else if s[back - 1] is None {
        spec_compact(s, front, back - 1)
    } else {
        spec_compact(s.update(front, s[back - 1]).update(back - 1, None), front + 1, back - 1)
    }
}

/// What compaction leaves behind: the two-cursor pass over all cells,
/// truncated to the live count.
pub open spec fn spec_compactify<T>(s: Seq<Option<T>>) -> Seq<Option<T>> {
    spec_compact(s, 0, s.len() as int).take(num_live(s) as int)
}

/// A whole run of insertions, one after the other.  Yields the final
/// contents, the final chain, and the indices handed out, in order.
pub open spec fn spec_push_all<T>(s: Seq<Option<T>>, f: Seq<int>, vs: Seq<T>) -> (Seq<Option<T>>,
    Seq<int>,
    Seq<int>,
)
    decreases vs.len(),
{
    if vs.len() == 0 {
        (s, f, Seq::empty())
    } else {
        let (s1, f1, i1) = spec_push(s, f, vs[0]);
        let (s2, f2, idxs) = spec_push_all(s1, f1, vs.drop_first());
        (s2, f2, seq![i1] + idxs)
    }
}

/// A whole run of removals, one index after the other.  Yields the final
/// contents and the final chain.
pub open spec fn spec_remove_all<T>(s: Seq<Option<T>>, f: Seq<int>, idxs: Seq<int>) -> (Seq<
    Option<T>,
>, Seq<int>)
    decreases idxs.len(),
{
    if idxs.len() == 0 {
        (s, f)
    } else {
        let (s1, f1, _r) = spec_remove(s, f, idxs[0]);
        spec_remove_all(s1, f1, idxs.drop_first())
    }
}

// ---------------------------------------------------------------------------
// The laws of the container.
// ---------------------------------------------------------------------------

/// With no vacant cell to recycle, a run of insertions is handed the fresh
/// indices `len, len + 1, len + 2, ...` in order, the chain stays empty, and
/// each insertion raises the live count by one.  Starting from an empty
/// container, the indices are `0, 1, 2, ...` and the live count equals the
/// number of insertions.
pub proof fn lemma_push_run_fresh_indices<T>(s: Seq<Option<T>>, vs: Seq<T>)
    ensures
        ({
            let (s2, f2, idxs) = spec_push_all(s, Seq::<int>::empty(), vs);
            &&& idxs == Seq::new(vs.len(), |k: int| s.len() + k)
            &&& f2 == Seq::<int>::empty()
            &&& s2.len() == s.len() + vs.len()
            &&& num_live(s2) == num_live(s) + vs.len()
        }),
    decreases vs.len(),
{
    let (s2, f2, idxs) = spec_push_all(s, Seq::<int>::empty(), vs);
    if vs.len() == 0 {
        assert(idxs =~= Seq::new(vs.len(), |k: int| s.len() + k));
    } else {
        let s1 = s.push(Some(vs[0]));
        lemma_live_values_push(s, Some(vs[0]));
        lemma_push_run_fresh_indices(s1, vs.drop_first());
        let (s2r, f2r, idxs_r) = spec_push_all(s1, Seq::<int>::empty(), vs.drop_first());
        assert(idxs == seq![s.len() as int] + idxs_r);
        assert(idxs =~= Seq::new(vs.len(), |k: int| s.len() + k));
    }
}

/// Removing the same index twice, with no insertion in between, takes the
/// element out once: the second removal yields nothing and changes nothing.
pub proof fn lemma_remove_idempotent<T>(s: Seq<Option<T>>, f: Seq<int>, i: int)
    requires
        0 <= i < s.len(),
    ensures
        ({
            let (s1, f1, _r1) = spec_remove(s, f, i);
            let (s2, f2, r2) = spec_remove(s1, f1, i);
            &&& r2 is None
            &&& s2 == s1
            &&& f2 == f1
        }),
{
}

/// Vacated cells are reused last-in, first-out: after removing live indices
/// `i` then `j`, the next insertion lands on `j` and the one after it on
/// `i`, the chain is back to what it was, and only those two cells changed.
pub proof fn lemma_recycle_lifo<T>(s: Seq<Option<T>>, f: Seq<int>, i: int, j: int, a: T, b: T)
    requires
        0 <= i < s.len(),
        0 <= j < s.len(),
        i != j,
        s[i] is Some,
        s[j] is Some,
    ensures
        ({
            let (s1, f1, _ri) = spec_remove(s, f, i);
            let (s2, f2, _rj) = spec_remove(s1, f1, j);
            let (s3, f3, ia) = spec_push(s2, f2, a);
            let (s4, f4, ib) = spec_push(s3, f3, b);
            &&& ia == j
            &&& ib == i
            &&& f4 == f
            &&& s4 == s.update(j, Some(a)).update(i, Some(b))
        }),
{
    let (s1, f1, _ri) = spec_remove(s, f, i);
    let (s2, f2, _rj) = spec_remove(s1, f1, j);
    let (s3, f3, ia) = spec_push(s2, f2, a);
    let (s4, f4, ib) = spec_push(s3, f3, b);
    assert(f2 == seq![j] + (seq![i] + f));
    assert(f2[0] == j);
    assert(f3 =~= seq![i] + f);
    assert(f3[0] == i);
    assert(f4 =~= f);
    assert(s4 =~= s.update(j, Some(a)).update(i, Some(b)));
}

/// Removing `m` distinct live indices leaves exactly `m` more vacant cells
/// than before, with the storage length unchanged; from a container with no
/// vacant cell, exactly `m`.
pub proof fn lemma_remove_all_free_count<T>(s: Seq<Option<T>>, f: Seq<int>, idxs: Seq<int>)
    requires
        forall|k: int| 0 <= k < idxs.len() ==> 0 <= #[trigger] idxs[k] < s.len(),
        forall|k: int| 0 <= k < idxs.len() ==> s[#[trigger] idxs[k]] is Some,
        forall|k1: int, k2: int| 0 <= k1 < k2 < idxs.len() ==> idxs[k1] != idxs[k2],
    ensures
        ({
            let (s2, f2) = spec_remove_all(s, f, idxs);
            &&& f2.len() == f.len() + idxs.len()
            &&& s2.len() == s.len()
        }),
    decreases idxs.len(),
{
    if idxs.len() > 0 {
        let i0 = idxs[0];
        let (s1, f1, _r) = spec_remove(s, f, i0);
        let rest = idxs.drop_first();
        assert forall|k: int| 0 <= k < rest.len() implies 0 <= #[trigger] rest[k] < s1.len()
            && s1[rest[k]] is Some by {
            assert(rest[k] == idxs[k + 1]);
            assert(idxs[k + 1] != idxs[0]);
        }
        assert forall|k1: int, k2: int| 0 <= k1 < k2 < rest.len() implies rest[k1] != rest[k2] by {
            assert(rest[k1] == idxs[k1 + 1]);
            assert(rest[k2] == idxs[k2 + 1]);
        }
        lemma_remove_all_free_count(s1, f1, rest);
    }
}

/// A container built from a sequence of elements reads back as exactly that
/// sequence: every element is live at its original position, so a full
/// owning traversal yields the sequence unchanged.
pub proof fn lemma_from_roundtrip<T>(vs: Seq<T>)
    ensures
        live_values(Seq::new(vs.len(), |i: int| Some(vs[i]))) == vs,
{
    let s = Seq::new(vs.len(), |i: int| Some(vs[i]));
    lemma_live_values_all_some(s);
    assert(live_values(s) =~= vs);
}

// ---------------------------------------------------------------------------
// Facts about chain membership.
// ---------------------------------------------------------------------------

/// A chain contains an index exactly when its head is that index or its tail
/// contains it.
pub proof fn lemma_chain_split(f: Seq<int>, x: int)
    requires
        f.len() > 0,
    ensures
        f.contains(x) <==> (x == f[0] || f.drop_first().contains(x)),
{
    if f.contains(x) {
        let k = choose|k: int| 0 <= k < f.len() && f[k] == x;
        if k > 0 {
            assert(f.drop_first()[k - 1] == x);
        }
    }
    if f.drop_first().contains(x) {
        let k = choose|k: int| 0 <= k < f.drop_first().len() && f.drop_first()[k] == x;
        assert(f[k + 1] == x);
    }
    if x == f[0] {
        assert(f[0] == x);
    }
}

/// Putting a new head on a chain adds exactly that index to its members.
pub proof fn lemma_chain_cons(f: Seq<int>, i: int, x: int)
    ensures
        (seq![i] + f).contains(x) <==> (x == i || f.contains(x)),
{
    let g = seq![i] + f;
    assert(g[0] == i);
    assert(g.drop_first() =~= f);
    lemma_chain_split(g, x);
}

// ---------------------------------------------------------------------------
// Facts about `live_values`.
// ---------------------------------------------------------------------------

/// The live elements of a concatenation are the live elements of the parts.
pub proof fn lemma_live_values_concat<T>(a: Seq<Option<T>>, b: Seq<Option<T>>)
    ensures
        live_values(a + b) == live_values(a) + live_values(b),
    decreases a.len(),
{
    if a.len() == 0 {
        assert(a + b =~= b);
        assert(live_values(a) + live_values(b) =~= live_values(b));
    } else {
        lemma_live_values_concat(a.drop_first(), b);
        assert((a + b).drop_first() =~= a.drop_first() + b);
        assert(opt_seq((a + b)[0]) + (live_values(a.drop_first()) + live_values(b)) =~= (opt_seq(
            a[0],
        ) + live_values(a.drop_first())) + live_values(b));
    }
}

/// A single cell contributes exactly its own element, if any.
pub proof fn lemma_live_values_singleton<T>(o: Option<T>)
    ensures
        live_values(seq![o]) == opt_seq(o),
{
    reveal_with_fuel(live_values, 2);
    assert(seq![o].drop_first() =~= Seq::<Option<T>>::empty());
    assert(live_values(seq![o]) =~= opt_seq(o));
}

/// Appending one cell appends its contribution.
pub proof fn lemma_live_values_push<T>(s: Seq<Option<T>>, o: Option<T>)
    ensures
        live_values(s.push(o)) == live_values(s) + opt_seq(o),
{
    assert(s.push(o) =~= s + seq![o]);
    lemma_live_values_concat(s, seq![o]);
    lemma_live_values_singleton(o);
}

/// The live elements decompose around any index: those before it, its own
/// contribution, and those after it.
pub proof fn lemma_live_values_split<T>(s: Seq<Option<T>>, i: int)
    requires
        0 <= i < s.len(),
    ensures
        live_values(s) == live_values(s.take(i)) + opt_seq(s[i]) + live_values(s.skip(i + 1)),
{
    assert(s =~= s.take(i) + seq![s[i]] + s.skip(i + 1));
    lemma_live_values_concat(s.take(i) + seq![s[i]], s.skip(i + 1));
    lemma_live_values_concat(s.take(i), seq![s[i]]);
    lemma_live_values_singleton(s[i]);
}

/// Rewriting one cell only replaces its own contribution.
pub proof fn lemma_live_values_update<T>(s: Seq<Option<T>>, i: int, o: Option<T>)
    requires
        0 <= i < s.len(),
    ensures
        live_values(s.update(i, o)) == live_values(s.take(i)) + opt_seq(o) + live_values(
            s.skip(i + 1),
        ),
        live_values(s) == live_values(s.take(i)) + opt_seq(s[i]) + live_values(s.skip(i + 1)),
{
    lemma_live_values_split(s, i);
    lemma_live_values_split(s.update(i, o), i);
    assert(s.update(i, o).take(i) =~= s.take(i));
    assert(s.update(i, o).skip(i + 1) =~= s.skip(i + 1));
}

/// Replacing the element of a live cell does not change how many cells are
/// live.
pub broadcast proof fn lemma_num_live_update_some<T>(s: Seq<Option<T>>, i: int, x: T)
    requires
        0 <= i < s.len(),
        s[i] is Some,
    ensures
        #[trigger] num_live(s.update(i, Some(x))) == num_live(s),
{
    lemma_live_values_update(s, i, Some(x));
}

/// A contents sequence whose cells are all live reads back as its elements.
pub proof fn lemma_live_values_all_some<T>(s: Seq<Option<T>>)
    requires
        forall|i: int| 0 <= i < s.len() ==> (#[trigger] s[i]) is Some,
    ensures
        live_values(s) == Seq::new(s.len(), |i: int| s[i].unwrap()),
    decreases s.len(),
{
    if s.len() == 0 {
        assert(live_values(s) =~= Seq::new(s.len(), |i: int| s[i].unwrap()));
    } else {
        lemma_live_values_all_some(s.drop_first());
        assert(live_values(s) =~= Seq::new(s.len(), |i: int| s[i].unwrap()));
    }
}

/// A contents sequence whose cells are all vacant has no live elements.
pub proof fn lemma_live_values_all_none<T>(s: Seq<Option<T>>)
    requires
        forall|i: int| 0 <= i < s.len() ==> (#[trigger] s[i]) is None,
    ensures
        live_values(s) == Seq::<T>::empty(),
    decreases s.len(),
{
    if s.len() > 0 {
        lemma_live_values_all_none(s.drop_first());
        assert(live_values(s) =~= Seq::<T>::empty());
    }
}

/// Moving one live element into a vacant cell preserves the collection of
/// live elements and their number.
pub proof fn lemma_live_values_relocate<T>(s: Seq<Option<T>>, hole: int, plug: int)
    requires
        0 <= hole < s.len(),
        0 <= plug < s.len(),
        hole != plug,
        s[hole] is None,
        s[plug] is Some,
    ensures
        ({
            let s2 = s.update(plug, None).update(hole, Some(s[plug].unwrap()));
            &&& live_values(s2).to_multiset() == live_values(s).to_multiset()
            &&& num_live(s2) == num_live(s)
        }),
{
    broadcast use vstd::multiset::group_multiset_axioms;

    let v = s[plug].unwrap();
    let s1 = s.update(plug, None);
    let s2 = s1.update(hole, Some(v));
    lemma_live_values_update(s, plug, None);
    lemma_live_values_update(s1, hole, Some(v));
    let p = live_values(s.take(plug));
    let q = live_values(s.skip(plug + 1));
    let x = live_values(s1.take(hole));
    let y = live_values(s1.skip(hole + 1));
    assert(live_values(s) == p + seq![v] + q);
    assert(live_values(s1) =~= p + q);
    assert(s1[hole] == s[hole]);
    assert(live_values(s1) =~= x + y);
    assert(live_values(s2) == x + seq![v] + y);
    assert(p + q == x + y);
    assert((p + q).len() == (x + y).len());
    vstd::seq_lib::lemma_multiset_commutative(p + seq![v], q);
    vstd::seq_lib::lemma_multiset_commutative(p, seq![v]);
    vstd::seq_lib::lemma_multiset_commutative(x + seq![v], y);
    vstd::seq_lib::lemma_multiset_commutative(x, seq![v]);
    vstd::seq_lib::lemma_multiset_commutative(p, q);
    vstd::seq_lib::lemma_multiset_commutative(x, y);
    assert forall|e: T|
        live_values(s2).to_multiset().count(e) == live_values(s).to_multiset().count(e) by {
        assert((p + q).to_multiset().count(e) == (x + y).to_multiset().count(e));
        assert(p.to_multiset().count(e) + q.to_multiset().count(e) == x.to_multiset().count(e)
            + y.to_multiset().count(e));
        assert(live_values(s2).to_multiset().count(e) == x.to_multiset().count(e)
            + seq![v].to_multiset().count(e) + y.to_multiset().count(e));
        assert(live_values(s).to_multiset().count(e) == p.to_multiset().count(e)
            + seq![v].to_multiset().count(e) + q.to_multiset().count(e));
    }
    assert(live_values(s2).to_multiset() =~= live_values(s).to_multiset());
}

/// There are never more live elements than cells.
pub proof fn lemma_num_live_le_len<T>(s: Seq<Option<T>>)
    ensures
        num_live(s) <= s.len(),
    decreases s.len(),
{
    if s.len() > 0 {
        lemma_num_live_le_len(s.drop_first());
    }
}

} // verus!
