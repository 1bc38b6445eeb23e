use vstd::prelude::*;

verus! {

/// One cell of a freelist's backing storage.
///
/// A cell either holds a live element, or it is vacant.  A vacant cell is
/// itself a link of the free chain: `Next(i)` forwards to the next vacant
/// cell, and `Empty` is the terminal link.  `Empty` is also the state of the
/// chain-head register of a container from which nothing was ever removed.
#[derive(Clone, Debug, PartialEq)]
pub enum Slot<T> {
    /// A live element.
    Value(T),
    /// A vacant cell holding the index of the next vacant cell.
    Next(usize),
    /// The terminal vacant cell of the free chain.
    Empty,
}

/// What a single cell contributes to the abstract contents: its element if
/// the cell is live, nothing otherwise.
pub open spec fn slot_opt<T>(s: Slot<T>) -> Option<T> {
    match s {
        Slot::Value(v) => Some(v),
        _ => None,
    }
}

/// The abstract contents of a cell sequence, cell by cell: `Some(v)` where a
/// cell is live, `None` where it is vacant.
pub open spec fn slots_view<T>(s: Seq<Slot<T>>) -> Seq<Option<T>> {
    Seq::new(s.len(), |i: int| slot_opt(s[i]))
}

impl<T> Slot<T> {
    /// Moves the element of a live cell out, wrapped in `Some`.
    ///
    /// Callers must prove the cell is live; there is no run-time check.
    pub fn to_some_unchecked(self) -> (r: Option<T>)
        requires
            self is Value,
        ensures
            r == Some(self->Value_0),
    {
        match self {
            Slot::Value(v) => Some(v),
            _ => unreached(),
        }
    }

    /// Borrows the element of a live cell.
    ///
    /// Callers must prove the cell is live; there is no run-time check.
    pub fn as_value_unchecked(&self) -> (r: &T)
        requires
            self is Value,
        ensures
            *r == self->Value_0,
    {
        match self {
            Slot::Value(v) => v,
            _ => unreached(),
        }
    }

    /// Mutably borrows the element of a live cell.
    ///
    /// Callers must prove the cell is live; there is no run-time check.
    /// The cell stays live: only its element can change through the borrow.
    pub fn as_value_unchecked_mut(&mut self) -> (r: &mut T)
        requires
            *old(self) is Value,
        ensures
            *r == (*old(self))->Value_0,
            *final(self) == Slot::Value(*final(r)),
    {
        match self {
            Slot::Value(v) => v,
            _ => unreached(),
        }
    }

    /// Whether the cell holds a live element.
    pub fn is_value(&self) -> (b: bool)
        ensures
            b == (self is Value),
    {
        if let Slot::Value(_) = self {
            true
        } else {
            false
        }
    }

    /// Moves the cell's element out, if it is live.
    pub fn into_option(self) -> (r: Option<T>)
        ensures
            r == slot_opt(self),
    {
        match self {
            Slot::Value(v) => Some(v),
            _ => None,
        }
    }
}

impl<T> From<T> for Slot<T> {
    /// Wraps an element in a live cell.
    fn from(value: T) -> (r: Self)
        ensures
            r == Slot::Value(value),
    {
        Slot::Value(value)
    }
}

impl<T> vstd::std_specs::convert::FromSpecImpl<T> for Slot<T> {
    open spec fn obeys_from_spec() -> bool {
        true
    }

    open spec fn from_spec(v: T) -> Self {
        Slot::Value(v)
    }
}

impl<T> From<Slot<T>> for Option<T> {
    /// Reads a cell as its contribution: the element of a live cell, or
    /// nothing for a vacant one.
    fn from(value: Slot<T>) -> (r: Self)
        ensures
            r == slot_opt(value),
    {
        match value {
            Slot::Value(v) => Some(v),
            _ => None,
        }
    }
}

impl<T> vstd::std_specs::convert::FromSpecImpl<Slot<T>> for Option<T> {
    open spec fn obeys_from_spec() -> bool {
        true
    }

    open spec fn from_spec(v: Slot<T>) -> Self {
        slot_opt(v)
    }
}

/// Re-wraps a vector of elements as a vector of live cells, in order.
pub(crate) fn values_to_slots<T>(data: Vec<T>) -> (r: Vec<Slot<T>>)
    ensures
        r@.len() == data@.len(),
        forall|i: int| 0 <= i < r@.len() ==> r@[i] == Slot::Value(data@[i]),
{
    let ghost orig = data@;
    let mut data = data;
    let mut rev: Vec<T> = Vec::new();
    while data.len() > 0
        invariant
            rev@.len() + data@.len() == orig.len(),
            forall|j: int| 0 <= j < data@.len() ==> data@[j] == orig[j],
            forall|j: int| 0 <= j < rev@.len() ==> rev@[j] == orig[orig.len() - 1 - j],
        decreases data@.len(),
    {
        let v = data.pop().unwrap();
        rev.push(v);
    }
    let mut slots: Vec<Slot<T>> = Vec::new();
    while rev.len() > 0
        invariant
            rev@.len() + slots@.len() == orig.len(),
            forall|j: int| 0 <= j < rev@.len() ==> rev@[j] == orig[orig.len() - 1 - j],
            forall|j: int| 0 <= j < slots@.len() ==> slots@[j] == Slot::Value(orig[j]),
        decreases rev@.len(),
    {
        let v = rev.pop().unwrap();
        slots.push(Slot::Value(v));
    }
    slots
}

/// Rewriting one cell rewrites one entry of the abstract contents.
pub broadcast proof fn lemma_slots_view_update<T>(s: Seq<Slot<T>>, i: int, sl: Slot<T>)
    requires
        0 <= i < s.len(),
    ensures
        #[trigger] slots_view(s.update(i, sl)) == slots_view(s).update(i, slot_opt(sl)),
{
    assert(slots_view(s.update(i, sl)) =~= slots_view(s).update(i, slot_opt(sl)));
}

/// Swaps `value` into the referenced place and hands the displaced value back.
pub(crate) fn exchange<A>(dest: &mut A, value: A) -> (prev: A)
    ensures
        prev == *old(dest),
        *final(dest) == value,
{
    let mut value = value;
    core::mem::swap(dest, &mut value);
    value
}

} // verus!
