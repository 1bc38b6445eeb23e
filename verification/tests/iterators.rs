use fffl::{Freelist, IterFl, IterMutFl, Slot};

fn skip_slice() -> Vec<Slot<i32>> {
    vec![Slot::Empty, Slot::Value(1), Slot::Next(0), Slot::Value(2)]
}

fn all_slice() -> Vec<Slot<i32>> {
    vec![Slot::Value(0), Slot::Value(1), Slot::Value(2)]
}

// A freelist with the same live pattern as `skip_slice`: cells 0 and 2
// vacant, cell 1 holding 1, cell 3 holding 2.
fn skip_freelist() -> Freelist<i32> {
    let mut fl = Freelist::from([0, 1, 0, 2]);
    fl.remove(2);
    fl.remove(0);
    fl
}

#[test]
fn iter_next() {
    let slice = skip_slice();
    let mut iter = IterFl::new(&slice);

    assert_eq!(iter.next(), Some(&1));
    assert_eq!(iter.next(), Some(&2));
    assert_eq!(iter.next(), None);

    let slice = all_slice();
    let mut iter = IterFl::new(&slice);
    for i in [0, 1, 2] {
        assert_eq!(iter.next(), Some(&i));
    }
    assert_eq!(iter.next(), None);
}

#[test]
fn iter_next_back() {
    let slice = skip_slice();
    let mut iter = IterFl::new(&slice);

    assert_eq!(iter.next_back(), Some(&2));
    assert_eq!(iter.next_back(), Some(&1));
    assert_eq!(iter.next_back(), None);

    let slice = all_slice();
    let mut iter = IterFl::new(&slice);
    for i in [2, 1, 0] {
        assert_eq!(iter.next_back(), Some(&i));
    }
    assert_eq!(iter.next_back(), None);
}

#[test]
fn iter_size_hint() {
    let slice = skip_slice();
    let mut iter = IterFl::new(&slice);

    assert_eq!(iter.size_hint(), (4, Some(4)));
    iter.next();
    assert_eq!(iter.size_hint(), (2, Some(2)));
}

#[test]
fn iter_mut_next() {
    let mut fl = skip_freelist();
    let mut iter = IterMutFl::new(&fl);

    assert_eq!(iter.next(&mut fl), Some(&mut 1));
    assert_eq!(iter.next(&mut fl), Some(&mut 2));
    assert_eq!(iter.next(&mut fl), None);

    let mut fl = Freelist::from([0, 1, 2]);
    let mut iter = IterMutFl::new(&fl);
    for mut i in [0, 1, 2] {
        assert_eq!(iter.next(&mut fl), Some(&mut i));
    }
    assert_eq!(iter.next(&mut fl), None);
}

#[test]
fn iter_mut_next_back() {
    let mut fl = skip_freelist();
    let mut iter = IterMutFl::new(&fl);

    assert_eq!(iter.next_back(&mut fl), Some(&mut 2));
    assert_eq!(iter.next_back(&mut fl), Some(&mut 1));
    assert_eq!(iter.next_back(&mut fl), None);

    let mut fl = Freelist::from([0, 1, 2]);
    let mut iter = IterMutFl::new(&fl);
    for mut i in [2, 1, 0] {
        assert_eq!(iter.next_back(&mut fl), Some(&mut i));
    }
    assert_eq!(iter.next(&mut fl), None);
}

#[test]
fn iter_mut_size_hint() {
    let mut fl = skip_freelist();
    let mut iter = IterMutFl::new(&fl);
    assert_eq!(iter.size_hint(), (4, Some(4)));
    iter.next(&mut fl);
    assert_eq!(iter.size_hint(), (2, Some(2)));
}

#[test]
fn update_value() {
    let mut fl = skip_freelist();
    let mut iter = IterMutFl::new(&fl);
    *iter.next(&mut fl).unwrap() = 11;
    assert_eq!(fl.get(1), Some(&11));
}

#[test]
fn into_iter_next() {
    let mut fl = Freelist::from([0, 1, 1, 2]);
    fl.remove(0);
    fl.remove(2);
    let mut iter = fl.into_iter();

    assert_eq!(iter.next(), Some(1));
    assert_eq!(iter.next(), Some(2));
    assert_eq!(iter.next(), None);

    let mut iter = Freelist::from([0, 1, 2]).into_iter();
    for i in [0, 1, 2] {
        assert_eq!(iter.next(), Some(i));
    }
    assert_eq!(iter.next(), None);
}

#[test]
fn into_iter_next_back() {
    let mut fl = Freelist::from([0, 1, 1, 2]);
    fl.remove(0);
    fl.remove(2);
    let mut iter = fl.into_iter();

    assert_eq!(iter.next_back(), Some(2));
    assert_eq!(iter.next_back(), Some(1));
    assert_eq!(iter.next_back(), None);

    let mut iter = Freelist::from([0, 1, 2]).into_iter();
    for i in [2, 1, 0] {
        assert_eq!(iter.next_back(), Some(i));
    }
    assert_eq!(iter.next_back(), None);
}

#[test]
fn into_iter_size_hint() {
    let mut fl = Freelist::from([0, 1, 1, 2]);
    fl.remove(0);
    fl.remove(2);
    let mut iter = fl.into_iter();
    assert_eq!(iter.size_hint(), (4, Some(4)));
    iter.next();
    assert_eq!(iter.size_hint(), (2, Some(2)));
}

#[test]
fn iter_meets_in_the_middle() {
    let slice = vec![
        Slot::Value(1),
        Slot::Next(0),
        Slot::Value(2),
        Slot::Empty,
        Slot::Value(3),
    ];
    let mut iter = IterFl::new(&slice);
    assert_eq!(iter.next(), Some(&1));
    assert_eq!(iter.next_back(), Some(&3));
    assert_eq!(iter.next(), Some(&2));
    assert_eq!(iter.next_back(), None);
    assert_eq!(iter.next(), None);
}

#[test]
fn freelist_iter_drains_in_order() {
    let mut fl = Freelist::from([5, 6, 7]);
    fl.remove(1);
    let mut iter = fffl::FreelistIter::new(fl);
    assert_eq!(iter.size_hint().0, 0);
    assert_eq!(iter.next(), Some(5));
    assert_eq!(iter.next_back(), Some(7));
    assert_eq!(iter.next(), None);
}
