use fffl::Freelist;

#[test]
fn new() {
    let list = Freelist::<i32>::new();
    assert_eq!(list.size(), 0);
    assert_eq!(list.filled(), 0);
    assert_eq!(list.next_available(), 0);
}

#[test]
fn lib_push() {
    let mut list = Freelist::<f32>::new();

    list.push(0.0);
    let idx = list.push(1.0);
    list.push(2.0);

    assert_eq!(idx, 1);
    assert_eq!(list.to_vec(), vec![0.0, 1.0, 2.0]);
}

#[test]
fn next_available() {
    let mut list = Freelist::from([0, 1]);
    assert_eq!(list.next_available(), 2);
    list.remove(0);
    assert_eq!(list.next_available(), 0);
}

#[test]
fn lib_remove() {
    let mut list = Freelist::from([0.0f32, 1.0, 2.0]);

    let removed = list.remove(1);
    let none_removed = list.remove(1);

    assert_eq!(removed, Some(1.0));
    assert_eq!(none_removed, None);
    assert_eq!(list.next_available(), 1);
    assert_eq!(list.get(0), Some(&0.0));
    assert_eq!(list.get(1), None);
    assert_eq!(list.get(2), Some(&2.0));
}

#[test]
fn remove_then_push() {
    let mut list = Freelist::from([0.0f32, 1.0, 2.0]);

    list.remove(1);
    list.push(3.0);

    assert_eq!(list.next_available(), 3);
    assert_eq!(list.to_vec(), vec![0.0, 3.0, 2.0]);
}

#[test]
fn remove_then_push_multiple() {
    let mut list = Freelist::from([0.0f32, 1.0, 2.0]);

    list.remove(1);
    list.remove(2);
    list.push(3.0);
    list.push(4.0);
    list.push(5.0);

    assert_eq!(list.next_available(), 4);
    assert_eq!(list.to_vec(), vec![0.0, 4.0, 3.0, 5.0]);
}

#[test]
fn clear() {
    let mut list = Freelist::from([0.0f32, 1.0, 2.0]);

    list.clear();
    assert_eq!(list.next_available(), 0);
    assert_eq!(list.size(), 0);
}

#[test]
fn reserve() {
    let mut list = Freelist::<i32>::new();
    list.reserve(16);
    assert_eq!(list.capacity(), 16);
}

#[test]
fn filled() {
    let mut list = Freelist::from([0, 1, 2, 3]);
    assert_eq!(list.filled(), 4);
    list.remove(2);
    assert_eq!(list.filled(), 3);
}

#[test]
fn size() {
    let mut list = Freelist::from([0, 1, 2, 3]);
    assert_eq!(list.size(), 4);
    list.remove(2);
    assert_eq!(list.size(), 4);
}

#[test]
fn free() {
    let mut list = Freelist::from([0, 1, 2, 3]);
    assert_eq!(list.free(), 0);
    list.remove(2);
    assert_eq!(list.free(), 1);
}

#[test]
fn get() {
    let mut list = Freelist::from([0, 1, 2, 3]);
    assert_eq!(list.get(2), Some(&2));
    list.remove(2);
    assert_eq!(list.get(2), None);
}

#[test]
fn get_mut() {
    let mut list = Freelist::from([0, 1, 2, 3]);
    assert_eq!(list.get_mut(2), Some(&mut 2));
    list.remove(2);
    assert_eq!(list.get_mut(2), None);
}

#[test]
fn get_unchecked() {
    let list = Freelist::from([0, 1, 2, 3]);
    assert_eq!(list.get_unchecked(2), &2);
}

#[test]
fn get_unchecked_mut() {
    let mut list = Freelist::from([0, 1, 2, 3]);
    assert_eq!(list.get_unchecked_mut(2), &mut 2);
}

#[test]
fn iter() {
    let arr = [0, 1, 2, 3];
    let mut list = Freelist::from(arr.clone());
    list.remove(1);
    let mut collected: Vec<i32> = Vec::new();
    let mut it = list.iter();
    while let Some(v) = it.next() {
        collected.push(*v);
    }
    assert_eq!([0, 2, 3].as_slice(), collected);
}

#[test]
fn iter_mut() {
    let arr = [0, 1, 2, 3];
    let mut list = Freelist::from(arr.clone());
    list.remove(1);
    let mut collected: Vec<i32> = Vec::new();
    let mut it = list.iter_mut();
    while let Some(v) = it.next(&mut list) {
        collected.push(*v);
    }
    assert_eq!([0, 2, 3].as_slice(), collected);
}

#[test]
fn default() {
    let list = Freelist::<i32>::default();
    let list2 = Freelist::<i32>::new();

    assert_eq!(list.size(), list2.size());
    assert_eq!(list.filled(), list2.filled());
    assert_eq!(list.next_available(), list2.next_available());
}

#[test]
fn index() {
    let list = Freelist::from([0, 1, 2]);
    assert_eq!(&list[1], &1);
}

#[test]
#[should_panic]
fn index_panic() {
    let mut list = Freelist::from([0, 1, 2]);
    list.remove(1);
    let _ = &list[1];
}

#[test]
fn index_mut() {
    let mut list = Freelist::from([0, 1, 2]);
    assert_eq!(&mut list[1], &mut 1);
}

#[test]
#[should_panic]
fn index_mut_panic() {
    let mut list = Freelist::from([0, 1, 2]);
    list.remove(1);
    let _ = &mut list[1];
}

#[test]
fn from_vec() {
    let list = Freelist::from(vec![0, 1, 2]);
    assert_eq!(list.to_vec(), [0, 1, 2]);
}

#[test]
fn from_arr() {
    let list = Freelist::from([0, 1, 2]);
    assert_eq!(list.to_vec(), [0, 1, 2]);
}

#[test]
fn into_iter() {
    let list = Freelist::from([0, 1, 2]);
    let mut it = list.into_iter();
    let mut collected: Vec<i32> = Vec::new();
    while let Some(v) = it.next() {
        collected.push(v);
    }
    assert_eq!(collected, [0, 1, 2]);
}

#[test]
fn from_iter() {
    let list = Freelist::from_iter(vec![0, 1, 2]);
    assert_eq!(list.to_vec(), [0, 1, 2]);
}

#[test]
fn double_ended_iter() {
    let mut iter = Freelist::from([0, 1, 2, 3]).into_iter();
    for i in [3, 2, 1, 0] {
        assert_eq!(iter.next_back(), Some(i))
    }
    assert_eq!(iter.next_back(), None);
}

#[test]
fn with_capacity() {
    let list = Freelist::<i32>::with_capacity(10);
    assert_eq!(list.capacity(), 10);
}

#[test]
fn to_vec() {
    let mut list = Freelist::from([1, 2, 3]);
    list.remove(1);
    assert_eq!(list.to_vec(), [1, 3]);
}

#[test]
fn compactify() {
    let mut list = Freelist::from([1, 2, 3, 4, 5, 6, 7]);
    list.remove(1);
    list.remove(3);
    list.remove(5);

    list.compactify();

    assert_eq!(list.free(), 0);
    assert_eq!(list.size(), 4);
    assert_eq!(list.to_vec(), [1, 7, 3, 5]);
}

#[test]
fn push_indices_sequential() {
    let mut list = Freelist::<i32>::new();
    for i in 0..5 {
        assert_eq!(list.push(i * 10), i as usize);
    }
    assert_eq!(list.filled(), 5);
}

#[test]
fn recycling_order() {
    let mut list = Freelist::from([10, 11, 12]);
    assert_eq!(list.remove(1), Some(11));
    assert_eq!(list.remove(2), Some(12));
    assert_eq!(list.push(20), 2);
    assert_eq!(list.push(21), 1);
    assert_eq!(list.get(0), Some(&10));
    assert_eq!(list.get(1), Some(&21));
    assert_eq!(list.get(2), Some(&20));
}

#[test]
fn capacity_accounting() {
    let mut list = Freelist::from([1, 2, 3, 4, 5]);
    list.remove(0);
    list.remove(2);
    list.remove(4);
    assert_eq!(list.free(), 3);
    let cap = list.capacity();
    list.reserve(3);
    assert_eq!(list.capacity(), cap);
}

#[test]
fn compactify_empty() {
    let mut list = Freelist::<i32>::new();
    list.compactify();
    assert_eq!(list.size(), 0);
    assert_eq!(list.free(), 0);
}

#[test]
fn compactify_all_removed() {
    let mut list = Freelist::from([1, 2]);
    list.remove(0);
    list.remove(1);
    list.compactify();
    assert_eq!(list.size(), 0);
    assert_eq!(list.free(), 0);
    assert_eq!(list.next_available(), 0);
}

#[test]
fn clear_then_reuse() {
    let mut list = Freelist::from([1, 2, 3]);
    list.clear();
    assert_eq!(list.push(9), 0);
    assert_eq!(list.to_vec(), [9]);
}
