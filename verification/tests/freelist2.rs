use fffl::Freelist2;

#[test]
fn from_and_to_vec() {
    let vec = vec![3, 14, 11, 42];
    let list = Freelist2::from(vec.clone());

    assert_eq!(vec, list.to_vec());
}

#[test]
fn freelist2_push() {
    let mut list = Freelist2::new();
    list.push(11);
    list.push(17);
    list.push(18);
    assert_eq!(vec![11, 17, 18], list.to_vec());
}

#[test]
fn freelist2_remove() {
    let mut list = Freelist2::new();
    list.push(11);
    list.push(17);
    list.push(18);
    list.remove(1);
    list.push(15);
    list.remove(0);
    list.remove(0);

    assert_eq!(vec![15, 18], list.to_vec());
}

#[test]
fn remove_unchecked() {
    let mut list = Freelist2::new();
    list.push(11);
    list.push(17);
    list.push(18);
    list.remove_unchecked(1);
    list.push(15);
    list.remove_unchecked(0);

    assert_eq!(vec![15, 18], list.to_vec());
}

#[test]
fn replace() {
    let mut list = Freelist2::from(vec![10, 13, 12]);

    let replaced = list.replace(1, 11);

    assert_eq!(replaced, Some(13));
    assert_eq!(vec![10, 11, 12], list.to_vec())
}

#[test]
fn replace_unchecked() {
    let mut list = Freelist2::from(vec![10, 13, 12]);
    let replaced = list.replace_unchecked(1, 11);

    assert_eq!(replaced, 13);
    assert_eq!(vec![10, 11, 12], list.to_vec())
}

#[test]
fn delete() {
    let mut list = Freelist2::from(vec![10, 13, 12]);

    let nothing = list.delete(2);
    list.delete(2);

    assert_eq!(nothing, ());
    assert_eq!(vec![10, 13], list.to_vec())
}

#[test]
fn delete_unchecked() {
    let mut list = Freelist2::from(vec![10, 13, 12]);

    let nothing = list.delete_unchecked(2);

    assert_eq!(nothing, ());
    assert_eq!(vec![10, 13], list.to_vec())
}

#[test]
fn swap_remove() {
    let mut list = Freelist2::from(vec![10, 13, 12, 42]);

    let removed = list.swap_remove(1, 2);
    assert_eq!(removed, Some(13));
    let removed = list.swap_remove(1, 2);
    assert_eq!(removed, None);

    assert_eq!(vec![10, 12, 42], list.to_vec())
}

#[test]
fn swap_remove_unchecked() {
    let mut list = Freelist2::from(vec![10, 13, 12, 42]);

    let removed = list.swap_remove_unchecked(1, 2);

    assert_eq!(removed, 13);
    assert_eq!(vec![10, 12, 42], list.to_vec())
}

#[test]
fn freelist2_recycles_lifo() {
    let mut list = Freelist2::from(vec![10, 11, 12]);
    assert_eq!(list.remove(1), Some(11));
    assert_eq!(list.remove(2), Some(12));
    assert_eq!(list.push(20), 2);
    assert_eq!(list.push(21), 1);
    assert_eq!(list.to_vec(), vec![10, 21, 20]);
}

#[test]
fn freelist2_get_unchecked() {
    let mut list = Freelist2::from(vec![4, 5, 6]);
    assert_eq!(list.get_unchecked(1), &5);
    *list.get_unchecked_mut(1) = 9;
    assert_eq!(list.to_vec(), vec![4, 9, 6]);
}

#[test]
fn clone_as_vec() {
    let mut list = Freelist2::from(vec![10, 13, 12]);
    list.delete(1);
    assert_eq!(list.clone_as_vec(), vec![10, 12]);
    assert_eq!(list.to_vec(), vec![10, 12]);
}

#[test]
fn freelist2_index() {
    let list = Freelist2::from(vec![10, 13, 12]);
    assert_eq!(&list[1], &13);
}

#[test]
fn freelist2_index_mut() {
    let mut list = Freelist2::from(vec![10, 13, 12]);
    list[1] = 11;
    assert_eq!(list.to_vec(), vec![10, 11, 12]);
}

#[test]
fn freelist2_reserve() {
    let mut list = Freelist2::from(vec![1, 2]);
    list.reserve(8);
    assert_eq!(list.to_vec(), vec![1, 2]);
}
