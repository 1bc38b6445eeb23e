use fffl::Slot;

#[test]
fn to_some_unchecked() {
    let slot = Slot::Value(5);
    assert_eq!(slot.to_some_unchecked(), Some(5));
}

#[test]
fn as_value_unchecked() {
    let slot = Slot::Value(5);
    assert_eq!(slot.as_value_unchecked(), &5);
}

#[test]
fn as_value_unchecked_mut() {
    let mut slot = Slot::Value(5);
    assert_eq!(slot.as_value_unchecked_mut(), &mut 5);
}

#[test]
fn from_t() {
    let slot = Slot::from(5i32);
    assert_eq!(slot, Slot::Value(5));
}

#[test]
fn from_slot() {
    let slot = Slot::Value(5);
    let none_slot = Slot::<i32>::Empty;
    assert_eq!(Option::from(slot), Some(5));
    assert_eq!(Option::<i32>::from(none_slot), None);
}

#[test]
fn is_value() {
    assert!(Slot::Value(1).is_value());
    assert!(!Slot::<i32>::Next(0).is_value());
    assert!(!Slot::<i32>::Empty.is_value());
}

#[test]
fn into_option() {
    assert_eq!(Slot::Value(7).into_option(), Some(7));
    assert_eq!(Slot::<i32>::Next(3).into_option(), None);
    assert_eq!(Slot::<i32>::Empty.into_option(), None);
}
