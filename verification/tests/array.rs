use array_table::{Array, Error};

#[test]
fn test_array_basics() {
    let mut array = Array::create_filled(100, 74).unwrap();

    assert_eq!(array.get(0), Ok(74));
    assert_eq!(array.get(99), Ok(74));

    assert_eq!(array.set_some(30, 10, 63), Ok(()));
    assert_eq!(array.get(29), Ok(74));
    assert_eq!(array.get(30), Ok(63));
    assert_eq!(array.get(39), Ok(63));
    assert_eq!(array.get(40), Ok(74));

    assert_eq!(array.set(99, 45), Ok(()));
    assert_eq!(array.get(99), Ok(45));

    assert_eq!(array.set_some(0, 0, 13), Ok(()));
    assert_eq!(array.get(0), Ok(74));
    assert_eq!(array.get(1), Ok(74));

    assert_eq!(array.set(100, 100), Err(Error::IndexOutOfBounds));
    assert_eq!(array.get(100), Err(Error::IndexOutOfBounds));
}

#[test]
fn test_array_add() {
    let mut array: Array<u8> = Array::create_filled(100, 2).unwrap();
    assert_eq!(array.add(5, 3), Ok(()));
    assert_eq!(array.get(5), Ok(5));

    assert_eq!(array.add_some(10, 10, 7), Ok(()));
    assert_eq!(array.get(9), Ok(2));
    assert_eq!(array.get(10), Ok(9));
    assert_eq!(array.get(19), Ok(9));
    assert_eq!(array.get(20), Ok(2));

    array.add_all(4);
    assert_eq!(array.get(15), Ok(13));
    assert_eq!(array.get(99), Ok(6));

    assert_eq!(array.saturating_add(5, 255), Ok(()));
    assert_eq!(array.get(5), Ok(255));

    assert_eq!(array.saturating_add_some(60, 5, 255), Ok(()));
    assert_eq!(array.get(59), Ok(6));
    assert_eq!(array.get(60), Ok(255));
    assert_eq!(array.get(64), Ok(255));
    assert_eq!(array.get(65), Ok(6));

    array.saturating_add_all(255);
    assert_eq!(array.get(65), Ok(255));
}
