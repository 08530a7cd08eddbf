use array_table::utility::{Saturating, Wrapping};
use array_table::Array;

#[test]
fn saturating_add_stops_at_the_ends_of_each_type() {
    assert_eq!(Saturating::saturating_add(&250u8, 10), 255);
    assert_eq!(Saturating::saturating_add(&250u8, 5), 255);
    assert_eq!(Saturating::saturating_add(&250u8, 4), 254);
    assert_eq!(Saturating::saturating_add(&u16::MAX, 1), u16::MAX);
    assert_eq!(Saturating::saturating_add(&u32::MAX, u32::MAX), u32::MAX);
    assert_eq!(Saturating::saturating_add(&(u64::MAX - 1), 1), u64::MAX);
    assert_eq!(Saturating::saturating_add(&u128::MAX, 7), u128::MAX);
    assert_eq!(Saturating::saturating_add(&usize::MAX, 2), usize::MAX);
    assert_eq!(Saturating::saturating_add(&100i8, 100), 127);
    assert_eq!(Saturating::saturating_add(&-100i8, -100), -128);
    assert_eq!(Saturating::saturating_add(&-100i8, 100), 0);
    assert_eq!(Saturating::saturating_add(&i8::MIN, i8::MAX), -1);
    assert_eq!(Saturating::saturating_add(&i8::MAX, i8::MIN), -1);
    assert_eq!(Saturating::saturating_add(&i8::MIN, i8::MIN), i8::MIN);
    assert_eq!(Saturating::saturating_add(&i16::MAX, 1), i16::MAX);
    assert_eq!(Saturating::saturating_add(&i16::MIN, -1), i16::MIN);
    assert_eq!(Saturating::saturating_add(&i32::MAX, i32::MAX), i32::MAX);
    assert_eq!(Saturating::saturating_add(&i32::MIN, -1), i32::MIN);
    assert_eq!(Saturating::saturating_add(&5i32, -7), -2);
    assert_eq!(Saturating::saturating_add(&i64::MAX, 1), i64::MAX);
    assert_eq!(Saturating::saturating_add(&i64::MIN, -1), i64::MIN);
    assert_eq!(Saturating::saturating_add(&i128::MAX, 1), i128::MAX);
    assert_eq!(Saturating::saturating_add(&i128::MIN, -1), i128::MIN);
    assert_eq!(Saturating::saturating_add(&isize::MAX, 1), isize::MAX);
    assert_eq!(Saturating::saturating_add(&isize::MIN, -1), isize::MIN);
    assert_eq!(Saturating::saturating_add(&-3isize, 5), 2);
}

#[test]
fn saturating_add_agrees_with_the_integer_types() {
    let samples: [i8; 9] = [i8::MIN, -127, -64, -1, 0, 1, 63, 126, i8::MAX];
    for a in samples {
        for b in samples {
            assert_eq!(Saturating::saturating_add(&a, b), i8::saturating_add(a, b));
        }
    }
    let samples: [i64; 7] = [i64::MIN, i64::MIN + 1, -1, 0, 1, i64::MAX - 1, i64::MAX];
    for a in samples {
        for b in samples {
            assert_eq!(Saturating::saturating_add(&a, b), i64::saturating_add(a, b));
        }
    }
}

#[test]
fn wrapping_add_comes_back_in_at_the_other_end() {
    assert_eq!(Wrapping::wrapping_add(&250u8, 10), 4);
    assert_eq!(Wrapping::wrapping_add(&250u8, 5), 255);
    assert_eq!(Wrapping::wrapping_add(&u16::MAX, 1), 0);
    assert_eq!(Wrapping::wrapping_add(&u32::MAX, u32::MAX), u32::MAX - 1);
    assert_eq!(Wrapping::wrapping_add(&u64::MAX, 2), 1);
    assert_eq!(Wrapping::wrapping_add(&u128::MAX, 1), 0);
    assert_eq!(Wrapping::wrapping_add(&usize::MAX, 1), 0);
    assert_eq!(Wrapping::wrapping_add(&100i8, 100), -56);
    assert_eq!(Wrapping::wrapping_add(&-100i8, -100), 56);
    assert_eq!(Wrapping::wrapping_add(&i16::MAX, 1), i16::MIN);
    assert_eq!(Wrapping::wrapping_add(&i32::MIN, -1), i32::MAX);
    assert_eq!(Wrapping::wrapping_add(&i64::MAX, 1), i64::MIN);
    assert_eq!(Wrapping::wrapping_add(&i128::MIN, -1), i128::MAX);
    assert_eq!(Wrapping::wrapping_add(&isize::MAX, 1), isize::MIN);
    assert_eq!(Wrapping::wrapping_add(&7i32, -9), -2);
}

#[test]
fn saturating_add_all_clamps_at_the_boundary() {
    let mut array: Array<u8> = Array::create_filled(3, 250).unwrap();
    assert_eq!(array.set(1, 245), Ok(()));
    assert_eq!(array.set(2, 0), Ok(()));
    array.saturating_add_all(10);
    assert_eq!(array.create_vector(0, 3).unwrap(), vec![255, 255, 10]);

    let mut array: Array<i8> = Array::create_filled(3, -120).unwrap();
    assert_eq!(array.set(1, 0), Ok(()));
    assert_eq!(array.set(2, 120), Ok(()));
    array.saturating_add_all(-10);
    assert_eq!(array.create_vector(0, 3).unwrap(), vec![-128, -10, 110]);
    array.saturating_add_all(20);
    assert_eq!(array.create_vector(0, 3).unwrap(), vec![-108, 10, 127]);
}

#[test]
fn adding_twice_is_adding_the_wrapping_sum_once() {
    let amounts: [(u8, u8); 4] = [(3, 4), (200, 100), (255, 255), (0, 9)];
    for (first, second) in amounts {
        let mut twice: Array<u8> = Array::create_filled(4, 0).unwrap();
        let mut once: Array<u8> = Array::create_filled(4, 0).unwrap();
        for (index, start) in [0u8, 1, 128, 255].into_iter().enumerate() {
            assert_eq!(twice.set(index, start), Ok(()));
            assert_eq!(once.set(index, start), Ok(()));
        }
        twice.add_all(first);
        twice.add_all(second);
        once.add_all(Wrapping::wrapping_add(&first, second));
        assert_eq!(twice.create_vector(0, 4).unwrap(), once.create_vector(0, 4).unwrap());
    }
}

#[test]
fn saturating_twice_can_differ_from_saturating_the_sum() {
    let mut twice: Array<i8> = Array::create_filled(1, 100).unwrap();
    twice.saturating_add_all(100);
    twice.saturating_add_all(-100);
    let mut once: Array<i8> = Array::create_filled(1, 100).unwrap();
    once.saturating_add_all(0);
    assert_eq!(twice.get(0), Ok(27));
    assert_eq!(once.get(0), Ok(100));
}
