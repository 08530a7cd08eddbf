use array_table::{Array, Error, Table};

#[test]
fn view_of_a_range_writes_through_to_its_source() {
    let mut array: Array<u32> = Array::create_filled(10, 5).unwrap();
    {
        let mut view = array.sharing_sub_array(3, 4).unwrap();
        assert_eq!(view.len(), 4);
        assert_eq!(view.get(0), Ok(5));
        assert_eq!(view.set(0, 30), Ok(()));
        assert_eq!(view.set(3, 33), Ok(()));
        assert_eq!(view.set(4, 34), Err(Error::IndexOutOfBounds));
        view.add_all(1);
    }
    let cells = array.create_vector(0, 10).unwrap();
    assert_eq!(cells, vec![5, 5, 5, 31, 6, 6, 34, 5, 5, 5]);
}

#[test]
fn view_of_a_view_addresses_the_cells_of_the_first_source() {
    let mut array: Array<u32> = Array::create_filled(10, 0).unwrap();
    {
        let mut outer = array.sharing_sub_array(2, 6).unwrap();
        {
            let mut inner = outer.sharing_sub_array(1, 2).unwrap();
            inner.set_all(9);
            assert_eq!(inner.len(), 2);
        }
        assert_eq!(outer.create_vector(0, 6).unwrap(), vec![0, 9, 9, 0, 0, 0]);
        assert_eq!(outer.set(5, 7), Ok(()));
    }
    assert_eq!(array.create_vector(0, 10).unwrap(), vec![0, 0, 0, 9, 9, 0, 0, 7, 0, 0]);
}

#[test]
fn sharing_copy_covers_every_cell() {
    let mut array: Array<i16> = Array::create_filled(4, -1).unwrap();
    {
        let mut view = array.sharing_copy();
        assert_eq!(view.len(), 4);
        assert_eq!(view.get(3), Ok(-1));
        view.set_all(8);
        assert_eq!(view.set(1, 2), Ok(()));
    }
    assert_eq!(array.create_vector(0, 4).unwrap(), vec![8, 2, 8, 8]);
}

#[test]
fn sharing_sub_array_refuses_bad_ranges() {
    let mut array: Array<u8> = Array::create_filled(10, 1).unwrap();
    assert_eq!(array.sharing_sub_array(0, 0).unwrap_err(), Error::InvalidSize);
    assert_eq!(array.sharing_sub_array(20, 0).unwrap_err(), Error::InvalidSize);
    assert_eq!(array.sharing_sub_array(5, 6).unwrap_err(), Error::IndexOutOfBounds);
    assert_eq!(array.sharing_sub_array(10, 1).unwrap_err(), Error::IndexOutOfBounds);
    assert_eq!(array.sharing_sub_array(usize::MAX, 2).unwrap_err(), Error::ArithmeticOverflow);
    assert_eq!(array.sharing_sub_array(2, usize::MAX).unwrap_err(), Error::ArithmeticOverflow);
    assert!(array.sharing_sub_array(0, 10).is_ok());
    assert!(array.sharing_sub_array(9, 1).is_ok());
    assert_eq!(array.create_vector(0, 10).unwrap(), vec![1; 10]);
}

#[test]
fn test_array_concurrency() {
    // One writer after another adds to every cell through a view of its own;
    // the source then holds the sum of what all of them added.
    let mut array: Array<u32> = Array::create_filled(1000, 0).unwrap();
    let amount = 100;
    for _ in 0..amount {
        let mut array1 = array.sharing_copy();
        for index in 0..array1.len() {
            assert_eq!(array1.add(index, 10), Ok(()));
        }
    }

    let mut sum = 0;
    for index in 0..array.len() {
        sum += array.get(index).unwrap();
    }
    assert_eq!(sum, 1000 * 100 * 10);
}

#[test]
fn writers_with_ranges_of_their_own_add_up_to_the_expected_total() {
    let writers = 8;
    let share = 25;
    let mut array: Array<u64> = Array::create_filled(writers * share, 1).unwrap();
    for writer in 0..writers {
        let mut part = array.sharing_sub_array(writer * share, share).unwrap();
        part.add_all(writer as u64 + 1);
    }
    let mut sum: u64 = 0;
    for index in 0..array.len() {
        sum += array[index];
    }
    // 200 cells of 1, and 25 cells of each amount from 1 to 8.
    assert_eq!(sum, 200 + 25 * 36);
    assert_eq!(array.get(0), Ok(2));
    assert_eq!(array.get(24), Ok(2));
    assert_eq!(array.get(25), Ok(3));
    assert_eq!(array.get(199), Ok(9));
}

#[test]
fn table_over_a_view_leaves_the_rest_of_the_source_alone() {
    let mut array: Array<u8> = Array::create_filled(12, 7).unwrap();
    {
        let view = array.sharing_sub_array(2, 7).unwrap();
        let mut table = Table::new(view, 3, 2).unwrap();
        table.set_all(0);
        assert_eq!(table.set(2, 1, 4), Ok(()));
    }
    assert_eq!(
        array.create_vector(0, 12).unwrap(),
        vec![7, 7, 0, 0, 0, 0, 0, 4, 7, 7, 7, 7]
    );
}

fn may_be_sent<T: Send>(_value: &T) {}

#[test]
fn arrays_views_and_tables_may_be_sent_to_another_thread() {
    let mut array: Array<u32> = Array::create_filled(6, 1).unwrap();
    may_be_sent(&array);
    let view = array.sharing_sub_array(0, 6).unwrap();
    may_be_sent(&view);
    let table = Table::new(view, 3, 2).unwrap();
    may_be_sent(&table);
}
