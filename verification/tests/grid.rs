use array_table::{Array, Error, Table};

#[test]
fn owning_buffer_of_length_zero_is_refused() {
    for _ in 0..3 {
        assert_eq!(Array::<u8>::create_garbage(0).unwrap_err(), Error::InvalidSize);
        assert_eq!(Array::<u8>::create_filled(0, 7).unwrap_err(), Error::InvalidSize);
    }
    assert_eq!(Array::<u8>::create_garbage(1).unwrap().len(), 1);
    assert_eq!(Array::<i64>::create_garbage(17).unwrap().len(), 17);
}

#[test]
fn grid_with_a_side_of_zero_is_refused() {
    for _ in 0..3 {
        let array: Array<u8> = Array::create_filled(4, 0).unwrap();
        assert_eq!(Table::new(array, 0, 2).unwrap_err(), Error::InvalidSize);
        let array: Array<u8> = Array::create_filled(4, 0).unwrap();
        assert_eq!(Table::new(array, 2, 0).unwrap_err(), Error::InvalidSize);
        let array: Array<u8> = Array::create_filled(4, 0).unwrap();
        assert_eq!(Table::new(array, 0, 0).unwrap_err(), Error::InvalidSize);
    }
}

#[test]
fn grid_whose_cell_count_overflows_is_refused() {
    let array: Array<u8> = Array::create_filled(4, 0).unwrap();
    assert_eq!(Table::new(array, usize::MAX, 2).unwrap_err(), Error::ArithmeticOverflow);
    let array: Array<u8> = Array::create_filled(4, 0).unwrap();
    assert_eq!(
        Table::new(array, usize::MAX / 2 + 1, 2).unwrap_err(),
        Error::ArithmeticOverflow
    );
}

#[test]
fn grid_over_too_small_a_buffer_is_refused() {
    let array: Array<u8> = Array::create_filled(5, 0).unwrap();
    assert_eq!(Table::new(array, 2, 3).unwrap_err(), Error::BufferTooSmall);
    let array: Array<u8> = Array::create_filled(5, 0).unwrap();
    assert_eq!(Table::new(array, usize::MAX, 1).unwrap_err(), Error::BufferTooSmall);
    let array: Array<u8> = Array::create_filled(6, 0).unwrap();
    assert!(Table::new(array, 2, 3).is_ok());
    let array: Array<u8> = Array::create_filled(7, 0).unwrap();
    assert!(Table::new(array, 2, 3).is_ok());
}

#[test]
fn refused_grid_gives_the_borrowed_cells_back() {
    let mut array: Array<u8> = Array::create_filled(5, 9).unwrap();
    assert_eq!(Table::new(array.sharing_copy(), 3, 2).unwrap_err(), Error::BufferTooSmall);
    assert_eq!(array.create_vector(0, 5).unwrap(), vec![9; 5]);
}

#[test]
fn index_for_visits_every_offset_once() {
    let width = 7;
    let height = 5;
    let table = Table::new(Array::<u8>::create_filled(width * height, 0).unwrap(), width, height)
        .unwrap();
    assert_eq!(table.get_width(), width);
    assert_eq!(table.get_height(), height);
    let mut seen = vec![0; width * height];
    for y in 0..height {
        for x in 0..width {
            let index = table.index_for(x, y).unwrap();
            assert_eq!(index, x + y * width);
            assert_eq!(table.unchecked_index_for(x, y), index);
            seen[index] += 1;
        }
    }
    assert_eq!(seen, vec![1; width * height]);
}

#[test]
fn index_for_refuses_what_the_grid_does_not_have() {
    let table = Table::new(Array::<u8>::create_filled(12, 0).unwrap(), 4, 3).unwrap();
    assert_eq!(table.index_for(3, 2), Ok(11));
    assert_eq!(table.index_for(4, 0), Err(Error::IndexOutOfBounds));
    assert_eq!(table.index_for(0, 3), Err(Error::IndexOutOfBounds));
    assert_eq!(table.index_for(usize::MAX, usize::MAX), Err(Error::IndexOutOfBounds));
    assert_eq!(table.get(4, 0), Err(Error::IndexOutOfBounds));
    assert_eq!(table.get_ref(0, 3).unwrap_err(), Error::IndexOutOfBounds);
}

#[test]
fn set_row_and_set_column_touch_nothing_else() {
    let mut table = Table::new(Array::<u16>::create_filled(14, 1).unwrap(), 4, 3).unwrap();
    assert_eq!(table.set_row(1, 2), Ok(()));
    assert_eq!(table.rows(), vec![vec![1, 1, 1, 1], vec![2, 2, 2, 2], vec![1, 1, 1, 1]]);
    assert_eq!(table.set_column(3, 5), Ok(()));
    assert_eq!(table.rows(), vec![vec![1, 1, 1, 5], vec![2, 2, 2, 5], vec![1, 1, 1, 5]]);
    assert_eq!(table.set_row(3, 9), Err(Error::IndexOutOfBounds));
    assert_eq!(table.set_column(4, 9), Err(Error::IndexOutOfBounds));
    assert_eq!(table.rows(), vec![vec![1, 1, 1, 5], vec![2, 2, 2, 5], vec![1, 1, 1, 5]]);
    table.set_unchecked_row(2, 7);
    table.set_unchecked_column(0, 8);
    assert_eq!(table.rows(), vec![vec![8, 1, 1, 5], vec![8, 2, 2, 5], vec![8, 7, 7, 7]]);
}

#[test]
fn column_of_a_grid_that_is_not_square_is_strided_by_the_width() {
    let mut source: Array<u8> = Array::create_filled(10, 0).unwrap();
    {
        let mut table = Table::new(source.sharing_copy(), 4, 2).unwrap();
        assert_eq!(table.set_column(1, 5), Ok(()));
    }
    assert_eq!(source.create_vector(0, 10).unwrap(), vec![0, 5, 0, 0, 0, 5, 0, 0, 0, 0]);
}

#[test]
fn references_read_and_write_single_cells() {
    let mut table = Table::new(Array::<i32>::create_filled(6, 4).unwrap(), 3, 2).unwrap();
    *table.get_mut_ref(2, 1).unwrap() = -3;
    *table.get_unchecked_mut_ref(0, 0) += 1;
    assert_eq!(table.get_ref(2, 1), Ok(&-3));
    assert_eq!(*table.get_unchecked_ref(0, 0), 5);
    assert_eq!(table.get_unchecked(1, 1), 4);
    assert!(table.get_mut_ref(3, 0).is_err());
    table.set_unchecked(1, 0, 8);
    assert_eq!(table.rows(), vec![vec![5, 8, 4], vec![4, 4, -3]]);

    let mut array: Array<i32> = Array::create_filled(3, 1).unwrap();
    *array.get_mut_ref(1).unwrap() = 2;
    *array.get_unchecked_mut_ref(2) = 3;
    assert_eq!(array.get_ref(0), Ok(&1));
    assert_eq!(*array.get_unchecked_ref(1), 2);
    assert_eq!(array.get_unchecked(2), 3);
    assert_eq!(array.get_mut_ref(3).unwrap_err(), Error::IndexOutOfBounds);
    assert_eq!(array.get_ref(3), Err(Error::IndexOutOfBounds));
    assert_eq!(array.check_bound(2), Ok(()));
    assert_eq!(array.check_bound(3), Err(Error::IndexOutOfBounds));
    array.set_unchecked(0, 9);
    assert_eq!(array[0], 9);
}

#[test]
fn ranged_operations_check_overflow_before_bounds() {
    let mut array: Array<u8> = Array::create_filled(10, 1).unwrap();
    assert_eq!(array.set_some(usize::MAX, 2, 5), Err(Error::ArithmeticOverflow));
    assert_eq!(array.set_some(usize::MAX, 1, 5), Err(Error::IndexOutOfBounds));
    assert_eq!(array.set_some(9, 2, 5), Err(Error::IndexOutOfBounds));
    assert_eq!(array.set_some(usize::MAX, 0, 5), Ok(()));
    assert_eq!(array.add_some(2, usize::MAX, 5), Err(Error::ArithmeticOverflow));
    assert_eq!(array.add_some(1, usize::MAX, 5), Err(Error::IndexOutOfBounds));
    assert_eq!(array.add_some(10, 1, 5), Err(Error::IndexOutOfBounds));
    assert_eq!(array.add_some(10, 0, 5), Ok(()));
    assert_eq!(array.add_unchecked_some(2, usize::MAX, 5), Err(Error::ArithmeticOverflow));
    assert_eq!(array.add_unchecked_some(50, 0, 5), Ok(()));
    assert_eq!(array.saturating_add_some(3, usize::MAX - 1, 5), Err(Error::ArithmeticOverflow));
    assert_eq!(array.saturating_add_some(3, 8, 5), Err(Error::IndexOutOfBounds));
    assert_eq!(array.saturating_add(10, 5), Err(Error::IndexOutOfBounds));
    assert_eq!(array.add(10, 5), Err(Error::IndexOutOfBounds));
    assert_eq!(array.create_vector(0, 10).unwrap(), vec![1; 10]);

    assert_eq!(array.add_unchecked_some(8, 2, 5), Ok(()));
    array.add_unchecked(0, 255);
    assert_eq!(array.saturating_add_some(4, 2, 255), Ok(()));
    assert_eq!(array.create_vector(0, 10).unwrap(), vec![0, 1, 1, 1, 255, 255, 1, 1, 6, 6]);
}

#[test]
fn create_vector_copies_a_range() {
    let mut array: Array<u8> = Array::create_filled(5, 0).unwrap();
    for index in 0..5 {
        assert_eq!(array.set(index, index as u8 * 10), Ok(()));
    }
    assert_eq!(array.create_vector(1, 3), Ok(vec![10, 20, 30]));
    assert_eq!(array.create_vector(0, 5), Ok(vec![0, 10, 20, 30, 40]));
    assert_eq!(array.create_vector(5, 0), Ok(vec![]));
    assert_eq!(array.create_vector(2, 0), Ok(vec![]));
    assert_eq!(array.create_vector(6, 0), Err(Error::IndexOutOfBounds));
    assert_eq!(array.create_vector(3, 3), Err(Error::IndexOutOfBounds));
    assert_eq!(array.create_vector(usize::MAX, 1), Err(Error::ArithmeticOverflow));
    assert_eq!(array.create_vector(1, usize::MAX), Err(Error::ArithmeticOverflow));
}

#[test]
fn set_all_on_a_grid_stops_at_the_last_cell_of_the_grid() {
    let mut source: Array<u8> = Array::create_filled(7, 1).unwrap();
    {
        let mut table = Table::new(source.sharing_copy(), 3, 2).unwrap();
        table.set_all(4);
    }
    assert_eq!(source.create_vector(0, 7).unwrap(), vec![4, 4, 4, 4, 4, 4, 1]);
    source.set_all(2);
    assert_eq!(source.create_vector(0, 7).unwrap(), vec![2; 7]);
}
