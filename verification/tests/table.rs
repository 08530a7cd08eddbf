use array_table::{Array, Error, Graphics2D, Table};

#[test]
fn test_table_basics() {
    // First some basic tests with 2 by 2 table
    {
        let mut array = Array::create_garbage(5).unwrap();
        assert_eq!(array.set(4, 12), Ok(()));
        {
            let mut table = Table::new(array.sharing_copy(), 2, 2).unwrap();
            assert_eq!(table.set(0, 0, 0), Ok(()));
            assert_eq!(table.set(1, 0, 1), Ok(()));
            assert_eq!(table.set(0, 1, 2), Ok(()));
            assert_eq!(table.set(1, 1, 3), Ok(()));
            assert_eq!(table.get(0, 0), Ok(0));
            assert_eq!(table.get(1, 0), Ok(1));
            assert_eq!(table.get(0, 1), Ok(2));
            assert_eq!(table.get(1, 1), Ok(3));
        }
        assert_eq!(array[0], 0);
        assert_eq!(array[1], 1);
        assert_eq!(array[2], 2);
        assert_eq!(array[3], 3);
        {
            let mut table = Table::new(array.sharing_copy(), 2, 2).unwrap();
            table.set_all(13);
            assert_eq!(table.get(0, 0), Ok(13));

            assert_eq!(table.set(0, 2, 0), Err(Error::IndexOutOfBounds));
            assert_eq!(table.set(2, 0, 1), Err(Error::IndexOutOfBounds));
        }
        assert_eq!(array[4], 12);
    }

    // Use a bigger table to test for row and column operations
    {
        let mut table = Table::new(Array::create_filled(9, 1).unwrap(), 3, 3).unwrap();
        assert_eq!(table.set_row(0, 2), Ok(()));
        assert_eq!(table.get(0, 0), Ok(2));
        assert_eq!(table.get(1, 0), Ok(2));
        assert_eq!(table.get(2, 0), Ok(2));
        assert_eq!(table.get(0, 1), Ok(1));

        assert_eq!(table.set_column(1, 5), Ok(()));
        assert_eq!(table.get(1, 0), Ok(5));
        assert_eq!(table.get(1, 1), Ok(5));
        assert_eq!(table.get(1, 2), Ok(5));
        assert_eq!(table.get(0, 2), Ok(1));
        assert_eq!(table.get(2, 0), Ok(2));
    }
}

#[test]
fn test_table_graphics() {
    // This is just to test that it won't panic
    let width = 10;
    let height = 10;
    let array = Array::create_filled(width * height, 0).unwrap();
    let mut table = Table::new(array, width, height).unwrap();

    // A single vertical line and horizontal line
    assert_eq!(table.draw_line(0, 0, 0, 9, 1), Ok(()));
    assert_eq!(table.draw_line(0, 0, 9, 0, 1), Ok(()));
    assert_eq!(table.draw_line(0, 0, 20, 30, 30), Ok(()));

    // Some other lines
    assert_eq!(table.draw_line(2, 2, 7, 7, 5), Ok(()));
    assert_eq!(table.draw_line(2, 7, 7, 2, 5), Ok(()));
    assert_eq!(table.draw_line(7, 7, 2, 2, 5), Ok(()));
    assert_eq!(table.draw_line(7, 2, 2, 7, 5), Ok(()));

    assert_eq!(table.draw_line(0, 0, 2, 9, 4), Ok(()));

    let rows = table.rows();
    assert_eq!(rows.len(), 10);
    for row in rows.iter() {
        assert_eq!(row.len(), 10);
        println!("{:?}", row);
    }
}
