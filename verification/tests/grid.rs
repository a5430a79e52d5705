use raytracer::table::{coord_of_index, Table};

#[test]
fn from_elem_fills_grid() {
    let table = Table::from_elem((3, 2), 7u32);
    assert_eq!(table.get_dimensions(), (3, 2));
    assert_eq!(table.len(), 6);
    for row in 0..2 {
        for column in 0..3 {
            assert_eq!(*table.get((row, column)), 7);
        }
    }
}

#[test]
fn from_elem_empty_grid() {
    let table = Table::from_elem((0, 5), 1u8);
    assert_eq!(table.get_dimensions(), (0, 5));
    assert_eq!(table.len(), 0);
    let mut it = table.iter();
    assert_eq!(it.next(), None);
}

#[test]
fn get_vec_index_is_row_major() {
    let table = Table::from_elem((4, 3), 0u8);
    assert_eq!(table.get_vec_index((0, 0)), 0);
    assert_eq!(table.get_vec_index((0, 3)), 3);
    assert_eq!(table.get_vec_index((1, 0)), 4);
    assert_eq!(table.get_vec_index((1, 2)), 6);
    assert_eq!(table.get_vec_index((2, 3)), 11);
}

#[test]
fn set_replaces_one_cell() {
    let mut table = Table::from_elem((3, 2), 0i64);
    table.set((1, 2), 42);
    for row in 0..2 {
        for column in 0..3 {
            let expected = if (row, column) == (1, 2) { 42 } else { 0 };
            assert_eq!(*table.get((row, column)), expected);
        }
    }
}

#[test]
fn iter_walks_in_row_major_order() {
    let mut table = Table::from_elem((2, 2), 0u32);
    table.set((0, 0), 10);
    table.set((0, 1), 11);
    table.set((1, 0), 12);
    table.set((1, 1), 13);
    let mut it = table.iter();
    assert_eq!(it.next(), Some(10));
    assert_eq!(it.next(), Some(11));
    assert_eq!(it.next(), Some(12));
    assert_eq!(it.next(), Some(13));
    assert_eq!(it.next(), None);
    assert_eq!(it.next(), None);
}

#[test]
fn into_iter_yields_all_elements() {
    let mut table = Table::from_elem((2, 1), 0u32);
    table.set((0, 1), 5);
    let mut it = table.into_iter();
    assert_eq!(it.next(), Some(0));
    assert_eq!(it.next(), Some(5));
    assert_eq!(it.next(), None);
}

#[test]
fn enumerate_2d_reports_true_coordinates() {
    let table = Table::from_elem((3, 2), 9u8);
    let mut en = table.iter().enumerate_2d();
    let mut seen = Vec::new();
    while let Some((coordinate, value)) = en.next() {
        assert_eq!(value, 9);
        seen.push(coordinate);
    }
    assert_eq!(seen, vec![(0, 0), (0, 1), (0, 2), (1, 0), (1, 1), (1, 2)]);
}

#[test]
fn enumerate_2d_from_counts_from_start() {
    let table = Table::from_elem((3, 2), 0u8);
    let mut en = table.iter().enumerate_2d_from((5, 1));
    let mut coordinates = Vec::new();
    while let Some((coordinate, _)) = en.next() {
        coordinates.push(coordinate);
    }
    assert_eq!(
        coordinates,
        vec![(5, 1), (5, 2), (6, 0), (6, 1), (6, 2), (7, 0)]
    );
}

#[test]
fn enumerate_2d_from_index_starts_at_that_cell() {
    let table = Table::from_elem((3, 3), 0u8);
    let mut en = table.iter().enumerate_2d_from_index(4);
    let (first, _) = en.next().unwrap();
    assert_eq!(first, (1, 1));
    let (second, _) = en.next().unwrap();
    assert_eq!(second, (1, 2));
    let (third, _) = en.next().unwrap();
    assert_eq!(third, (2, 0));
}

#[test]
fn coord_of_index_inverts_row_major_indexing() {
    assert_eq!(coord_of_index(0, 3), (0, 0));
    assert_eq!(coord_of_index(7, 3), (2, 1));
    assert_eq!(coord_of_index(11, 4), (2, 3));
    let table = Table::from_elem((4, 3), 0u8);
    for index in 0..12 {
        let coordinate = coord_of_index(index, 4);
        assert_eq!(table.get_vec_index(coordinate), index);
    }
}

#[test]
fn table_holds_float_pixels() {
    let mut table = Table::from_elem((2, 2), (0.0f64, 0.0f64, 0.0f64));
    table.set((1, 0), (0.25, 0.5, 1.0));
    assert_eq!(*table.get((1, 0)), (0.25, 0.5, 1.0));
    assert_eq!(*table.get((0, 0)), (0.0, 0.0, 0.0));
}
