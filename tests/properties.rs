use vecgrid::{indices_column_major, indices_row_major, Error, Vecgrid};

fn two_by_three() -> Vecgrid<i32> {
    Vecgrid::from_rows(vec![vec![1, 2, 3], vec![4, 5, 6]]).unwrap()
}

#[test]
fn test_enumerate_column_major() -> Result<(), Error> {
    let vecgrid = two_by_three();
    let enumerate_column_major = vecgrid.enumerate_column_major();
    assert_eq!(
        enumerate_column_major,
        vec![
            ((0, 0), &1),
            ((1, 0), &4),
            ((0, 1), &2),
            ((1, 1), &5),
            ((0, 2), &3),
            ((1, 2), &6)
        ]
    );
    Ok(())
}

#[test]
fn round_trip_rows_columns_and_flat_orders() {
    let rows = vec![vec![1, 2, 3], vec![4, 5, 6], vec![7, 8, 9], vec![10, 11, 12]];
    assert_eq!(Vecgrid::from_rows(rows.clone()).unwrap().as_rows(), rows);

    let columns = vec![vec![1, 2, 3, 4], vec![5, 6, 7, 8], vec![9, 10, 11, 12]];
    assert_eq!(Vecgrid::from_columns(columns.clone()).unwrap().as_columns(), columns);

    let flat: Vec<i32> = (1..=12).collect();
    let g = Vecgrid::from_row_major(flat.clone(), 3, 4).unwrap();
    assert_eq!(g.as_row_major(), flat);
    let g = Vecgrid::from_column_major(flat.clone(), 3, 4).unwrap();
    assert_eq!(g.as_column_major(), flat);
    assert_eq!(g.as_rows(), vec![vec![1, 4, 7, 10], vec![2, 5, 8, 11], vec![3, 6, 9, 12]]);
}

#[test]
fn cross_addressing_agrees_on_every_cell() {
    let g = Vecgrid::from_row_major((0..12).collect::<Vec<i32>>(), 3, 4).unwrap();
    for r in 0..3 {
        for c in 0..4 {
            let by_pair = g.get(r, c);
            assert_eq!(by_pair, g.get_row_major(r * 4 + c));
            assert_eq!(by_pair, g.get_column_major(c * 3 + r));
            assert_eq!(by_pair, Some(&g[(r, c)]));
        }
    }
    assert_eq!(g.get(3, 0), None);
    assert_eq!(g.get(0, 4), None);
    assert_eq!(g.get_row_major(12), None);
    assert_eq!(g.get_column_major(12), None);
}

#[test]
fn dimensions_hold_after_every_mutation() {
    let mut g = Vecgrid::filled_with(0, 2, 3);
    assert_eq!(g.num_elements(), 6);
    g.insert_row(vec![1, 1, 1], 1).unwrap();
    assert_eq!(g.num_elements(), g.num_rows() * g.num_columns());
    assert_eq!(g.num_rows(), 3);
    g.insert_rows(vec![vec![2, 2, 2], vec![3, 3, 3]], 3).unwrap();
    assert_eq!(g.num_elements(), g.num_rows() * g.num_columns());
    assert_eq!(g.num_rows(), 5);
    g.remove_rows(0, 2).unwrap();
    assert_eq!(g.num_elements(), g.num_rows() * g.num_columns());
    assert_eq!(g.num_rows(), 3);
    g.insert_column(vec![9, 9, 9], 0).unwrap();
    assert_eq!(g.num_elements(), g.num_rows() * g.num_columns());
    assert_eq!(g.num_columns(), 4);
    assert_eq!(g.num_elements(), 12);
}

#[test]
fn insert_then_remove_restores_the_grid() {
    let original = Vecgrid::from_rows(vec![vec![1, 2], vec![3, 4], vec![5, 6]]).unwrap();
    for k in 0..3 {
        let mut g = original.clone();
        g.insert_row(vec![70, 80], k).unwrap();
        assert_eq!(g.num_rows(), 4);
        assert_ne!(g, original);
        g.remove_row(k).unwrap();
        assert_eq!(g, original);
    }
}

#[test]
fn concrete_scenario() {
    let g = two_by_three();
    assert_eq!(g.as_row_major(), vec![1, 2, 3, 4, 5, 6]);
    assert_eq!(g.as_column_major(), vec![1, 4, 2, 5, 3, 6]);
    assert_eq!(g.get_column_major(4), Some(&3));

    let mut g = Vecgrid::from_rows(vec![vec![1, 2, 3], vec![7, 8, 9]]).unwrap();
    g.insert_row(vec![4, 5, 6], 1).unwrap();
    assert_eq!(g.as_rows(), vec![vec![1, 2, 3], vec![4, 5, 6], vec![7, 8, 9]]);

    let mut g = Vecgrid::from_rows(vec![vec![1, 2], vec![3, 4], vec![5, 6], vec![7, 8]]).unwrap();
    g.remove_rows(1, 2).unwrap();
    assert_eq!(g.as_rows(), vec![vec![1, 2], vec![7, 8]]);
}

#[test]
fn zero_rows_with_columns_is_empty_everywhere() {
    let mut g: Vecgrid<i32> = Vecgrid::from_row_major(vec![], 0, 4).unwrap();
    assert_eq!(g.num_elements(), 0);
    assert_eq!(g.column_len(), 0);
    assert_eq!(g.row_len(), 4);
    assert!(g.elements_row_major_iter().is_empty());
    assert!(g.elements_column_major_iter().is_empty());
    assert!(g.rows_iter().is_empty());
    assert_eq!(g.columns_iter().len(), 4);
    assert!(g.columns_iter().iter().all(|c| c.is_empty()));
    assert!(g.column_iter(3).unwrap().is_empty());
    assert!(g.indices_row_major().is_empty());
    assert!(g.indices_column_major().is_empty());
    assert!(g.enumerate_row_major().is_empty());
    assert!(g.enumerate_column_major().is_empty());
    assert!(g.as_rows().is_empty());
    assert_eq!(g.as_columns(), vec![Vec::<i32>::new(); 4]);
    assert_eq!(g.get_column_major(0), None);
    assert_eq!(g.set_column_major(0, 1), Err(Error::IndexOutOfBounds(0)));
    assert!(g.elements_row_major_iter_mut().is_empty());
    assert!(g.elements_column_major_iter_mut().is_empty());
    assert!(g.rows_iter_mut().is_empty());
    assert_eq!(g.columns_iter_mut().len(), 4);
    assert_eq!(g.row_iter(0), Err(Error::IndicesOutOfBounds(0, 0)));
}

#[test]
fn rows_without_columns_have_empty_rows() {
    let g: Vecgrid<i32> = Vecgrid::from_rows(vec![vec![], vec![], vec![]]).unwrap();
    assert_eq!(g.num_elements(), 0);
    assert_eq!(g.rows_iter().len(), 3);
    assert!(g.row_iter(2).unwrap().is_empty());
    assert!(g.columns_iter().is_empty());
    assert_eq!(g.as_rows(), vec![Vec::<i32>::new(); 3]);
}

#[test]
fn reversed_listings_mirror_forward_ones() {
    let g = two_by_three();
    let mut forward = g.as_column_major();
    forward.reverse();
    assert_eq!(forward, vec![6, 3, 5, 2, 4, 1]);

    let mut pairs = g.indices_column_major();
    pairs.reverse();
    assert_eq!(pairs, vec![(1, 2), (0, 2), (1, 1), (0, 1), (1, 0), (0, 0)]);

    let mut pairs = g.indices_row_major();
    pairs.reverse();
    assert_eq!(pairs, vec![(1, 2), (1, 1), (1, 0), (0, 2), (0, 1), (0, 0)]);

    let backwards: Vec<((usize, usize), i32)> =
        g.enumerate_row_major().into_iter().rev().map(|(i, x)| (i, *x)).collect();
    assert_eq!(backwards[0], ((1, 2), 6));
    assert_eq!(backwards[5], ((0, 0), 1));

    let backwards: Vec<i32> = g.column_iter(2).unwrap().into_iter().rev().cloned().collect();
    assert_eq!(backwards, vec![6, 3]);
}

#[test]
fn free_index_listings() {
    assert_eq!(indices_row_major(2, 2), vec![(0, 0), (0, 1), (1, 0), (1, 1)]);
    assert_eq!(indices_column_major(2, 2), vec![(0, 0), (1, 0), (0, 1), (1, 1)]);
    assert_eq!(indices_row_major(0, 5), vec![]);
    assert_eq!(indices_column_major(3, 0), vec![]);
}

#[test]
fn set_reports_each_kind_of_miss() {
    let mut g = two_by_three();
    assert_eq!(g.set(2, 0, 9), Err(Error::IndicesOutOfBounds(2, 0)));
    assert_eq!(g.set(0, 3, 9), Err(Error::IndicesOutOfBounds(0, 3)));
    assert_eq!(g.set_row_major(6, 9), Err(Error::IndexOutOfBounds(6)));
    assert_eq!(g.set_column_major(6, 9), Err(Error::IndexOutOfBounds(6)));
    assert_eq!(g, two_by_three());
    g.set_column_major(1, 40).unwrap();
    assert_eq!(g.get(1, 0), Some(&40));
}

#[test]
fn insert_errors_carry_their_payload() {
    let mut g = two_by_three();
    assert_eq!(g.insert_row(vec![1, 2], 0), Err(Error::DimensionMismatch));
    assert_eq!(g.insert_row(vec![1, 2, 3], 2), Err(Error::IndexOutOfBounds(2)));
    assert_eq!(g.insert_rows(vec![vec![1, 2, 3]], 3), Err(Error::IndexOutOfBounds(3)));
    assert_eq!(g.insert_rows(vec![vec![1, 2, 3], vec![1]], 0), Err(Error::DimensionMismatch));
    assert_eq!(g.insert_column(vec![1, 2, 3], 0), Err(Error::DimensionMismatch));
    assert_eq!(g.insert_column(vec![1, 2], 3), Err(Error::IndexOutOfBounds(3)));
    assert_eq!(g, two_by_three());
    g.insert_rows(vec![vec![7, 8, 9]], 2).unwrap();
    assert_eq!(g.as_rows(), vec![vec![1, 2, 3], vec![4, 5, 6], vec![7, 8, 9]]);
}

#[test]
fn remove_rows_rejects_ranges_past_the_end() {
    let mut g = Vecgrid::from_rows(vec![vec![1], vec![2], vec![3]]).unwrap();
    assert_eq!(g.remove_rows(1, 5), Err(Error::IndicesOutOfBounds(1, 6)));
    assert_eq!(g.remove_rows(4, 0), Err(Error::IndicesOutOfBounds(4, 4)));
    assert_eq!(g.remove_rows(1, usize::MAX), Err(Error::IndicesOutOfBounds(1, usize::MAX)));
    assert_eq!(g.remove_row(3), Err(Error::IndicesOutOfBounds(3, 4)));
    assert_eq!(g.num_rows(), 3);
    g.remove_rows(3, 0).unwrap();
    assert_eq!(g.num_rows(), 3);
    g.remove_rows(1, 2).unwrap();
    assert_eq!(g.as_rows(), vec![vec![1]]);
}

#[test]
fn iterator_sources_stop_at_what_they_need() {
    let mut source = 1..;
    let g = Vecgrid::from_iter_row_major(source.by_ref(), 2, 2).unwrap();
    assert_eq!(g.as_row_major(), vec![1, 2, 3, 4]);
    assert_eq!(source.next(), Some(5));

    let mut source = vec![1, 2, 3, 4, 5, 6, 7].into_iter();
    let g = Vecgrid::from_iter_column_major(source.by_ref(), 3, 2).unwrap();
    assert_eq!(g.as_rows(), vec![vec![1, 4], vec![2, 5], vec![3, 6]]);
    assert_eq!(source.next(), Some(7));

    let short = Vecgrid::from_iter_row_major(vec![1, 2, 3].into_iter(), 2, 2);
    assert_eq!(short, Err(Error::NotEnoughElements));
    let empty = Vecgrid::<i32>::from_iter_column_major(std::iter::empty(), 0, 5).unwrap();
    assert_eq!(empty.num_columns(), 5);
}

#[test]
fn generators_fill_in_call_order() {
    let mut calls = 0;
    let g = Vecgrid::filled_by_column_major(
        || {
            calls += 1;
            calls
        },
        3,
        2,
    );
    assert_eq!(calls, 6);
    for r in 0..3 {
        for c in 0..2 {
            assert_eq!(g.get(r, c), Some(&(c as i32 * 3 + r as i32 + 1)));
        }
    }
    let mut calls = 0;
    let g = Vecgrid::filled_by_row_major(
        || {
            calls += 1;
            calls
        },
        3,
        2,
    );
    assert_eq!(g.as_row_major(), vec![1, 2, 3, 4, 5, 6]);
}

#[test]
fn single_row_and_column_views_change_only_their_cells() {
    let mut g = two_by_three();
    for cell in g.column_iter_mut(1).unwrap() {
        *cell *= 10;
    }
    assert_eq!(g.as_rows(), vec![vec![1, 20, 3], vec![4, 50, 6]]);
    for cell in g.row_iter_mut(1).unwrap() {
        *cell = 0;
    }
    assert_eq!(g.as_rows(), vec![vec![1, 20, 3], vec![0, 0, 0]]);
    assert!(g.row_iter_mut(2).is_err());
    assert_eq!(g.column_iter_mut(3).err(), Some(Error::IndicesOutOfBounds(0, 3)));
    assert_eq!(g.row_iter(5).err(), Some(Error::IndicesOutOfBounds(5, 0)));
    assert_eq!(g.column_iter(7).err(), Some(Error::IndicesOutOfBounds(0, 7)));
}

#[test]
fn column_major_mutation_writes_back_in_place() {
    let mut g = two_by_three();
    for (k, cell) in g.elements_column_major_iter_mut().into_iter().enumerate() {
        *cell = k as i32;
    }
    assert_eq!(g.as_rows(), vec![vec![0, 2, 4], vec![1, 3, 5]]);
    for (j, column) in g.columns_iter_mut().into_iter().enumerate() {
        for cell in column {
            *cell += 100 * j as i32;
        }
    }
    assert_eq!(g.as_rows(), vec![vec![0, 102, 204], vec![1, 103, 205]]);
}

#[test]
fn insert_column_places_the_new_cells() {
    let mut g = two_by_three();
    g.insert_column(vec![10, 40], 0).unwrap();
    assert_eq!(g.as_rows(), vec![vec![10, 1, 2, 3], vec![40, 4, 5, 6]]);
    g.insert_column(vec![25, 55], 3).unwrap();
    assert_eq!(g.as_rows(), vec![vec![10, 1, 2, 25, 3], vec![40, 4, 5, 55, 6]]);
}

#[test]
fn filled_with_clones_the_element() {
    let g = Vecgrid::filled_with(String::from("ab"), 2, 2);
    assert_eq!(g.as_row_major(), vec!["ab", "ab", "ab", "ab"]);
    let g = Vecgrid::filled_with(1u8, 3, 0);
    assert_eq!(g.num_elements(), 0);
    assert_eq!(g.num_rows(), 3);
}
