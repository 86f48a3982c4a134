use gen_planner::grouping::{grouping_matrix, regions_fit};

const X: usize = usize::MAX;

#[test]
fn each_active_site_has_a_one_in_the_row_of_its_region() {
    assert_eq!(grouping_matrix(&[0, 1], 2), vec![1, 0, 0, 1]);
    assert_eq!(grouping_matrix(&[1, 0, 1], 2), vec![0, 1, 0, 1, 0, 1]);
    assert_eq!(grouping_matrix(&[2, 2, 0], 3), vec![0, 0, 1, 0, 0, 0, 1, 1, 0]);
}

#[test]
fn inactive_sites_have_a_column_of_zeros() {
    assert_eq!(grouping_matrix(&[0, X, 1], 2), vec![1, 0, 0, 0, 0, 1]);
    assert_eq!(grouping_matrix(&[X, X], 2), vec![0, 0, 0, 0]);
}

#[test]
fn empty_assignments_and_no_regions_give_an_empty_matrix() {
    assert_eq!(grouping_matrix(&[], 3), Vec::<u8>::new());
    assert_eq!(grouping_matrix(&[X, X], 0), Vec::<u8>::new());
}

#[test]
fn columns_hold_one_one_and_rows_count_their_sites() {
    let site2room = [3usize, 0, X, 3, 1, 3, X, 0];
    let num_room = 5;
    let n = site2room.len();
    let m = grouping_matrix(&site2room, num_room);
    assert_eq!(m.len(), num_room * n);
    for s in 0..n {
        let ones: usize = (0..num_room).map(|r| m[r * n + s] as usize).sum();
        assert_eq!(ones, if site2room[s] == X { 0 } else { 1 });
        if site2room[s] != X {
            assert_eq!(m[site2room[s] * n + s], 1);
        }
    }
    for r in 0..num_room {
        let sum: usize = (0..n).map(|s| m[r * n + s] as usize).sum();
        assert_eq!(sum, site2room.iter().filter(|&&x| x == r).count());
    }
}

#[test]
fn regions_out_of_range_are_found() {
    assert!(regions_fit(&[0, 1, X], 2));
    assert!(regions_fit(&[], 0));
    assert!(regions_fit(&[X], 0));
    assert!(!regions_fit(&[0, 2, X], 2));
    assert!(!regions_fit(&[0], 0));
}
