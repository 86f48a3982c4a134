use gen_planner::adjacency::{regions_adjacent, unmet_connections};
use gen_planner::grouping::region_sites;
use gen_planner::mesh::Mesh;
use gen_planner::walls::edge2vtvx_wall;

const X: usize = usize::MAX;

/// Three strips side by side: cell 0 | cell 1 | cell 2.
fn strips() -> Mesh {
    Mesh::new(
        vec![0, 4, 8, 12],
        vec![0, 1, 2, 3, 1, 4, 5, 2, 4, 6, 7, 5],
        vec![X, 1, X, X, X, 2, X, 0, X, X, X, 1],
        8,
    )
    .unwrap()
}

#[test]
fn neighbouring_regions_are_adjacent() {
    let mesh = strips();
    assert!(regions_adjacent(&mesh, &[0, 1, 2], 0, 1));
    assert!(regions_adjacent(&mesh, &[0, 1, 2], 1, 2));
    assert!(!regions_adjacent(&mesh, &[0, 1, 2], 0, 2));
}

#[test]
fn adjacency_does_not_depend_on_the_order_of_the_pair() {
    let mesh = strips();
    for a in 0..4 {
        for b in 0..4 {
            assert_eq!(
                regions_adjacent(&mesh, &[2, 0, 1], a, b),
                regions_adjacent(&mesh, &[2, 0, 1], b, a)
            );
        }
    }
    assert!(regions_adjacent(&mesh, &[2, 0, 1], 0, 2));
    assert!(regions_adjacent(&mesh, &[2, 0, 1], 1, 0));
    assert!(!regions_adjacent(&mesh, &[2, 0, 1], 1, 2));
}

#[test]
fn no_region_is_adjacent_to_itself_or_to_nothing() {
    let mesh = strips();
    assert!(!regions_adjacent(&mesh, &[0, 0, 1], 0, 0));
    assert!(!regions_adjacent(&mesh, &[0, X, 1], 0, 1));
    assert!(!regions_adjacent(&mesh, &[0, X, 1], 0, X));
    assert!(!regions_adjacent(&mesh, &[0, X, 1], X, X));
    assert!(!regions_adjacent(&mesh, &[0, 1, 1], 0, 5));
}

#[test]
fn adjacent_regions_are_the_ones_with_a_wall_between_them() {
    let mesh = strips();
    for site2room in [[0usize, 1, 2], [0, 0, 1], [1, 1, 1], [0, X, 1], [2, 0, 2]] {
        let walls = edge2vtvx_wall(&mesh, &site2room);
        let mut any = false;
        for a in 0..3 {
            for b in 0..3 {
                any = any || regions_adjacent(&mesh, &site2room, a, b);
            }
        }
        assert_eq!(any, !walls.is_empty());
    }
}

#[test]
fn unmet_requirements_keep_their_order() {
    let mesh = strips();
    let wanted = [(2, 0), (0, 1), (0, 2), (1, 2), (3, 1)];
    assert_eq!(unmet_connections(&mesh, &[0, 1, 2], &wanted), vec![(2, 0), (0, 2), (3, 1)]);
    assert_eq!(unmet_connections(&mesh, &[0, 2, 1], &wanted), vec![(0, 1), (3, 1)]);
    assert_eq!(unmet_connections(&mesh, &[0, 0, 0], &wanted), wanted.to_vec());
}

#[test]
fn nothing_is_unmet_where_all_is_met_or_nothing_is_required() {
    let mesh = strips();
    assert_eq!(unmet_connections(&mesh, &[0, 1, 2], &[(0, 1), (2, 1)]), vec![]);
    assert_eq!(unmet_connections(&mesh, &[0, 1, 2], &[]), vec![]);
}

#[test]
fn sites_of_a_region_come_in_rising_order() {
    assert_eq!(region_sites(&[1, 0, 1, X, 1], 1), vec![0, 2, 4]);
    assert_eq!(region_sites(&[1, 0, 1, X, 1], 0), vec![1]);
    assert_eq!(region_sites(&[1, 0, 1, X, 1], 2), Vec::<usize>::new());
    assert_eq!(region_sites(&[1, 0, 1, X, 1], X), vec![3]);
    assert_eq!(region_sites(&[], 0), Vec::<usize>::new());
}
