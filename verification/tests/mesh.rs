use gen_planner::mesh::{ids_below, table_fits, Mesh, MeshFault, INACTIVE, NO_NEIGHBOR};

const X: usize = usize::MAX;

fn halves() -> (Vec<usize>, Vec<usize>, Vec<usize>, usize) {
    (vec![0, 4, 8], vec![0, 1, 2, 3, 1, 4, 5, 2], vec![X, 1, X, X, X, X, X, 0], 6)
}

#[test]
fn marks_are_the_largest_index() {
    assert_eq!(INACTIVE, usize::MAX);
    assert_eq!(NO_NEIGHBOR, usize::MAX);
}

#[test]
fn a_square_cut_in_two_is_a_mesh() {
    let (s2i, i2v, i2s, nv) = halves();
    let mesh = Mesh::new(s2i.clone(), i2v.clone(), i2s.clone(), nv).unwrap();
    assert_eq!(mesh.site2idx, s2i);
    assert_eq!(mesh.idx2vtxv, i2v);
    assert_eq!(mesh.idx2site, i2s);
    assert_eq!(mesh.num_vtxv, 6);
    assert_eq!(mesh.site_count(), 2);
}

#[test]
fn a_mesh_without_sites_is_a_mesh() {
    let mesh = Mesh::new(vec![0], vec![], vec![], 0).unwrap();
    assert_eq!(mesh.site_count(), 0);
}

#[test]
fn a_site_may_have_an_empty_cell() {
    let mesh = Mesh::new(vec![0, 0, 3, 3], vec![0, 1, 2], vec![X, X, X], 3).unwrap();
    assert_eq!(mesh.site_count(), 3);
}

#[test]
fn each_fault_of_a_mesh_is_named() {
    let (s2i, i2v, i2s, nv) = halves();
    assert_eq!(Mesh::new(vec![], i2v.clone(), i2s.clone(), nv).unwrap_err(), MeshFault::EmptyTable);
    assert_eq!(
        Mesh::new(vec![1, 4, 8], i2v.clone(), i2s.clone(), nv).unwrap_err(),
        MeshFault::TableStart
    );
    assert_eq!(
        Mesh::new(vec![0, 9, 8], i2v.clone(), i2s.clone(), nv).unwrap_err(),
        MeshFault::TableOrder
    );
    assert_eq!(
        Mesh::new(vec![0, 4, 7], i2v.clone(), i2s.clone(), nv).unwrap_err(),
        MeshFault::TableEnd
    );
    assert_eq!(
        Mesh::new(s2i.clone(), i2v.clone(), vec![X; 7], nv).unwrap_err(),
        MeshFault::NeighborCount
    );
    assert_eq!(
        Mesh::new(s2i.clone(), i2v.clone(), i2s.clone(), 5).unwrap_err(),
        MeshFault::VertexRange
    );
    assert_eq!(
        Mesh::new(s2i.clone(), i2v.clone(), vec![X, 2, X, X, X, X, X, 0], nv).unwrap_err(),
        MeshFault::NeighborRange
    );
}

#[test]
fn the_first_fault_is_the_one_reported() {
    // the table neither starts at zero nor ends at the number of entries
    assert_eq!(Mesh::new(vec![1, 2], vec![0], vec![X], 1).unwrap_err(), MeshFault::TableStart);
    // a vertex and a neighbour are both out of range
    assert_eq!(Mesh::new(vec![0, 1], vec![3], vec![7], 1).unwrap_err(), MeshFault::VertexRange);
}

#[test]
fn prefix_sum_tables_are_told_apart() {
    assert!(table_fits(&[0, 4, 8], 8));
    assert!(table_fits(&[0], 0));
    assert!(table_fits(&[0, 0, 2, 2], 2));
    assert!(!table_fits(&[], 0));
    assert!(!table_fits(&[0, 4, 8], 9));
    assert!(!table_fits(&[1, 4, 8], 8));
    assert!(!table_fits(&[0, 5, 3, 8], 8));
}

#[test]
fn ids_are_held_to_their_bound() {
    assert!(ids_below(&[0, 1, 2], 3));
    assert!(ids_below(&[], 0));
    assert!(!ids_below(&[0, 3, 2], 3));
}
