use gen_planner::mesh::Mesh;
use gen_planner::walls::edge2vtvx_wall;

const X: usize = usize::MAX;

/// The unit square cut in two by the line from vertex 1 to vertex 2.
fn halves() -> Mesh {
    Mesh::new(vec![0, 4, 8], vec![0, 1, 2, 3, 1, 4, 5, 2], vec![X, 1, X, X, X, X, X, 0], 6).unwrap()
}

/// Three strips side by side: cell 0 | cell 1 | cell 2.
fn strips() -> Mesh {
    Mesh::new(
        vec![0, 4, 8, 12],
        vec![0, 1, 2, 3, 1, 4, 5, 2, 4, 6, 7, 5],
        vec![X, 1, X, X, X, 2, X, 0, X, X, X, 1],
        8,
    )
    .unwrap()
}

#[test]
fn two_regions_share_one_wall() {
    assert_eq!(edge2vtvx_wall(&halves(), &[0, 1]), vec![1, 2]);
    assert_eq!(edge2vtvx_wall(&halves(), &[1, 0]), vec![1, 2]);
}

#[test]
fn one_region_has_no_wall() {
    assert_eq!(edge2vtvx_wall(&halves(), &[0, 0]), Vec::<usize>::new());
}

#[test]
fn inactive_sites_have_no_wall() {
    assert_eq!(edge2vtvx_wall(&halves(), &[X, 1]), Vec::<usize>::new());
    assert_eq!(edge2vtvx_wall(&halves(), &[0, X]), Vec::<usize>::new());
    assert_eq!(edge2vtvx_wall(&halves(), &[X, X]), Vec::<usize>::new());
}

#[test]
fn walls_come_in_the_order_of_the_cells() {
    assert_eq!(edge2vtvx_wall(&strips(), &[0, 1, 2]), vec![1, 2, 4, 5]);
    assert_eq!(edge2vtvx_wall(&strips(), &[0, 0, 1]), vec![4, 5]);
    assert_eq!(edge2vtvx_wall(&strips(), &[0, 1, 1]), vec![1, 2]);
    assert_eq!(edge2vtvx_wall(&strips(), &[0, 1, 0]), vec![1, 2, 4, 5]);
    assert_eq!(edge2vtvx_wall(&strips(), &[5, 5, 5]), Vec::<usize>::new());
}

#[test]
fn the_last_edge_of_a_cell_closes_it() {
    // the wall is the closing edge of cell 0, from its last vertex back to its first
    let mesh =
        Mesh::new(vec![0, 3, 6], vec![0, 1, 2, 0, 2, 3], vec![X, X, 1, 0, X, X], 4).unwrap();
    assert_eq!(edge2vtvx_wall(&mesh, &[0, 1]), vec![2, 0]);
}

#[test]
fn a_mesh_without_cells_has_no_wall() {
    let mesh = Mesh::new(vec![0], vec![], vec![], 0).unwrap();
    assert_eq!(edge2vtvx_wall(&mesh, &[]), Vec::<usize>::new());
}

#[test]
fn walls_of_a_tessellated_square() {
    let boundary = [0.0f32, 0.0, 1.0, 0.0, 1.0, 1.0, 0.0, 1.0];
    let sites = candle_core::Tensor::from_slice(
        &[0.25f32, 0.5, 0.75, 0.5, 0.5, 0.9],
        (3, 2),
        &candle_core::Device::Cpu,
    )
    .unwrap();
    let site2room = [0usize, 1, X];
    let (vtxv2xy, info) =
        del_candle::voronoi2::voronoi(&boundary, &sites, |i_site| site2room[i_site] != X);
    let num_vtxv = vtxv2xy.dims()[0];
    let mesh = Mesh::new(info.site2idx, info.idx2vtxv, info.idx2site, num_vtxv).unwrap();
    assert_eq!(mesh.site_count(), 3);
    let walls = edge2vtvx_wall(&mesh, &site2room);
    assert_eq!(walls.len(), 2);
    let xy = vtxv2xy.flatten_all().unwrap().to_vec1::<f32>().unwrap();
    for &v in &walls {
        assert!((xy[2 * v] - 0.5).abs() < 1e-5);
    }
    assert!((xy[2 * walls[0] + 1] - xy[2 * walls[1] + 1]).abs() > 0.99);
    assert_eq!(edge2vtvx_wall(&mesh, &[0, 0, X]), Vec::<usize>::new());
}

#[test]
fn no_wall_joins_one_region_or_touches_an_inactive_site() {
    let mesh = strips();
    let rooms = [0usize, 1, 2, X];
    for a in rooms {
        for b in rooms {
            for c in rooms {
                let site2room = [a, b, c];
                let walls = edge2vtvx_wall(&mesh, &site2room);
                assert_eq!(walls.len() % 2, 0);
                // in this mesh the wall from vertex 1 to 2 parts the sites 0 and 1,
                // and the wall from vertex 4 to 5 parts the sites 1 and 2
                let mut expected = Vec::new();
                if a != X && b != X && a != b {
                    expected.extend_from_slice(&[1, 2]);
                }
                if b != X && c != X && b != c {
                    expected.extend_from_slice(&[4, 5]);
                }
                assert_eq!(walls, expected);
                for &v in &walls {
                    assert!(v < mesh.num_vtxv);
                }
            }
        }
    }
}
