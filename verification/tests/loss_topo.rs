use candle_core::{DType, Device, Tensor, Var};
use gen_planner::fault::{Fault, Invariant};
use gen_planner::loss_topo::{has_empty_region, pull_pairs, unidirectional};
use gen_planner::mesh::Mesh;

const X: usize = usize::MAX;

/// Three strips side by side: cell 0 | cell 1 | cell 2.
fn strips() -> Mesh {
    Mesh::new(
        vec![0, 4, 8, 12],
        vec![0, 1, 2, 3, 1, 4, 5, 2, 4, 6, 7, 5],
        vec![X, 1, X, X, X, 2, X, 0, X, X, X, 1],
        8,
    )
    .unwrap()
}

fn sites() -> Tensor {
    Tensor::from_slice(&[0.0f32, 0.0, 1.0, 0.5, 3.0, -1.0], (3, 2), &Device::Cpu).unwrap()
}

fn value(t: &Tensor) -> f32 {
    assert_eq!(t.dims(), &[] as &[usize]);
    t.to_vec0::<f32>().unwrap()
}

#[test]
fn regions_that_touch_are_not_pulled() {
    let mesh = strips();
    assert_eq!(pull_pairs(&mesh, &[0, 1, 2], &[(0, 1), (1, 2), (2, 1)]), vec![]);
    assert_eq!(pull_pairs(&mesh, &[0, 1, 2], &[]), vec![]);
}

#[test]
fn every_site_of_the_first_region_is_pulled_to_every_site_of_the_second() {
    let mesh = strips();
    assert_eq!(pull_pairs(&mesh, &[0, 1, 2], &[(0, 2)]), vec![(0, 2)]);
    assert_eq!(pull_pairs(&mesh, &[0, 1, 2], &[(2, 0)]), vec![(2, 0)]);
    assert_eq!(pull_pairs(&mesh, &[0, 0, 0], &[(0, 0)]), vec![
        (0, 0), (0, 1), (0, 2), (1, 0), (1, 1), (1, 2), (2, 0), (2, 1), (2, 2)
    ]);
    let wide = Mesh::new(vec![0, 0, 0, 0, 0, 0], vec![], vec![], 0).unwrap();
    assert_eq!(
        pull_pairs(&wide, &[1, 0, 1, X, 0], &[(0, 1), (1, 0)]),
        vec![(1, 0), (1, 2), (4, 0), (4, 2), (0, 1), (0, 4), (2, 1), (2, 4)]
    );
}

#[test]
fn regions_without_sites_pull_nothing() {
    let mesh = strips();
    assert_eq!(pull_pairs(&mesh, &[0, 1, 2], &[(0, 3), (3, 0), (3, 4)]), vec![]);
    assert_eq!(pull_pairs(&mesh, &[0, X, X], &[(0, 1)]), vec![]);
}

#[test]
fn pulls_keep_the_order_of_the_requirements() {
    let mesh = strips();
    assert_eq!(
        pull_pairs(&mesh, &[0, 1, 2], &[(2, 0), (0, 1), (0, 2)]),
        vec![(2, 0), (0, 2)]
    );
}

#[test]
fn the_loss_is_the_distance_along_both_coordinates() {
    let mesh = strips();
    let loss = unidirectional(&sites(), &[0, 1, 2], &mesh, &[(0, 2)]).unwrap();
    assert_eq!(value(&loss), 3.0 + 1.0);
    let loss = unidirectional(&sites(), &[0, 1, 2], &mesh, &[(0, 2), (2, 0)]).unwrap();
    assert_eq!(value(&loss), 8.0);
}

#[test]
fn the_loss_is_zero_where_every_requirement_is_met() {
    let mesh = strips();
    let loss = unidirectional(&sites(), &[0, 1, 2], &mesh, &[(0, 1), (1, 2)]).unwrap();
    assert_eq!(value(&loss), 0.0);
    let loss = unidirectional(&sites(), &[0, 1, 2], &mesh, &[]).unwrap();
    assert_eq!(value(&loss), 0.0);
}

#[test]
fn only_the_first_region_of_a_pair_is_pulled() {
    let mesh = strips();
    let xy = Var::from_slice(&[0.0f32, 0.0, 1.0, 0.5, 3.0, -1.0], (3, 2), &Device::Cpu).unwrap();
    let loss = unidirectional(&xy, &[0, 1, 2], &mesh, &[(0, 2)]).unwrap();
    let grads = loss.backward().unwrap();
    let g = grads.get(&xy).unwrap().flatten_all().unwrap().to_vec1::<f32>().unwrap();
    assert_eq!(g, vec![-1.0, 1.0, 0.0, 0.0, 0.0, 0.0]);
}

fn broken_by(r: Result<Tensor, Fault>) -> Invariant {
    match r {
        Err(Fault::Invariant(broken)) => broken,
        Err(Fault::Computation(e)) => panic!("computation fault: {:?}", e),
        Ok(_) => panic!("a loss was computed"),
    }
}

#[test]
fn sites_must_be_rows_of_two_coordinates() {
    let mesh = strips();
    let flat = Tensor::zeros(6, DType::F32, &Device::Cpu).unwrap();
    assert_eq!(broken_by(unidirectional(&flat, &[0, 1, 2], &mesh, &[])), Invariant::SiteLayout);
    let wide = Tensor::zeros((3, 3), DType::F32, &Device::Cpu).unwrap();
    assert_eq!(broken_by(unidirectional(&wide, &[0, 1, 2], &mesh, &[])), Invariant::SiteLayout);
}

#[test]
fn every_site_must_have_its_row() {
    let mesh = strips();
    let short = Tensor::zeros((2, 2), DType::F32, &Device::Cpu).unwrap();
    assert_eq!(
        broken_by(unidirectional(&short, &[0, 1, 2], &mesh, &[(0, 2)])),
        Invariant::SiteLayout
    );
    let long = Tensor::zeros((4, 2), DType::F32, &Device::Cpu).unwrap();
    assert_eq!(broken_by(unidirectional(&long, &[0, 1, 2], &mesh, &[])), Invariant::SiteLayout);
}

#[test]
fn sites_must_be_single_precision_numbers() {
    let mesh = strips();
    let doubles = Tensor::zeros((3, 2), DType::F64, &Device::Cpu).unwrap();
    assert_eq!(
        broken_by(unidirectional(&doubles, &[0, 1, 2], &mesh, &[(0, 2)])),
        Invariant::ElementType
    );
    let whole = Tensor::zeros((3, 2), DType::U32, &Device::Cpu).unwrap();
    assert_eq!(broken_by(unidirectional(&whole, &[0, 1, 2], &mesh, &[])), Invariant::ElementType);
}

#[test]
fn a_required_region_must_have_a_site() {
    let mesh = strips();
    assert_eq!(
        broken_by(unidirectional(&sites(), &[0, 1, 2], &mesh, &[(0, 1), (0, 3)])),
        Invariant::EmptyRegion
    );
    assert_eq!(
        broken_by(unidirectional(&sites(), &[0, 1, X], &mesh, &[(2, 0)])),
        Invariant::EmptyRegion
    );
    assert!(has_empty_region(&[0, 1, 2], &[(0, 1), (3, 1)]));
    assert!(!has_empty_region(&[0, 1, 2], &[(0, 1), (2, 1)]));
    assert!(!has_empty_region(&[], &[]));
}

#[test]
fn sites_that_are_not_laid_out_row_by_row_are_a_failure_of_the_computation() {
    let mesh = strips();
    let turned = Tensor::zeros((2, 3), DType::F32, &Device::Cpu).unwrap().t().unwrap();
    assert_eq!(turned.dims(), &[3, 2]);
    assert!(matches!(
        unidirectional(&turned, &[0, 1, 2], &mesh, &[(0, 2)]),
        Err(Fault::Computation(_))
    ));
    assert!(matches!(
        unidirectional(&turned, &[0, 1, 2], &mesh, &[]),
        Err(Fault::Computation(_))
    ));
}
