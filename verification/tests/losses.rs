use candle_core::{DType, Device, Tensor, Var};
use gen_planner::fault::{Fault, Invariant};
use gen_planner::losses::{anchor_loss, area_loss, total_area_loss, wall_length_loss};
use gen_planner::plan::{AnchorPower, EdgeNorm};

fn column(values: &[f32]) -> Tensor {
    Tensor::from_slice(values, (values.len(), 1), &Device::Cpu).unwrap()
}

fn points(values: &[f32]) -> Tensor {
    Tensor::from_slice(values, (values.len() / 2, 2), &Device::Cpu).unwrap()
}

fn value(t: &Tensor) -> f32 {
    assert_eq!(t.dims(), &[] as &[usize]);
    t.to_vec0::<f32>().unwrap()
}

#[test]
fn area_loss_is_the_sum_of_squared_deviations() {
    let loss = area_loss(&column(&[1.0, 2.0, 4.0]), &column(&[1.5, 2.0, 2.0])).unwrap();
    assert_eq!(value(&loss), 0.25 + 4.0);
}

#[test]
fn area_loss_is_zero_exactly_where_every_area_meets_its_target() {
    let targets = [0.25f32, 0.5, 0.25];
    assert_eq!(value(&area_loss(&column(&targets), &column(&targets)).unwrap()), 0.0);
    for i in 0..3 {
        for off in [-0.125f32, 0.125] {
            let mut areas = targets;
            areas[i] += off;
            assert!(value(&area_loss(&column(&areas), &column(&targets)).unwrap()) > 0.0);
        }
    }
}

#[test]
fn area_loss_needs_a_target_for_each_region() {
    assert_eq!(
        broken_by(area_loss(&column(&[1.0, 2.0]), &column(&[1.0, 2.0, 3.0]))),
        Invariant::ShapeMismatch
    );
}

fn whole_numbers() -> Tensor {
    Tensor::from_slice(&[1u32, 2, 3], (3, 1), &Device::Cpu).unwrap()
}

fn doubles() -> Tensor {
    Tensor::from_slice(&[1.0f64, 2.0, 3.0], (3, 1), &Device::Cpu).unwrap()
}

#[test]
fn losses_are_taken_of_single_precision_numbers_alone() {
    let singles = column(&[1.0, 2.0, 3.0]);
    for other in [whole_numbers(), doubles()] {
        assert_eq!(broken_by(area_loss(&other, &singles)), Invariant::ElementType);
        assert_eq!(broken_by(area_loss(&singles, &other)), Invariant::ElementType);
        assert_eq!(broken_by(area_loss(&other, &other)), Invariant::ElementType);
        assert_eq!(broken_by(total_area_loss(&other, &singles)), Invariant::ElementType);
        assert_eq!(
            broken_by(anchor_loss(&singles, &other, &singles, AnchorPower::Square)),
            Invariant::ElementType
        );
        assert_eq!(
            broken_by(anchor_loss(&singles, &singles, &other, AnchorPower::Fourth)),
            Invariant::ElementType
        );
    }
}

#[test]
fn the_kind_of_numbers_is_looked_at_before_the_shape() {
    let wide = Tensor::from_slice(&[1u32, 2], (1, 2), &Device::Cpu).unwrap();
    assert_eq!(broken_by(area_loss(&column(&[1.0]), &wide)), Invariant::ElementType);
}

#[test]
fn empty_tensors_have_no_loss() {
    let none = Tensor::zeros((0, 1), DType::F32, &Device::Cpu).unwrap();
    assert_eq!(value(&area_loss(&none, &none).unwrap()), 0.0);
    let none = Tensor::zeros((0, 2), DType::F32, &Device::Cpu).unwrap();
    assert_eq!(value(&anchor_loss(&none, &none, &none, AnchorPower::Fourth).unwrap()), 0.0);
}

#[test]
fn total_area_loss_is_the_gap_to_the_whole() {
    let whole = Tensor::new(1.0f32, &Device::Cpu).unwrap();
    assert_eq!(value(&total_area_loss(&column(&[0.25, 0.5]), &whole).unwrap()), 0.25);
    assert_eq!(value(&total_area_loss(&column(&[0.75, 0.5]), &whole).unwrap()), 0.25);
    assert_eq!(value(&total_area_loss(&column(&[0.5, 0.5]), &whole).unwrap()), 0.0);
    assert_eq!(
        broken_by(total_area_loss(&column(&[0.5, 0.5]), &column(&[1.0]))),
        Invariant::ShapeMismatch
    );
    let whole = Tensor::new(1.0f32, &Device::Cpu).unwrap();
    assert_eq!(value(&total_area_loss(&whole, &whole).unwrap()), 0.0);
}

#[test]
fn wall_length_adds_up_both_coordinates_of_every_wall() {
    let v = points(&[0.0, 0.0, 3.0, 4.0, 1.0, 1.0, 1.0, -1.0]);
    let loss = wall_length_loss(&[0, 1, 2, 3], &v, EdgeNorm::Absolute).unwrap();
    assert_eq!(value(&loss), 3.0 + 4.0 + 0.0 + 2.0);
    let loss = wall_length_loss(&[0, 1, 2, 3], &v, EdgeNorm::Squared).unwrap();
    assert_eq!(value(&loss), 9.0 + 16.0 + 0.0 + 4.0);
    let loss = wall_length_loss(&[1, 0], &v, EdgeNorm::Absolute).unwrap();
    assert_eq!(value(&loss), 7.0);
}

#[test]
fn no_walls_have_no_length() {
    let v = points(&[0.0, 0.0, 3.0, 4.0]);
    assert_eq!(value(&wall_length_loss(&[], &v, EdgeNorm::Absolute).unwrap()), 0.0);
    assert_eq!(value(&wall_length_loss(&[], &v, EdgeNorm::Squared).unwrap()), 0.0);
}

fn broken_by(r: Result<Tensor, Fault>) -> Invariant {
    match r {
        Err(Fault::Invariant(broken)) => broken,
        Err(Fault::Computation(e)) => panic!("computation fault: {:?}", e),
        Ok(_) => panic!("a length was computed"),
    }
}

#[test]
fn walls_must_end_in_vertices() {
    let v = points(&[0.0, 0.0, 3.0, 4.0]);
    assert_eq!(
        broken_by(wall_length_loss(&[0, 2], &v, EdgeNorm::Absolute)),
        Invariant::VertexRange
    );
    let wide = Tensor::zeros((4, 3), DType::F32, &Device::Cpu).unwrap();
    assert_eq!(
        broken_by(wall_length_loss(&[0, 1], &wide, EdgeNorm::Absolute)),
        Invariant::VertexLayout
    );
    let turned = Tensor::zeros((2, 4), DType::F32, &Device::Cpu).unwrap().t().unwrap();
    assert_eq!(
        broken_by(wall_length_loss(&[0, 1], &turned, EdgeNorm::Absolute)),
        Invariant::VertexLayout
    );
    let flat = Tensor::zeros(8, DType::F32, &Device::Cpu).unwrap();
    assert!(matches!(
        wall_length_loss(&[0, 1], &flat, EdgeNorm::Absolute),
        Err(Fault::Computation(_))
    ));
    let doubles = Tensor::zeros((2, 2), DType::F64, &Device::Cpu).unwrap();
    assert!(matches!(
        wall_length_loss(&[0, 1], &doubles, EdgeNorm::Absolute),
        Err(Fault::Computation(_))
    ));
}

#[test]
fn anchor_loss_weighs_and_raises_the_deviation() {
    let now = points(&[1.0, 2.0, 3.0, 5.0]);
    let ini = points(&[0.0, 2.0, 1.0, 2.0]);
    let flag = points(&[1.0, 1.0, 0.5, 2.0]);
    // weighted deviations: 1, 0, 1, 6
    assert_eq!(value(&anchor_loss(&now, &ini, &flag, AnchorPower::Square).unwrap()), 38.0);
    assert_eq!(value(&anchor_loss(&now, &ini, &flag, AnchorPower::Fourth).unwrap()), 1298.0);
}

#[test]
fn without_anchors_the_anchor_loss_is_zero_wherever_the_sites_go() {
    let ini = points(&[0.25, 0.5, 0.75, 0.5]);
    let free = points(&[0.0; 4]);
    for far in [0.0f32, 0.001, 1.0, 1.0e6, -3.0e12] {
        let now = points(&[0.25 + far, 0.5 - far, 0.75, 0.5 + far]);
        for power in [AnchorPower::Square, AnchorPower::Fourth] {
            assert_eq!(value(&anchor_loss(&now, &ini, &free, power).unwrap()), 0.0);
        }
    }
}

#[test]
fn only_anchored_coordinates_are_held() {
    let ini = points(&[0.25, 0.5, 0.75, 0.5]);
    let now = points(&[0.5, 0.0, 0.75, 1.5]);
    let flag = points(&[0.0, 0.0, 1.0, 0.0]);
    assert_eq!(value(&anchor_loss(&now, &ini, &flag, AnchorPower::Square).unwrap()), 0.0);
    let flag = points(&[0.0, 0.0, 0.0, 1.0]);
    assert_eq!(value(&anchor_loss(&now, &ini, &flag, AnchorPower::Square).unwrap()), 1.0);
}

#[test]
fn anchor_loss_needs_a_weight_for_each_coordinate() {
    let ini = points(&[0.25, 0.5, 0.75, 0.5]);
    let flag = points(&[1.0, 1.0]);
    assert_eq!(
        broken_by(anchor_loss(&ini, &ini, &flag, AnchorPower::Square)),
        Invariant::ShapeMismatch
    );
    assert_eq!(
        broken_by(anchor_loss(&ini, &flag, &ini, AnchorPower::Square)),
        Invariant::ShapeMismatch
    );
}

#[test]
fn losses_pull_on_the_sites() {
    let ini = points(&[0.0, 0.0]);
    let now = Var::from_slice(&[2.0f32, 0.0], (1, 2), &Device::Cpu).unwrap();
    let flag = points(&[1.0, 1.0]);
    let loss = anchor_loss(&now, &ini, &flag, AnchorPower::Square).unwrap();
    let grads = loss.backward().unwrap();
    let g = grads.get(&now).unwrap().flatten_all().unwrap().to_vec1::<f32>().unwrap();
    assert_eq!(g, vec![4.0, 0.0]);
}

#[test]
fn losses_are_taken_of_tensors_in_any_layout() {
    // turned and spread tensors are not laid out row by row
    let turned = Tensor::from_slice(&[1.0f32, 2.0, 3.0, 4.0, 5.0, 6.0], (2, 3), &Device::Cpu)
        .unwrap()
        .t()
        .unwrap();
    assert!(!turned.is_contiguous());
    let spread = Tensor::new(1.0f32, &Device::Cpu).unwrap().broadcast_as((3, 2)).unwrap();
    assert!(!spread.is_contiguous());
    // turned is [[1, 4], [2, 5], [3, 6]]
    assert_eq!(value(&area_loss(&turned, &spread).unwrap()), 0.0 + 9.0 + 1.0 + 16.0 + 4.0 + 25.0);
    let whole = Tensor::new(20.0f32, &Device::Cpu).unwrap();
    assert_eq!(value(&total_area_loss(&turned, &whole).unwrap()), 1.0);
    assert_eq!(
        value(&anchor_loss(&turned, &spread, &spread, AnchorPower::Square).unwrap()),
        55.0
    );
    assert_eq!(
        value(&anchor_loss(&turned, &spread, &spread, AnchorPower::Fourth).unwrap()),
        0.0 + 81.0 + 1.0 + 256.0 + 16.0 + 625.0
    );
}
