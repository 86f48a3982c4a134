//! The terms of the loss that the search brings down.
//!
//! Each term is a tensor without axes, computed by the tensor library from
//! tensors that it can differentiate. What is decided here is which
//! operations make up a term and on which tensors a term can be taken; the
//! caller weighs the terms and adds them up.
use crate::fault::{check_pair, pair_invariant, Fault, Invariant};
use crate::mesh::{all_below, ids_below};
use crate::plan::{AnchorPower, EdgeNorm};
use crate::tensor::{
    edge_vectors, is_plain, made_by, stands_for, tensor_dims, tensor_is_contiguous, Recipe,
};
use vstd::prelude::*;

verus! {

/// The shape of a tensor without axes.
pub open spec fn scalar() -> Seq<usize> {
    Seq::empty()
}

/// How the area loss is made of the areas and their targets: the differences,
/// squared and summed.
pub open spec fn area_loss_recipe(areas: Recipe, targets: Recipe) -> Recipe {
    Recipe::SumAll(
        Box::new(Recipe::Sqr(Box::new(Recipe::Sub(Box::new(areas), Box::new(targets))))),
    )
}

/// How the loss of the whole area is made: the areas summed, the whole
/// subtracted, the absolute value taken.
pub open spec fn total_area_loss_recipe(areas: Recipe, whole: Recipe) -> Recipe {
    Recipe::Abs(
        Box::new(Recipe::Sub(Box::new(Recipe::SumAll(Box::new(areas))), Box::new(whole))),
    )
}

/// How the wall length is made: the vectors along the walls, each coordinate
/// taken in the norm, summed.
pub open spec fn wall_length_recipe(edges: Seq<usize>, vertices: Recipe, norm: EdgeNorm) -> Recipe {
    let vectors = Recipe::EdgeVectors(edges, Box::new(vertices));
    Recipe::SumAll(
        Box::new(
            match norm {
                EdgeNorm::Absolute => Recipe::Abs(Box::new(vectors)),
                EdgeNorm::Squared => Recipe::Sqr(Box::new(vectors)),
            },
        ),
    )
}

/// How the anchor loss is made: the deviations from the start, times the
/// weights, squared once or twice, summed.
pub open spec fn anchor_loss_recipe(
    sites: Recipe,
    start: Recipe,
    weights: Recipe,
    power: AnchorPower,
) -> Recipe {
    let held = Recipe::Mul(
        Box::new(Recipe::Sub(Box::new(sites), Box::new(start))),
        Box::new(weights),
    );
    let squares = Recipe::Sqr(Box::new(held));
    Recipe::SumAll(
        Box::new(
            match power {
                AnchorPower::Square => squares,
                AnchorPower::Fourth => Recipe::Sqr(Box::new(squares)),
            },
        ),
    )
}

/// The first invariant that the input to the loss of the whole area breaks,
/// if any: both tensors hold single-precision numbers on the processor, and
/// the whole has no axes.
pub open spec fn total_area_invariant(areas: candle_core::Tensor, whole: candle_core::Tensor)
    -> Option<Invariant> {
    if !(pair_invariant(areas, whole) is None || pair_invariant(areas, whole) == Some(
        Invariant::ShapeMismatch,
    )) {
        pair_invariant(areas, whole)
    } else if tensor_dims(whole) != scalar() {
        Some(Invariant::ShapeMismatch)
    } else {
        None
    }
}

/// The first invariant that the input to the anchor loss breaks, if any: the
/// sites, their start and their weights hold single-precision numbers on the
/// processor and have one shape.
pub open spec fn anchor_invariant(
    sites: candle_core::Tensor,
    start: candle_core::Tensor,
    weights: candle_core::Tensor,
) -> Option<Invariant> {
    if pair_invariant(sites, start) is Some {
        pair_invariant(sites, start)
    } else {
        pair_invariant(sites, weights)
    }
}

/// The first invariant that the input to the wall length breaks, if any.
pub open spec fn wall_invariant(edges: Seq<usize>, dims: Seq<usize>, dense: bool) -> Option<
    Invariant,
> {
    if !dense || (dims.len() == 2 && dims[1] != 2) {
        Some(Invariant::VertexLayout)
    } else if dims.len() == 2 && !all_below(edges, dims[0] as nat) {
        Some(Invariant::VertexRange)
    } else {
        None
    }
}

/// How far the areas of the regions are from their targets: the sum of the
/// squares of the differences.
///
/// The loss is computed exactly when both tensors hold single-precision
/// numbers on the processor and have one shape; any other input is refused
/// with the first invariant that it breaks.
pub fn area_loss(room2area: &candle_core::Tensor, room2area_trg: &candle_core::Tensor) -> (loss:
    Result<candle_core::Tensor, Fault>)
    ensures
        match loss {
            Ok(l) => {
                &&& pair_invariant(*room2area, *room2area_trg) is None
                &&& tensor_dims(l) == scalar()
                &&& is_plain(l)
                &&& made_by(
                    l,
                    area_loss_recipe(Recipe::Given(*room2area), Recipe::Given(*room2area_trg)),
                )
            },
            Err(Fault::Invariant(broken)) => pair_invariant(*room2area, *room2area_trg) == Some(
                broken,
            ),
            Err(Fault::Computation(_)) => false,
        },
{
    if let Some(broken) = check_pair(room2area, room2area_trg) {
        return Err(Fault::Invariant(broken));
    }
    let ghost areas = Recipe::Given(*room2area);
    let ghost targets = Recipe::Given(*room2area_trg);
    let deviation = match room2area.sub(room2area_trg) {
        Ok(t) => t,
        Err(e) => {
            return Err(Fault::Computation(e));
        },
    };
    let ghost apart = Recipe::Sub(Box::new(areas), Box::new(targets));
    assert(stands_for(*room2area, areas) && stands_for(*room2area_trg, targets));
    assert(stands_for(deviation, apart));
    let squares = match deviation.sqr() {
        Ok(t) => t,
        Err(e) => {
            return Err(Fault::Computation(e));
        },
    };
    assert(stands_for(squares, Recipe::Sqr(Box::new(apart))));
    match squares.sum_all() {
        Ok(l) => Ok(l),
        Err(e) => Err(Fault::Computation(e)),
    }
}

/// How far the regions together are from filling the boundary: the absolute
/// difference between the sum of their areas and `total_area`, a tensor
/// without axes.
///
/// The loss is computed exactly when both tensors hold single-precision
/// numbers on the processor and `total_area` has no axes; any other input is
/// refused with the first invariant that it breaks.
pub fn total_area_loss(room2area: &candle_core::Tensor, total_area: &candle_core::Tensor) -> (loss:
    Result<candle_core::Tensor, Fault>)
    ensures
        match loss {
            Ok(l) => {
                &&& total_area_invariant(*room2area, *total_area) is None
                &&& tensor_dims(l) == scalar()
                &&& is_plain(l)
                &&& made_by(
                    l,
                    total_area_loss_recipe(Recipe::Given(*room2area), Recipe::Given(*total_area)),
                )
            },
            Err(Fault::Invariant(broken)) => total_area_invariant(*room2area, *total_area) == Some(
                broken,
            ),
            Err(Fault::Computation(_)) => false,
        },
{
    match check_pair(room2area, total_area) {
        Some(Invariant::ShapeMismatch) => {},
        Some(broken) => {
            return Err(Fault::Invariant(broken));
        },
        None => {},
    }
    if total_area.dims().len() != 0 {
        assert(tensor_dims(*total_area) != scalar());
        return Err(Fault::Invariant(Invariant::ShapeMismatch));
    }
    assert(tensor_dims(*total_area) =~= scalar());
    let ghost areas = Recipe::Given(*room2area);
    let ghost whole = Recipe::Given(*total_area);
    let covered = match room2area.sum_all() {
        Ok(t) => t,
        Err(e) => {
            return Err(Fault::Computation(e));
        },
    };
    assert(stands_for(*room2area, areas) && stands_for(*total_area, whole));
    assert(stands_for(covered, Recipe::SumAll(Box::new(areas))));
    let gap = match covered.sub(total_area) {
        Ok(t) => t,
        Err(e) => {
            return Err(Fault::Computation(e));
        },
    };
    assert(stands_for(
        gap,
        Recipe::Sub(Box::new(Recipe::SumAll(Box::new(areas))), Box::new(whole)),
    ));
    match gap.abs() {
        Ok(l) => Ok(l),
        Err(e) => Err(Fault::Computation(e)),
    }
}

/// The length of the walls: the sum over all walls and both coordinates of
/// the norm of the difference between the two end points.
///
/// An input that breaks an invariant is refused with the first invariant that
/// it breaks. On any other input the length is computed exactly when the
/// vertex coordinates have two axes and are single-precision numbers on the
/// processor; where they are not, the failure of the tensor library is passed
/// on.
pub fn wall_length_loss(
    edge2vtxv_wall: &[usize],
    vtxv2xy: &candle_core::Tensor,
    norm: EdgeNorm,
) -> (loss: Result<candle_core::Tensor, Fault>)
    ensures
        match loss {
            Ok(l) => {
                &&& wall_invariant(
                    edge2vtxv_wall@,
                    tensor_dims(*vtxv2xy),
                    tensor_is_contiguous(*vtxv2xy),
                ) is None
                &&& tensor_dims(*vtxv2xy).len() == 2
                &&& is_plain(*vtxv2xy)
                &&& tensor_dims(l) == scalar()
                &&& is_plain(l)
                &&& made_by(l, wall_length_recipe(edge2vtxv_wall@, Recipe::Given(*vtxv2xy), norm))
            },
            Err(Fault::Invariant(broken)) => wall_invariant(
                edge2vtxv_wall@,
                tensor_dims(*vtxv2xy),
                tensor_is_contiguous(*vtxv2xy),
            ) == Some(broken),
            Err(Fault::Computation(_)) => {
                &&& wall_invariant(
                    edge2vtxv_wall@,
                    tensor_dims(*vtxv2xy),
                    tensor_is_contiguous(*vtxv2xy),
                ) is None
                &&& !(tensor_dims(*vtxv2xy).len() == 2 && is_plain(*vtxv2xy))
            },
        },
{
    let dims = vtxv2xy.dims();
    if !vtxv2xy.is_contiguous() || (dims.len() == 2 && dims[1] != 2) {
        return Err(Fault::Invariant(Invariant::VertexLayout));
    }
    if dims.len() == 2 && !ids_below(edge2vtxv_wall, dims[0]) {
        return Err(Fault::Invariant(Invariant::VertexRange));
    }
    let edge2xy = match edge_vectors(edge2vtxv_wall, vtxv2xy) {
        Ok(t) => t,
        Err(e) => {
            return Err(Fault::Computation(e));
        },
    };
    let ghost vectors = Recipe::EdgeVectors(edge2vtxv_wall@, Box::new(Recipe::Given(*vtxv2xy)));
    assert(stands_for(*vtxv2xy, Recipe::Given(*vtxv2xy)));
    assert(stands_for(edge2xy, vectors));
    let sizes = match norm {
        EdgeNorm::Absolute => edge2xy.abs(),
        EdgeNorm::Squared => edge2xy.sqr(),
    };
    let sizes = match sizes {
        Ok(t) => t,
        Err(e) => {
            return Err(Fault::Computation(e));
        },
    };
    assert(stands_for(
        sizes,
        match norm {
            EdgeNorm::Absolute => Recipe::Abs(Box::new(vectors)),
            EdgeNorm::Squared => Recipe::Sqr(Box::new(vectors)),
        },
    ));
    match sizes.sum_all() {
        Ok(l) => Ok(l),
        Err(e) => Err(Fault::Computation(e)),
    }
}

/// How far the anchored coordinates have moved: the deviation of every
/// coordinate from where it started, times its anchor weight, raised to an
/// even power and summed.
///
/// The loss is computed exactly when the three tensors hold single-precision
/// numbers on the processor and have one shape; any other input is refused
/// with the first invariant that it breaks.
pub fn anchor_loss(
    site2xy: &candle_core::Tensor,
    site2xy_ini: &candle_core::Tensor,
    site2xy2flag: &candle_core::Tensor,
    power: AnchorPower,
) -> (loss: Result<candle_core::Tensor, Fault>)
    ensures
        match loss {
            Ok(l) => {
                &&& anchor_invariant(*site2xy, *site2xy_ini, *site2xy2flag) is None
                &&& tensor_dims(l) == scalar()
                &&& is_plain(l)
                &&& made_by(
                    l,
                    anchor_loss_recipe(
                        Recipe::Given(*site2xy),
                        Recipe::Given(*site2xy_ini),
                        Recipe::Given(*site2xy2flag),
                        power,
                    ),
                )
            },
            Err(Fault::Invariant(broken)) => anchor_invariant(
                *site2xy,
                *site2xy_ini,
                *site2xy2flag,
            ) == Some(broken),
            Err(Fault::Computation(_)) => false,
        },
{
    if let Some(broken) = check_pair(site2xy, site2xy_ini) {
        return Err(Fault::Invariant(broken));
    }
    if let Some(broken) = check_pair(site2xy, site2xy2flag) {
        return Err(Fault::Invariant(broken));
    }
    let ghost sites = Recipe::Given(*site2xy);
    let ghost start = Recipe::Given(*site2xy_ini);
    let ghost weights = Recipe::Given(*site2xy2flag);
    assert(stands_for(*site2xy, sites) && stands_for(*site2xy_ini, start) && stands_for(
        *site2xy2flag,
        weights,
    ));
    let moved = match site2xy.sub(site2xy_ini) {
        Ok(t) => t,
        Err(e) => {
            return Err(Fault::Computation(e));
        },
    };
    let ghost apart = Recipe::Sub(Box::new(sites), Box::new(start));
    assert(stands_for(moved, apart));
    let held = match moved.mul(site2xy2flag) {
        Ok(t) => t,
        Err(e) => {
            return Err(Fault::Computation(e));
        },
    };
    let ghost weighed = Recipe::Mul(Box::new(apart), Box::new(weights));
    assert(stands_for(held, weighed));
    let squares = match held.sqr() {
        Ok(t) => t,
        Err(e) => {
            return Err(Fault::Computation(e));
        },
    };
    let ghost squared = Recipe::Sqr(Box::new(weighed));
    assert(stands_for(squares, squared));
    let powers = match power {
        AnchorPower::Square => squares,
        AnchorPower::Fourth => match squares.sqr() {
            Ok(t) => t,
            Err(e) => {
                return Err(Fault::Computation(e));
            },
        },
    };
    assert(stands_for(
        powers,
        match power {
            AnchorPower::Square => squared,
            AnchorPower::Fourth => Recipe::Sqr(Box::new(squared)),
        },
    ));
    match powers.sum_all() {
        Ok(l) => Ok(l),
        Err(e) => Err(Fault::Computation(e)),
    }
}

} // verus!
