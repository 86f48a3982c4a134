//! Areas of the regions of a mesh.
//!
//! The area of a region is the sum of the areas of its cells. It is taken as a
//! product of the grouping matrix with the column of the cell areas, so that
//! it stays a differentiable function of the vertex coordinates.
use crate::fault::{Fault, Invariant};
use crate::grouping::{grouping_matrix, regions_fit, regions_in_range};
use crate::mesh::{all_below, ids_below, is_cell_table, table_fits};
use crate::grouping::grouping;
use crate::tensor::{
    as_column, cell_areas, is_plain, made_by, matrix_tensor, stands_for, tensor_dims,
    tensor_is_contiguous, Recipe,
};
use vstd::prelude::*;

verus! {

/// The vertex coordinates can be read as rows of two numbers that cover every
/// vertex id of the mesh.
pub open spec fn vertices_fit(idx2vtxv: Seq<usize>, dims: Seq<usize>, dense: bool) -> bool {
    &&& dense
    &&& dims.len() == 2 ==> dims[1] == 2 && all_below(idx2vtxv, dims[0] as nat)
}

/// The first invariant that the input to the region areas breaks, if any.
pub open spec fn area_invariant(
    site2room: Seq<usize>,
    num_room: nat,
    site2idx: Seq<usize>,
    idx2vtxv: Seq<usize>,
    dims: Seq<usize>,
    dense: bool,
) -> Option<Invariant> {
    if !regions_in_range(site2room, num_room) {
        Some(Invariant::RegionRange)
    } else if site2room.len() * num_room > usize::MAX {
        Some(Invariant::MatrixSize)
    } else if !is_cell_table(site2idx, idx2vtxv.len()) {
        Some(Invariant::CellTable)
    } else if !dense || (dims.len() == 2 && dims[1] != 2) {
        Some(Invariant::VertexLayout)
    } else if dims.len() == 2 && !all_below(idx2vtxv, dims[0] as nat) {
        Some(Invariant::VertexRange)
    } else {
        None
    }
}

/// How the region areas are made: the grouping matrix of the assignment times
/// the column of the cell areas.
pub open spec fn room2area_recipe(
    site2room: Seq<usize>,
    num_room: usize,
    site2idx: Seq<usize>,
    idx2vtxv: Seq<usize>,
    vertices: Recipe,
) -> Recipe {
    Recipe::MatMul(
        Box::new(
            Recipe::Matrix(
                grouping(site2room, num_room as nat),
                num_room,
                site2room.len() as usize,
            ),
        ),
        Box::new(
            Recipe::Reshaped(
                Box::new(Recipe::CellAreas(site2idx, idx2vtxv, Box::new(vertices))),
                (site2idx.len() - 1) as usize,
                1,
            ),
        ),
    )
}

/// The tensor library can take the region areas: the vertex coordinates have
/// two axes and are single-precision numbers on the processor, and there are
/// as many cells as sites, or no site, or no region.
pub open spec fn areas_can_be_taken(
    n_site: nat,
    num_room: nat,
    n_cell: int,
    vtxv2xy: candle_core::Tensor,
) -> bool {
    &&& tensor_dims(vtxv2xy).len() == 2
    &&& is_plain(vtxv2xy)
    &&& (n_site == n_cell || num_room == 0 || n_site == 0)
}

/// The area of every region, as a column with a row for each region.
///
/// The cell areas are taken from the vertex coordinates `vtxv2xy`, a tensor
/// with a row of two numbers for each vertex, and summed region by region
/// with the grouping matrix of `site2room`. The areas are computed exactly
/// when the vertex coordinates have two axes and are single-precision numbers
/// on the processor, and there are as many cells as sites, or no site, or no
/// region; on any other input the failure of the tensor library is passed on.
pub fn room2area(
    site2room: &[usize],
    num_room: usize,
    site2idx: &[usize],
    idx2vtxv: &[usize],
    vtxv2xy: &candle_core::Tensor,
) -> (areas: Result<candle_core::Tensor, candle_core::Error>)
    requires
        regions_in_range(site2room@, num_room as nat),
        site2room@.len() * num_room <= usize::MAX,
        is_cell_table(site2idx@, idx2vtxv@.len()),
        vertices_fit(idx2vtxv@, tensor_dims(*vtxv2xy), tensor_is_contiguous(*vtxv2xy)),
    ensures
        areas is Ok <==> areas_can_be_taken(
            site2room@.len(),
            num_room as nat,
            site2idx@.len() - 1,
            *vtxv2xy,
        ),
        areas matches Ok(a) ==> {
            &&& tensor_dims(a) == seq![num_room, 1usize]
            &&& is_plain(a)
            &&& made_by(
                a,
                room2area_recipe(
                    site2room@,
                    num_room,
                    site2idx@,
                    idx2vtxv@,
                    Recipe::Given(*vtxv2xy),
                ),
            )
        },
{
    let site2areas = match cell_areas(site2idx, idx2vtxv, vtxv2xy) {
        Ok(t) => t,
        Err(e) => {
            return Err(e);
        },
    };
    let ghost listed = Recipe::CellAreas(
        site2idx@,
        idx2vtxv@,
        Box::new(Recipe::Given(*vtxv2xy)),
    );
    assert(stands_for(*vtxv2xy, Recipe::Given(*vtxv2xy)));
    assert(stands_for(site2areas, listed));
    let num_cell: usize = site2areas.dims()[0];
    assert(tensor_dims(site2areas) =~= seq![num_cell]);
    assert(num_cell == site2idx.len() - 1);
    let site2areas = match as_column(&site2areas, num_cell) {
        Ok(t) => t,
        Err(e) => {
            return Err(e);
        },
    };
    let ghost column = Recipe::Reshaped(Box::new(listed), num_cell, 1);
    assert(stands_for(site2areas, column));
    let num_site: usize = site2room.len();
    assert(num_room * num_site == num_site * num_room) by (nonlinear_arith);
    let cells = grouping_matrix(site2room, num_room);
    let sum_sites_for_rooms = match matrix_tensor(&cells, num_room, num_site) {
        Ok(t) => t,
        Err(e) => {
            return Err(e);
        },
    };
    let ghost matrix = Recipe::Matrix(cells@, num_room, num_site);
    assert(stands_for(sum_sites_for_rooms, matrix));
    assert(tensor_dims(sum_sites_for_rooms)[0] * tensor_dims(site2areas)[1] == num_room)
        by (nonlinear_arith)
        requires
            tensor_dims(sum_sites_for_rooms)[0] == num_room,
            tensor_dims(site2areas)[1] == 1,
    ;
    let areas = sum_sites_for_rooms.matmul(&site2areas);
    proof {
        if areas is Ok {
            assert(tensor_dims(areas->Ok_0) =~= seq![num_room, 1usize]);
        }
    }
    areas
}

/// The area of every region, after a check of the input.
///
/// An input that breaks an invariant is refused with the first invariant that
/// it breaks. Any other input is handed to `room2area`, and a failure of the
/// tensor library is passed on.
pub fn try_room2area(
    site2room: &[usize],
    num_room: usize,
    site2idx: &[usize],
    idx2vtxv: &[usize],
    vtxv2xy: &candle_core::Tensor,
) -> (areas: Result<candle_core::Tensor, Fault>)
    ensures
        match areas {
            Ok(a) => {
                &&& area_invariant(
                    site2room@,
                    num_room as nat,
                    site2idx@,
                    idx2vtxv@,
                    tensor_dims(*vtxv2xy),
                    tensor_is_contiguous(*vtxv2xy),
                ) is None
                &&& areas_can_be_taken(
                    site2room@.len(),
                    num_room as nat,
                    site2idx@.len() - 1,
                    *vtxv2xy,
                )
                &&& tensor_dims(a) == seq![num_room, 1usize]
                &&& is_plain(a)
                &&& made_by(
                    a,
                    room2area_recipe(
                        site2room@,
                        num_room,
                        site2idx@,
                        idx2vtxv@,
                        Recipe::Given(*vtxv2xy),
                    ),
                )
            },
            Err(Fault::Invariant(broken)) => area_invariant(
                site2room@,
                num_room as nat,
                site2idx@,
                idx2vtxv@,
                tensor_dims(*vtxv2xy),
                tensor_is_contiguous(*vtxv2xy),
            ) == Some(broken),
            Err(Fault::Computation(_)) => {
                &&& area_invariant(
                    site2room@,
                    num_room as nat,
                    site2idx@,
                    idx2vtxv@,
                    tensor_dims(*vtxv2xy),
                    tensor_is_contiguous(*vtxv2xy),
                ) is None
                &&& !areas_can_be_taken(
                    site2room@.len(),
                    num_room as nat,
                    site2idx@.len() - 1,
                    *vtxv2xy,
                )
            },
        },
{
    if !regions_fit(site2room, num_room) {
        return Err(Fault::Invariant(Invariant::RegionRange));
    }
    if site2room.len().checked_mul(num_room).is_none() {
        return Err(Fault::Invariant(Invariant::MatrixSize));
    }
    if !table_fits(site2idx, idx2vtxv.len()) {
        return Err(Fault::Invariant(Invariant::CellTable));
    }
    let dims = vtxv2xy.dims();
    if !vtxv2xy.is_contiguous() || (dims.len() == 2 && dims[1] != 2) {
        return Err(Fault::Invariant(Invariant::VertexLayout));
    }
    if dims.len() == 2 && !ids_below(idx2vtxv, dims[0]) {
        return Err(Fault::Invariant(Invariant::VertexRange));
    }
    match room2area(site2room, num_room, site2idx, idx2vtxv, vtxv2xy) {
        Ok(a) => Ok(a),
        Err(e) => Err(Fault::Computation(e)),
    }
}

} // verus!
