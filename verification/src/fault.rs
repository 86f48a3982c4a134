//! The two ways in which a computation on tensors can fail.
use crate::tensor::{
    element_type, on_processor, tensor_dims, tensor_dtype, tensor_on_cpu, ElementType,
};
use vstd::prelude::*;

verus! {

/// An invariant of the plan that the input to a computation breaks.
#[derive(Clone, Copy, Debug, PartialEq, Eq, Structural)]
pub enum Invariant {
    /// A region id is neither below the number of regions nor `INACTIVE`.
    RegionRange,
    /// The grouping matrix would have more entries than the machine can
    /// count.
    MatrixSize,
    /// The cell table is no prefix-sum table over the vertex entries.
    CellTable,
    /// The vertex coordinates are not laid out row by row, or have two axes
    /// but not two columns.
    VertexLayout,
    /// A vertex id is not a row of the vertex coordinates.
    VertexRange,
    /// The site coordinates are not a row of two numbers for each site.
    SiteLayout,
    /// There are more sites than a tensor of indices can name.
    SiteIndex,
    /// There are more pulls than the machine can count coordinates for.
    PullCount,
    /// A tensor holds other numbers than single-precision ones.
    ElementType,
    /// A tensor is not held in the memory of the processor.
    Device,
    /// Two tensors that must have one shape do not, or a tensor that must have
    /// no axes has some.
    ShapeMismatch,
    /// A required adjacency names a region without a site.
    EmptyRegion,
}

/// Why a computation on tensors gave no result.
#[derive(Debug)]
pub enum Fault {
    /// The input breaks an invariant of the plan.
    Invariant(Invariant),
    /// The tensor library failed.
    Computation(candle_core::Error),
}

/// The first invariant that a pair of tensors breaks which are to be combined
/// entry by entry, if any: both hold single-precision numbers, both are on the
/// processor, and both have one shape.
pub open spec fn pair_invariant(a: candle_core::Tensor, b: candle_core::Tensor) -> Option<
    Invariant,
> {
    if tensor_dtype(a) != ElementType::Single || tensor_dtype(b) != ElementType::Single {
        Some(Invariant::ElementType)
    } else if !tensor_on_cpu(a) || !tensor_on_cpu(b) {
        Some(Invariant::Device)
    } else if tensor_dims(a) != tensor_dims(b) {
        Some(Invariant::ShapeMismatch)
    } else {
        None
    }
}

/// Whether two lists of sizes are the same.
pub fn same_sizes(a: &[usize], b: &[usize]) -> (same: bool)
    ensures
        same == (a@ == b@),
{
    if a.len() != b.len() {
        return false;
    }
    let mut k: usize = 0;
    while k < a.len()
        invariant
            a@.len() == b@.len(),
            k <= a@.len(),
            forall|j: int| 0 <= j < k ==> a@[j] == b@[j],
        decreases a.len() - k,
    {
        if a[k] != b[k] {
            return false;
        }
        k += 1;
    }
    assert(a@ =~= b@);
    true
}

/// The first invariant that a pair of tensors breaks which are to be combined
/// entry by entry, or nothing.
pub fn check_pair(a: &candle_core::Tensor, b: &candle_core::Tensor) -> (broken: Option<Invariant>)
    ensures
        broken == pair_invariant(*a, *b),
{
    if element_type(a) != ElementType::Single || element_type(b) != ElementType::Single {
        Some(Invariant::ElementType)
    } else if !on_processor(a) || !on_processor(b) {
        Some(Invariant::Device)
    } else if !same_sizes(a.dims(), b.dims()) {
        Some(Invariant::ShapeMismatch)
    } else {
        None
    }
}

} // verus!
