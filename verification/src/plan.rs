//! The input of a run, and what a run is configured with.
//!
//! A plan is given as flat arrays: the corners of the boundary and the sites
//! as coordinate pairs, a region for each site, an anchor weight for each
//! coordinate of each site, and a target area for each region. Before a run
//! starts the arrays are checked against each other.
use crate::grouping::{regions_fit, regions_in_range};
use crate::schedule::Pacing;
use vstd::prelude::*;

verus! {

/// The ways in which the arrays of a plan can fail to fit together.
#[derive(Clone, Copy, Debug, PartialEq, Eq, Structural)]
pub enum PlanFault {
    /// The boundary is no list of coordinate pairs.
    BoundaryCoordinates,
    /// The sites are no list of coordinate pairs.
    SiteCoordinates,
    /// There is not one region id for each site.
    RegionCount,
    /// There is not one anchor weight for each site coordinate.
    AnchorCount,
    /// A region id is neither below the number of regions nor `INACTIVE`.
    RegionRange,
}

/// The first fault of a plan, if any: `n_boundary` and `n_site` are the numbers
/// of boundary and site coordinates, `n_anchor` the number of anchor weights.
pub open spec fn plan_fault(
    n_boundary: nat,
    n_site: nat,
    site2room: Seq<usize>,
    n_anchor: nat,
    num_room: nat,
) -> Option<PlanFault> {
    if n_boundary % 2 != 0 {
        Some(PlanFault::BoundaryCoordinates)
    } else if n_site % 2 != 0 {
        Some(PlanFault::SiteCoordinates)
    } else if site2room.len() != n_site / 2 {
        Some(PlanFault::RegionCount)
    } else if n_anchor != n_site {
        Some(PlanFault::AnchorCount)
    } else if !regions_in_range(site2room, num_room) {
        Some(PlanFault::RegionRange)
    } else {
        None
    }
}

/// Checks the arrays of a plan against each other and gives the number of
/// sites, or the first fault.
pub fn check_plan(
    n_boundary: usize,
    n_site: usize,
    site2room: &[usize],
    n_anchor: usize,
    num_room: usize,
) -> (checked: Result<usize, PlanFault>)
    ensures
        match checked {
            Ok(num_site) => {
                &&& plan_fault(
                    n_boundary as nat,
                    n_site as nat,
                    site2room@,
                    n_anchor as nat,
                    num_room as nat,
                ) is None
                &&& num_site == site2room@.len()
                &&& 2 * num_site == n_site
            },
            Err(fault) => plan_fault(
                n_boundary as nat,
                n_site as nat,
                site2room@,
                n_anchor as nat,
                num_room as nat,
            ) == Some(fault),
        },
{
    if n_boundary % 2 != 0 {
        return Err(PlanFault::BoundaryCoordinates);
    }
    if n_site % 2 != 0 {
        return Err(PlanFault::SiteCoordinates);
    }
    if site2room.len() != n_site / 2 {
        return Err(PlanFault::RegionCount);
    }
    if n_anchor != n_site {
        return Err(PlanFault::AnchorCount);
    }
    if !regions_fit(site2room, num_room) {
        return Err(PlanFault::RegionRange);
    }
    Ok(site2room.len())
}

/// Power to which the deviation of an anchored coordinate is raised.
#[derive(Clone, Copy, Debug, PartialEq, Eq, Structural)]
pub enum AnchorPower {
    Square,
    Fourth,
}

/// Norm in which the length of a wall is taken.
#[derive(Clone, Copy, Debug, PartialEq, Eq, Structural)]
pub enum EdgeNorm {
    Absolute,
    Squared,
}

/// The numbers a run is configured with. Rates and weights are given in
/// thousandths.
#[derive(Clone, Copy, Debug, PartialEq, Eq, Structural)]
pub struct Config {
    pub pacing: Pacing,
    /// Step length at the start of the ramp.
    pub start_rate: u64,
    /// Step length at the peak.
    pub peak_rate: u64,
    /// Step length at the floor.
    pub floor_rate: u64,
    /// Decay constant of the second moment of the optimiser.
    pub second_moment_decay: u64,
    /// Weight of the squared deviation of the region areas from their targets.
    pub area_weight: u64,
    /// Weight of the deviation of the whole area from the area of the boundary.
    pub total_area_weight: u64,
    /// Weight of the length of the walls.
    pub wall_weight: u64,
    /// Weight of the adjacency term at the start of its ramp.
    pub adjacency_low: u64,
    /// Weight of the adjacency term on its plateau.
    pub adjacency_plateau: u64,
    /// Weight of the deviation of the anchored coordinates.
    pub anchor_weight: u64,
    /// Weight of the distance of the sites from the centroids of their cells.
    pub centroid_weight: u64,
    pub anchor_power: AnchorPower,
    pub wall_norm: EdgeNorm,
}

/// The configuration that goes with a pacing.
pub open spec fn config_of(pacing: Pacing) -> Config {
    match pacing {
        Pacing::Fixed => Config {
            pacing,
            start_rate: 50,
            peak_rate: 50,
            floor_rate: 5,
            second_moment_decay: 999,
            area_weight: 5_000,
            total_area_weight: 10_000,
            wall_weight: 20,
            adjacency_low: 1_000,
            adjacency_plateau: 1_000,
            anchor_weight: 100_000,
            centroid_weight: 200,
            anchor_power: AnchorPower::Square,
            wall_norm: EdgeNorm::Absolute,
        },
        Pacing::Adaptive => Config {
            pacing,
            start_rate: 20,
            peak_rate: 80,
            floor_rate: 5,
            second_moment_decay: 950,
            area_weight: 50_000_000,
            total_area_weight: 10_000_000,
            wall_weight: 20_000,
            adjacency_low: 10_000,
            adjacency_plateau: 150_000,
            anchor_weight: 10_000_000_000,
            centroid_weight: 100,
            anchor_power: AnchorPower::Fourth,
            wall_norm: EdgeNorm::Absolute,
        },
    }
}

impl Config {
    /// The rates keep their order, and the adjacency weight does not fall
    /// along its ramp.
    pub open spec fn wf(self) -> bool {
        &&& self.floor_rate <= self.peak_rate
        &&& self.start_rate <= self.peak_rate
        &&& self.adjacency_low <= self.adjacency_plateau
    }

    /// The configuration that goes with a pacing.
    pub fn new(pacing: Pacing) -> (config: Config)
        ensures
            config == config_of(pacing),
            config.wf(),
    {
        match pacing {
            Pacing::Fixed => Config {
                pacing,
                start_rate: 50,
                peak_rate: 50,
                floor_rate: 5,
                second_moment_decay: 999,
                area_weight: 5_000,
                total_area_weight: 10_000,
                wall_weight: 20,
                adjacency_low: 1_000,
                adjacency_plateau: 1_000,
                anchor_weight: 100_000,
                centroid_weight: 200,
                anchor_power: AnchorPower::Square,
                wall_norm: EdgeNorm::Absolute,
            },
            Pacing::Adaptive => Config {
                pacing,
                start_rate: 20,
                peak_rate: 80,
                floor_rate: 5,
                second_moment_decay: 950,
                area_weight: 50_000_000,
                total_area_weight: 10_000_000,
                wall_weight: 20_000,
                adjacency_low: 10_000,
                adjacency_plateau: 150_000,
                anchor_weight: 10_000_000_000,
                centroid_weight: 100,
                anchor_power: AnchorPower::Fourth,
                wall_norm: EdgeNorm::Absolute,
            },
        }
    }
}

} // verus!
