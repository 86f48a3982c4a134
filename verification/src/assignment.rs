//! The assignment of sites to regions, held against a mesh.
//!
//! Every site has a region id, or the mark `INACTIVE`. Inactive sites are left
//! out of the tessellation: they have no cell and are nobody's neighbour.
use crate::grouping::{regions_fit, regions_in_range};
use crate::mesh::{Mesh, INACTIVE, NO_NEIGHBOR};
use vstd::prelude::*;

verus! {

/// `site2room` gives every site of `mesh` a region id or `INACTIVE`.
pub open spec fn assigns(mesh: &Mesh, site2room: Seq<usize>) -> bool {
    site2room.len() == mesh.num_sites()
}

/// The ways in which a region assignment can fail to fit a mesh.
#[derive(Clone, Copy, Debug, PartialEq, Eq, Structural)]
pub enum AssignmentFault {
    /// There is not one region id for each site of the mesh.
    SiteCount,
    /// A region id is neither below the number of regions nor `INACTIVE`.
    RegionRange,
    /// An inactive site has a cell that is not empty.
    InactiveCell,
    /// An edge has an inactive site for its neighbour.
    InactiveNeighbor,
}

/// The cells of the inactive sites are empty.
pub open spec fn no_inactive_cell(mesh: &Mesh, site2room: Seq<usize>) -> bool {
    forall|i: int|
        0 <= i < mesh.num_sites() && #[trigger] site2room[i] == INACTIVE ==> mesh.cell_len(i) == 0
}

/// No edge has an inactive site for its neighbour.
pub open spec fn no_inactive_neighbor(mesh: &Mesh, site2room: Seq<usize>) -> bool {
    forall|x: int|
        0 <= x < mesh.idx2site@.len() && #[trigger] mesh.idx2site@[x] != NO_NEIGHBOR
            ==> site2room[mesh.idx2site@[x] as int] != INACTIVE
}

/// The first fault of a region assignment for a mesh, if any.
pub open spec fn assignment_fault(mesh: &Mesh, site2room: Seq<usize>, num_room: nat) -> Option<
    AssignmentFault,
> {
    if site2room.len() != mesh.num_sites() {
        Some(AssignmentFault::SiteCount)
    } else if !regions_in_range(site2room, num_room) {
        Some(AssignmentFault::RegionRange)
    } else if !no_inactive_cell(mesh, site2room) {
        Some(AssignmentFault::InactiveCell)
    } else if !no_inactive_neighbor(mesh, site2room) {
        Some(AssignmentFault::InactiveNeighbor)
    } else {
        None
    }
}

/// Checks a region assignment against a mesh: a region for each site, every
/// region in range, and the inactive sites without cells and never a
/// neighbour.
pub fn check_assignment(mesh: &Mesh, site2room: &[usize], num_room: usize) -> (checked: Result<
    (),
    AssignmentFault,
>)
    requires
        mesh.wf(),
    ensures
        match checked {
            Ok(_) => assignment_fault(mesh, site2room@, num_room as nat) is None,
            Err(fault) => assignment_fault(mesh, site2room@, num_room as nat) == Some(fault),
        },
{
    let n_sites: usize = mesh.site2idx.len() - 1;
    if site2room.len() != n_sites {
        return Err(AssignmentFault::SiteCount);
    }
    if !regions_fit(site2room, num_room) {
        return Err(AssignmentFault::RegionRange);
    }
    let mut i_site: usize = 0;
    while i_site < n_sites
        invariant
            mesh.wf(),
            n_sites == mesh.num_sites(),
            site2room@.len() == n_sites,
            regions_in_range(site2room@, num_room as nat),
            i_site <= n_sites,
            forall|i: int|
                0 <= i < i_site && #[trigger] site2room@[i] == INACTIVE ==> mesh.cell_len(i) == 0,
        decreases n_sites - i_site,
    {
        if site2room[i_site] == INACTIVE && mesh.site2idx[i_site + 1] != mesh.site2idx[i_site] {
            assert(mesh.cell_len(i_site as int) != 0);
            return Err(AssignmentFault::InactiveCell);
        }
        i_site += 1;
    }
    let mut idx: usize = 0;
    while idx < mesh.idx2site.len()
        invariant
            mesh.wf(),
            site2room@.len() == mesh.num_sites(),
            regions_in_range(site2room@, num_room as nat),
            no_inactive_cell(mesh, site2room@),
            idx <= mesh.idx2site@.len(),
            forall|x: int|
                0 <= x < idx && #[trigger] mesh.idx2site@[x] != NO_NEIGHBOR
                    ==> site2room@[mesh.idx2site@[x] as int] != INACTIVE,
        decreases mesh.idx2site.len() - idx,
    {
        let j_site: usize = mesh.idx2site[idx];
        if j_site != NO_NEIGHBOR && site2room[j_site] == INACTIVE {
            return Err(AssignmentFault::InactiveNeighbor);
        }
        idx += 1;
    }
    Ok(())
}

} // verus!
