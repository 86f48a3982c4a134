//! The cell mesh that a tessellation of the boundary yields.
//!
//! Every site owns one cell, a polygon given as a run of vertex ids; the cell
//! of an inactive site is empty. Each edge of a cell knows the site whose cell
//! lies across it, if there is one.
use vstd::prelude::*;

verus! {

/// Region id of a site that takes no part in the plan.
pub const INACTIVE: usize = usize::MAX;

/// Neighbour id of an edge that lies on the boundary.
pub const NO_NEIGHBOR: usize = usize::MAX;

/// A tessellation: cells as runs of vertex ids, with the neighbour across
/// each edge.
///
/// Cell `i` owns the entries `site2idx[i] .. site2idx[i + 1]` of `idx2vtxv`
/// and of `idx2site`. Its edge `k` runs from its vertex `k` to its vertex
/// `k + 1`, the last one back to vertex `0`.
#[derive(Debug)]
pub struct Mesh {
    pub site2idx: Vec<usize>,
    pub idx2vtxv: Vec<usize>,
    pub idx2site: Vec<usize>,
    pub num_vtxv: usize,
}

/// The ways in which four arrays can fail to be a mesh.
#[derive(Clone, Copy, Debug, PartialEq, Eq, Structural)]
pub enum MeshFault {
    /// The cell table has no entry.
    EmptyTable,
    /// The cell table does not start at zero.
    TableStart,
    /// The cell table decreases somewhere.
    TableOrder,
    /// The cell table does not end at the number of vertex entries.
    TableEnd,
    /// There are not as many neighbour entries as vertex entries.
    NeighborCount,
    /// A vertex id is not below the number of vertices.
    VertexRange,
    /// A neighbour is neither a site nor the boundary mark.
    NeighborRange,
}

/// `table` is a prefix-sum table over `n_idx` entries: it starts at zero, never
/// decreases and ends at `n_idx`.
pub open spec fn is_cell_table(table: Seq<usize>, n_idx: nat) -> bool {
    &&& table.len() >= 1
    &&& table[0] == 0
    &&& forall|i: int, j: int| 0 <= i <= j < table.len() ==> table[i] <= table[j]
    &&& table.last() == n_idx
}

/// Every entry of `ids` is below `bound`.
pub open spec fn all_below(ids: Seq<usize>, bound: nat) -> bool {
    forall|k: int| 0 <= k < ids.len() ==> ids[k] < bound
}

/// Every entry of `neighbors` is a site below `n_sites` or marks the boundary.
pub open spec fn all_neighbors(neighbors: Seq<usize>, n_sites: nat) -> bool {
    forall|k: int|
        0 <= k < neighbors.len() ==> neighbors[k] == NO_NEIGHBOR || neighbors[k] < n_sites
}

/// `table` decreases from some entry to the next.
pub open spec fn has_descent(table: Seq<usize>) -> bool {
    exists|i: int| 0 <= i && i + 1 < table.len() && table[i] > #[trigger] table[i + 1]
}

/// What is wrong with the four parts of a mesh, the first fault in the order
/// of `MeshFault`, or nothing.
pub open spec fn mesh_fault(
    site2idx: Seq<usize>,
    idx2vtxv: Seq<usize>,
    idx2site: Seq<usize>,
    num_vtxv: nat,
) -> Option<MeshFault> {
    if site2idx.len() == 0 {
        Some(MeshFault::EmptyTable)
    } else if site2idx[0] != 0 {
        Some(MeshFault::TableStart)
    } else if has_descent(site2idx) {
        Some(MeshFault::TableOrder)
    } else if site2idx.last() != idx2vtxv.len() {
        Some(MeshFault::TableEnd)
    } else if idx2site.len() != idx2vtxv.len() {
        Some(MeshFault::NeighborCount)
    } else if !all_below(idx2vtxv, num_vtxv) {
        Some(MeshFault::VertexRange)
    } else if !all_neighbors(idx2site, (site2idx.len() - 1) as nat) {
        Some(MeshFault::NeighborRange)
    } else {
        None
    }
}

impl Mesh {
    /// Number of sites, each with its cell.
    pub open spec fn num_sites(&self) -> nat {
        (self.site2idx@.len() - 1) as nat
    }

    /// The arrays fit together.
    pub open spec fn wf(&self) -> bool {
        &&& is_cell_table(self.site2idx@, self.idx2vtxv@.len())
        &&& self.idx2site@.len() == self.idx2vtxv@.len()
        &&& all_below(self.idx2vtxv@, self.num_vtxv as nat)
        &&& all_neighbors(self.idx2site@, self.num_sites())
    }

    /// Number of vertices, and of edges, of cell `i`.
    pub open spec fn cell_len(&self, i: int) -> int {
        self.site2idx@[i + 1] - self.site2idx@[i]
    }

    /// `k` is an edge of the cell of site `i`.
    pub open spec fn has_edge(&self, i: int, k: int) -> bool {
        0 <= i < self.num_sites() && 0 <= k < self.cell_len(i)
    }

    /// Vertex at which edge `k` of cell `i` starts.
    pub open spec fn edge_tail(&self, i: int, k: int) -> usize {
        self.idx2vtxv@[self.site2idx@[i] + k]
    }

    /// Vertex at which edge `k` of cell `i` ends.
    pub open spec fn edge_head(&self, i: int, k: int) -> usize {
        self.idx2vtxv@[self.site2idx@[i] + (k + 1) % self.cell_len(i)]
    }

    /// Site across edge `k` of cell `i`, or `NO_NEIGHBOR`.
    pub open spec fn neighbor(&self, i: int, k: int) -> usize {
        self.idx2site@[self.site2idx@[i] + k]
    }
}

/// A table without a descent never decreases, over any distance.
pub proof fn lemma_no_descent_is_sorted(table: Seq<usize>, i: int, j: int)
    requires
        !has_descent(table),
        0 <= i <= j < table.len(),
    ensures
        table[i] <= table[j],
    decreases j - i,
{
    if i < j {
        lemma_no_descent_is_sorted(table, i, j - 1);
        assert(!(table[j - 1] > table[j - 1 + 1]));
    }
}

/// Four arrays are a mesh exactly when no fault is found in them.
pub proof fn lemma_fault_free_is_wf(mesh: Mesh)
    ensures
        mesh.wf() <==> mesh_fault(
            mesh.site2idx@,
            mesh.idx2vtxv@,
            mesh.idx2site@,
            mesh.num_vtxv as nat,
        ) is None,
{
    let table = mesh.site2idx@;
    if table.len() > 0 && !has_descent(table) {
        assert forall|i: int, j: int| 0 <= i <= j < table.len() implies table[i] <= table[j] by {
            lemma_no_descent_is_sorted(table, i, j);
        }
    }
}

/// Whether `table` never decreases from an entry to the next.
fn table_is_sorted(table: &[usize]) -> (sorted: bool)
    ensures
        sorted == !has_descent(table@),
{
    let mut i: usize = 1;
    while i < table.len()
        invariant
            1 <= i,
            forall|j: int| 0 <= j && j + 1 < i ==> table@[j] <= #[trigger] table@[j + 1],
        decreases table.len() - i,
    {
        if table[i - 1] > table[i] {
            assert(table@[i - 1] > table@[i - 1 + 1]);
            return false;
        }
        i += 1;
    }
    true
}

/// Whether `table` is a prefix-sum table over `n_idx` entries.
pub fn table_fits(table: &[usize], n_idx: usize) -> (fits: bool)
    ensures
        fits == is_cell_table(table@, n_idx as nat),
{
    if table.len() == 0 || table[0] != 0 || table[table.len() - 1] != n_idx {
        return false;
    }
    let sorted = table_is_sorted(table);
    proof {
        if sorted {
            assert forall|i: int, j: int| 0 <= i <= j < table@.len() implies table@[i]
                <= table@[j] by {
                lemma_no_descent_is_sorted(table@, i, j);
            }
        } else {
            let i = choose|i: int|
                0 <= i && i + 1 < table@.len() && table@[i] > #[trigger] table@[i + 1];
            assert(!(table@[i] <= table@[i + 1]));
        }
    }
    sorted
}

/// Whether every entry of `ids` is below `bound`.
pub fn ids_below(ids: &[usize], bound: usize) -> (below: bool)
    ensures
        below == all_below(ids@, bound as nat),
{
    let mut k: usize = 0;
    while k < ids.len()
        invariant
            k <= ids.len(),
            forall|j: int| 0 <= j < k ==> ids@[j] < bound,
        decreases ids.len() - k,
    {
        if ids[k] >= bound {
            return false;
        }
        k += 1;
    }
    true
}

/// Whether every entry of `neighbors` is a site below `n_sites` or the
/// boundary mark.
fn neighbors_in_range(neighbors: &[usize], n_sites: usize) -> (fit: bool)
    ensures
        fit == all_neighbors(neighbors@, n_sites as nat),
{
    let mut k: usize = 0;
    while k < neighbors.len()
        invariant
            k <= neighbors.len(),
            forall|j: int| 0 <= j < k ==> neighbors@[j] == NO_NEIGHBOR || neighbors@[j] < n_sites,
        decreases neighbors.len() - k,
    {
        if neighbors[k] != NO_NEIGHBOR && neighbors[k] >= n_sites {
            return false;
        }
        k += 1;
    }
    true
}

impl Mesh {
    /// Puts four arrays together as a mesh, or says what is wrong with them.
    pub fn new(
        site2idx: Vec<usize>,
        idx2vtxv: Vec<usize>,
        idx2site: Vec<usize>,
        num_vtxv: usize,
    ) -> (made: Result<Mesh, MeshFault>)
        ensures
            match made {
                Ok(mesh) => {
                    &&& mesh_fault(site2idx@, idx2vtxv@, idx2site@, num_vtxv as nat) is None
                    &&& mesh.wf()
                    &&& mesh.site2idx@ == site2idx@
                    &&& mesh.idx2vtxv@ == idx2vtxv@
                    &&& mesh.idx2site@ == idx2site@
                    &&& mesh.num_vtxv == num_vtxv
                },
                Err(fault) => mesh_fault(site2idx@, idx2vtxv@, idx2site@, num_vtxv as nat) == Some(
                    fault,
                ),
            },
    {
        if site2idx.len() == 0 {
            return Err(MeshFault::EmptyTable);
        }
        if site2idx[0] != 0 {
            return Err(MeshFault::TableStart);
        }
        if !table_is_sorted(site2idx.as_slice()) {
            return Err(MeshFault::TableOrder);
        }
        if site2idx[site2idx.len() - 1] != idx2vtxv.len() {
            return Err(MeshFault::TableEnd);
        }
        if idx2site.len() != idx2vtxv.len() {
            return Err(MeshFault::NeighborCount);
        }
        if !ids_below(idx2vtxv.as_slice(), num_vtxv) {
            return Err(MeshFault::VertexRange);
        }
        if !neighbors_in_range(idx2site.as_slice(), site2idx.len() - 1) {
            return Err(MeshFault::NeighborRange);
        }
        let mesh = Mesh { site2idx, idx2vtxv, idx2site, num_vtxv };
        proof {
            lemma_fault_free_is_wf(mesh);
        }
        Ok(mesh)
    }

    /// Number of sites of the mesh.
    pub fn site_count(&self) -> (n: usize)
        requires
            self.wf(),
        ensures
            n == self.num_sites(),
    {
        self.site2idx.len() - 1
    }
}

} // verus!
