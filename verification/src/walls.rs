//! Walls: the cell edges that part two regions.
//!
//! An edge is a wall when the cells on both of its sides belong to active
//! sites of different regions. Each wall is seen from both cells; it is kept
//! once, from the side of the site with the lower index.
use crate::assignment::{assignment_fault, assigns};
use crate::mesh::{all_below, Mesh, INACTIVE, NO_NEIGHBOR};
use vstd::prelude::*;

verus! {

/// Edge `k` of cell `i` is a wall, seen from its lower side: site `i` is
/// active, the edge has a neighbour of higher index, and that neighbour is
/// active in another region.
pub open spec fn is_wall(mesh: &Mesh, site2room: Seq<usize>, i: int, k: int) -> bool {
    let j = mesh.neighbor(i, k);
    &&& site2room[i] != INACTIVE
    &&& j != NO_NEIGHBOR
    &&& i < j
    &&& site2room[j as int] != INACTIVE
    &&& site2room[j as int] != site2room[i]
}

/// End points of the walls among the first `k` edges of cell `i`, two entries
/// for each wall, in the order of the edges.
pub open spec fn cell_walls(mesh: &Mesh, site2room: Seq<usize>, i: int, k: nat) -> Seq<usize>
    decreases k,
{
    if k == 0 {
        Seq::empty()
    } else {
        let before = cell_walls(mesh, site2room, i, (k - 1) as nat);
        if is_wall(mesh, site2room, i, k - 1) {
            before.push(mesh.edge_tail(i, k - 1)).push(mesh.edge_head(i, k - 1))
        } else {
            before
        }
    }
}

/// End points of the walls of the first `n` cells, cell after cell.
pub open spec fn walls_upto(mesh: &Mesh, site2room: Seq<usize>, n: nat) -> Seq<usize>
    decreases n,
{
    if n == 0 {
        Seq::empty()
    } else {
        walls_upto(mesh, site2room, (n - 1) as nat) + cell_walls(
            mesh,
            site2room,
            n - 1,
            mesh.cell_len(n - 1) as nat,
        )
    }
}

/// End points of all walls of the mesh: two vertex ids for each wall.
pub open spec fn walls(mesh: &Mesh, site2room: Seq<usize>) -> Seq<usize> {
    walls_upto(mesh, site2room, mesh.num_sites())
}

/// Cell `i` has an edge `k`, and it is a wall.
pub open spec fn is_wall_edge(mesh: &Mesh, site2room: Seq<usize>, i: int, k: int) -> bool {
    mesh.has_edge(i, k) && is_wall(mesh, site2room, i, k)
}

/// `edges`, read as pairs, has a pair `p`.
pub open spec fn has_pair(edges: Seq<usize>, p: int) -> bool {
    0 <= p && 2 * p + 1 < edges.len()
}

/// Entries `2 * p` and `2 * p + 1` of `edges` are the end points of edge `k` of
/// cell `i`, and that edge is a wall.
pub open spec fn wall_at(
    mesh: &Mesh,
    site2room: Seq<usize>,
    edges: Seq<usize>,
    p: int,
    i: int,
    k: int,
) -> bool {
    &&& has_pair(edges, p)
    &&& mesh.has_edge(i, k)
    &&& is_wall(mesh, site2room, i, k)
    &&& edges[2 * p] == mesh.edge_tail(i, k)
    &&& edges[2 * p + 1] == mesh.edge_head(i, k)
}

/// Edge `k` of cell `i` comes before edge `k0` of cell `n` when the cells are
/// walked in order.
pub open spec fn comes_before(i: int, k: int, n: int, k0: int) -> bool {
    i < n || (i == n && k < k0)
}

/// Every pair of `edges` is a wall that comes before edge `k` of cell `n`.
pub open spec fn only_walls(
    mesh: &Mesh,
    site2room: Seq<usize>,
    edges: Seq<usize>,
    n: int,
    k: int,
) -> bool {
    forall|p: int| #[trigger]
        has_pair(edges, p) ==> exists|i: int, j: int|
            comes_before(i, j, n, k) && #[trigger] wall_at(mesh, site2room, edges, p, i, j)
}

/// Every wall that comes before edge `k` of cell `n` is a pair of `edges`.
pub open spec fn all_walls(
    mesh: &Mesh,
    site2room: Seq<usize>,
    edges: Seq<usize>,
    n: int,
    k: int,
) -> bool {
    forall|i: int, j: int|
        comes_before(i, j, n, k) && #[trigger] is_wall_edge(mesh, site2room, i, j) ==> exists|
            p: int,
        | wall_at(mesh, site2room, edges, p, i, j)
}

/// `edges` lists, in pairs, exactly the walls that come before edge `k` of
/// cell `n`.
pub open spec fn lists_walls(
    mesh: &Mesh,
    site2room: Seq<usize>,
    edges: Seq<usize>,
    n: int,
    k: int,
) -> bool {
    &&& edges.len() % 2 == 0
    &&& only_walls(mesh, site2room, edges, n, k)
    &&& all_walls(mesh, site2room, edges, n, k)
}

/// The cell of an inactive site has no wall.
pub proof fn lemma_inactive_cell_has_no_wall(mesh: &Mesh, site2room: Seq<usize>, i: int, k: nat)
    requires
        site2room[i] == INACTIVE,
    ensures
        cell_walls(mesh, site2room, i, k) == Seq::<usize>::empty(),
    decreases k,
{
    if k > 0 {
        lemma_inactive_cell_has_no_wall(mesh, site2room, i, (k - 1) as nat);
    }
}

/// A wall found in a list is found at the same place in any list that
/// continues it.
proof fn lemma_wall_at_extends(
    mesh: &Mesh,
    site2room: Seq<usize>,
    edges: Seq<usize>,
    longer: Seq<usize>,
    p: int,
    i: int,
    k: int,
)
    requires
        wall_at(mesh, site2room, edges, p, i, k),
        edges.len() <= longer.len(),
        forall|x: int| 0 <= x < edges.len() ==> longer[x] == edges[x],
    ensures
        wall_at(mesh, site2room, longer, p, i, k),
{
}

/// A list of walls stays one when the walk moves on and the list grows.
proof fn lemma_only_walls_extends(
    mesh: &Mesh,
    site2room: Seq<usize>,
    edges: Seq<usize>,
    longer: Seq<usize>,
    n: int,
    k: int,
    n2: int,
    k2: int,
)
    requires
        only_walls(mesh, site2room, edges, n, k),
        comes_before(n, k, n2, k2) || (n == n2 && k == k2),
        edges.len() % 2 == 0,
        longer == edges || exists|i: int, j: int|
            comes_before(i, j, n2, k2) && mesh.has_edge(i, j) && is_wall(mesh, site2room, i, j)
                && longer == edges.push(mesh.edge_tail(i, j)).push(mesh.edge_head(i, j)),
    ensures
        only_walls(mesh, site2room, longer, n2, k2),
{
    let last = edges.len() as int / 2;
    assert forall|p: int| #[trigger] has_pair(longer, p) implies exists|i: int, j: int|
        comes_before(i, j, n2, k2) && #[trigger] wall_at(mesh, site2room, longer, p, i, j) by {
        if has_pair(edges, p) {
            let (i, j) = choose|i: int, j: int|
                comes_before(i, j, n, k) && #[trigger] wall_at(mesh, site2room, edges, p, i, j);
            lemma_wall_at_extends(mesh, site2room, edges, longer, p, i, j);
            assert(comes_before(i, j, n2, k2));
        } else {
            assert(longer != edges);
            let (i, j) = choose|i: int, j: int|
                comes_before(i, j, n2, k2) && mesh.has_edge(i, j) && is_wall(
                    mesh,
                    site2room,
                    i,
                    j,
                ) && longer == edges.push(mesh.edge_tail(i, j)).push(mesh.edge_head(i, j));
            assert(p == last);
            assert(wall_at(mesh, site2room, longer, p, i, j));
        }
    }
}

/// Appending a wall keeps the walls already listed.
proof fn lemma_all_walls_extends(
    mesh: &Mesh,
    site2room: Seq<usize>,
    edges: Seq<usize>,
    longer: Seq<usize>,
    n: int,
    k: int,
)
    requires
        all_walls(mesh, site2room, edges, n, k),
        edges.len() <= longer.len(),
        forall|x: int| 0 <= x < edges.len() ==> longer[x] == edges[x],
    ensures
        all_walls(mesh, site2room, longer, n, k),
{
    assert forall|i: int, j: int|
        comes_before(i, j, n, k) && #[trigger] is_wall_edge(
            mesh,
            site2room,
            i,
            j,
        ) implies exists|p: int| wall_at(mesh, site2room, longer, p, i, j) by {
        let p = choose|p: int| wall_at(mesh, site2room, edges, p, i, j);
        lemma_wall_at_extends(mesh, site2room, edges, longer, p, i, j);
    }
}

/// Appending what edge `k` of cell `n` contributes keeps the list a list of
/// walls, now up to edge `k + 1`.
proof fn lemma_lists_walls_step(
    mesh: &Mesh,
    site2room: Seq<usize>,
    edges: Seq<usize>,
    n: int,
    k: int,
)
    requires
        lists_walls(mesh, site2room, edges, n, k),
        mesh.has_edge(n, k),
    ensures
        is_wall(mesh, site2room, n, k) ==> lists_walls(
            mesh,
            site2room,
            edges.push(mesh.edge_tail(n, k)).push(mesh.edge_head(n, k)),
            n,
            k + 1,
        ),
        !is_wall(mesh, site2room, n, k) ==> lists_walls(mesh, site2room, edges, n, k + 1),
{
    if is_wall(mesh, site2room, n, k) {
        let longer = edges.push(mesh.edge_tail(n, k)).push(mesh.edge_head(n, k));
        let last = edges.len() as int / 2;
        assert(comes_before(n, k, n, k + 1));
        lemma_only_walls_extends(mesh, site2room, edges, longer, n, k, n, k + 1);
        lemma_all_walls_extends(mesh, site2room, edges, longer, n, k);
        assert(wall_at(mesh, site2room, longer, last, n, k));
        assert forall|i: int, j: int|
            comes_before(i, j, n, k + 1) && #[trigger] is_wall_edge(
            mesh,
            site2room,
            i,
            j,
        ) implies exists|p: int| wall_at(mesh, site2room, longer, p, i, j) by {
            if i == n && j == k {
                assert(wall_at(mesh, site2room, longer, last, i, j));
            } else {
                assert(comes_before(i, j, n, k));
            }
        }
    } else {
        assert(comes_before(n, k, n, k + 1));
        lemma_only_walls_extends(mesh, site2room, edges, edges, n, k, n, k + 1);
        assert forall|i: int, j: int|
            comes_before(i, j, n, k + 1) && #[trigger] is_wall_edge(
            mesh,
            site2room,
            i,
            j,
        ) implies exists|p: int| wall_at(mesh, site2room, edges, p, i, j) by {
            assert(comes_before(i, j, n, k));
        }
    }
}

/// A list of the walls up to the end of cell `n` is a list of the walls up to
/// the start of cell `n + 1`.
proof fn lemma_lists_walls_next_cell(
    mesh: &Mesh,
    site2room: Seq<usize>,
    edges: Seq<usize>,
    n: int,
)
    requires
        lists_walls(mesh, site2room, edges, n, mesh.cell_len(n)),
    ensures
        lists_walls(mesh, site2room, edges, n + 1, 0),
{
    assert(comes_before(n, mesh.cell_len(n), n + 1, 0));
    lemma_only_walls_extends(mesh, site2room, edges, edges, n, mesh.cell_len(n), n + 1, 0);
    assert forall|i: int, j: int|
        comes_before(i, j, n + 1, 0) && #[trigger] is_wall_edge(
            mesh,
            site2room,
            i,
            j,
        ) implies exists|p: int| wall_at(mesh, site2room, edges, p, i, j) by {
        assert(comes_before(i, j, n, mesh.cell_len(n)));
    }
}

/// What is listed when walking the cells in order, up to edge `k` of cell
/// `n`, is a list of exactly the walls met so far.
proof fn lemma_walk_lists_walls(mesh: &Mesh, site2room: Seq<usize>, n: nat, k: nat)
    requires
        mesh.wf(),
        assigns(mesh, site2room),
        n < mesh.num_sites(),
        k <= mesh.cell_len(n as int),
    ensures
        lists_walls(
            mesh,
            site2room,
            walls_upto(mesh, site2room, n) + cell_walls(mesh, site2room, n as int, k),
            n as int,
            k as int,
        ),
    decreases n, k,
{
    let here = walls_upto(mesh, site2room, n) + cell_walls(mesh, site2room, n as int, k);
    if k > 0 {
        let before = walls_upto(mesh, site2room, n) + cell_walls(
            mesh,
            site2room,
            n as int,
            (k - 1) as nat,
        );
        lemma_walk_lists_walls(mesh, site2room, n, (k - 1) as nat);
        lemma_lists_walls_step(mesh, site2room, before, n as int, k - 1);
        if is_wall(mesh, site2room, n as int, k - 1) {
            assert(here =~= before.push(mesh.edge_tail(n as int, k - 1)).push(
                mesh.edge_head(n as int, k - 1),
            ));
        } else {
            assert(here =~= before);
        }
    } else if n > 0 {
        let m = (n - 1) as nat;
        lemma_walk_lists_walls(mesh, site2room, m, mesh.cell_len(m as int) as nat);
        lemma_lists_walls_next_cell(
            mesh,
            site2room,
            walls_upto(mesh, site2room, n),
            m as int,
        );
        assert(here =~= walls_upto(mesh, site2room, n));
    } else {
        assert(here =~= Seq::<usize>::empty());
    }
}

/// The walls of a mesh, read as pairs: each pair is an edge between two active
/// sites of different regions, and each such edge, taken from the side of the
/// lower site, is among the pairs.
pub proof fn lemma_walls_are_region_borders(mesh: &Mesh, site2room: Seq<usize>)
    requires
        mesh.wf(),
        assigns(mesh, site2room),
    ensures
        walls(mesh, site2room).len() % 2 == 0,
        forall|p: int| #[trigger]
            has_pair(walls(mesh, site2room), p) ==> exists|i: int, k: int| #[trigger]
                wall_at(mesh, site2room, walls(mesh, site2room), p, i, k),
        forall|i: int, k: int|
            #[trigger] is_wall_edge(mesh, site2room, i, k) ==> exists|p: int|
                wall_at(mesh, site2room, walls(mesh, site2room), p, i, k),
{
    let all = walls(mesh, site2room);
    let n = mesh.num_sites();
    if n > 0 {
        let m = (n - 1) as nat;
        lemma_walk_lists_walls(mesh, site2room, m, mesh.cell_len(m as int) as nat);
        assert(lists_walls(mesh, site2room, all, m as int, mesh.cell_len(m as int)));
        assert forall|i: int, k: int|
            #[trigger] is_wall_edge(mesh, site2room, i, k) implies exists|p: int|
            wall_at(mesh, site2room, all, p, i, k) by {
            assert(comes_before(i, k, m as int, mesh.cell_len(m as int)));
        }
    } else {
        assert(all =~= Seq::<usize>::empty());
    }
}

/// The end points of a wall are vertices of the mesh.
pub proof fn lemma_walls_are_vertices(mesh: &Mesh, site2room: Seq<usize>)
    requires
        mesh.wf(),
        assigns(mesh, site2room),
    ensures
        all_below(walls(mesh, site2room), mesh.num_vtxv as nat),
{
    let all = walls(mesh, site2room);
    lemma_walls_are_region_borders(mesh, site2room);
    assert forall|x: int| 0 <= x < all.len() implies all[x] < mesh.num_vtxv by {
        let p = x / 2;
        assert(has_pair(all, p));
        let (i, k) = choose|i: int, k: int| #[trigger] wall_at(mesh, site2room, all, p, i, k);
        let len = mesh.cell_len(i);
        assert(mesh.site2idx@[i + 1] <= mesh.site2idx@.last());
        assert(0 <= (k + 1) % len < len);
        assert(mesh.edge_tail(i, k) < mesh.num_vtxv);
        assert(mesh.edge_head(i, k) < mesh.num_vtxv);
    }
}

/// A wall never joins two sites of one region, and never touches an inactive
/// site: both sites of every wall are active, and their regions differ.
pub proof fn lemma_wall_sides_differ(
    mesh: &Mesh,
    site2room: Seq<usize>,
    edges: Seq<usize>,
    p: int,
    i: int,
    k: int,
)
    requires
        wall_at(mesh, site2room, edges, p, i, k),
    ensures
        site2room[i] != INACTIVE,
        mesh.neighbor(i, k) != NO_NEIGHBOR,
        site2room[mesh.neighbor(i, k) as int] != INACTIVE,
        site2room[i] != site2room[mesh.neighbor(i, k) as int],
        i != mesh.neighbor(i, k),
{
}

/// The walls of `mesh` under the region assignment `site2room`, as a flat list
/// of vertex ids, two for each wall.
///
/// The cells are walked in the order of their sites and the edges of a cell in
/// their order. Edges on the boundary, edges to a site of the same region and
/// edges of or to an inactive site are passed over, and of the two sides of a
/// wall the one of the lower site is taken.
pub fn edge2vtvx_wall(mesh: &Mesh, site2room: &[usize]) -> (edges: Vec<usize>)
    requires
        mesh.wf(),
        assigns(mesh, site2room@),
    ensures
        edges@ == walls(mesh, site2room@),
        edges@.len() % 2 == 0,
        all_below(edges@, mesh.num_vtxv as nat),
        forall|p: int| #[trigger]
            has_pair(edges@, p) ==> exists|i: int, k: int| #[trigger]
                wall_at(mesh, site2room@, edges@, p, i, k),
        forall|i: int, k: int|
            #[trigger] is_wall_edge(mesh, site2room@, i, k) ==> exists|p: int|
                wall_at(mesh, site2room@, edges@, p, i, k),
{
    let mut edges: Vec<usize> = Vec::new();
    let n_sites: usize = mesh.site2idx.len() - 1;
    let mut i_site: usize = 0;
    while i_site < n_sites
        invariant
            mesh.wf(),
            assigns(mesh, site2room@),
            n_sites == mesh.num_sites(),
            i_site <= n_sites,
            edges@ == walls_upto(mesh, site2room@, i_site as nat),
        decreases n_sites - i_site,
    {
        let i_room: usize = site2room[i_site];
        let start: usize = mesh.site2idx[i_site];
        let num_vtx_in_site: usize = mesh.site2idx[i_site + 1] - start;
        if i_room == INACTIVE {
            proof {
                lemma_inactive_cell_has_no_wall(
                    mesh,
                    site2room@,
                    i_site as int,
                    num_vtx_in_site as nat,
                );
                assert(edges@ + Seq::<usize>::empty() =~= edges@);
            }
            i_site += 1;
            continue ;
        }
        let ghost before = edges@;
        let mut i0_vtx: usize = 0;
        while i0_vtx < num_vtx_in_site
            invariant
                mesh.wf(),
                assigns(mesh, site2room@),
                i_site < mesh.num_sites(),
                start == mesh.site2idx@[i_site as int],
                num_vtx_in_site == mesh.cell_len(i_site as int),
                i_room == site2room@[i_site as int],
                i_room != INACTIVE,
                i0_vtx <= num_vtx_in_site,
                edges@ == before + cell_walls(mesh, site2room@, i_site as int, i0_vtx as nat),
            decreases num_vtx_in_site - i0_vtx,
        {
            let i1_vtx: usize = (i0_vtx + 1) % num_vtx_in_site;
            let idx: usize = start + i0_vtx;
            assert(mesh.site2idx@[i_site + 1] <= mesh.site2idx@.last());
            let i0_vtxv: usize = mesh.idx2vtxv[idx];
            let i1_vtxv: usize = mesh.idx2vtxv[start + i1_vtx];
            let j_site: usize = mesh.idx2site[idx];
            let ghost so_far = edges@;
            if j_site != NO_NEIGHBOR && i_site < j_site {
                let j_room: usize = site2room[j_site];
                if j_room != INACTIVE && i_room != j_room {
                    edges.push(i0_vtxv);
                    edges.push(i1_vtxv);
                }
            }
            proof {
                let next = cell_walls(mesh, site2room@, i_site as int, (i0_vtx + 1) as nat);
                let prev = cell_walls(mesh, site2room@, i_site as int, i0_vtx as nat);
                if is_wall(mesh, site2room@, i_site as int, i0_vtx as int) {
                    assert(next == prev.push(i0_vtxv).push(i1_vtxv));
                    assert(edges@ =~= before + next);
                } else {
                    assert(next == prev);
                    assert(edges@ == so_far);
                }
            }
            i0_vtx += 1;
        }
        i_site += 1;
    }
    proof {
        lemma_walls_are_region_borders(mesh, site2room@);
        lemma_walls_are_vertices(mesh, site2room@);
    }
    edges
}

/// Where the tessellation has left the inactive sites out, so that they have
/// neither cells nor neighbours, an edge is a wall exactly when its site is
/// active and it has a neighbour of higher index in another region.
pub proof fn lemma_wall_of_a_fitting_assignment(
    mesh: &Mesh,
    site2room: Seq<usize>,
    num_room: nat,
    i: int,
    k: int,
)
    requires
        mesh.wf(),
        assignment_fault(mesh, site2room, num_room) is None,
        mesh.has_edge(i, k),
    ensures
        is_wall(mesh, site2room, i, k) <==> {
            let j = mesh.neighbor(i, k);
            &&& site2room[i] != INACTIVE
            &&& j != NO_NEIGHBOR
            &&& i < j
            &&& site2room[j as int] != site2room[i]
        },
        site2room[i] != INACTIVE,
{
    assert(mesh.site2idx@[i + 1] <= mesh.site2idx@.last());
    let x = mesh.site2idx@[i] + k;
    assert(mesh.idx2site@[x] == mesh.neighbor(i, k));
    assert(site2room[i] == INACTIVE ==> mesh.cell_len(i) == 0);
}

} // verus!
