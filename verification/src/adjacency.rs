//! Required adjacencies between regions, and whether a mesh meets them.
//!
//! Two regions are adjacent in a mesh when a wall parts a cell of the one
//! from a cell of the other. A plan may require pairs of regions to be
//! adjacent; the pairs that a mesh does not yet meet are the ones that the
//! search has to pull together.
use crate::assignment::assigns;
use crate::mesh::{Mesh, INACTIVE, NO_NEIGHBOR};
use crate::walls::{
    comes_before, is_wall, is_wall_edge, lemma_walls_are_region_borders, wall_at, walls,
};
use vstd::prelude::*;

verus! {

/// Edge `k` of cell `i` is a wall with region `a` on one side and region `b`
/// on the other.
pub open spec fn joins(
    mesh: &Mesh,
    site2room: Seq<usize>,
    i: int,
    k: int,
    a: usize,
    b: usize,
) -> bool {
    let here = site2room[i];
    let there = site2room[mesh.neighbor(i, k) as int];
    &&& mesh.has_edge(i, k)
    &&& is_wall(mesh, site2room, i, k)
    &&& (here == a && there == b) || (here == b && there == a)
}

/// Regions `a` and `b` share a wall.
pub open spec fn regions_touch(mesh: &Mesh, site2room: Seq<usize>, a: usize, b: usize) -> bool {
    exists|i: int, k: int| joins(mesh, site2room, i, k, a, b)
}

/// The pairs among the first `n` of `pairs` whose regions share no wall, in
/// their order.
pub open spec fn unmet(
    mesh: &Mesh,
    site2room: Seq<usize>,
    pairs: Seq<(usize, usize)>,
    n: nat,
) -> Seq<(usize, usize)>
    decreases n,
{
    if n == 0 {
        Seq::empty()
    } else {
        let before = unmet(mesh, site2room, pairs, (n - 1) as nat);
        if regions_touch(mesh, site2room, pairs[n - 1].0, pairs[n - 1].1) {
            before
        } else {
            before.push(pairs[n - 1])
        }
    }
}

/// Adjacency does not depend on the order in which two regions are named.
pub proof fn lemma_touch_is_symmetric(mesh: &Mesh, site2room: Seq<usize>, a: usize, b: usize)
    ensures
        regions_touch(mesh, site2room, a, b) == regions_touch(mesh, site2room, b, a),
{
    if regions_touch(mesh, site2room, a, b) {
        let (i, k) = choose|i: int, k: int| joins(mesh, site2room, i, k, a, b);
        assert(joins(mesh, site2room, i, k, b, a));
    }
    if regions_touch(mesh, site2room, b, a) {
        let (i, k) = choose|i: int, k: int| joins(mesh, site2room, i, k, b, a);
        assert(joins(mesh, site2room, i, k, a, b));
    }
}

/// Two regions are adjacent exactly when one of the listed walls lies between
/// them.
pub proof fn lemma_touch_is_a_listed_wall(mesh: &Mesh, site2room: Seq<usize>, a: usize, b: usize)
    requires
        mesh.wf(),
        assigns(mesh, site2room),
    ensures
        regions_touch(mesh, site2room, a, b) <==> exists|p: int, i: int, k: int|
            wall_at(mesh, site2room, walls(mesh, site2room), p, i, k) && joins(
                mesh,
                site2room,
                i,
                k,
                a,
                b,
            ),
{
    lemma_walls_are_region_borders(mesh, site2room);
    if regions_touch(mesh, site2room, a, b) {
        let (i, k) = choose|i: int, k: int| joins(mesh, site2room, i, k, a, b);
        assert(is_wall_edge(mesh, site2room, i, k));
        let p = choose|p: int| wall_at(mesh, site2room, walls(mesh, site2room), p, i, k);
        assert(wall_at(mesh, site2room, walls(mesh, site2room), p, i, k) && joins(
            mesh,
            site2room,
            i,
            k,
            a,
            b,
        ));
    }
}

/// No region is adjacent to itself, and nothing is adjacent to the inactive
/// sites.
pub proof fn lemma_touch_needs_two_regions(mesh: &Mesh, site2room: Seq<usize>, a: usize, b: usize)
    requires
        a == b || a == INACTIVE || b == INACTIVE,
    ensures
        !regions_touch(mesh, site2room, a, b),
{
}

/// Every requirement left over is one of the requirements and is not met, and
/// every requirement that is not met is left over.
pub proof fn lemma_unmet_are_the_unmet(
    mesh: &Mesh,
    site2room: Seq<usize>,
    pairs: Seq<(usize, usize)>,
    n: nat,
)
    requires
        n <= pairs.len(),
    ensures
        forall|x: int|
            0 <= x < unmet(mesh, site2room, pairs, n).len() ==> {
                let left = #[trigger] unmet(mesh, site2room, pairs, n)[x];
                !regions_touch(mesh, site2room, left.0, left.1) && exists|y: int|
                    0 <= y < n && pairs[y] == left
            },
        forall|y: int|
            0 <= y < n && !regions_touch(mesh, site2room, (#[trigger] pairs[y]).0, pairs[y].1)
                ==> unmet(mesh, site2room, pairs, n).contains(pairs[y]),
        unmet(mesh, site2room, pairs, n).len() == 0 <==> forall|y: int|
            0 <= y < n ==> regions_touch(mesh, site2room, (#[trigger] pairs[y]).0, pairs[y].1),
    decreases n,
{
    if n > 0 {
        let m = (n - 1) as nat;
        lemma_unmet_are_the_unmet(mesh, site2room, pairs, m);
        let before = unmet(mesh, site2room, pairs, m);
        let now = unmet(mesh, site2room, pairs, n);
        if regions_touch(mesh, site2room, pairs[n - 1].0, pairs[n - 1].1) {
            assert(now == before);
        } else {
            assert(now == before.push(pairs[n - 1]));
            assert(now[now.len() - 1] == pairs[n - 1]);
            assert forall|y: int|
                0 <= y < n && !regions_touch(
                    mesh,
                    site2room,
                    (#[trigger] pairs[y]).0,
                    pairs[y].1,
                ) implies now.contains(pairs[y]) by {
                if y < n - 1 {
                    let x = choose|x: int| 0 <= x < before.len() && before[x] == pairs[y];
                    assert(now[x] == pairs[y]);
                } else {
                    assert(now[now.len() - 1] == pairs[y]);
                }
            }
            assert forall|x: int| 0 <= x < now.len() implies {
                let left = #[trigger] now[x];
                !regions_touch(mesh, site2room, left.0, left.1) && exists|y: int|
                    0 <= y < n && pairs[y] == left
            } by {
                if x < before.len() {
                    assert(now[x] == before[x]);
                    let left = before[x];
                    let y = choose|y: int| 0 <= y < m && pairs[y] == left;
                    assert(0 <= y < n && pairs[y] == left);
                } else {
                    assert(pairs[n - 1] == now[x]);
                }
            }
        }
    }
}

/// Whether regions `a` and `b` share a wall.
pub fn regions_adjacent(mesh: &Mesh, site2room: &[usize], a: usize, b: usize) -> (adjacent: bool)
    requires
        mesh.wf(),
        assigns(mesh, site2room@),
    ensures
        adjacent == regions_touch(mesh, site2room@, a, b),
{
    let n_sites: usize = mesh.site2idx.len() - 1;
    let mut i_site: usize = 0;
    while i_site < n_sites
        invariant
            mesh.wf(),
            assigns(mesh, site2room@),
            n_sites == mesh.num_sites(),
            i_site <= n_sites,
            forall|i: int, k: int|
                comes_before(i, k, i_site as int, 0) ==> !#[trigger] joins(
                    mesh,
                    site2room@,
                    i,
                    k,
                    a,
                    b,
                ),
        decreases n_sites - i_site,
    {
        let i_room: usize = site2room[i_site];
        let start: usize = mesh.site2idx[i_site];
        let num_vtx_in_site: usize = mesh.site2idx[i_site + 1] - start;
        assert(mesh.site2idx@[i_site + 1] <= mesh.site2idx@.last());
        let mut i0_vtx: usize = 0;
        while i0_vtx < num_vtx_in_site
            invariant
                mesh.wf(),
                assigns(mesh, site2room@),
                i_site < mesh.num_sites(),
                start == mesh.site2idx@[i_site as int],
                num_vtx_in_site == mesh.cell_len(i_site as int),
                start + num_vtx_in_site <= mesh.idx2site@.len(),
                i_room == site2room@[i_site as int],
                i0_vtx <= num_vtx_in_site,
                forall|i: int, k: int|
                    comes_before(i, k, i_site as int, i0_vtx as int) ==> !#[trigger] joins(
                        mesh,
                        site2room@,
                        i,
                        k,
                        a,
                        b,
                    ),
            decreases num_vtx_in_site - i0_vtx,
        {
            let j_site: usize = mesh.idx2site[start + i0_vtx];
            if i_room != INACTIVE && j_site != NO_NEIGHBOR && i_site < j_site {
                let j_room: usize = site2room[j_site];
                if j_room != INACTIVE && j_room != i_room && ((i_room == a && j_room == b) || (
                i_room == b && j_room == a)) {
                    assert(joins(mesh, site2room@, i_site as int, i0_vtx as int, a, b));
                    return true;
                }
            }
            assert forall|i: int, k: int|
                comes_before(i, k, i_site as int, i0_vtx + 1) implies !#[trigger] joins(
                mesh,
                site2room@,
                i,
                k,
                a,
                b,
            ) by {
                if !(i == i_site && k == i0_vtx) {
                    assert(comes_before(i, k, i_site as int, i0_vtx as int));
                }
            }
            i0_vtx += 1;
        }
        assert forall|i: int, k: int|
            comes_before(i, k, i_site + 1, 0) implies !#[trigger] joins(
            mesh,
            site2room@,
            i,
            k,
            a,
            b,
        ) by {
            if mesh.has_edge(i, k) {
                assert(comes_before(i, k, i_site as int, num_vtx_in_site as int));
            }
        }
        i_site += 1;
    }
    assert forall|i: int, k: int| !joins(mesh, site2room@, i, k, a, b) by {
        if mesh.has_edge(i, k) {
            assert(comes_before(i, k, n_sites as int, 0));
        }
    }
    false
}

/// The required adjacencies that the mesh does not meet, in the order in
/// which they were required.
pub fn unmet_connections(
    mesh: &Mesh,
    site2room: &[usize],
    room_connections: &[(usize, usize)],
) -> (left: Vec<(usize, usize)>)
    requires
        mesh.wf(),
        assigns(mesh, site2room@),
    ensures
        left@ == unmet(mesh, site2room@, room_connections@, room_connections@.len()),
        left@.len() == 0 <==> forall|y: int|
            0 <= y < room_connections@.len() ==> regions_touch(
                mesh,
                site2room@,
                (#[trigger] room_connections@[y]).0,
                room_connections@[y].1,
            ),
{
    let mut left: Vec<(usize, usize)> = Vec::new();
    let mut i_pair: usize = 0;
    while i_pair < room_connections.len()
        invariant
            mesh.wf(),
            assigns(mesh, site2room@),
            i_pair <= room_connections@.len(),
            left@ == unmet(mesh, site2room@, room_connections@, i_pair as nat),
        decreases room_connections.len() - i_pair,
    {
        let pair = room_connections[i_pair];
        if !regions_adjacent(mesh, site2room, pair.0, pair.1) {
            left.push(pair);
        }
        i_pair += 1;
    }
    proof {
        lemma_unmet_are_the_unmet(mesh, site2room@, room_connections@, room_connections@.len());
    }
    left
}

} // verus!
