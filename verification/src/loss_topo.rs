//! The pull that brings regions together which are required to be adjacent
//! and are not.
//!
//! For every required pair of regions that share no wall, each site of the
//! first region is pulled towards each site of the second. The pull is
//! one-sided: the sites of the second region are taken as fixed points. Where
//! every requirement is met nothing is pulled, and the loss is an empty sum.
use crate::adjacency::{regions_adjacent, regions_touch};
use crate::assignment::assigns;
use crate::fault::{Fault, Invariant};
use crate::grouping::{lemma_sites_in, region_sites, sites_in};
use crate::mesh::Mesh;
use crate::tensor::{
    detached, element_type, is_plain, made_by, select_rows, stands_for, tensor_dims, tensor_dtype,
    tensor_is_contiguous, tensor_on_cpu, ElementType, Recipe,
};
use vstd::prelude::*;

verus! {

/// The pulls of site `i` towards the first `m` sites of `to`.
pub open spec fn fan(i: usize, to: Seq<usize>, m: nat) -> Seq<(usize, usize)> {
    Seq::new(m, |y: int| (i, to[y]))
}

/// The pulls of the first `k` sites of `from` towards all sites of `to`, site
/// after site.
pub open spec fn fans(from: Seq<usize>, to: Seq<usize>, k: nat) -> Seq<(usize, usize)>
    decreases k,
{
    if k == 0 {
        Seq::empty()
    } else {
        fans(from, to, (k - 1) as nat) + fan(from[k - 1], to, to.len())
    }
}

/// The pulls between two regions: from each site of `a` towards each site of
/// `b`.
pub open spec fn region_pulls(site2room: Seq<usize>, a: usize, b: usize) -> Seq<(usize, usize)> {
    let from = sites_in(site2room, a, site2room.len());
    let to = sites_in(site2room, b, site2room.len());
    fans(from, to, from.len())
}

/// The pulls that the first `c` required pairs give rise to: for each pair of
/// regions that share no wall the pulls between them, pair after pair.
pub open spec fn pulls(
    mesh: &Mesh,
    site2room: Seq<usize>,
    pairs: Seq<(usize, usize)>,
    c: nat,
) -> Seq<(usize, usize)>
    decreases c,
{
    if c == 0 {
        Seq::empty()
    } else {
        let before = pulls(mesh, site2room, pairs, (c - 1) as nat);
        if regions_touch(mesh, site2room, pairs[c - 1].0, pairs[c - 1].1) {
            before
        } else {
            before + region_pulls(site2room, pairs[c - 1].0, pairs[c - 1].1)
        }
    }
}

/// A required pair names a region that has no site.
pub open spec fn names_empty_region(site2room: Seq<usize>, pairs: Seq<(usize, usize)>) -> bool {
    exists|y: int|
        0 <= y < pairs.len() && (sites_in(site2room, (#[trigger] pairs[y]).0, site2room.len()).len()
            == 0 || sites_in(site2room, pairs[y].1, site2room.len()).len() == 0)
}

/// The first invariant that the input to the pull breaks, if any: the site
/// coordinates are a row of two single-precision numbers for each site, the
/// sites can be named by a tensor of indices, every required region has a
/// site, and the pulls can be counted. `n_pull` is the number of pulls.
pub open spec fn pull_invariant(
    site2room: Seq<usize>,
    pairs: Seq<(usize, usize)>,
    n_pull: nat,
    site2xy: candle_core::Tensor,
) -> Option<Invariant> {
    if tensor_dims(site2xy) != seq![site2room.len() as usize, 2usize] {
        Some(Invariant::SiteLayout)
    } else if tensor_dtype(site2xy) != ElementType::Single {
        Some(Invariant::ElementType)
    } else if site2room.len() > u32::MAX {
        Some(Invariant::SiteIndex)
    } else if names_empty_region(site2room, pairs) {
        Some(Invariant::EmptyRegion)
    } else if 2 * n_pull > usize::MAX {
        Some(Invariant::PullCount)
    } else {
        None
    }
}

/// The sites that are pulled, one for each pull, as row numbers.
pub open spec fn pulled_rows(list: Seq<(usize, usize)>) -> Seq<u32> {
    Seq::new(list.len(), |x: int| list[x].0 as u32)
}

/// The sites that are pulled towards, one for each pull, as row numbers.
pub open spec fn towards_rows(list: Seq<(usize, usize)>) -> Seq<u32> {
    Seq::new(list.len(), |x: int| list[x].1 as u32)
}

/// How the loss of the pulls is made: the rows of the pulled sites, minus the
/// rows of the sites pulled towards, these taken from the coordinates cut
/// loose; the absolute values, summed.
pub open spec fn pull_recipe(sites: Recipe, list: Seq<(usize, usize)>) -> Recipe {
    let here = Recipe::Rows(Box::new(sites), pulled_rows(list));
    let there = Recipe::Rows(Box::new(Recipe::Detached(Box::new(sites))), towards_rows(list));
    Recipe::SumAll(Box::new(Recipe::Abs(Box::new(Recipe::Sub(Box::new(here), Box::new(there))))))
}

/// Every pull between the first `k` sites of `from` and the sites of `to`
/// starts at one of the former and ends at one of the latter; there is none
/// exactly when one of the two lists is empty.
pub proof fn lemma_fans(from: Seq<usize>, to: Seq<usize>, k: nat)
    requires
        k <= from.len(),
    ensures
        fans(from, to, k).len() == 0 <==> k == 0 || to.len() == 0,
        forall|x: int|
            0 <= x < fans(from, to, k).len() ==> {
                let pull = #[trigger] fans(from, to, k)[x];
                from.contains(pull.0) && to.contains(pull.1)
            },
    decreases k,
{
    if k > 0 {
        lemma_fans(from, to, (k - 1) as nat);
        let before = fans(from, to, (k - 1) as nat);
        let last = fan(from[k - 1], to, to.len());
        assert forall|x: int| 0 <= x < fans(from, to, k).len() implies {
            let pull = #[trigger] fans(from, to, k)[x];
            from.contains(pull.0) && to.contains(pull.1)
        } by {
            if x >= before.len() {
                let y = x - before.len();
                assert(fans(from, to, k)[x] == last[y]);
                assert(from[k - 1] == last[y].0);
                assert(to[y] == last[y].1);
            }
        }
    }
}

/// Every pull goes from one site to another. Nothing is pulled exactly when
/// each required pair is adjacent or has a region without sites.
pub proof fn lemma_pulls(mesh: &Mesh, site2room: Seq<usize>, pairs: Seq<(usize, usize)>, c: nat)
    requires
        c <= pairs.len(),
        site2room.len() <= usize::MAX,
    ensures
        forall|x: int|
            0 <= x < pulls(mesh, site2room, pairs, c).len() ==> {
                let pull = #[trigger] pulls(mesh, site2room, pairs, c)[x];
                pull.0 < site2room.len() && pull.1 < site2room.len()
            },
        pulls(mesh, site2room, pairs, c).len() == 0 <==> forall|y: int|
            0 <= y < c ==> {
                let pair = #[trigger] pairs[y];
                ||| regions_touch(mesh, site2room, pair.0, pair.1)
                ||| sites_in(site2room, pair.0, site2room.len()).len() == 0
                ||| sites_in(site2room, pair.1, site2room.len()).len() == 0
            },
    decreases c,
{
    if c > 0 {
        lemma_pulls(mesh, site2room, pairs, (c - 1) as nat);
        let pair = pairs[c - 1];
        let before = pulls(mesh, site2room, pairs, (c - 1) as nat);
        let now = pulls(mesh, site2room, pairs, c);
        if !regions_touch(mesh, site2room, pair.0, pair.1) {
            let from = sites_in(site2room, pair.0, site2room.len());
            let to = sites_in(site2room, pair.1, site2room.len());
            let more = region_pulls(site2room, pair.0, pair.1);
            lemma_fans(from, to, from.len());
            lemma_sites_in(site2room, pair.0, site2room.len());
            lemma_sites_in(site2room, pair.1, site2room.len());
            assert forall|x: int| 0 <= x < now.len() implies {
                let pull = #[trigger] now[x];
                pull.0 < site2room.len() && pull.1 < site2room.len()
            } by {
                if x >= before.len() {
                    let pull = more[x - before.len()];
                    assert(now[x] == pull);
                    assert(from.contains(pull.0) && to.contains(pull.1));
                    let u = choose|u: int| 0 <= u < from.len() && from[u] == pull.0;
                    let v = choose|v: int| 0 <= v < to.len() && to[v] == pull.1;
                    assert(from[u] < site2room.len());
                    assert(to[v] < site2room.len());
                }
            }
        }
    }
}

/// The pulls that the required adjacencies give rise to in a mesh: for each
/// required pair of regions that share no wall, a pull from each site of the
/// first region towards each site of the second.
pub fn pull_pairs(mesh: &Mesh, site2room: &[usize], room_connections: &[(usize, usize)]) -> (list:
    Vec<(usize, usize)>)
    requires
        mesh.wf(),
        assigns(mesh, site2room@),
    ensures
        list@ == pulls(mesh, site2room@, room_connections@, room_connections@.len()),
        forall|x: int|
            0 <= x < list@.len() ==> (#[trigger] list@[x]).0 < site2room@.len() && list@[x].1
                < site2room@.len(),
        list@.len() == 0 <==> forall|y: int|
            0 <= y < room_connections@.len() ==> {
                let pair = #[trigger] room_connections@[y];
                ||| regions_touch(mesh, site2room@, pair.0, pair.1)
                ||| sites_in(site2room@, pair.0, site2room@.len()).len() == 0
                ||| sites_in(site2room@, pair.1, site2room@.len()).len() == 0
            },
{
    let mut list: Vec<(usize, usize)> = Vec::new();
    let num_site: usize = site2room.len();
    let mut i_pair: usize = 0;
    while i_pair < room_connections.len()
        invariant
            mesh.wf(),
            assigns(mesh, site2room@),
            num_site == site2room@.len(),
            i_pair <= room_connections@.len(),
            list@ == pulls(mesh, site2room@, room_connections@, i_pair as nat),
        decreases room_connections.len() - i_pair,
    {
        let pair = room_connections[i_pair];
        if !regions_adjacent(mesh, site2room, pair.0, pair.1) {
            let from = region_sites(site2room, pair.0);
            let to = region_sites(site2room, pair.1);
            let ghost before = list@;
            let mut x: usize = 0;
            while x < from.len()
                invariant
                    x <= from@.len(),
                    list@ == before + fans(from@, to@, x as nat),
                decreases from.len() - x,
            {
                let ghost so_far = list@;
                let mut y: usize = 0;
                while y < to.len()
                    invariant
                        x < from@.len(),
                        y <= to@.len(),
                        list@ == so_far + fan(from@[x as int], to@, y as nat),
                    decreases to.len() - y,
                {
                    list.push((from[x], to[y]));
                    y += 1;
                    assert(list@ =~= so_far + fan(from@[x as int], to@, y as nat));
                }
                x += 1;
                assert(list@ =~= before + fans(from@, to@, x as nat));
            }
        }
        i_pair += 1;
    }
    proof {
        lemma_pulls(mesh, site2room@, room_connections@, room_connections@.len());
    }
    list
}

/// Where every required region has a site, nothing is pulled exactly when every
/// required pair of regions is adjacent.
pub proof fn lemma_no_pull_means_adjacent(
    mesh: &Mesh,
    site2room: Seq<usize>,
    pairs: Seq<(usize, usize)>,
)
    requires
        site2room.len() <= usize::MAX,
        !names_empty_region(site2room, pairs),
    ensures
        pulls(mesh, site2room, pairs, pairs.len()).len() == 0 <==> forall|y: int|
            0 <= y < pairs.len() ==> regions_touch(
                mesh,
                site2room,
                (#[trigger] pairs[y]).0,
                pairs[y].1,
            ),
{
    lemma_pulls(mesh, site2room, pairs, pairs.len());
}

/// Whether a required pair names a region that has no site.
pub fn has_empty_region(site2room: &[usize], room_connections: &[(usize, usize)]) -> (empty: bool)
    ensures
        empty == names_empty_region(site2room@, room_connections@),
{
    let mut i_pair: usize = 0;
    while i_pair < room_connections.len()
        invariant
            i_pair <= room_connections@.len(),
            forall|y: int|
                0 <= y < i_pair ==> sites_in(
                    site2room@,
                    (#[trigger] room_connections@[y]).0,
                    site2room@.len(),
                ).len() != 0 && sites_in(
                    site2room@,
                    room_connections@[y].1,
                    site2room@.len(),
                ).len() != 0,
        decreases room_connections.len() - i_pair,
    {
        let pair = room_connections[i_pair];
        if region_sites(site2room, pair.0).len() == 0 || region_sites(site2room, pair.1).len()
            == 0 {
            return true;
        }
        i_pair += 1;
    }
    false
}

/// The loss of the required adjacencies that are not met: the sum, over all
/// pulls and both coordinates, of the absolute difference between the site
/// that is pulled and the site it is pulled towards, the latter taken as a
/// fixed point.
///
/// An input that breaks an invariant is refused with the first invariant that
/// it breaks. On any other input the loss is computed exactly when the site
/// coordinates are on the processor and row-major; where they are not, the
/// failure of the tensor library is passed on. Where the loss is computed,
/// nothing is pulled exactly when every required pair is adjacent.
pub fn unidirectional(
    site2xy: &candle_core::Tensor,
    site2room: &[usize],
    mesh: &Mesh,
    room_connections: &[(usize, usize)],
) -> (loss: Result<candle_core::Tensor, Fault>)
    requires
        mesh.wf(),
        assigns(mesh, site2room@),
    ensures
        match loss {
            Ok(l) => {
                &&& pull_invariant(
                    site2room@,
                    room_connections@,
                    pulls(mesh, site2room@, room_connections@, room_connections@.len()).len(),
                    *site2xy,
                ) is None
                &&& tensor_on_cpu(*site2xy) && tensor_is_contiguous(*site2xy)
                &&& tensor_dims(l) == Seq::<usize>::empty()
                &&& is_plain(l)
                &&& made_by(
                    l,
                    pull_recipe(
                        Recipe::Given(*site2xy),
                        pulls(mesh, site2room@, room_connections@, room_connections@.len()),
                    ),
                )
                &&& pulls(mesh, site2room@, room_connections@, room_connections@.len()).len() == 0
                    <==> forall|y: int|
                    0 <= y < room_connections@.len() ==> regions_touch(
                        mesh,
                        site2room@,
                        (#[trigger] room_connections@[y]).0,
                        room_connections@[y].1,
                    )
            },
            Err(Fault::Invariant(broken)) => pull_invariant(
                site2room@,
                room_connections@,
                pulls(mesh, site2room@, room_connections@, room_connections@.len()).len(),
                *site2xy,
            ) == Some(broken),
            Err(Fault::Computation(_)) => {
                &&& pull_invariant(
                    site2room@,
                    room_connections@,
                    pulls(mesh, site2room@, room_connections@, room_connections@.len()).len(),
                    *site2xy,
                ) is None
                &&& !(tensor_on_cpu(*site2xy) && tensor_is_contiguous(*site2xy))
            },
        },
{
    let list = pull_pairs(mesh, site2room, room_connections);
    let num_site: usize = site2room.len();
    let dims = site2xy.dims();
    if dims.len() != 2 || dims[0] != num_site || dims[1] != 2 {
        return Err(Fault::Invariant(Invariant::SiteLayout));
    }
    assert(tensor_dims(*site2xy) =~= seq![num_site, 2usize]);
    if element_type(site2xy) != ElementType::Single {
        return Err(Fault::Invariant(Invariant::ElementType));
    }
    if num_site > 0xffff_ffff {
        return Err(Fault::Invariant(Invariant::SiteIndex));
    }
    if has_empty_region(site2room, room_connections) {
        return Err(Fault::Invariant(Invariant::EmptyRegion));
    }
    if list.len() > usize::MAX / 2 {
        return Err(Fault::Invariant(Invariant::PullCount));
    }
    proof {
        lemma_no_pull_means_adjacent(mesh, site2room@, room_connections@);
    }
    let mut pulled: Vec<u32> = Vec::new();
    let mut towards: Vec<u32> = Vec::new();
    let mut x: usize = 0;
    while x < list.len()
        invariant
            x <= list@.len(),
            site2room@.len() <= u32::MAX,
            forall|z: int|
                0 <= z < list@.len() ==> (#[trigger] list@[z]).0 < site2room@.len() && list@[z].1
                    < site2room@.len(),
            pulled@.len() == x,
            towards@.len() == x,
            forall|z: int| 0 <= z < x ==> #[trigger] pulled@[z] == list@[z].0,
            forall|z: int| 0 <= z < x ==> #[trigger] towards@[z] == list@[z].1,
        decreases list.len() - x,
    {
        let pull = list[x];
        pulled.push(pull.0 as u32);
        towards.push(pull.1 as u32);
        x += 1;
    }
    assert(pulled@ =~= pulled_rows(list@));
    assert(towards@ =~= towards_rows(list@));
    let ghost sites = Recipe::Given(*site2xy);
    assert(stands_for(*site2xy, sites));
    let fixed = detached(site2xy);
    assert(stands_for(fixed, Recipe::Detached(Box::new(sites))));
    let here = match select_rows(site2xy, &pulled) {
        Ok(t) => t,
        Err(e) => {
            return Err(Fault::Computation(e));
        },
    };
    let ghost from = Recipe::Rows(Box::new(sites), pulled@);
    assert(stands_for(here, from));
    let there = match select_rows(&fixed, &towards) {
        Ok(t) => t,
        Err(e) => {
            return Err(Fault::Computation(e));
        },
    };
    let ghost to = Recipe::Rows(Box::new(Recipe::Detached(Box::new(sites))), towards@);
    assert(stands_for(there, to));
    assert(tensor_dims(here) =~= tensor_dims(there));
    let apart = match here.sub(&there) {
        Ok(t) => t,
        Err(e) => {
            return Err(Fault::Computation(e));
        },
    };
    let ghost gap = Recipe::Sub(Box::new(from), Box::new(to));
    assert(stands_for(apart, gap));
    let sizes = match apart.abs() {
        Ok(t) => t,
        Err(e) => {
            return Err(Fault::Computation(e));
        },
    };
    assert(stands_for(sizes, Recipe::Abs(Box::new(gap))));
    match sizes.sum_all() {
        Ok(l) => Ok(l),
        Err(e) => Err(Fault::Computation(e)),
    }
}

} // verus!
