//! Grouping of sites into regions.
//!
//! The area of a region is the sum of the areas of the cells of its sites.
//! That sum is taken by multiplying the cell areas with a matrix of zeros and
//! ones that has a row for each region and a column for each site.
use crate::mesh::INACTIVE;
use vstd::prelude::*;

verus! {

/// Every site is inactive or lies in one of `num_room` regions.
pub open spec fn regions_in_range(site2room: Seq<usize>, num_room: nat) -> bool {
    forall|s: int| 0 <= s < site2room.len() ==> site2room[s] == INACTIVE || site2room[s] < num_room
}

/// Entry of row `r` and column `s` of a row-major matrix with `n_site` columns.
pub open spec fn entry(matrix: Seq<u8>, n_site: nat, r: int, s: int) -> u8 {
    matrix[r * n_site + s]
}

/// One where site `s` lies in region `r`, zero elsewhere.
pub open spec fn membership(site2room: Seq<usize>, r: int, s: int) -> u8 {
    if site2room[s] == r {
        1
    } else {
        0
    }
}

/// The grouping matrix of an assignment: `num_room` rows of `site2room.len()`
/// entries each, row after row, with a one at row `site2room[s]` of column `s`
/// for each active site `s` and a zero everywhere else.
pub open spec fn grouping(site2room: Seq<usize>, num_room: nat) -> Seq<u8> {
    Seq::new(
        num_room * site2room.len(),
        |x: int| membership(site2room, x / site2room.len() as int, x % site2room.len() as int),
    )
}

/// Sum of the first `upto` entries of row `r`.
pub open spec fn row_sum(matrix: Seq<u8>, n_site: nat, r: int, upto: nat) -> nat
    decreases upto,
{
    if upto == 0 {
        0
    } else {
        row_sum(matrix, n_site, r, (upto - 1) as nat) + entry(matrix, n_site, r, upto - 1) as nat
    }
}

/// Sum of the first `upto` entries of column `s`.
pub open spec fn column_sum(matrix: Seq<u8>, n_site: nat, s: int, upto: nat) -> nat
    decreases upto,
{
    if upto == 0 {
        0
    } else {
        column_sum(matrix, n_site, s, (upto - 1) as nat) + entry(matrix, n_site, upto - 1, s) as nat
    }
}

/// Number of sites among the first `upto` that lie in region `r`.
pub open spec fn region_size(site2room: Seq<usize>, r: int, upto: nat) -> nat
    decreases upto,
{
    if upto == 0 {
        0
    } else {
        region_size(site2room, r, (upto - 1) as nat) + membership(site2room, r, upto - 1) as nat
    }
}

/// Row `r` and column `s` of a matrix with `n` columns and `rows` rows lie at
/// one place of the flat matrix, and no other row and column lie there.
pub proof fn lemma_flat_index(rows: nat, n: nat, r: int, s: int)
    requires
        0 <= r < rows,
        0 <= s < n,
    ensures
        0 <= r * n + s < rows * n,
        (r * n + s) / n as int == r,
        (r * n + s) % n as int == s,
{
    assert(0 <= r * n && r * n + n <= rows * n) by (nonlinear_arith)
        requires
            0 <= r < rows,
            0 <= n,
    ;
    vstd::arithmetic::div_mod::lemma_fundamental_div_mod_converse(r * n + s, n as int, r, s);
}

/// Every entry of the grouping matrix says whether its site lies in its
/// region.
pub proof fn lemma_grouping_entries(site2room: Seq<usize>, num_room: nat)
    ensures
        grouping(site2room, num_room).len() == num_room * site2room.len(),
        forall|r: int, s: int|
            0 <= r < num_room && 0 <= s < site2room.len() ==> #[trigger] entry(
                grouping(site2room, num_room),
                site2room.len(),
                r,
                s,
            ) == membership(site2room, r, s),
{
    let n = site2room.len();
    assert forall|r: int, s: int| 0 <= r < num_room && 0 <= s < n implies #[trigger] entry(
        grouping(site2room, num_room),
        n,
        r,
        s,
    ) == membership(site2room, r, s) by {
        lemma_flat_index(num_room, n, r, s);
    }
}

/// A column of the grouping matrix holds a single one, in the row of the
/// site's region, where the site is active, and none where it is not.
pub proof fn lemma_column_of_site(site2room: Seq<usize>, num_room: nat, s: int)
    requires
        regions_in_range(site2room, num_room),
        num_room <= usize::MAX,
        0 <= s < site2room.len(),
    ensures
        forall|r: int|
            0 <= r < num_room ==> (#[trigger] entry(
                grouping(site2room, num_room),
                site2room.len(),
                r,
                s,
            ) == 1 <==> site2room[s] != INACTIVE && r == site2room[s]),
        forall|r: int|
            0 <= r < num_room ==> #[trigger] entry(
                grouping(site2room, num_room),
                site2room.len(),
                r,
                s,
            ) <= 1,
        column_sum(grouping(site2room, num_room), site2room.len(), s, num_room) == (if site2room[s]
            == INACTIVE {
            0nat
        } else {
            1nat
        }),
{
    lemma_grouping_entries(site2room, num_room);
    lemma_column_sum_upto(site2room, num_room, s, num_room);
}

/// The sum of a column down to row `upto` is one once the row of the site's
/// region is passed, and zero before.
proof fn lemma_column_sum_upto(site2room: Seq<usize>, num_room: nat, s: int, upto: nat)
    requires
        0 <= s < site2room.len(),
        upto <= num_room,
    ensures
        column_sum(grouping(site2room, num_room), site2room.len(), s, upto) == (if site2room[s]
            < upto {
            1nat
        } else {
            0nat
        }),
    decreases upto,
{
    if upto > 0 {
        lemma_column_sum_upto(site2room, num_room, s, (upto - 1) as nat);
        lemma_grouping_entries(site2room, num_room);
        assert(entry(grouping(site2room, num_room), site2room.len(), upto - 1, s) == membership(
            site2room,
            upto - 1,
            s,
        ));
    }
}

/// The sum of a row up to column `upto` counts the sites before `upto` that
/// lie in the row's region.
proof fn lemma_row_sum_upto(site2room: Seq<usize>, num_room: nat, r: int, upto: nat)
    requires
        0 <= r < num_room,
        upto <= site2room.len(),
    ensures
        row_sum(grouping(site2room, num_room), site2room.len(), r, upto) == region_size(
            site2room,
            r,
            upto,
        ),
    decreases upto,
{
    if upto > 0 {
        lemma_row_sum_upto(site2room, num_room, r, (upto - 1) as nat);
        lemma_grouping_entries(site2room, num_room);
        assert(entry(grouping(site2room, num_room), site2room.len(), r, upto - 1) == membership(
            site2room,
            r,
            upto - 1,
        ));
    }
}

/// The sum of a row of the grouping matrix is the number of active sites of
/// the row's region.
pub proof fn lemma_row_of_region(site2room: Seq<usize>, num_room: nat, r: int)
    requires
        0 <= r < num_room,
    ensures
        row_sum(grouping(site2room, num_room), site2room.len(), r, site2room.len())
            == region_size(site2room, r, site2room.len()),
{
    lemma_row_sum_upto(site2room, num_room, r, site2room.len());
}

/// Whether every site is inactive or lies in one of `num_room` regions.
pub fn regions_fit(site2room: &[usize], num_room: usize) -> (fit: bool)
    ensures
        fit == regions_in_range(site2room@, num_room as nat),
{
    let mut s: usize = 0;
    while s < site2room.len()
        invariant
            s <= site2room.len(),
            forall|j: int| 0 <= j < s ==> site2room@[j] == INACTIVE || site2room@[j] < num_room,
        decreases site2room.len() - s,
    {
        if site2room[s] != INACTIVE && site2room[s] >= num_room {
            return false;
        }
        s += 1;
    }
    true
}

/// The grouping matrix of an assignment, row after row.
pub fn grouping_matrix(site2room: &[usize], num_room: usize) -> (matrix: Vec<u8>)
    requires
        regions_in_range(site2room@, num_room as nat),
        site2room@.len() * num_room <= usize::MAX,
    ensures
        matrix@ == grouping(site2room@, num_room as nat),
{
    let num_site: usize = site2room.len();
    assert(num_site * num_room == num_room * num_site) by (nonlinear_arith);
    let mut matrix: Vec<u8> = vec![0u8; num_site * num_room];
    assert forall|r: int, s: int| 0 <= r < num_room && 0 <= s < num_site implies #[trigger] entry(
        matrix@,
        num_site as nat,
        r,
        s,
    ) == 0 by {
        lemma_flat_index(num_room as nat, num_site as nat, r, s);
    }
    let mut i_site: usize = 0;
    while i_site < num_site
        invariant
            num_site == site2room@.len(),
            regions_in_range(site2room@, num_room as nat),
            num_room * num_site <= usize::MAX,
            i_site <= num_site,
            matrix@.len() == num_room * num_site,
            forall|r: int, s: int|
                0 <= r < num_room && 0 <= s < num_site ==> #[trigger] entry(
                    matrix@,
                    num_site as nat,
                    r,
                    s,
                ) == (if s < i_site {
                    membership(site2room@, r, s)
                } else {
                    0
                }),
        decreases num_site - i_site,
    {
        let i_room: usize = site2room[i_site];
        if i_room != INACTIVE {
            proof {
                lemma_flat_index(num_room as nat, num_site as nat, i_room as int, i_site as int);
            }
            let ghost before = matrix@;
            matrix.set(i_room * num_site + i_site, 1u8);
            assert forall|r: int, s: int|
                0 <= r < num_room && 0 <= s < num_site implies #[trigger] entry(
                matrix@,
                num_site as nat,
                r,
                s,
            ) == (if s < i_site + 1 {
                membership(site2room@, r, s)
            } else {
                0
            }) by {
                lemma_flat_index(num_room as nat, num_site as nat, r, s);
                assert(entry(before, num_site as nat, r, s) == (if s < i_site {
                    membership(site2room@, r, s)
                } else {
                    0
                }));
            }
        }
        i_site += 1;
    }
    proof {
        let n = num_site as nat;
        let want = grouping(site2room@, num_room as nat);
        assert forall|x: int| 0 <= x < matrix@.len() implies matrix@[x] == want[x] by {
            if n > 0 {
                let r = x / n as int;
                let s = x % n as int;
                vstd::arithmetic::div_mod::lemma_fundamental_div_mod(x, n as int);
                vstd::arithmetic::div_mod::lemma_mod_pos_bound(x, n as int);
                assert(0 <= r < num_room) by (nonlinear_arith)
                    requires
                        x == n * r + s,
                        0 <= s < n,
                        0 <= x < num_room * n,
                ;
                assert(r * n + s == x) by (nonlinear_arith)
                    requires
                        x == n * r + s,
                ;
                assert(entry(matrix@, n, r, s) == membership(site2room@, r, s));
            } else {
                assert(num_room * n == 0) by (nonlinear_arith)
                    requires
                        n == 0,
                ;
            }
        }
        assert(matrix@ =~= want);
    }
    matrix
}

/// The sites among the first `n` that lie in `region`, in rising order.
pub open spec fn sites_in(site2room: Seq<usize>, region: usize, n: nat) -> Seq<usize>
    decreases n,
{
    if n == 0 {
        Seq::empty()
    } else {
        let before = sites_in(site2room, region, (n - 1) as nat);
        if site2room[n - 1] == region {
            before.push((n - 1) as usize)
        } else {
            before
        }
    }
}

/// The list of the sites of a region holds those sites and no others, each
/// once and in rising order, and there are as many as the region's row of the
/// grouping matrix counts.
pub proof fn lemma_sites_in(site2room: Seq<usize>, region: usize, n: nat)
    requires
        n <= site2room.len() <= usize::MAX,
    ensures
        sites_in(site2room, region, n).len() == region_size(site2room, region as int, n),
        forall|x: int|
            0 <= x < sites_in(site2room, region, n).len() ==> {
                let s = #[trigger] sites_in(site2room, region, n)[x];
                s < n && site2room[s as int] == region
            },
        forall|x: int, y: int|
            0 <= x < y < sites_in(site2room, region, n).len() ==> sites_in(site2room, region, n)[x]
                < sites_in(site2room, region, n)[y],
        forall|s: int|
            0 <= s < n && #[trigger] site2room[s] == region ==> sites_in(
                site2room,
                region,
                n,
            ).contains(s as usize),
    decreases n,
{
    if n > 0 {
        let before = sites_in(site2room, region, (n - 1) as nat);
        let now = sites_in(site2room, region, n);
        lemma_sites_in(site2room, region, (n - 1) as nat);
        if site2room[n - 1] == region {
            assert(now == before.push((n - 1) as usize));
            assert(now[now.len() - 1] == (n - 1) as usize);
            assert forall|s: int|
                0 <= s < n && #[trigger] site2room[s] == region implies now.contains(
                s as usize,
            ) by {
                if s < n - 1 {
                    let x = choose|x: int| 0 <= x < before.len() && before[x] == s as usize;
                    assert(now[x] == s as usize);
                }
            }
        }
    }
}

/// The sites of a region, in rising order.
pub fn region_sites(site2room: &[usize], region: usize) -> (sites: Vec<usize>)
    ensures
        sites@ == sites_in(site2room@, region, site2room@.len()),
        forall|x: int| 0 <= x < sites@.len() ==> #[trigger] sites@[x] < site2room@.len(),
{
    let mut sites: Vec<usize> = Vec::new();
    let mut s: usize = 0;
    while s < site2room.len()
        invariant
            s <= site2room@.len(),
            sites@ == sites_in(site2room@, region, s as nat),
        decreases site2room.len() - s,
    {
        if site2room[s] == region {
            sites.push(s);
        }
        s += 1;
    }
    proof {
        lemma_sites_in(site2room@, region, site2room@.len());
    }
    sites
}

} // verus!
