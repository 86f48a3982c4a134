//! What a picture of a plan shows.
//!
//! A frame is drawn in layers: the cells of the active sites, each filled
//! with the colour of its region; a dot on every active site; the outline of
//! every cell; the walls between regions; and the boundary. This module lists
//! the strokes of a frame in the order in which they are laid down. Turning a
//! stroke into pixels is left to the caller, who has the coordinates.
use crate::grouping::regions_in_range;
use crate::mesh::{Mesh, INACTIVE};
use crate::schedule::Pacing;
use vstd::prelude::*;

verus! {

/// Palette index of the background.
pub const BACKGROUND: u8 = 0;

/// Palette index of outlines, dots and walls.
pub const INK: u8 = 1;

/// The most regions that can each have a colour of their own in any picture.
pub const MAX_COLORED_REGIONS: usize = 8;

/// One stroke of a frame.
#[derive(Clone, Copy, Debug, PartialEq, Eq, Structural)]
pub enum Stroke {
    /// Fill the cell of `site` with palette entry `color`.
    Fill { site: usize, color: u8 },
    /// Put a dot on `site`.
    Dot { site: usize },
    /// Draw the edges of the cell of `site`.
    Outline { site: usize },
    /// Draw a wall between two vertices.
    Wall { from: usize, to: usize },
    /// Draw the boundary polygon.
    Boundary,
}

/// The most regions that have a colour of their own in the pictures of a
/// pacing.
pub open spec fn colored_regions(pacing: Pacing) -> nat {
    match pacing {
        Pacing::Fixed => 4,
        Pacing::Adaptive => MAX_COLORED_REGIONS as nat,
    }
}

/// Colour of a region in the pictures of a pacing, as red, green and blue in
/// the low three bytes.
pub open spec fn region_rgb(pacing: Pacing, region: int) -> u32 {
    match pacing {
        Pacing::Fixed => if region == 0 {
            0xEAD671
        } else if region == 1 {
            0xF6F775
        } else if region == 2 {
            0xE77F62
        } else {
            0x639AEE
        },
        Pacing::Adaptive => if region == 0 {
            0xAEC6CF
        } else if region == 1 {
            0xC7F0BD
        } else if region == 2 {
            0xC9A0DC
        } else if region == 3 {
            0xFF9AA2
        } else if region == 4 {
            0xB5EAD7
        } else if region == 5 {
            0xFFFACD
        } else if region == 6 {
            0xFFB347
        } else {
            0xF8B7D8
        },
    }
}

/// The palette for `num_room` regions: white for the background, black for
/// the ink, then the colour of each region.
pub open spec fn palette_of(pacing: Pacing, num_room: nat) -> Seq<u32> {
    Seq::new(
        num_room + 2,
        |i: int|
            if i == 0 {
                0xffffffu32
            } else if i == 1 {
                0x000000u32
            } else {
                region_rgb(pacing, i - 2)
            },
    )
}

/// Palette index of a region.
pub open spec fn region_color(region: usize) -> u8 {
    (region + 2) as u8
}

/// Whether the cell of site `i` is filled: the site is active and its cell is
/// not empty.
pub open spec fn is_filled(mesh: &Mesh, site2room: Seq<usize>, i: int) -> bool {
    site2room[i] != INACTIVE && mesh.cell_len(i) > 0
}

/// The fills of the first `n` cells.
pub open spec fn fills(mesh: &Mesh, site2room: Seq<usize>, n: nat) -> Seq<Stroke>
    decreases n,
{
    if n == 0 {
        Seq::empty()
    } else {
        let before = fills(mesh, site2room, (n - 1) as nat);
        if is_filled(mesh, site2room, n - 1) {
            before.push(
                Stroke::Fill { site: (n - 1) as usize, color: region_color(site2room[n - 1]) },
            )
        } else {
            before
        }
    }
}

/// The dots of the first `n` sites.
pub open spec fn dots(site2room: Seq<usize>, n: nat) -> Seq<Stroke>
    decreases n,
{
    if n == 0 {
        Seq::empty()
    } else {
        let before = dots(site2room, (n - 1) as nat);
        if site2room[n - 1] != INACTIVE {
            before.push(Stroke::Dot { site: (n - 1) as usize })
        } else {
            before
        }
    }
}

/// The outlines of the first `n` cells.
pub open spec fn outlines(n: nat) -> Seq<Stroke> {
    Seq::new(n, |i: int| Stroke::Outline { site: i as usize })
}

/// The first `n` walls of a flat list of end points.
pub open spec fn wall_strokes(edges: Seq<usize>, n: nat) -> Seq<Stroke> {
    Seq::new(n, |p: int| Stroke::Wall { from: edges[2 * p], to: edges[2 * p + 1] })
}

/// The strokes of a frame, in the order in which they are laid down.
pub open spec fn frame(mesh: &Mesh, site2room: Seq<usize>, edges: Seq<usize>) -> Seq<Stroke> {
    fills(mesh, site2room, mesh.num_sites()) + dots(site2room, mesh.num_sites()) + outlines(
        mesh.num_sites(),
    ) + wall_strokes(edges, edges.len() / 2).push(Stroke::Boundary)
}

/// The number of regions that have a colour of their own in the pictures of
/// a pacing.
pub fn color_count(pacing: Pacing) -> (count: usize)
    ensures
        count == colored_regions(pacing),
        count <= MAX_COLORED_REGIONS,
{
    match pacing {
        Pacing::Fixed => 4,
        Pacing::Adaptive => MAX_COLORED_REGIONS,
    }
}

/// The colour of region `region` in the pictures of a pacing.
pub fn region_hue(pacing: Pacing, region: usize) -> (rgb: u32)
    requires
        region < colored_regions(pacing),
    ensures
        rgb == region_rgb(pacing, region as int),
{
    match pacing {
        Pacing::Fixed => if region == 0 {
            0xEAD671
        } else if region == 1 {
            0xF6F775
        } else if region == 2 {
            0xE77F62
        } else {
            0x639AEE
        },
        Pacing::Adaptive => if region == 0 {
            0xAEC6CF
        } else if region == 1 {
            0xC7F0BD
        } else if region == 2 {
            0xC9A0DC
        } else if region == 3 {
            0xFF9AA2
        } else if region == 4 {
            0xB5EAD7
        } else if region == 5 {
            0xFFFACD
        } else if region == 6 {
            0xFFB347
        } else {
            0xF8B7D8
        },
    }
}

/// The palette for `num_room` regions in the pictures of a pacing, or nothing
/// where there are more regions than colours.
pub fn palette(pacing: Pacing, num_room: usize) -> (colors: Option<Vec<u32>>)
    ensures
        match colors {
            Some(c) => num_room <= colored_regions(pacing) && c@ == palette_of(
                pacing,
                num_room as nat,
            ),
            None => num_room > colored_regions(pacing),
        },
{
    if num_room > color_count(pacing) {
        return None;
    }
    let mut colors: Vec<u32> = Vec::new();
    colors.push(0xffffff);
    colors.push(0x000000);
    let mut i_room: usize = 0;
    while i_room < num_room
        invariant
            num_room <= colored_regions(pacing),
            i_room <= num_room,
            colors@ == palette_of(pacing, i_room as nat),
        decreases num_room - i_room,
    {
        colors.push(region_hue(pacing, i_room));
        i_room += 1;
        assert(colors@ =~= palette_of(pacing, i_room as nat));
    }
    Some(colors)
}

/// The vertex ids of the cell of site `i`, in their order around the cell.
pub fn cell_polygon(mesh: &Mesh, i: usize) -> (polygon: Vec<usize>)
    requires
        mesh.wf(),
        i < mesh.num_sites(),
    ensures
        polygon@ == mesh.idx2vtxv@.subrange(
            mesh.site2idx@[i as int] as int,
            mesh.site2idx@[i + 1] as int,
        ),
        polygon@.len() == mesh.cell_len(i as int),
        forall|k: int| 0 <= k < polygon@.len() ==> polygon@[k] == mesh.edge_tail(i as int, k),
{
    assert(i + 1 < mesh.site2idx.len());
    let start: usize = mesh.site2idx[i];
    let end: usize = mesh.site2idx[i + 1];
    assert(mesh.site2idx@[i + 1] <= mesh.site2idx@.last());
    let mut polygon: Vec<usize> = Vec::new();
    let mut idx: usize = start;
    while idx < end
        invariant
            start <= idx <= end <= mesh.idx2vtxv@.len(),
            polygon@ == mesh.idx2vtxv@.subrange(start as int, idx as int),
        decreases end - idx,
    {
        polygon.push(mesh.idx2vtxv[idx]);
        idx += 1;
        assert(polygon@ =~= mesh.idx2vtxv@.subrange(start as int, idx as int));
    }
    polygon
}

/// The edges of the cell of site `i`, in their order around the cell: for
/// each the vertex where it starts and the vertex where it ends.
pub fn cell_edges(mesh: &Mesh, i: usize) -> (edges: Vec<(usize, usize)>)
    requires
        mesh.wf(),
        i < mesh.num_sites(),
    ensures
        edges@.len() == mesh.cell_len(i as int),
        forall|k: int|
            0 <= k < edges@.len() ==> edges@[k] == (
                mesh.edge_tail(i as int, k),
                mesh.edge_head(i as int, k),
            ),
{
    assert(i + 1 < mesh.site2idx.len());
    let start: usize = mesh.site2idx[i];
    let num_vtx_in_site: usize = mesh.site2idx[i + 1] - start;
    assert(mesh.site2idx@[i + 1] <= mesh.site2idx@.last());
    let mut edges: Vec<(usize, usize)> = Vec::new();
    let mut i0_vtx: usize = 0;
    while i0_vtx < num_vtx_in_site
        invariant
            mesh.wf(),
            i < mesh.num_sites(),
            start == mesh.site2idx@[i as int],
            num_vtx_in_site == mesh.cell_len(i as int),
            start + num_vtx_in_site <= mesh.idx2vtxv@.len(),
            i0_vtx <= num_vtx_in_site,
            edges@.len() == i0_vtx,
            forall|k: int|
                0 <= k < i0_vtx ==> edges@[k] == (
                    mesh.edge_tail(i as int, k),
                    mesh.edge_head(i as int, k),
                ),
        decreases num_vtx_in_site - i0_vtx,
    {
        let i1_vtx: usize = (i0_vtx + 1) % num_vtx_in_site;
        edges.push((mesh.idx2vtxv[start + i0_vtx], mesh.idx2vtxv[start + i1_vtx]));
        i0_vtx += 1;
    }
    edges
}

/// The strokes of a frame of `mesh`, with its sites assigned to at most
/// `MAX_COLORED_REGIONS` regions and its walls given as a flat list of end
/// points.
pub fn paint_plan(mesh: &Mesh, site2room: &[usize], edge2vtxv_wall: &[usize]) -> (strokes: Vec<
    Stroke,
>)
    requires
        mesh.wf(),
        site2room@.len() == mesh.num_sites(),
        regions_in_range(site2room@, MAX_COLORED_REGIONS as nat),
    ensures
        strokes@ == frame(mesh, site2room@, edge2vtxv_wall@),
{
    let num_site: usize = mesh.site2idx.len() - 1;
    let mut strokes: Vec<Stroke> = Vec::new();
    let mut i_site: usize = 0;
    while i_site < num_site
        invariant
            mesh.wf(),
            num_site == mesh.num_sites(),
            site2room@.len() == num_site,
            regions_in_range(site2room@, MAX_COLORED_REGIONS as nat),
            i_site <= num_site,
            strokes@ == fills(mesh, site2room@, i_site as nat),
        decreases num_site - i_site,
    {
        let i_room: usize = site2room[i_site];
        if i_room != INACTIVE && mesh.site2idx[i_site + 1] - mesh.site2idx[i_site] > 0 {
            let color: u8 = (i_room + 2) as u8;
            strokes.push(Stroke::Fill { site: i_site, color });
        }
        i_site += 1;
    }
    let ghost filled = strokes@;
    i_site = 0;
    while i_site < num_site
        invariant
            site2room@.len() == num_site,
            i_site <= num_site,
            strokes@ == filled + dots(site2room@, i_site as nat),
        decreases num_site - i_site,
    {
        if site2room[i_site] != INACTIVE {
            strokes.push(Stroke::Dot { site: i_site });
        }
        i_site += 1;
        assert(strokes@ =~= filled + dots(site2room@, i_site as nat));
    }
    let ghost dotted = strokes@;
    i_site = 0;
    while i_site < num_site
        invariant
            i_site <= num_site,
            strokes@ == dotted + outlines(i_site as nat),
        decreases num_site - i_site,
    {
        strokes.push(Stroke::Outline { site: i_site });
        i_site += 1;
        assert(strokes@ =~= dotted + outlines(i_site as nat));
    }
    let ghost outlined = strokes@;
    let num_wall: usize = edge2vtxv_wall.len() / 2;
    let mut i_edge: usize = 0;
    while i_edge < num_wall
        invariant
            num_wall == edge2vtxv_wall@.len() / 2,
            edge2vtxv_wall@.len() <= usize::MAX,
            i_edge <= num_wall,
            strokes@ == outlined + wall_strokes(edge2vtxv_wall@, i_edge as nat),
        decreases num_wall - i_edge,
    {
        strokes.push(
            Stroke::Wall { from: edge2vtxv_wall[i_edge * 2], to: edge2vtxv_wall[i_edge * 2 + 1] },
        );
        i_edge += 1;
        assert(strokes@ =~= outlined + wall_strokes(edge2vtxv_wall@, i_edge as nat));
    }
    strokes.push(Stroke::Boundary);
    assert(strokes@ =~= frame(mesh, site2room@, edge2vtxv_wall@));
    strokes
}

} // verus!
