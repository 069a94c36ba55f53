//! The greedy face-merging mesher.
//!
//! For each dirty chunk, for each of the six face directions, the mesher
//! builds a 16x16 face-visibility grid per depth plane and greedily merges
//! same-material rectangles into quads. The result is a [`ChunkQuads`] list
//! that fully replaces the chunk's previous one.

use vstd::pervasive::VecAdditionalExecFns;
use vstd::prelude::*;

use crate::data::Voxel;
use crate::side::{spec_rcd_xyz, spec_side_of, Axis, Face, Side};
use crate::world::{index_tuple, spec_live, ChunkSlot, ChunkStore, VoxelWorld};
use crate::world_slice::{spec_slice_voxel, WorldSlice};

verus! {

/// One corner position of a quad, in chunk-local coordinates. Every corner
/// the mesher emits lies on the voxel lattice, so the components are
/// integers in `[0, 16]`.
#[derive(Clone, Copy, Debug, PartialEq, Eq, Structural)]
pub struct Corner {
    pub x: i32,
    pub y: i32,
    pub z: i32,
}

/// An axis-aligned rectangle of visible face, given by its four corner
/// positions and the side (outward normal direction) it faces.
#[derive(Clone, Copy, Debug, PartialEq, Eq, Structural)]
pub struct Quad {
    /// The four corners, wound so that the three positive face directions
    /// (East, Top, South) list their corners in reverse.
    pub c0: Corner,
    pub c1: Corner,
    pub c2: Corner,
    pub c3: Corner,
    /// The direction of the face's outward normal.
    pub side: Side,
}

/// The quad list derived from one chunk's voxels, replaced wholesale on
/// every remesh.
#[derive(Debug)]
pub struct ChunkQuads {
    /// The quads of the chunk's current mesh.
    pub quads: Vec<Quad>,
}

impl View for ChunkQuads {
    type V = Seq<Quad>;

    open spec fn view(&self) -> Seq<Quad> {
        self.quads@
    }
}

impl Clone for ChunkQuads {
    /// A clone holds the same quads.
    fn clone(&self) -> (c: Self)
        ensures
            c@ == self@,
    {
        let quads = self.quads.clone();
        proof {
            assert forall|i: int| 0 <= i < quads@.len() implies quads@[i] == self.quads@[i] by {
                assert(cloned::<Quad>(self.quads[i], quads[i]));
            }
            assert(quads@ =~= self.quads@);
        }
        ChunkQuads { quads }
    }
}

impl Default for ChunkQuads {
    /// An empty quad list.
    fn default() -> (c: Self)
        ensures
            c@ == Seq::<Quad>::empty(),
    {
        ChunkQuads { quads: Vec::new() }
    }
}

/// `true` for an opaque, solid material; `0` is empty air.
pub open spec fn spec_is_opaque(v: Voxel) -> bool {
    v != 0
}

/// `true` for an opaque, solid material; `0` is empty air.
pub fn is_opaque(v: Voxel) -> (r: bool)
    ensures
        r == spec_is_opaque(v),
{
    v != 0
}

/// Everything a meshing pass reads: the world index, the chunk slots, and
/// the origin chunk the pass is centered on.
pub ghost struct SliceModel {
    /// The world index: chunk coordinates to entity handle.
    pub world: Map<(i32, i32, i32), usize>,
    /// The chunk store's slots.
    pub slots: Seq<Option<ChunkSlot>>,
    /// The chunk coordinates the pass is centered on.
    pub origin: (i32, i32, i32),
}

/// What a [`WorldSlice`] reads.
pub open spec fn slice_model(s: &WorldSlice) -> SliceModel {
    SliceModel { world: s.world_view(), slots: s.slots_view(), origin: s.origin() }
}

/// The voxel the model resolves at local coordinates `p`, or `None` where no
/// chunk is loaded.
pub open spec fn model_voxel(m: SliceModel, p: (int, int, int)) -> Option<Voxel> {
    spec_slice_voxel(m.world, m.slots, m.origin, p)
}

/// One cell of the face-visibility grid for direction (`axis`, `face`) at
/// depth plane `depth`: the voxel just before the face and the voxel just
/// after it cull each other when both are present and equal; otherwise the
/// cell holds whichever of the two lies on the solid side for this face
/// direction (back faces use the far voxel, front faces the near one).
pub open spec fn spec_vis_cell(
    m: SliceModel,
    axis: Axis,
    face: Face,
    depth: int,
    r: int,
    c: int,
) -> Option<Voxel> {
    let face_1 = model_voxel(m, spec_rcd_xyz(axis, r, c, depth));
    let face_2 = model_voxel(m, spec_rcd_xyz(axis, r, c, depth + 1));
    if face_1 is Some && face_2 is Some && face_1 == face_2 {
        None
    } else if face == Face::Back {
        face_2
    } else {
        face_1
    }
}

/// The whole 16x16 face-visibility grid for (`axis`, `face`) at `depth`,
/// flattened row-major: cell (r, c) sits at `r * 16 + c`.
pub open spec fn spec_vis_grid(m: SliceModel, axis: Axis, face: Face, depth: int) -> Seq<
    Option<Voxel>,
> {
    Seq::new(256, |i: int| spec_vis_cell(m, axis, face, depth, i / 16, i % 16))
}

/// Cell (r, c) of a flattened 16x16 grid.
pub open spec fn grid_cell(g: Seq<Option<Voxel>>, r: int, c: int) -> Option<Voxel> {
    g[r * 16 + c]
}

/// How many consecutive cells of row `r`, starting at column `c`, hold
/// exactly `v` (stopping at the end of the row).
pub open spec fn spec_run_width(g: Seq<Option<Voxel>>, r: int, c: int, v: Option<Voxel>) -> int
    decreases 16 - c when c <= 16
{
    if c < 0 || c >= 16 {
        0
    } else if grid_cell(g, r, c) == v {
        1 + spec_run_width(g, r, c + 1, v)
    } else {
        0
    }
}

/// `true` when every cell of row `r` in columns `[c0, c0 + w)` holds `v`.
pub open spec fn spec_row_matches(
    g: Seq<Option<Voxel>>,
    r: int,
    c0: int,
    w: int,
    v: Option<Voxel>,
) -> bool {
    forall|c: int| c0 <= c < c0 + w ==> grid_cell(g, r, c) == v
}

/// How many consecutive rows, starting at row `r`, hold `v` across the
/// whole column span `[c0, c0 + w)` (stopping at the bottom of the grid).
pub open spec fn spec_run_height(
    g: Seq<Option<Voxel>>,
    r: int,
    c0: int,
    w: int,
    v: Option<Voxel>,
) -> int
    decreases 16 - r when r <= 16
{
    if r < 0 || r >= 16 {
        0
    } else if spec_row_matches(g, r, c0, w, v) {
        1 + spec_run_height(g, r + 1, c0, w, v)
    } else {
        0
    }
}

/// The grid with every cell of the rectangle at (`r0`, `c0`), `h` rows by
/// `w` columns, consumed (set to `None`).
pub open spec fn spec_clear_rect(
    g: Seq<Option<Voxel>>,
    r0: int,
    c0: int,
    h: int,
    w: int,
) -> Seq<Option<Voxel>> {
    Seq::new(
        256,
        |i: int|
            if r0 <= i / 16 < r0 + h && c0 <= i % 16 < c0 + w {
                None
            } else {
                g[i]
            },
    )
}

/// A maximal same-valued rectangle the greedy pass found in a visibility
/// grid, in (row, column) grid coordinates.
pub ghost struct GridRect {
    /// Topmost row of the rectangle.
    pub row: int,
    /// Leftmost column of the rectangle.
    pub col: int,
    /// Number of columns covered; at least 1.
    pub width: int,
    /// Number of rows covered; at least 1.
    pub height: int,
    /// The material all covered cells hold.
    pub value: Voxel,
}

/// The rectangles the greedy pass emits while scanning row `r` from column
/// `c` on, together with the grid as it stands afterwards (merged cells
/// consumed). At a cell holding a value the pass extends the rectangle's
/// width along the row, then its height downward across that width, emits
/// the rectangle when its value is opaque, consumes every covered cell, and
/// continues past the width; an empty cell is skipped.
pub open spec fn spec_greedy_row(g: Seq<Option<Voxel>>, r: int, c: int) -> (Seq<GridRect>, Seq<
    Option<Voxel>,
>)
    decreases 16 - c when c <= 16
{
    if c < 0 || c >= 16 || r < 0 || r >= 16 {
        (Seq::<GridRect>::empty(), g)
    } else {
        match grid_cell(g, r, c) {
            None => spec_greedy_row(g, r, c + 1),
            Some(v) => {
                let w0 = spec_run_width(g, r, c, Some(v));
                let w = if w0 < 1 {
                    1
                } else if w0 > 16 - c {
                    16 - c
                } else {
                    w0
                };
                let h0 = spec_run_height(g, r, c, w, Some(v));
                let h = if h0 < 1 {
                    1
                } else if h0 > 16 - r {
                    16 - r
                } else {
                    h0
                };
                let g2 = spec_clear_rect(g, r, c, h, w);
                let rest = spec_greedy_row(g2, r, c + w);
                if spec_is_opaque(v) {
                    (
                        seq![GridRect { row: r, col: c, width: w, height: h, value: v }]
                            + rest.0,
                        rest.1,
                    )
                } else {
                    rest
                }
            },
        }
    }
}

/// The rectangles the greedy pass emits from row `r` to the bottom of the
/// grid, scanning row-major and consuming merged cells as it goes.
pub open spec fn spec_greedy_rows(g: Seq<Option<Voxel>>, r: int) -> Seq<GridRect>
    decreases 16 - r when r <= 16
{
    if r < 0 || r >= 16 {
        Seq::<GridRect>::empty()
    } else {
        let step = spec_greedy_row(g, r, 0);
        step.0 + spec_greedy_rows(step.1, r + 1)
    }
}

/// What the greedy pass still emits when it stands at row `r`, column `c`:
/// the rest of row `r`, then all rows below, on the grid as it stands.
pub open spec fn spec_greedy_rest(g: Seq<Option<Voxel>>, r: int, c: int) -> Seq<GridRect> {
    if 0 <= r < 16 {
        let step = spec_greedy_row(g, r, c);
        step.0 + spec_greedy_rows(step.1, r + 1)
    } else {
        Seq::<GridRect>::empty()
    }
}

/// A corner position from chunk coordinates.
pub open spec fn spec_corner(p: (int, int, int)) -> Corner {
    Corner { x: p.0 as i32, y: p.1 as i32, z: p.2 as i32 }
}

/// The quad a grid rectangle stands for: its four corners on the depth
/// plane just past `depth`, wound in row/column order and reversed for the
/// three positive face directions (East, Top, South) so that the winding
/// stays consistent across all six directions.
pub open spec fn quad_of_rect(axis: Axis, face: Face, depth: int, rect: GridRect) -> Quad {
    let side = spec_side_of(axis, face);
    let p0 = spec_corner(spec_rcd_xyz(axis, rect.row, rect.col, depth + 1));
    let p1 = spec_corner(spec_rcd_xyz(axis, rect.row, rect.col + rect.width, depth + 1));
    let p2 = spec_corner(
        spec_rcd_xyz(axis, rect.row + rect.height, rect.col + rect.width, depth + 1),
    );
    let p3 = spec_corner(spec_rcd_xyz(axis, rect.row + rect.height, rect.col, depth + 1));
    if side == Side::East || side == Side::Top || side == Side::South {
        Quad { c0: p3, c1: p2, c2: p1, c3: p0, side }
    } else {
        Quad { c0: p0, c1: p1, c2: p2, c3: p3, side }
    }
}

/// The quads of a rectangle list, in order.
pub open spec fn quads_of_rects(axis: Axis, face: Face, depth: int, rects: Seq<GridRect>) -> Seq<
    Quad,
> {
    rects.map_values(|rect: GridRect| quad_of_rect(axis, face, depth, rect))
}

/// Every quad the direction (`axis`, `face`) emits at depth plane `depth`.
pub open spec fn spec_quads_for_depth(m: SliceModel, axis: Axis, face: Face, depth: int) -> Seq<
    Quad,
> {
    quads_of_rects(axis, face, depth, spec_greedy_rows(spec_vis_grid(m, axis, face, depth), 0))
}

/// Every quad the direction (`axis`, `face`) emits at depth planes `depth`
/// and deeper; depth planes run from -1 to 15 so that faces against
/// neighboring chunks are generated too.
pub open spec fn spec_quads_from_depth(m: SliceModel, axis: Axis, face: Face, depth: int) -> Seq<
    Quad,
>
    decreases 16 - depth when depth <= 16
{
    if depth >= 16 {
        Seq::<Quad>::empty()
    } else {
        spec_quads_for_depth(m, axis, face, depth) + spec_quads_from_depth(m, axis, face, depth + 1)
    }
}

/// The face direction of pass `j` of the six the mesher runs: the two faces
/// outermost, the three axes within.
pub open spec fn pass_face(j: int) -> Face {
    if j < 3 {
        Face::Front
    } else {
        Face::Back
    }
}

/// The axis of pass `j` of the six the mesher runs.
pub open spec fn pass_axis(j: int) -> Axis {
    if j % 3 == 0 {
        Axis::X
    } else if j % 3 == 1 {
        Axis::Y
    } else {
        Axis::Z
    }
}

/// Every quad the first `j` of the six (face, axis) passes emit, in pass
/// order.
pub open spec fn spec_quads_through_pass(m: SliceModel, j: int) -> Seq<Quad>
    decreases j when j >= 0
{
    if j <= 0 {
        Seq::<Quad>::empty()
    } else {
        spec_quads_through_pass(m, j - 1) + spec_quads_from_depth(
            m,
            pass_axis(j - 1),
            pass_face(j - 1),
            -1,
        )
    }
}

/// Every quad a remesh of the chunk at `m.origin` produces: six directional
/// passes (front faces of X, Y, Z, then back faces of X, Y, Z), each
/// sweeping depth planes -1 through 15, each plane greedily merged
/// row-major.
pub open spec fn spec_all_quads(m: SliceModel) -> Seq<Quad> {
    spec_quads_through_pass(m, 6)
}

/// `true` when the two optional voxels are equal.
fn opt_eq(a: Option<Voxel>, b: Option<Voxel>) -> (r: bool)
    ensures
        r == (a == b),
{
    match (a, b) {
        (Some(x), Some(y)) => x == y,
        (None, None) => true,
        _ => false,
    }
}

/// Mapping quads over concatenated rectangle lists concatenates the quads.
proof fn lemma_quads_of_rects_add(
    axis: Axis,
    face: Face,
    depth: int,
    a: Seq<GridRect>,
    b: Seq<GridRect>,
)
    ensures
        quads_of_rects(axis, face, depth, a + b) == quads_of_rects(axis, face, depth, a)
            + quads_of_rects(axis, face, depth, b),
{
    assert(quads_of_rects(axis, face, depth, a + b) =~= quads_of_rects(axis, face, depth, a)
        + quads_of_rects(axis, face, depth, b));
}

/// A width run covers only matching cells.
proof fn lemma_run_width_matches(g: Seq<Option<Voxel>>, r: int, c: int, v: Option<Voxel>)
    requires
        0 <= c <= 16,
    ensures
        spec_row_matches(g, r, c, spec_run_width(g, r, c, v), v),
    decreases 16 - c,
{
    if c < 16 && grid_cell(g, r, c) == v {
        lemma_run_width_matches(g, r, c + 1, v);
    }
}

/// Build the face-visibility grid of direction (`axis`, `face`) at depth
/// plane `depth`, flattened row-major.
fn build_vis_grid(data: &WorldSlice, axis: Axis, face: Face, depth: i32) -> (grid: Vec<
    Option<Voxel>,
>)
    requires
        -1 <= depth <= 15,
    ensures
        grid@ == spec_vis_grid(slice_model(data), axis, face, depth as int),
{
    let side = crate::side::side_of(axis, face);
    let ghost m = slice_model(data);
    let mut grid: Vec<Option<Voxel>> = Vec::new();
    let mut r: usize = 0;
    while r < 16
        invariant
            -1 <= depth <= 15,
            r <= 16,
            m == slice_model(data),
            grid@.len() == 16 * r,
            forall|i: int|
                0 <= i < 16 * r ==> grid@[i] == spec_vis_cell(
                    m,
                    axis,
                    face,
                    depth as int,
                    i / 16,
                    i % 16,
                ),
        decreases 16 - r,
    {
        let mut c: usize = 0;
        while c < 16
            invariant
                -1 <= depth <= 15,
                r < 16,
                c <= 16,
                m == slice_model(data),
                grid@.len() == 16 * r + c,
                forall|i: int|
                    0 <= i < 16 * r + c ==> grid@[i] == spec_vis_cell(
                        m,
                        axis,
                        face,
                        depth as int,
                        i / 16,
                        i % 16,
                    ),
            decreases 16 - c,
        {
            let face_1 = data.get_voxel_face(
                crate::side::get_rcd_xyz(axis, r as i32, c as i32, depth),
                side,
            );
            let face_2 = data.get_voxel_face(
                crate::side::get_rcd_xyz(axis, r as i32, c as i32, depth + 1),
                side,
            );
            let cell: Option<Voxel> = if face_1.is_some() && face_2.is_some() && opt_eq(
                face_1,
                face_2,
            ) {
                None
            } else {
                if matches!(face, Face::Back) {
                    face_2
                } else {
                    face_1
                }
            };
            grid.push(cell);
            proof {
                let i = 16 * r + c;
                vstd::arithmetic::div_mod::lemma_fundamental_div_mod_converse(
                    i as int,
                    16,
                    r as int,
                    c as int,
                );
                assert(grid@[i as int] == spec_vis_cell(m, axis, face, depth as int, r as int, c as int));
            }
            c = c + 1;
        }
        r = r + 1;
    }
    proof {
        assert(grid@ =~= spec_vis_grid(m, axis, face, depth as int));
    }
    grid
}

/// How far, starting at (`r`, `c`) where the grid holds `start`, the run of
/// cells equal to `start` extends along the row.
fn scan_width(grid: &Vec<Option<Voxel>>, r: usize, c: usize, start: Option<Voxel>) -> (w: usize)
    requires
        grid@.len() == 256,
        r < 16,
        c < 16,
        grid_cell(grid@, r as int, c as int) == start,
    ensures
        w == spec_run_width(grid@, r as int, c as int, start),
        1 <= w <= 16 - c,
{
    let mut w: usize = 1;
    while c + w < 16 && opt_eq(grid[r * 16 + c + w], start)
        invariant
            grid@.len() == 256,
            r < 16,
            c < 16,
            1 <= w <= 16 - c,
            spec_run_width(grid@, r as int, c as int, start) == w + spec_run_width(
                grid@,
                r as int,
                c + w,
                start,
            ),
        decreases 16 - c - w,
    {
        w = w + 1;
    }
    w
}

/// `true` when row `r` holds `start` across columns `[c, c + w)`.
fn row_matches(grid: &Vec<Option<Voxel>>, r: usize, c: usize, w: usize, start: Option<Voxel>) -> (b:
    bool)
    requires
        grid@.len() == 256,
        r < 16,
        c + w <= 16,
    ensures
        b == spec_row_matches(grid@, r as int, c as int, w as int, start),
{
    let mut k: usize = 0;
    while k < w
        invariant
            grid@.len() == 256,
            r < 16,
            c + w <= 16,
            k <= w,
            forall|j: int| c <= j < c + k ==> grid_cell(grid@, r as int, j) == start,
        decreases w - k,
    {
        let cell = grid[r * 16 + c + k];
        if !opt_eq(cell, start) {
            assert(grid_cell(grid@, r as int, (c + k) as int) != start);
            return false;
        }
        k = k + 1;
    }
    true
}

/// How far, starting at row `r` whose columns `[c, c + w)` all hold
/// `start`, the block of full-width matching rows extends downward.
fn scan_height(grid: &Vec<Option<Voxel>>, r: usize, c: usize, w: usize, start: Option<Voxel>) -> (h:
    usize)
    requires
        grid@.len() == 256,
        r < 16,
        c < 16,
        c + w <= 16,
        spec_row_matches(grid@, r as int, c as int, w as int, start),
    ensures
        h == spec_run_height(grid@, r as int, c as int, w as int, start),
        1 <= h <= 16 - r,
{
    let mut h: usize = 1;
    while r + h < 16 && row_matches(grid, r + h, c, w, start)
        invariant
            grid@.len() == 256,
            r < 16,
            c < 16,
            c + w <= 16,
            1 <= h <= 16 - r,
            spec_run_height(grid@, r as int, c as int, w as int, start) == h + spec_run_height(
                grid@,
                r + h,
                c as int,
                w as int,
                start,
            ),
        decreases 16 - r - h,
    {
        h = h + 1;
    }
    h
}

/// Consume (set to `None`) every cell of the rectangle at (`r`, `c`), `h`
/// rows by `w` columns.
fn clear_rect(grid: &mut Vec<Option<Voxel>>, r: usize, c: usize, h: usize, w: usize)
    requires
        old(grid)@.len() == 256,
        r + h <= 16,
        c + w <= 16,
    ensures
        final(grid)@ == spec_clear_rect(old(grid)@, r as int, c as int, h as int, w as int),
{
    let ghost g0 = grid@;
    let mut hh: usize = 0;
    while hh < h
        invariant
            grid@.len() == 256,
            r + h <= 16,
            c + w <= 16,
            hh <= h,
            forall|i: int|
                0 <= i < 256 ==> grid@[i] == (if r <= i / 16 < r + hh && c <= i % 16 < c + w {
                    None
                } else {
                    g0[i]
                }),
        decreases h - hh,
    {
        let mut ww: usize = 0;
        while ww < w
            invariant
                grid@.len() == 256,
                r + h <= 16,
                c + w <= 16,
                hh < h,
                ww <= w,
                forall|i: int|
                    0 <= i < 256 ==> grid@[i] == (if (r <= i / 16 < r + hh && c <= i % 16 < c + w)
                        || (i / 16 == r + hh && c <= i % 16 < c + ww) {
                        None
                    } else {
                        g0[i]
                    }),
            decreases w - ww,
        {
            let idx = (r + hh) * 16 + (c + ww);
            grid.set(idx, None);
            proof {
                vstd::arithmetic::div_mod::lemma_fundamental_div_mod_converse(
                    idx as int,
                    16,
                    (r + hh) as int,
                    (c + ww) as int,
                );
            }
            ww = ww + 1;
        }
        hh = hh + 1;
    }
    proof {
        assert(grid@ =~= spec_clear_rect(g0, r as int, c as int, h as int, w as int));
    }
}

/// Run the greedy merge of direction (`axis`, `face`) at depth plane
/// `depth` and append the quads it emits to `mesh`.
#[verifier::loop_isolation(false)]
fn mesh_depth(data: &WorldSlice, axis: Axis, face: Face, depth: i32, mesh: &mut ChunkQuads)
    requires
        -1 <= depth <= 15,
    ensures
        final(mesh)@ == old(mesh)@ + spec_quads_for_depth(
            slice_model(data),
            axis,
            face,
            depth as int,
        ),
{
    let ghost m = slice_model(data);
    let side = crate::side::side_of(axis, face);
    let mut grid = build_vis_grid(data, axis, face, depth);
    let ghost g0 = grid@;
    let ghost base = mesh@;
    let ghost target = base + quads_of_rects(axis, face, depth as int, spec_greedy_rows(g0, 0));
    let mut r: usize = 0;
    while r < 16
        invariant
            -1 <= depth <= 15,
            r <= 16,
            grid@.len() == 256,
            mesh@ + quads_of_rects(axis, face, depth as int, spec_greedy_rows(grid@, r as int))
                == target,
        decreases 16 - r,
    {
        let mut c: usize = 0;
        proof {
            assert(spec_greedy_rest(grid@, r as int, 0) == spec_greedy_rows(grid@, r as int));
        }
        while c < 16
            invariant
                -1 <= depth <= 15,
                r < 16,
                c <= 16,
                grid@.len() == 256,
                mesh@ + quads_of_rects(
                    axis,
                    face,
                    depth as int,
                    spec_greedy_rest(grid@, r as int, c as int),
                ) == target,
            decreases 16 - c,
        {
            let cell = grid[r * 16 + c];
            if cell.is_some() {
                let start = cell;
                let w = scan_width(&grid, r, c, start);
                proof {
                    lemma_run_width_matches(grid@, r as int, c as int, start);
                }
                let h = scan_height(&grid, r, c, w, start);
                let ghost v = start.unwrap();
                let ghost rect = GridRect {
                    row: r as int,
                    col: c as int,
                    width: w as int,
                    height: h as int,
                    value: v,
                };
                let ghost emitted = if spec_is_opaque(v) {
                    seq![rect]
                } else {
                    Seq::<GridRect>::empty()
                };
                if is_opaque(start.unwrap()) {
                    let q0 = crate::side::get_rcd_xyz(axis, r as i32, c as i32, depth + 1);
                    let q1 = crate::side::get_rcd_xyz(axis, r as i32, (c + w) as i32, depth + 1);
                    let q2 = crate::side::get_rcd_xyz(
                        axis,
                        (r + h) as i32,
                        (c + w) as i32,
                        depth + 1,
                    );
                    let q3 = crate::side::get_rcd_xyz(axis, (r + h) as i32, c as i32, depth + 1);
                    let k0 = Corner { x: q0.0, y: q0.1, z: q0.2 };
                    let k1 = Corner { x: q1.0, y: q1.1, z: q1.2 };
                    let k2 = Corner { x: q2.0, y: q2.1, z: q2.2 };
                    let k3 = Corner { x: q3.0, y: q3.1, z: q3.2 };
                    let quad = match side {
                        Side::East | Side::Top | Side::South => Quad {
                            c0: k3,
                            c1: k2,
                            c2: k1,
                            c3: k0,
                            side,
                        },
                        _ => Quad { c0: k0, c1: k1, c2: k2, c3: k3, side },
                    };
                    proof {
                        let p0 = spec_rcd_xyz(axis, rect.row, rect.col, depth as int + 1);
                        let p1 = spec_rcd_xyz(
                            axis,
                            rect.row,
                            rect.col + rect.width,
                            depth as int + 1,
                        );
                        let p2 = spec_rcd_xyz(
                            axis,
                            rect.row + rect.height,
                            rect.col + rect.width,
                            depth as int + 1,
                        );
                        let p3 = spec_rcd_xyz(
                            axis,
                            rect.row + rect.height,
                            rect.col,
                            depth as int + 1,
                        );
                        assert((q0.0 as int, q0.1 as int, q0.2 as int) == p0);
                        assert((q1.0 as int, q1.1 as int, q1.2 as int) == p1);
                        assert((q2.0 as int, q2.1 as int, q2.2 as int) == p2);
                        assert((q3.0 as int, q3.1 as int, q3.2 as int) == p3);
                        assert(k0 == spec_corner(p0));
                        assert(k1 == spec_corner(p1));
                        assert(k2 == spec_corner(p2));
                        assert(k3 == spec_corner(p3));
                        assert(side == spec_side_of(axis, face));
                        assert(quad == quad_of_rect(axis, face, depth as int, rect));
                    }
                    mesh.quads.push(quad);
                    proof {
                        assert(quads_of_rects(axis, face, depth as int, emitted) =~= seq![quad]);
                    }
                }
                let ghost gpre = grid@;
                clear_rect(&mut grid, r, c, h, w);
                proof {
                    // One unfolding of the greedy scan at (r, c): the merge
                    // consumes the rectangle and continues past its width.
                    let row_step = spec_greedy_row(gpre, r as int, c as int);
                    let row_rest = spec_greedy_row(grid@, r as int, c as int + w);
                    assert(row_step.0 == emitted + row_rest.0 && row_step.1 == row_rest.1);
                    assert(spec_greedy_rest(gpre, r as int, c as int) == emitted
                        + spec_greedy_rest(grid@, r as int, c as int + w)) by {
                        assert(emitted + (row_rest.0 + spec_greedy_rows(row_rest.1, r as int + 1))
                            =~= (emitted + row_rest.0) + spec_greedy_rows(row_rest.1, r as int + 1));
                    }
                    lemma_quads_of_rects_add(
                        axis,
                        face,
                        depth as int,
                        emitted,
                        spec_greedy_rest(grid@, r as int, c as int + w),
                    );
                    if !spec_is_opaque(v) {
                        assert(quads_of_rects(axis, face, depth as int, emitted)
                            =~= Seq::<Quad>::empty());
                    }
                    assert(mesh@ + quads_of_rects(
                        axis,
                        face,
                        depth as int,
                        spec_greedy_rest(grid@, r as int, c as int + w),
                    ) =~= target);
                }
                c = c + w;
            } else {
                proof {
                    assert(spec_greedy_row(grid@, r as int, c as int) == spec_greedy_row(
                        grid@,
                        r as int,
                        c as int + 1,
                    ));
                }
                c = c + 1;
            }
        }
        proof {
            // At the end of the row the scan hands the grid to the next row.
            assert(spec_greedy_row(grid@, r as int, 16).0 =~= Seq::<GridRect>::empty());
            assert(spec_greedy_rest(grid@, r as int, 16) =~= spec_greedy_rows(
                grid@,
                r as int + 1,
            ));
        }
        r = r + 1;
    }
    proof {
        assert(spec_greedy_rows(grid@, 16) =~= Seq::<GridRect>::empty());
        assert(quads_of_rects(axis, face, depth as int, Seq::<GridRect>::empty()) =~= Seq::<
            Quad,
        >::empty());
        assert(mesh@ =~= target);
    }
}

/// Remesh one chunk: clear its quad list and fill it afresh from the
/// voxels the slice resolves, running the greedy merge for all six face
/// directions over depth planes -1 through 15. The result depends on
/// nothing but what the slice reads.
#[verifier::loop_isolation(false)]
pub fn quads_from_data(data: &WorldSlice, mesh: &mut ChunkQuads)
    ensures
        final(mesh)@ == spec_all_quads(slice_model(data)),
{
    let ghost m = slice_model(data);
    mesh.quads.clear();
    let mut j: usize = 0;
    while j < 6
        invariant
            j <= 6,
            mesh@ == spec_quads_through_pass(m, j as int),
        decreases 6 - j,
    {
        let face = if j < 3 {
            Face::Front
        } else {
            Face::Back
        };
        let axis = if j % 3 == 0 {
            Axis::X
        } else if j % 3 == 1 {
            Axis::Y
        } else {
            Axis::Z
        };
        proof {
            assert(face == pass_face(j as int));
            assert(axis == pass_axis(j as int));
        }
        let mut depth: i32 = -1;
        while depth < 16
            invariant
                -1 <= depth <= 16,
                mesh@ + spec_quads_from_depth(m, axis, face, depth as int)
                    == spec_quads_through_pass(m, j as int) + spec_quads_from_depth(
                    m,
                    axis,
                    face,
                    -1,
                ),
            decreases 16 - depth,
        {
            let ghost before = mesh@;
            mesh_depth(data, axis, face, depth, mesh);
            proof {
                assert(before + (spec_quads_for_depth(m, axis, face, depth as int)
                    + spec_quads_from_depth(m, axis, face, depth as int + 1)) =~= (before
                    + spec_quads_for_depth(m, axis, face, depth as int)) + spec_quads_from_depth(
                    m,
                    axis,
                    face,
                    depth as int + 1,
                ));
            }
            depth = depth + 1;
        }
        proof {
            assert(spec_quads_from_depth(m, axis, face, 16) =~= Seq::<Quad>::empty());
            assert(mesh@ + Seq::<Quad>::empty() =~= mesh@);
        }
        j = j + 1;
    }
}

/// The model a remesh of the chunk in slot `h` reads: the given world
/// index and slots, centered on that chunk's coordinates.
pub open spec fn chunk_model(
    world: Map<(i32, i32, i32), usize>,
    slots: Seq<Option<ChunkSlot>>,
    h: int,
) -> SliceModel {
    SliceModel { world, slots, origin: index_tuple(slots[h].unwrap().index) }
}

/// A slot after a successful remesh: voxels and position untouched, dirty
/// mark cleared, quads replaced by exactly what the greedy mesher derives
/// from `slots` and `world`.
pub open spec fn spec_remeshed(
    world: Map<(i32, i32, i32), usize>,
    slots: Seq<Option<ChunkSlot>>,
    h: int,
    after: Option<ChunkSlot>,
) -> bool {
    after matches Some(s2) && {
        let prev = slots[h].unwrap();
        &&& s2.index == prev.index
        &&& s2.data == prev.data
        &&& s2.dirty == false
        &&& s2.quads@ == spec_all_quads(chunk_model(world, slots, h))
    }
}

/// Meshes chunks from their voxel data into quad collections: every chunk
/// whose voxels changed since the last pass is remeshed against the current
/// world index, every other chunk is left untouched.
pub struct MeshFaceSystem;

impl Default for MeshFaceSystem {
    fn default() -> (s: Self)
        ensures
            s == MeshFaceSystem,
    {
        MeshFaceSystem
    }
}

impl MeshFaceSystem {
    /// Remesh every dirty chunk. Each dirty chunk's quad list is fully
    /// replaced by what [`quads_from_data`] derives for it against the
    /// shared, read-only snapshot of chunk data and world index that the
    /// pass opened with, and its dirty mark is cleared; clean and vacant
    /// slots are left exactly as they were.
    #[verifier::loop_isolation(false)]
    pub fn run(&mut self, store: &mut ChunkStore, world: &VoxelWorld)
        ensures
            final(store)@.len() == old(store)@.len(),
            forall|h: int|
                0 <= h < old(store)@.len() ==> {
                    let prev = #[trigger] old(store)@[h];
                    &&& ((prev matches Some(slot) && slot.dirty) ==> spec_remeshed(
                        world@,
                        old(store)@,
                        h,
                        final(store)@[h],
                    ))
                    &&& (!(prev matches Some(slot) && slot.dirty) ==> final(store)@[h] == prev)
                },
    {
        let ghost snap = store@;
        let n = store.len();
        let mut results: Vec<(usize, ChunkQuads)> = Vec::new();
        let mut h: usize = 0;
        while h < n
            invariant
                store@ == snap,
                h <= n,
                forall|k: int|
                    0 <= k < results@.len() ==> {
                        let entry = #[trigger] results@[k];
                        &&& entry.0 < h
                        &&& spec_live(snap, entry.0 as int)
                        &&& snap[entry.0 as int].unwrap().dirty
                        &&& entry.1@ == spec_all_quads(chunk_model(world@, snap, entry.0 as int))
                    },
                forall|k1: int, k2: int|
                    0 <= k1 < k2 < results@.len() ==> #[trigger] results@[k1].0
                        < #[trigger] results@[k2].0,
                forall|g: int|
                    0 <= g < h && spec_live(snap, g) && snap[g].unwrap().dirty ==> exists|k: int|
                        0 <= k < results@.len() && #[trigger] results@[k].0 == g,
            decreases n - h,
        {
            let ghost before = results@;
            let mut pushed = false;
            match store.get_slot(h) {
                Some(slot) => {
                    if slot.dirty {
                        let slice = WorldSlice::new(store, world, slot.index.as_tuple());
                        let mut quads = ChunkQuads::default();
                        quads_from_data(&slice, &mut quads);
                        results.push((h, quads));
                        pushed = true;
                    }
                },
                None => {},
            }
            proof {
                assert forall|g: int|
                    0 <= g < h + 1 && spec_live(snap, g) && snap[g].unwrap().dirty implies exists|
                    k: int,
                |
                    0 <= k < results@.len() && #[trigger] results@[k].0 == g by {
                    if g < h {
                        let k = choose|k: int|
                            0 <= k < before.len() && #[trigger] before[k].0 == g;
                        assert(results@[k].0 == g);
                    } else {
                        assert(pushed);
                        assert(results@[results@.len() - 1].0 == g);
                    }
                }
            }
            h = h + 1;
        }
        while results.len() > 0
            invariant
                store@.len() == snap.len(),
                forall|k: int|
                    0 <= k < results@.len() ==> {
                        let entry = #[trigger] results@[k];
                        &&& spec_live(snap, entry.0 as int)
                        &&& snap[entry.0 as int].unwrap().dirty
                        &&& entry.1@ == spec_all_quads(chunk_model(world@, snap, entry.0 as int))
                    },
                forall|k1: int, k2: int|
                    0 <= k1 < k2 < results@.len() ==> #[trigger] results@[k1].0
                        < #[trigger] results@[k2].0,
                forall|g: int|
                    0 <= g < snap.len() ==> {
                        &&& ((exists|k: int|
                            0 <= k < results@.len() && #[trigger] results@[k].0 == g)
                            ==> #[trigger] store@[g] == snap[g])
                        &&& ((spec_live(snap, g) && snap[g].unwrap().dirty && !(exists|k: int|
                            0 <= k < results@.len() && #[trigger] results@[k].0 == g))
                            ==> spec_remeshed(world@, snap, g, store@[g]))
                        &&& (!(spec_live(snap, g) && snap[g].unwrap().dirty) ==> store@[g]
                            == snap[g])
                    },
            decreases results@.len(),
        {
            let ghost before = results@;
            let entry = results.pop().unwrap();
            let (handle, quads) = entry;
            let ghost store_pre = store@;
            store.publish_quads(handle, quads);
            proof {
                let last = before.len() - 1;
                assert forall|k: int| 0 <= k < results@.len() implies #[trigger] results@[k].0
                    != handle by {
                    assert(before[k].0 < before[last].0);
                }
                assert forall|g: int| 0 <= g < snap.len() implies {
                    &&& ((exists|k: int|
                        0 <= k < results@.len() && #[trigger] results@[k].0 == g)
                        ==> #[trigger] store@[g] == snap[g])
                    &&& ((spec_live(snap, g) && snap[g].unwrap().dirty && !(exists|k: int|
                        0 <= k < results@.len() && #[trigger] results@[k].0 == g))
                        ==> spec_remeshed(world@, snap, g, store@[g]))
                    &&& (!(spec_live(snap, g) && snap[g].unwrap().dirty) ==> store@[g] == snap[g])
                } by {
                    if g == handle {
                        assert(spec_live(snap, g) && snap[g].unwrap().dirty);
                        assert(spec_remeshed(world@, snap, g, store@[g]));
                    } else {
                        assert(store@[g] == store_pre[g]);
                        if exists|k: int| 0 <= k < results@.len() && #[trigger] results@[k].0
                            == g {
                            let k = choose|k: int|
                                0 <= k < results@.len() && #[trigger] results@[k].0 == g;
                            assert(before[k].0 == g);
                            assert(store_pre[g] == snap[g]);
                        } else {
                            if spec_live(snap, g) && snap[g].unwrap().dirty {
                                assert(!(exists|k: int|
                                    0 <= k < before.len() && #[trigger] before[k].0 == g)) by {
                                    if exists|k: int|
                                        0 <= k < before.len() && #[trigger] before[k].0 == g {
                                        let k = choose|k: int|
                                            0 <= k < before.len() && #[trigger] before[k].0 == g;
                                        if k < last {
                                            assert(results@[k].0 == g);
                                        } else {
                                            assert(before[last].0 == handle);
                                        }
                                    }
                                }
                                assert(spec_remeshed(world@, snap, g, store_pre[g]));
                            }
                        }
                    }
                }
            }
        }
    }
}

/// `true` when `rect` covers grid cell (`i`, `j`).
pub open spec fn rect_covers(rect: GridRect, i: int, j: int) -> bool {
    rect.row <= i < rect.row + rect.height && rect.col <= j < rect.col + rect.width
}

/// `true` when `rect` lies within the 16x16 grid and is at least one cell.
pub open spec fn rect_in_bounds(rect: GridRect) -> bool {
    &&& 0 <= rect.row
    &&& rect.row + rect.height <= 16
    &&& 0 <= rect.col
    &&& rect.col + rect.width <= 16
    &&& rect.width >= 1
    &&& rect.height >= 1
}

/// `true` when every rectangle of `rects` lies within the grid, has an
/// opaque value, and covers only cells that hold exactly that value in `g`:
/// quads only ever stand on visible solid faces.
pub open spec fn rects_sound(g: Seq<Option<Voxel>>, rects: Seq<GridRect>) -> bool {
    forall|k: int|
        0 <= k < rects.len() ==> {
            let rect = #[trigger] rects[k];
            &&& rect_in_bounds(rect)
            &&& spec_is_opaque(rect.value)
            &&& forall|i: int, j: int|
                #[trigger] rect_covers(rect, i, j) ==> grid_cell(g, i, j) == Some(rect.value)
        }
}

/// `true` when no two rectangles of `rects` cover a common cell: a pass
/// never produces overlapping quads.
pub open spec fn rects_disjoint(rects: Seq<GridRect>) -> bool {
    forall|k1: int, k2: int, i: int, j: int|
        0 <= k1 < k2 < rects.len() && #[trigger] rect_covers(rects[k1], i, j) ==> !#[trigger]
        rect_covers(rects[k2], i, j)
}

/// `true` when some rectangle of `rects` covers cell (`i`, `j`).
pub open spec fn covered_by(rects: Seq<GridRect>, i: int, j: int) -> bool {
    exists|k: int| 0 <= k < rects.len() && rect_covers(#[trigger] rects[k], i, j)
}

/// `true` when cell (`i`, `j`) of `g` holds an opaque value.
pub open spec fn cell_opaque(g: Seq<Option<Voxel>>, i: int, j: int) -> bool {
    grid_cell(g, i, j) matches Some(v) && spec_is_opaque(v)
}

/// A full-width block of matching rows matches in every cell.
proof fn lemma_run_height_matches(
    g: Seq<Option<Voxel>>,
    r: int,
    c0: int,
    w: int,
    v: Option<Voxel>,
)
    requires
        0 <= r <= 16,
    ensures
        forall|i: int, j: int|
            r <= i < r + spec_run_height(g, r, c0, w, v) && c0 <= j < c0 + w ==> grid_cell(
                g,
                i,
                j,
            ) == v,
    decreases 16 - r,
{
    if r < 16 && spec_row_matches(g, r, c0, w, v) {
        lemma_run_height_matches(g, r + 1, c0, w, v);
    }
}

/// What one scan of row `r` from column `c` guarantees: every rectangle it
/// emits starts on row `r` at or past `c`, is in bounds, opaque and
/// uniform; its cells are consumed; no two overlap; cells change only by
/// consumption; the whole rest of row `r` ends consumed, the row's earlier
/// cells stay; and every opaque cell consumed anywhere is covered by an
/// emitted rectangle.
#[verifier::rlimit(100)]
proof fn lemma_greedy_row_props(g: Seq<Option<Voxel>>, r: int, c: int)
    requires
        g.len() == 256,
        0 <= r < 16,
        0 <= c <= 16,
    ensures
        ({
            let (rects, g2) = spec_greedy_row(g, r, c);
            &&& g2.len() == 256
            &&& forall|i: int, j: int|
                0 <= i < 16 && 0 <= j < 16 ==> (#[trigger] grid_cell(g2, i, j) == grid_cell(
                    g,
                    i,
                    j,
                ) || grid_cell(g2, i, j) is None)
            &&& rects_sound(g, rects)
            &&& forall|k: int|
                0 <= k < rects.len() ==> (#[trigger] rects[k]).row == r && c <= rects[k].col
            &&& forall|k: int, i: int, j: int|
                0 <= k < rects.len() && #[trigger] rect_covers(rects[k], i, j) ==> grid_cell(
                    g2,
                    i,
                    j,
                ) is None
            &&& rects_disjoint(rects)
            &&& forall|j: int| c <= j < 16 ==> #[trigger] grid_cell(g2, r, j) is None
            &&& forall|j: int| 0 <= j < c ==> #[trigger] grid_cell(g2, r, j) == grid_cell(g, r, j)
            &&& forall|i: int, j: int|
                0 <= i < 16 && 0 <= j < 16 && cell_opaque(g, i, j) && #[trigger] grid_cell(
                    g2,
                    i,
                    j,
                ) is None ==> covered_by(rects, i, j)
        }),
    decreases 16 - c, 1int,
{
    if c >= 16 {
    } else {
        match grid_cell(g, r, c) {
            None => {
                lemma_greedy_row_props(g, r, c + 1);
            },
            Some(v) => {
                lemma_greedy_row_some(g, r, c, v);
            },
        }
    }
}

/// The Some-cell case of [`lemma_greedy_row_props`]: one merged rectangle,
/// then the scan continues past its width.
#[verifier::rlimit(100)]
#[verifier::spinoff_prover]
proof fn lemma_greedy_row_some(g: Seq<Option<Voxel>>, r: int, c: int, v: Voxel)
    requires
        g.len() == 256,
        0 <= r < 16,
        0 <= c < 16,
        grid_cell(g, r, c) == Some(v),
    ensures
        ({
            let (rects, g2) = spec_greedy_row(g, r, c);
            &&& g2.len() == 256
            &&& forall|i: int, j: int|
                0 <= i < 16 && 0 <= j < 16 ==> (#[trigger] grid_cell(g2, i, j) == grid_cell(
                    g,
                    i,
                    j,
                ) || grid_cell(g2, i, j) is None)
            &&& rects_sound(g, rects)
            &&& forall|k: int|
                0 <= k < rects.len() ==> (#[trigger] rects[k]).row == r && c <= rects[k].col
            &&& forall|k: int, i: int, j: int|
                0 <= k < rects.len() && #[trigger] rect_covers(rects[k], i, j) ==> grid_cell(
                    g2,
                    i,
                    j,
                ) is None
            &&& rects_disjoint(rects)
            &&& forall|j: int| c <= j < 16 ==> #[trigger] grid_cell(g2, r, j) is None
            &&& forall|j: int| 0 <= j < c ==> #[trigger] grid_cell(g2, r, j) == grid_cell(g, r, j)
            &&& forall|i: int, j: int|
                0 <= i < 16 && 0 <= j < 16 && cell_opaque(g, i, j) && #[trigger] grid_cell(
                    g2,
                    i,
                    j,
                ) is None ==> covered_by(rects, i, j)
        }),
    decreases 16 - c, 0int,
{
    match grid_cell(g, r, c) {
        None => {
        },
        Some(_v2) => {
            {
                let w0 = spec_run_width(g, r, c, Some(v));
                let w = if w0 < 1 {
                    1
                } else if w0 > 16 - c {
                    16 - c
                } else {
                    w0
                };
                let h0 = spec_run_height(g, r, c, w, Some(v));
                let h = if h0 < 1 {
                    1
                } else if h0 > 16 - r {
                    16 - r
                } else {
                    h0
                };
                let gc = spec_clear_rect(g, r, c, h, w);
                let rect = GridRect { row: r, col: c, width: w, height: h, value: v };
                lemma_run_width_matches(g, r, c, Some(v));
                lemma_run_height_matches(g, r, c, w, Some(v));
                // the rectangle is uniform in the input grid
                assert forall|i: int, j: int| #[trigger]
                    rect_covers(rect, i, j) implies grid_cell(g, i, j) == Some(v) by {
                    if i == r {
                        assert(grid_cell(g, r, j) == Some(v));
                    } else {
                        assert(h <= h0);
                    }
                }
                lemma_greedy_row_props(gc, r, c + w);
                let step = spec_greedy_row(g, r, c);
                let rest = spec_greedy_row(gc, r, c + w);
                let full = step.0;
                let g2 = step.1;
                assert(g2 == rest.1);
                // cells change only by consumption, composed over the clear
                assert forall|i: int, j: int|
                    0 <= i < 16 && 0 <= j < 16 implies (#[trigger] grid_cell(g2, i, j)
                    == grid_cell(g, i, j) || grid_cell(g2, i, j) is None) by {
                    assert(grid_cell(gc, i, j) == grid_cell(g, i, j) || grid_cell(
                        gc,
                        i,
                        j,
                    ) is None);
                }
                if spec_is_opaque(v) {
                    assert(full == seq![rect] + rest.0);
                    assert(full[0] == rect);
                    assert forall|k: int| 0 < k < full.len() implies #[trigger] full[k]
                        == rest.0[k - 1] by {}
                } else {
                    assert(full == rest.0);
                }
                // soundness of the whole output in the input grid
                assert forall|k: int| 0 <= k < full.len() implies {
                    let rk = #[trigger] full[k];
                    &&& rect_in_bounds(rk)
                    &&& spec_is_opaque(rk.value)
                    &&& rk.row == r
                    &&& c <= rk.col
                    &&& forall|i: int, j: int|
                        #[trigger] rect_covers(rk, i, j) ==> grid_cell(g, i, j) == Some(rk.value)
                            && grid_cell(g2, i, j) is None
                } by {
                    let shift: int = if spec_is_opaque(v) {
                        1
                    } else {
                        0
                    };
                    if spec_is_opaque(v) && k == 0 {
                        assert forall|i: int, j: int| #[trigger]
                            rect_covers(rect, i, j) implies grid_cell(g, i, j) == Some(v)
                            && grid_cell(g2, i, j) is None by {
                            assert(grid_cell(gc, i, j) is None);
                        }
                    } else {
                        let rk = rest.0[k - shift];
                        assert(rects_sound(gc, rest.0));
                        assert forall|i: int, j: int| #[trigger]
                            rect_covers(rk, i, j) implies grid_cell(g, i, j) == Some(rk.value)
                            && grid_cell(g2, i, j) is None by {
                            assert(grid_cell(gc, i, j) == Some(rk.value));
                        }
                    }
                }
                // no two rectangles overlap
                assert forall|k1: int, k2: int, i: int, j: int|
                    0 <= k1 < k2 < full.len() && #[trigger] rect_covers(full[k1], i, j) implies !(
                    #[trigger] rect_covers(full[k2], i, j)) by {
                    let shift: int = if spec_is_opaque(v) {
                        1
                    } else {
                        0
                    };
                    if rect_covers(full[k2], i, j) {
                        // k2's cell is live in the cleared grid
                        assert(rects_sound(gc, rest.0));
                        assert(grid_cell(gc, i, j) == Some(full[k2].value));
                        if spec_is_opaque(v) && k1 == 0 {
                            assert(grid_cell(gc, i, j) is None);
                        } else {
                            assert(rects_disjoint(rest.0));
                            assert(rect_covers(rest.0[k1 - shift], i, j));
                            assert(!rect_covers(rest.0[k2 - shift], i, j));
                        }
                    }
                }
                // the rest of row r is consumed
                assert forall|j: int| c <= j < 16 implies #[trigger] grid_cell(g2, r, j) is None by {
                    if j < c + w {
                        assert(grid_cell(gc, r, j) is None);
                        assert(grid_cell(g2, r, j) == grid_cell(gc, r, j) || grid_cell(
                            g2,
                            r,
                            j,
                        ) is None);
                    }
                }
                // earlier cells of row r stay
                assert forall|j: int| 0 <= j < c implies #[trigger] grid_cell(g2, r, j)
                    == grid_cell(g, r, j) by {
                    assert(grid_cell(gc, r, j) == grid_cell(g, r, j));
                }
                // every opaque cell consumed is covered by an emitted rectangle
                assert forall|i: int, j: int|
                    0 <= i < 16 && 0 <= j < 16 && cell_opaque(g, i, j) && #[trigger] grid_cell(
                        g2,
                        i,
                        j,
                    ) is None implies covered_by(full, i, j) by {
                    if rect_covers(rect, i, j) {
                        assert(grid_cell(g, i, j) == Some(v));
                        assert(spec_is_opaque(v));
                        assert(full[0] == rect);
                        assert(covered_by(full, i, j));
                    } else {
                        assert(grid_cell(gc, i, j) == grid_cell(g, i, j));
                        assert(cell_opaque(gc, i, j));
                        assert(covered_by(rest.0, i, j));
                        let k = choose|k: int|
                            0 <= k < rest.0.len() && rect_covers(#[trigger] rest.0[k], i, j);
                        let shift: int = if spec_is_opaque(v) {
                            1
                        } else {
                            0
                        };
                        assert(full[k + shift] == rest.0[k]);
                        assert(covered_by(full, i, j));
                    }
                }
            }
        },
    }
}

/// What a whole greedy pass over a grid guarantees: every rectangle it
/// emits is in bounds, opaque, uniform in the starting grid and at or below
/// its starting row; no two rectangles overlap; and every opaque cell at or
/// below the starting row is covered.
#[verifier::spinoff_prover]
#[verifier::rlimit(100)]
proof fn lemma_greedy_rows_props(g: Seq<Option<Voxel>>, r: int)
    requires
        g.len() == 256,
        0 <= r <= 16,
    ensures
        ({
            let rects = spec_greedy_rows(g, r);
            &&& rects_sound(g, rects)
            &&& forall|k: int| 0 <= k < rects.len() ==> r <= (#[trigger] rects[k]).row
            &&& rects_disjoint(rects)
            &&& forall|i: int, j: int|
                r <= i < 16 && 0 <= j < 16 && #[trigger] cell_opaque(g, i, j) ==> covered_by(
                    rects,
                    i,
                    j,
                )
        }),
    decreases 16 - r,
{
    if r >= 16 {
    } else {
        lemma_greedy_row_props(g, r, 0);
        let step = spec_greedy_row(g, r, 0);
        let g1 = step.1;
        lemma_greedy_rows_props(g1, r + 1);
        let rest = spec_greedy_rows(g1, r + 1);
        let full = spec_greedy_rows(g, r);
        assert(full == step.0 + rest);
        let shift = step.0.len() as int;
        // soundness and row bound of the combined list
        assert forall|k: int| 0 <= k < full.len() implies {
            let rk = #[trigger] full[k];
            &&& rect_in_bounds(rk)
            &&& spec_is_opaque(rk.value)
            &&& r <= rk.row
            &&& forall|i: int, j: int|
                #[trigger] rect_covers(rk, i, j) ==> grid_cell(g, i, j) == Some(rk.value)
        } by {
            if k < shift {
                assert(full[k] == step.0[k]);
                assert(rects_sound(g, step.0));
            } else {
                let rk = rest[k - shift];
                assert(full[k] == rk);
                assert(rects_sound(g1, rest));
                assert forall|i: int, j: int| #[trigger]
                    rect_covers(rk, i, j) implies grid_cell(g, i, j) == Some(rk.value) by {
                    assert(grid_cell(g1, i, j) == Some(rk.value));
                    assert(0 <= i < 16 && 0 <= j < 16) by {
                        assert(rect_in_bounds(rk));
                    }
                }
            }
        }
        // disjointness across the row's rectangles and the rows below
        assert forall|k1: int, k2: int, i: int, j: int|
            0 <= k1 < k2 < full.len() && #[trigger] rect_covers(full[k1], i, j) implies !(
            #[trigger] rect_covers(full[k2], i, j)) by {
            if rect_covers(full[k2], i, j) {
                if k2 < shift {
                    assert(rects_disjoint(step.0));
                    assert(rect_covers(step.0[k1], i, j));
                    assert(!rect_covers(step.0[k2], i, j));
                } else if k1 >= shift {
                    assert(rects_disjoint(rest));
                    assert(rect_covers(rest[k1 - shift], i, j));
                    assert(!rect_covers(rest[k2 - shift], i, j));
                } else {
                    // a consumed cell of the row pass is no longer visible below
                    assert(rect_covers(step.0[k1], i, j));
                    assert(grid_cell(g1, i, j) is None);
                    assert(rects_sound(g1, rest));
                    assert(grid_cell(g1, i, j) == Some(rest[k2 - shift].value));
                }
            }
        }
        // completeness: every opaque cell from row r down is covered
        assert forall|i: int, j: int|
            r <= i < 16 && 0 <= j < 16 && #[trigger] cell_opaque(g, i, j) implies covered_by(
            full,
            i,
            j,
        ) by {
            if grid_cell(g1, i, j) is None {
                assert(covered_by(step.0, i, j));
                let k = choose|k: int|
                    0 <= k < step.0.len() && rect_covers(#[trigger] step.0[k], i, j);
                assert(full[k] == step.0[k]);
                assert(covered_by(full, i, j));
            } else {
                assert(grid_cell(g1, i, j) == grid_cell(g, i, j));
                assert(i > r) by {
                    assert(grid_cell(g1, r, j) is None);
                }
                assert(cell_opaque(g1, i, j));
                assert(covered_by(rest, i, j));
                let k = choose|k: int| 0 <= k < rest.len() && rect_covers(#[trigger] rest[k], i, j);
                assert(full[k + shift] == rest[k]);
                assert(covered_by(full, i, j));
            }
        }
    }
}

/// `true` when (`i`, `j`) lies in the grid just outside `region`, next to
/// one of its cells.
pub open spec fn adjacent_outside(region: GridRect, i: int, j: int) -> bool {
    &&& 0 <= i < 16
    &&& 0 <= j < 16
    &&& !rect_covers(region, i, j)
    &&& (rect_covers(region, i + 1, j) || rect_covers(region, i - 1, j) || rect_covers(
        region,
        i,
        j + 1,
    ) || rect_covers(region, i, j - 1))
}

/// `true` when every cell of `region` holds exactly its value.
pub open spec fn region_intact(g: Seq<Option<Voxel>>, region: GridRect) -> bool {
    forall|i: int, j: int|
        #[trigger] rect_covers(region, i, j) ==> grid_cell(g, i, j) == Some(region.value)
}

/// `true` when every in-grid cell adjacent to `region` holds something
/// other than the region's value: the region is fully surrounded by
/// differing values.
pub open spec fn region_isolated(g: Seq<Option<Voxel>>, region: GridRect) -> bool {
    forall|i: int, j: int|
        #[trigger] adjacent_outside(region, i, j) ==> grid_cell(g, i, j) != Some(region.value)
}

/// A run of exactly `w` matching cells followed by a mismatch (or the row's
/// end) has width exactly `w`.
proof fn lemma_run_width_exact(g: Seq<Option<Voxel>>, r: int, c: int, w: int, v: Option<Voxel>)
    requires
        0 <= r < 16,
        0 <= c,
        0 <= w,
        c + w <= 16,
        forall|j: int| c <= j < c + w ==> grid_cell(g, r, j) == v,
        c + w == 16 || grid_cell(g, r, c + w) != v,
    ensures
        spec_run_width(g, r, c, v) == w,
    decreases w,
{
    if w > 0 {
        assert(grid_cell(g, r, c) == v);
        lemma_run_width_exact(g, r, c + 1, w - 1, v);
    }
}

/// A block of exactly `h` matching rows followed by a mismatching row (or
/// the grid's bottom) has height exactly `h`.
proof fn lemma_run_height_exact(
    g: Seq<Option<Voxel>>,
    r: int,
    c0: int,
    w: int,
    h: int,
    v: Option<Voxel>,
)
    requires
        0 <= r,
        0 <= h,
        r + h <= 16,
        forall|i: int| r <= i < r + h ==> spec_row_matches(g, i, c0, w, v),
        r + h == 16 || !spec_row_matches(g, r + h, c0, w, v),
    ensures
        spec_run_height(g, r, c0, w, v) == h,
    decreases h,
{
    if h > 0 {
        assert(spec_row_matches(g, r, c0, w, v));
        lemma_run_height_exact(g, r + 1, c0, w, h - 1, v);
    }
}

/// A uniform rectangle that touches an intact, isolated region lies wholly
/// inside it and shares its value: crossing the region's edge would put a
/// cell of the rectangle on the region's differing surroundings.
proof fn lemma_uniform_rect_inside_region(
    g: Seq<Option<Voxel>>,
    region: GridRect,
    rect: GridRect,
    i: int,
    j: int,
)
    requires
        rect_in_bounds(region),
        region_intact(g, region),
        region_isolated(g, region),
        rect_in_bounds(rect),
        forall|i2: int, j2: int|
            #[trigger] rect_covers(rect, i2, j2) ==> grid_cell(g, i2, j2) == Some(rect.value),
        rect_covers(rect, i, j),
        rect_covers(region, i, j),
    ensures
        rect.value == region.value,
        forall|i2: int, j2: int|
            #[trigger] rect_covers(rect, i2, j2) ==> rect_covers(region, i2, j2),
{
    assert(grid_cell(g, i, j) == Some(rect.value));
    assert(grid_cell(g, i, j) == Some(region.value));
    if rect.row < region.row {
        assert(rect_covers(rect, region.row - 1, j));
        assert(adjacent_outside(region, region.row - 1, j));
        assert(false);
    }
    if rect.row + rect.height > region.row + region.height {
        assert(rect_covers(rect, region.row + region.height, j));
        assert(adjacent_outside(region, region.row + region.height, j));
        assert(false);
    }
    if rect.col < region.col {
        assert(rect_covers(rect, i, region.col - 1));
        assert(adjacent_outside(region, i, region.col - 1));
        assert(false);
    }
    if rect.col + rect.width > region.col + region.width {
        assert(rect_covers(rect, i, region.col + region.width));
        assert(adjacent_outside(region, i, region.col + region.width));
        assert(false);
    }
}

/// What scanning the region's own row guarantees: the region itself comes
/// out as one rectangle, and no other rectangle of this row touches it.
pub open spec fn region_row_claim(g: Seq<Option<Voxel>>, c: int, region: GridRect) -> bool {
    &&& exists|k: int|
        0 <= k < spec_greedy_row(g, region.row, c).0.len() && #[trigger] spec_greedy_row(
            g,
            region.row,
            c,
        ).0[k] == region
    &&& forall|k: int, i: int, j: int|
        0 <= k < spec_greedy_row(g, region.row, c).0.len() && #[trigger] rect_covers(
            spec_greedy_row(g, region.row, c).0[k],
            i,
            j,
        ) && rect_covers(region, i, j) ==> spec_greedy_row(g, region.row, c).0[k] == region
}

/// Scanning the region's own row from at or before its left edge emits the
/// region itself as one rectangle, and no other rectangle of this row
/// touches the region: runs stop at the region's differing surroundings.
proof fn lemma_region_row(g: Seq<Option<Voxel>>, c: int, region: GridRect)
    requires
        g.len() == 256,
        rect_in_bounds(region),
        region.value != 0,
        region_intact(g, region),
        region_isolated(g, region),
        0 <= c <= region.col,
    ensures
        region_row_claim(g, c, region),
    decreases region.col - c, 1int,
{
    let r = region.row;
    assert(rect_covers(region, r, region.col));
    if c < region.col {
        match grid_cell(g, r, c) {
            None => {
                lemma_region_row(g, c + 1, region);
                assert(spec_greedy_row(g, r, c) == spec_greedy_row(g, r, c + 1));
                let rects2 = spec_greedy_row(g, r, c + 1).0;
                let kw = choose|k: int|
                    0 <= k < rects2.len() && #[trigger] rects2[k] == region;
                assert(spec_greedy_row(g, r, c).0[kw] == region);
            },
            Some(u) => {
                lemma_region_row_skip(g, c, region, u);
            },
        }
    } else {
        lemma_region_row_start(g, c, region);
    }
}

/// The case of [`lemma_region_row`] where the scan stands left of the
/// region on a cell holding a value: the merged rectangle stops before the
/// region's left edge and the scan continues past it.
#[verifier::rlimit(100)]
proof fn lemma_region_row_skip(g: Seq<Option<Voxel>>, c: int, region: GridRect, u: Voxel)
    requires
        g.len() == 256,
        rect_in_bounds(region),
        region.value != 0,
        region_intact(g, region),
        region_isolated(g, region),
        0 <= c < region.col,
        grid_cell(g, region.row, c) == Some(u),
    ensures
        region_row_claim(g, c, region),
    decreases region.col - c, 0int,
{
    let r = region.row;
    assert(rect_covers(region, r, region.col));
    let w0 = spec_run_width(g, r, c, Some(u));
    let w = if w0 < 1 {
        1
    } else if w0 > 16 - c {
        16 - c
    } else {
        w0
    };
    let h0 = spec_run_height(g, r, c, w, Some(u));
    let h = if h0 < 1 {
        1
    } else if h0 > 16 - r {
        16 - r
    } else {
        h0
    };
    let gc = spec_clear_rect(g, r, c, h, w);
    let rect = GridRect { row: r, col: c, width: w, height: h, value: u };
    lemma_run_width_matches(g, r, c, Some(u));
    lemma_run_height_matches(g, r, c, w, Some(u));
    assert forall|i: int, j: int| #[trigger]
        rect_covers(rect, i, j) implies grid_cell(g, i, j) == Some(u) by {
        if i == r {
            assert(grid_cell(g, r, j) == Some(u));
        } else {
            assert(h <= h0);
        }
    }
    // this earlier rectangle cannot reach into the region: it would have to
    // lie wholly inside it, left of its left edge
    assert forall|i: int, j: int|
        #[trigger] rect_covers(rect, i, j) && rect_covers(region, i, j) implies false by {
        lemma_uniform_rect_inside_region(g, region, rect, i, j);
        assert(rect_covers(rect, rect.row, rect.col));
        assert(rect_covers(region, rect.row, rect.col));
        assert(region.col <= c);
    }
    assert(c + w <= region.col) by {
        if c + w > region.col {
            assert(rect_covers(rect, r, region.col));
        }
    }
    // the region survives the clear untouched
    assert forall|i: int, j: int| #[trigger]
        rect_covers(region, i, j) implies grid_cell(gc, i, j) == Some(region.value) by {
        assert(!rect_covers(rect, i, j));
        assert(0 <= i < 16 && 0 <= j < 16);
    }
    assert forall|i: int, j: int| #[trigger]
        adjacent_outside(region, i, j) implies grid_cell(gc, i, j) != Some(region.value) by {
        assert(grid_cell(gc, i, j) == grid_cell(g, i, j) || grid_cell(gc, i, j) is None);
    }
    lemma_region_row(gc, c + w, region);
    let step = spec_greedy_row(g, r, c);
    let rest = spec_greedy_row(gc, r, c + w);
    let shift: int = if spec_is_opaque(u) {
        1
    } else {
        0
    };
    if spec_is_opaque(u) {
        assert(step.0 == seq![rect] + rest.0);
    } else {
        assert(step.0 == rest.0);
    }
    let k0 = choose|k: int| 0 <= k < rest.0.len() && #[trigger] rest.0[k] == region;
    assert(step.0[k0 + shift] == region);
    assert forall|k: int, i: int, j: int|
        0 <= k < step.0.len() && #[trigger] rect_covers(step.0[k], i, j) && rect_covers(
            region,
            i,
            j,
        ) implies step.0[k] == region by {
        if spec_is_opaque(u) && k == 0 {
            assert(rect_covers(rect, i, j));
        } else {
            assert(step.0[k] == rest.0[k - shift]);
        }
    }
}

/// The case of [`lemma_region_row`] where the scan stands on the region's
/// top-left cell: the width and height runs stop exactly at the region's
/// differing surroundings, so the merged rectangle is the region itself.
#[verifier::rlimit(100)]
proof fn lemma_region_row_start(g: Seq<Option<Voxel>>, c: int, region: GridRect)
    requires
        g.len() == 256,
        rect_in_bounds(region),
        region.value != 0,
        region_intact(g, region),
        region_isolated(g, region),
        c == region.col,
    ensures
        region_row_claim(g, c, region),
{
    let r = region.row;
    assert(rect_covers(region, r, c));
    assert(grid_cell(g, r, c) == Some(region.value));
    let v = region.value;
    // the run stops exactly at the region's right edge
    assert forall|j: int| c <= j < c + region.width implies grid_cell(g, r, j) == Some(v) by {
        assert(rect_covers(region, r, j));
    }
    if c + region.width <= 15 {
        assert(adjacent_outside(region, r, c + region.width));
    }
    lemma_run_width_exact(g, r, c, region.width, Some(v));
    // and exactly at the region's bottom edge
    assert forall|i: int| r <= i < r + region.height implies spec_row_matches(
        g,
        i,
        c,
        region.width,
        Some(v),
    ) by {
        assert forall|j: int| c <= j < c + region.width implies grid_cell(g, i, j) == Some(
            v,
        ) by {
            assert(rect_covers(region, i, j));
        }
    }
    if r + region.height <= 15 {
        assert(adjacent_outside(region, r + region.height, c));
        assert(grid_cell(g, r + region.height, c) != Some(v));
        assert(!spec_row_matches(g, r + region.height, c, region.width, Some(v)));
    }
    lemma_run_height_exact(g, r, c, region.width, region.height, Some(v));
    let gc = spec_clear_rect(g, r, c, region.height, region.width);
    let step = spec_greedy_row(g, r, c);
    let rest = spec_greedy_row(gc, r, c + region.width);
    assert(step.0 == seq![region] + rest.0);
    assert(step.0[0] == region);
    // the cleared grid holds nothing of the region any more
    assert forall|i: int, j: int| #[trigger]
        rect_covers(region, i, j) implies grid_cell(gc, i, j) is None by {
        assert(0 <= i < 16 && 0 <= j < 16);
    }
    lemma_greedy_row_props(gc, r, c + region.width);
    assert forall|k: int, i: int, j: int|
        0 <= k < step.0.len() && #[trigger] rect_covers(step.0[k], i, j) && rect_covers(
            region,
            i,
            j,
        ) implies step.0[k] == region by {
        if k > 0 {
            assert(step.0[k] == rest.0[k - 1]);
            assert(rects_sound(gc, rest.0));
            assert(grid_cell(gc, i, j) == Some(rest.0[k - 1].value));
        }
    }
}

/// From any starting row at or above the region, the greedy pass emits the
/// region itself as one rectangle, and no other rectangle touches its
/// cells.
#[verifier::spinoff_prover]
#[verifier::rlimit(100)]
proof fn lemma_region_rows(g: Seq<Option<Voxel>>, r: int, region: GridRect)
    requires
        g.len() == 256,
        rect_in_bounds(region),
        region.value != 0,
        region_intact(g, region),
        region_isolated(g, region),
        0 <= r <= region.row,
    ensures
        ({
            let rects = spec_greedy_rows(g, r);
            &&& exists|k: int| 0 <= k < rects.len() && #[trigger] rects[k] == region
            &&& forall|k: int, i: int, j: int|
                0 <= k < rects.len() && #[trigger] rect_covers(rects[k], i, j) && rect_covers(
                    region,
                    i,
                    j,
                ) ==> rects[k] == region
        }),
    decreases region.row - r,
{
    lemma_greedy_row_props(g, r, 0);
    let step = spec_greedy_row(g, r, 0);
    let g1 = step.1;
    let full = spec_greedy_rows(g, r);
    assert(full == step.0 + spec_greedy_rows(g1, r + 1));
    let shift = step.0.len() as int;
    if r < region.row {
        // no rectangle of this row reaches down into the region: it would
        // have to lie wholly inside it, above its top edge
        assert forall|k: int, i: int, j: int|
            0 <= k < step.0.len() && #[trigger] rect_covers(step.0[k], i, j) && rect_covers(
                region,
                i,
                j,
            ) implies false by {
            assert(rects_sound(g, step.0));
            let rk = step.0[k];
            assert(rect_in_bounds(rk) && spec_is_opaque(rk.value) && forall|i2: int, j2: int|
                #[trigger] rect_covers(rk, i2, j2) ==> grid_cell(g, i2, j2) == Some(rk.value));
            assert(rk.row == r);
            lemma_uniform_rect_inside_region(g, region, rk, i, j);
            assert(rect_covers(rk, rk.row, rk.col));
            assert(rect_covers(region, rk.row, rk.col));
            assert(region.row <= r);
        }
        // so the region survives this row's pass untouched
        assert forall|i: int, j: int| #[trigger]
            rect_covers(region, i, j) implies grid_cell(g1, i, j) == Some(region.value) by {
            assert(0 <= i < 16 && 0 <= j < 16);
            assert(cell_opaque(g, i, j));
            if grid_cell(g1, i, j) is None {
                assert(covered_by(step.0, i, j));
                let k = choose|k: int|
                    0 <= k < step.0.len() && rect_covers(#[trigger] step.0[k], i, j);
            }
        }
        assert forall|i: int, j: int| #[trigger]
            adjacent_outside(region, i, j) implies grid_cell(g1, i, j) != Some(
            region.value,
        ) by {
            assert(grid_cell(g1, i, j) == grid_cell(g, i, j) || grid_cell(g1, i, j) is None);
        }
        lemma_region_rows(g1, r + 1, region);
        let rest = spec_greedy_rows(g1, r + 1);
        let k0 = choose|k: int| 0 <= k < rest.len() && #[trigger] rest[k] == region;
        assert(full[k0 + shift] == region);
        assert forall|k: int, i: int, j: int|
            0 <= k < full.len() && #[trigger] rect_covers(full[k], i, j) && rect_covers(
                region,
                i,
                j,
            ) implies full[k] == region by {
            if k < shift {
                assert(rect_covers(step.0[k], i, j));
            } else {
                assert(full[k] == rest[k - shift]);
            }
        }
    } else {
        lemma_region_row(g, 0, region);
        let k0 = choose|k: int| 0 <= k < step.0.len() && #[trigger] step.0[k] == region;
        assert(full[k0] == region);
        // the region is consumed by its own row, so the rows below cannot
        // touch it
        assert forall|i: int, j: int| #[trigger]
            rect_covers(region, i, j) implies grid_cell(g1, i, j) is None by {
            assert(rect_covers(step.0[k0], i, j));
        }
        lemma_greedy_rows_props(g1, r + 1);
        let rest = spec_greedy_rows(g1, r + 1);
        assert forall|k: int, i: int, j: int|
            0 <= k < full.len() && #[trigger] rect_covers(full[k], i, j) && rect_covers(
                region,
                i,
                j,
            ) implies full[k] == region by {
            if k < shift {
                assert(rect_covers(step.0[k], i, j));
            } else {
                assert(full[k] == rest[k - shift]);
                assert(rects_sound(g1, rest));
                assert(grid_cell(g1, i, j) == Some(rest[k - shift].value));
            }
        }
    }
}

/// Law (greedy merge minimality): a rectangular region of uniform nonzero
/// value fully surrounded by differing values is emitted as exactly one
/// rectangle spanning the whole region, not a patchwork — applied to the
/// visibility grid of a direction and depth, whose quad `k` in
/// [`spec_quads_for_depth`] is, by [`lemma_quads_match_rects`], exactly the
/// quad of rectangle `k`.
pub proof fn lemma_greedy_merge_minimal(g: Seq<Option<Voxel>>, region: GridRect)
    requires
        g.len() == 256,
        rect_in_bounds(region),
        region.value != 0,
        region_intact(g, region),
        region_isolated(g, region),
    ensures
        ({
            let rects = spec_greedy_rows(g, 0);
            &&& exists|k: int| 0 <= k < rects.len() && #[trigger] rects[k] == region
            &&& forall|k: int, i: int, j: int|
                0 <= k < rects.len() && #[trigger] rect_covers(rects[k], i, j) && rect_covers(
                    region,
                    i,
                    j,
                ) ==> rects[k] == region
            &&& forall|k1: int, k2: int|
                0 <= k1 < rects.len() && 0 <= k2 < rects.len() && #[trigger] rects[k1] == region
                    && #[trigger] rects[k2] == region ==> k1 == k2
        }),
{
    lemma_region_rows(g, 0, region);
    lemma_greedy_rows_props(g, 0);
    let rects = spec_greedy_rows(g, 0);
    assert forall|k1: int, k2: int|
        0 <= k1 < rects.len() && 0 <= k2 < rects.len() && #[trigger] rects[k1] == region
            && #[trigger] rects[k2] == region implies k1 == k2 by {
        assert(rect_covers(region, region.row, region.col));
        assert(rects_disjoint(rects));
        if k1 < k2 {
            assert(rect_covers(rects[k1], region.row, region.col));
            assert(!rect_covers(rects[k2], region.row, region.col));
        } else if k2 < k1 {
            assert(rect_covers(rects[k2], region.row, region.col));
            assert(!rect_covers(rects[k1], region.row, region.col));
        }
    }
}

/// Cell (`r`, `c`) of a direction's flattened visibility grid is the
/// visibility of that row and column.
pub proof fn lemma_vis_grid_cell(m: SliceModel, axis: Axis, face: Face, depth: int, r: int, c: int)
    requires
        0 <= r < 16,
        0 <= c < 16,
    ensures
        spec_vis_grid(m, axis, face, depth).len() == 256,
        grid_cell(spec_vis_grid(m, axis, face, depth), r, c) == spec_vis_cell(
            m,
            axis,
            face,
            depth,
            r,
            c,
        ),
{
    vstd::arithmetic::div_mod::lemma_fundamental_div_mod_converse(r * 16 + c, 16, r, c);
}

/// The quads of a direction and depth stand in one-to-one correspondence
/// with the rectangles of its greedy pass: quad `k` is exactly the quad of
/// rectangle `k`. This carries the face-culling and merge-minimality laws,
/// stated over rectangles, over to the emitted quads.
pub proof fn lemma_quads_match_rects(m: SliceModel, axis: Axis, face: Face, depth: int)
    ensures
        ({
            let rects = spec_greedy_rows(spec_vis_grid(m, axis, face, depth), 0);
            &&& spec_quads_for_depth(m, axis, face, depth).len() == rects.len()
            &&& forall|k: int|
                0 <= k < rects.len() ==> spec_quads_for_depth(m, axis, face, depth)[k]
                    == quad_of_rect(axis, face, depth, #[trigger] rects[k])
        }),
{
}

/// Law (face culling, first half): two adjacent voxels with equal nonzero
/// value never produce a quad on the face between them. The visibility
/// cell between them is culled, and the greedy pass only ever emits
/// rectangles over visible cells, so no rectangle of this direction and
/// depth covers the cell — and by [`lemma_quads_match_rects`], quad `k` of
/// [`spec_quads_for_depth`] is exactly the quad of rectangle `k` of this
/// pass.
pub proof fn lemma_face_culled(
    m: SliceModel,
    axis: Axis,
    face: Face,
    depth: int,
    r: int,
    c: int,
    v: Voxel,
)
    requires
        0 <= r < 16,
        0 <= c < 16,
        v != 0,
        model_voxel(m, spec_rcd_xyz(axis, r, c, depth)) == Some(v),
        model_voxel(m, spec_rcd_xyz(axis, r, c, depth + 1)) == Some(v),
    ensures
        ({
            let rects = spec_greedy_rows(spec_vis_grid(m, axis, face, depth), 0);
            forall|k: int| 0 <= k < rects.len() ==> !rect_covers(#[trigger] rects[k], r, c)
        }),
{
    let g = spec_vis_grid(m, axis, face, depth);
    lemma_vis_grid_cell(m, axis, face, depth, r, c);
    assert(grid_cell(g, r, c) is None);
    lemma_greedy_rows_props(g, 0);
    let rects = spec_greedy_rows(g, 0);
    assert forall|k: int| 0 <= k < rects.len() implies !rect_covers(
        #[trigger] rects[k],
        r,
        c,
    ) by {
        if rect_covers(rects[k], r, c) {
            assert(rects_sound(g, rects));
            assert(grid_cell(g, r, c) == Some(rects[k].value));
        }
    }
}

/// Law (face culling, second half): a solid voxel adjacent to empty or
/// unknown space produces exactly one quad on that face. The visibility
/// cell holds the solid voxel's value, the greedy pass covers every
/// visible opaque cell, and no two of its rectangles overlap — and by
/// [`lemma_quads_match_rects`], quad `k` of [`spec_quads_for_depth`] is
/// exactly the quad of rectangle `k` of this pass.
pub proof fn lemma_face_visible(
    m: SliceModel,
    axis: Axis,
    face: Face,
    depth: int,
    r: int,
    c: int,
    v: Voxel,
)
    requires
        0 <= r < 16,
        0 <= c < 16,
        v != 0,
        face == Face::Front ==> model_voxel(m, spec_rcd_xyz(axis, r, c, depth)) == Some(v) && (
        model_voxel(m, spec_rcd_xyz(axis, r, c, depth + 1)) is None || model_voxel(
            m,
            spec_rcd_xyz(axis, r, c, depth + 1),
        ) == Some(0u8)),
        face == Face::Back ==> model_voxel(m, spec_rcd_xyz(axis, r, c, depth + 1)) == Some(v) && (
        model_voxel(m, spec_rcd_xyz(axis, r, c, depth)) is None || model_voxel(
            m,
            spec_rcd_xyz(axis, r, c, depth),
        ) == Some(0u8)),
    ensures
        ({
            let rects = spec_greedy_rows(spec_vis_grid(m, axis, face, depth), 0);
            &&& covered_by(rects, r, c)
            &&& forall|k1: int, k2: int|
                0 <= k1 < rects.len() && 0 <= k2 < rects.len() && rect_covers(
                    #[trigger] rects[k1],
                    r,
                    c,
                ) && rect_covers(#[trigger] rects[k2], r, c) ==> k1 == k2
        }),
{
    let g = spec_vis_grid(m, axis, face, depth);
    lemma_vis_grid_cell(m, axis, face, depth, r, c);
    assert(grid_cell(g, r, c) == Some(v));
    assert(cell_opaque(g, r, c));
    lemma_greedy_rows_props(g, 0);
    let rects = spec_greedy_rows(g, 0);
    assert forall|k1: int, k2: int|
        0 <= k1 < rects.len() && 0 <= k2 < rects.len() && rect_covers(#[trigger] rects[k1], r, c)
            && rect_covers(#[trigger] rects[k2], r, c) implies k1 == k2 by {
        assert(rects_disjoint(rects));
        if k1 < k2 {
            assert(rect_covers(rects[k1], r, c));
            assert(!rect_covers(rects[k2], r, c));
        } else if k2 < k1 {
            assert(rect_covers(rects[k2], r, c));
            assert(!rect_covers(rects[k1], r, c));
        }
    }
}

/// Law: remeshing a chunk whose voxel data has not changed since the last
/// remesh yields a quad list identical to the previous one — the quads a
/// remesh produces are a function of the slice model alone, so two
/// remeshes against the same model agree.
pub proof fn lemma_remesh_idempotent(m: SliceModel, first: Seq<Quad>, second: Seq<Quad>)
    requires
        first == spec_all_quads(m),
        second == spec_all_quads(m),
    ensures
        first == second,
{
}

} // verus!
