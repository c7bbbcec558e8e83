//! Layout of the staggered (marker-and-cell) grid.
//!
//! The simulation grid has `width * height` cells, stored row by row. Every
//! cell owns the velocity on its top face and on its left face; these are kept
//! in a `(width + 1) * (height + 1)` array of [`Pair`]s, so the extra column
//! holds the right faces of the last column and the extra row the bottom faces
//! of the last row. Cell `p` (column `x = p % width`, row `y = p / width`)
//! finds its own pair at `p + y`, its right neighbour's pair at `p + y + 1`
//! and its lower neighbour's pair at `p + y + width + 1`.
//!
//! Velocities and smoke densities are carried as the bit patterns of the
//! `f32` values the simulation computes with (`f32::to_bits`); this module
//! moves them between places and never computes with them.

use vstd::prelude::*;

verus! {

/// Bit pattern of the `f32` value `-100000000.0`, which marks a velocity face
/// that lies outside the grid.
pub const INVALID: u32 = 0xCCBE_BC20u32;

/// Bit pattern of the `f32` value `0.0`.
pub const ZERO: u32 = 0u32;

/// The velocities on the top and left faces of one cell.
#[derive(Clone, Copy, Debug, PartialEq, Eq, Structural)]
pub struct Pair {
    pub top: u32,
    pub left: u32,
}

impl Pair {
    pub fn new(top: u32, left: u32) -> (p: Pair)
        ensures
            p.top == top,
            p.left == left,
    {
        Pair { top, left }
    }
}

/// The velocities on the four faces of one cell.
#[derive(Clone, Copy, Debug, PartialEq, Eq, Structural)]
pub struct Cell {
    pub t: u32,
    pub l: u32,
    pub b: u32,
    pub r: u32,
}

impl Cell {
    pub fn new(t: u32, l: u32, b: u32, r: u32) -> (c: Cell)
        ensures
            c == (Cell { t, l, b, r }),
    {
        Cell { t, l, b, r }
    }
}

/// Number of cells of a `width` by `height` grid.
pub open spec fn cell_count(width: int, height: int) -> int {
    width * height
}

/// Number of velocity pairs of a `width` by `height` grid.
pub open spec fn velocity_count(width: int, height: int) -> int {
    (width + 1) * (height + 1)
}

/// Where cell `p` keeps its own top/left pair.
pub open spec fn vel_index(p: int, width: int) -> int {
    p + p / width
}

/// The face velocities of cell `p`.
pub open spec fn cell_faces(vel: Seq<Pair>, width: int, p: int) -> Cell {
    let vi = vel_index(p, width);
    Cell { t: vel[vi].top, l: vel[vi].left, b: vel[vi + width + 1].top, r: vel[vi + 1].left }
}

/// `o`'s value, or `d` where `o` holds none.
pub open spec fn or_keep(o: Option<u32>, d: u32) -> u32 {
    match o {
        Some(v) => v,
        None => d,
    }
}

/// The velocity array after the faces of cell `p` are overwritten where a new
/// value is given: top and left in the cell's own pair, the right face in the
/// left slot of the next pair, the bottom face in the top slot of the pair one
/// row below.
pub open spec fn with_faces(
    vel: Seq<Pair>,
    width: int,
    p: int,
    t: Option<u32>,
    l: Option<u32>,
    b: Option<u32>,
    r: Option<u32>,
) -> Seq<Pair> {
    let vi = vel_index(p, width);
    let v1 = vel.update(vi, Pair { top: or_keep(t, vel[vi].top), left: or_keep(l, vel[vi].left) });
    let v2 = v1.update(vi + 1, Pair { top: v1[vi + 1].top, left: or_keep(r, v1[vi + 1].left) });
    v2.update(
        vi + width + 1,
        Pair { top: or_keep(b, v2[vi + width + 1].top), left: v2[vi + width + 1].left },
    )
}

/// The velocity pair at column `vx`, row `vy` of a freshly built grid: faces
/// beyond the right edge hold `INVALID` on top, faces below the bottom edge
/// hold `INVALID` on the left, the far corner holds `INVALID` on both, and
/// every other face is zero.
pub open spec fn initial_pair(vx: int, vy: int, width: int, height: int) -> Pair {
    if vx == width && vy == height {
        Pair { top: INVALID, left: INVALID }
    } else if vx == width {
        Pair { top: INVALID, left: ZERO }
    } else if vy == height {
        Pair { top: ZERO, left: INVALID }
    } else {
        Pair { top: ZERO, left: ZERO }
    }
}

/// The whole velocity array of a freshly built grid.
pub open spec fn initial_velocities_spec(width: int, height: int) -> Seq<Pair> {
    Seq::new(
        velocity_count(width, height) as nat,
        |k: int| initial_pair(k % (width + 1), k / (width + 1), width, height),
    )
}

/// Whether cell `p` lies on the border of the grid.
pub open spec fn is_border(p: int, width: int, height: int) -> bool {
    let x = p % width;
    let y = p / width;
    x == 0 || x == width - 1 || y == 0 || y == height - 1
}

/// Column, row and pair position of a cell.
pub proof fn lemma_cell_position(p: int, width: int, height: int)
    requires
        1 <= width,
        1 <= height,
        0 <= p < width * height,
    ensures
        0 <= p % width < width,
        0 <= p / width < height,
        p == (p / width) * width + p % width,
        vel_index(p, width) == (p / width) * (width + 1) + p % width,
        0 <= vel_index(p, width),
        vel_index(p, width) + width + 1 < velocity_count(width, height),
{
    vstd::arithmetic::div_mod::lemma_fundamental_div_mod(p, width);
    let y = p / width;
    let x = p % width;
    assert(0 <= x < width);
    assert(y * width == width * y) by (nonlinear_arith);
    assert(0 <= y) by (nonlinear_arith)
        requires
            p == width * y + x,
            0 <= p,
            x < width,
            1 <= width,
    ;
    assert(y < height) by (nonlinear_arith)
        requires
            p == width * y + x,
            p < width * height,
            0 <= x,
            1 <= width,
    ;
    assert(y * (width + 1) == y * width + y) by (nonlinear_arith);
    assert(velocity_count(width, height) == width * height + width + height + 1) by (nonlinear_arith);
}

/// The pair at column `vx`, row `vy` sits at `vy * (width + 1) + vx`.
pub proof fn lemma_pair_position(vx: int, vy: int, width: int)
    requires
        1 <= width,
        0 <= vx <= width,
        0 <= vy,
    ensures
        (vy * (width + 1) + vx) % (width + 1) == vx,
        (vy * (width + 1) + vx) / (width + 1) == vy,
{
    vstd::arithmetic::div_mod::lemma_fundamental_div_mod_converse(
        vy * (width + 1) + vx,
        width + 1,
        vy,
        vx,
    );
}

/// Where cell `pressure_index` keeps its own top/left pair.
pub fn velocity_index(pressure_index: usize, width: usize) -> (vi: usize)
    requires
        1 <= width,
        pressure_index as int + pressure_index as int / width as int <= usize::MAX,
    ensures
        vi == vel_index(pressure_index as int, width as int),
{
    let y = pressure_index / width;
    pressure_index + y
}

/// `v` limited to at most `hi`; coordinates are never negative, so this is
/// a clamp to `0..=hi`.
pub open spec fn clamp_hi(v: int, hi: int) -> int {
    if v > hi {
        hi
    } else {
        v
    }
}

/// Position of the horizontal velocity on the left face of cell `(x, y)`,
/// with `x` clamped to `0..=width` and `y` to `0..height`.
pub open spec fn u_index(x: int, y: int, width: int, height: int) -> int {
    clamp_hi(x, width) + clamp_hi(y, height - 1) * (width + 1)
}

/// Position of the vertical velocity on the top face of cell `(x, y)`, with
/// `x` clamped to `0..width` and `y` to `0..=height`.
pub open spec fn v_index(x: int, y: int, width: int, height: int) -> int {
    clamp_hi(x, width - 1) + clamp_hi(y, height) * (width + 1)
}

/// The horizontal velocity on the left face of cell `(x, y)`; coordinates
/// outside the grid are clamped to its edge.
pub fn get_u(x: usize, y: usize, map: &[Pair], width: usize, height: usize) -> (u: u32)
    requires
        1 <= height,
        width < usize::MAX,
        u_index(x as int, y as int, width as int, height as int) < map@.len(),
    ensures
        u == map@[u_index(x as int, y as int, width as int, height as int)].left,
{
    let x = if x > width { width } else { x };
    let y = if y > height - 1 { height - 1 } else { y };
    let n = map.len();
    proof {
        assert(n == map@.len());
        assert(0 <= y * (width + 1)) by (nonlinear_arith)
            requires
                0 <= y,
                0 <= width,
        ;
    }
    let vi = x + y * (width + 1);
    map[vi].left
}

/// The vertical velocity on the top face of cell `(x, y)`; coordinates
/// outside the grid are clamped to its edge.
pub fn get_v(x: usize, y: usize, map: &[Pair], width: usize, height: usize) -> (v: u32)
    requires
        1 <= width,
        width < usize::MAX,
        v_index(x as int, y as int, width as int, height as int) < map@.len(),
    ensures
        v == map@[v_index(x as int, y as int, width as int, height as int)].top,
{
    let x = if x > width - 1 { width - 1 } else { x };
    let y = if y > height { height } else { y };
    let n = map.len();
    proof {
        assert(n == map@.len());
        assert(0 <= y * (width + 1)) by (nonlinear_arith)
            requires
                0 <= y,
                0 <= width,
        ;
    }
    let vi = x + y * (width + 1);
    map[vi].top
}

/// Position of the smoke value of cell `(x, y)`, both clamped into the grid.
pub open spec fn smoke_index(x: int, y: int, width: int, height: int) -> int {
    clamp_hi(x, width - 1) + clamp_hi(y, height - 1) * width
}

/// A row-major position `x + y * width` inside the cell array.
proof fn lemma_cell_bound(x: int, y: int, width: int, height: int)
    requires
        0 <= x < width,
        0 <= y < height,
    ensures
        0 <= y * width,
        0 <= x + y * width < cell_count(width, height),
{
    assert(y * width <= (height - 1) * width) by (nonlinear_arith)
        requires
            y <= height - 1,
            0 <= width,
    ;
    assert(0 <= y * width) by (nonlinear_arith)
        requires
            0 <= y,
            0 <= width,
    ;
    assert((height - 1) * width + width == width * height) by (nonlinear_arith);
}

/// The four smoke values around the sample point whose lower corner is cell
/// `(x, y)`: `(bottom_left, bottom_right, top_left, top_right)`, taken at
/// `(x, y)`, `(x + 1, y)`, `(x, y + 1)` and `(x + 1, y + 1)`, each clamped
/// into the grid.
pub fn smoke_corners(map: &[u32], x: usize, y: usize, width: usize, height: usize) -> (c: (
    u32,
    u32,
    u32,
    u32,
))
    requires
        1 <= width,
        1 <= height,
        x < usize::MAX,
        y < usize::MAX,
        smoke_index(x as int, y as int, width as int, height as int) < map@.len(),
        smoke_index(x + 1, y as int, width as int, height as int) < map@.len(),
        smoke_index(x as int, y + 1, width as int, height as int) < map@.len(),
        smoke_index(x + 1, y + 1, width as int, height as int) < map@.len(),
    ensures
        c.0 == map@[smoke_index(x as int, y as int, width as int, height as int)],
        c.1 == map@[smoke_index(x + 1, y as int, width as int, height as int)],
        c.2 == map@[smoke_index(x as int, y + 1, width as int, height as int)],
        c.3 == map@[smoke_index(x + 1, y + 1, width as int, height as int)],
        x + 1 < width && y + 1 < height ==> c == (
            map@[x + y * width],
            map@[x + 1 + y * width],
            map@[x + (y + 1) * width],
            map@[x + 1 + (y + 1) * width],
        ),
{
    let x0 = if x > width - 1 { width - 1 } else { x };
    let x1 = if x + 1 > width - 1 { width - 1 } else { x + 1 };
    let y0 = if y > height - 1 { height - 1 } else { y };
    let y1 = if y + 1 > height - 1 { height - 1 } else { y + 1 };
    let n = map.len();
    proof {
        assert(n == map@.len());
        lemma_cell_bound(x0 as int, y0 as int, width as int, height as int);
        lemma_cell_bound(x1 as int, y0 as int, width as int, height as int);
        lemma_cell_bound(x0 as int, y1 as int, width as int, height as int);
        lemma_cell_bound(x1 as int, y1 as int, width as int, height as int);
    }
    let bottom_left = map[x0 + y0 * width];
    let bottom_right = map[x1 + y0 * width];
    let top_left = map[x0 + y1 * width];
    let top_right = map[x1 + y1 * width];
    (bottom_left, bottom_right, top_left, top_right)
}

/// Builds the velocity array of a fresh grid: all faces zero except the
/// `INVALID` markers on the faces beyond the right and bottom edges.
pub fn initial_velocities(width: usize, height: usize) -> (v: Vec<Pair>)
    requires
        1 <= width,
        1 <= height,
        velocity_count(width as int, height as int) <= usize::MAX,
    ensures
        v@ == initial_velocities_spec(width as int, height as int),
{
    let ghost w = width as int;
    let ghost h = height as int;
    proof {
        assert(velocity_count(w, h) == w * h + w + h + 1) by (nonlinear_arith);
        assert(w * h >= 0) by (nonlinear_arith)
            requires
                w >= 1,
                h >= 1,
        ;
    }
    let size = width * height;
    let vel_size = (width + 1) * (height + 1);
    let mut velocities: Vec<Pair> = vec![Pair::new(ZERO, ZERO); vel_size];
    let mut i: usize = 0;
    while i < size
        invariant
            w == width,
            h == height,
            1 <= w,
            1 <= h,
            size == w * h,
            vel_size == velocity_count(w, h),
            vel_size == size + w + h + 1,
            0 <= i <= size,
            velocities@.len() == vel_size,
            forall|k: int|
                0 <= k < vel_size ==> #[trigger] velocities@[k] == built_pair(
                    k % (w + 1),
                    k / (w + 1),
                    w,
                    h,
                    i as int,
                ),
        decreases size - i,
    {
        proof {
            lemma_cell_position(i as int, w, h);
        }
        let x = i % width;
        let y = i / width;
        let vi = i + y;
        let ghost before = velocities@;
        if x == width - 1 {
            velocities.set(vi + 1, Pair::new(INVALID, ZERO));
        }
        if y == height - 1 {
            velocities.set(vi + width + 1, Pair::new(ZERO, INVALID));
        }
        proof {
            let k1 = vi + 1;
            let k2 = vi + w + 1;
            lemma_pair_position(w, y as int, w);
            lemma_pair_position(x as int, y + 1, w);
            if x == w - 1 {
                assert(k1 == y * (w + 1) + w);
            }
            assert(k2 == (y + 1) * (w + 1) + x) by (nonlinear_arith)
                requires
                    k2 == vi + w + 1,
                    vi == y * (w + 1) + x,
            ;
            assert forall|k: int| 0 <= k < vel_size implies #[trigger] velocities@[k] == built_pair(
                k % (w + 1),
                k / (w + 1),
                w,
                h,
                i + 1,
            ) by {
                let vx = k % (w + 1);
                let vy = k / (w + 1);
                vstd::arithmetic::div_mod::lemma_fundamental_div_mod(k, w + 1);
                assert(0 <= vx <= w);
                assert(k == (w + 1) * vy + vx);
                assert(0 <= vy) by (nonlinear_arith)
                    requires
                        k == (w + 1) * vy + vx,
                        0 <= k,
                        vx <= w,
                        0 <= w,
                ;
                lemma_built_pair_step(vx, vy, w, h, i as int, x as int, y as int);
                if x == w - 1 && k == k1 {
                } else if y == h - 1 && k == k2 {
                } else {
                    assert(velocities@[k] == before[k]);
                    if vx == w && vy == y && x == w - 1 {
                        assert((w + 1) * vy + vx == y * (w + 1) + w) by (nonlinear_arith)
                            requires
                                vx == w,
                                vy == y,
                        ;
                    }
                    if vy == y + 1 && vx == x && y == h - 1 {
                        assert((w + 1) * vy + vx == (y + 1) * (w + 1) + x) by (nonlinear_arith)
                            requires
                                vx == x,
                                vy == y + 1,
                        ;
                    }
                }
            }
        }
        i = i + 1;
    }
    let corner = size + height + width;
    velocities.set(corner, Pair::new(INVALID, INVALID));
    proof {
        lemma_pair_position(w, h, w);
        assert(corner == h * (w + 1) + w) by (nonlinear_arith)
            requires
                corner == w * h + h + w,
        ;
        assert forall|k: int| 0 <= k < vel_size implies #[trigger] velocities@[k] == initial_pair(
            k % (w + 1),
            k / (w + 1),
            w,
            h,
        ) by {
            let vx = k % (w + 1);
            let vy = k / (w + 1);
            vstd::arithmetic::div_mod::lemma_fundamental_div_mod(k, w + 1);
            assert(0 <= vy) by (nonlinear_arith)
                requires
                    k == (w + 1) * vy + vx,
                    0 <= k,
                    vx <= w,
                    0 <= w,
            ;
            assert(vy <= h) by (nonlinear_arith)
                requires
                    k == (w + 1) * vy + vx,
                    k < (w + 1) * (h + 1),
                    0 <= vx,
                    0 <= w,
            ;
            if k != corner {
                if vx == w && vy == h {
                    assert((w + 1) * vy + vx == h * (w + 1) + w) by (nonlinear_arith)
                        requires
                            vx == w,
                            vy == h,
                    ;
                }
                lemma_built_pair_done(vx, vy, w, h);
            }
        }
        assert(velocities@ =~= initial_velocities_spec(w, h));
    }
    velocities
}

/// The pair at column `vx`, row `vy` once the first `done` cells of the
/// boundary pass have been handled.
spec fn built_pair(vx: int, vy: int, width: int, height: int, done: int) -> Pair {
    if vx == width && vy < height && vy * width + width - 1 < done {
        Pair { top: INVALID, left: ZERO }
    } else if vy == height && vx < width && (height - 1) * width + vx < done {
        Pair { top: ZERO, left: INVALID }
    } else {
        Pair { top: ZERO, left: ZERO }
    }
}

/// Handling cell `i = y * width + x` changes the pair at `(vx, vy)` only
/// where it is the right-edge pair of that row or the bottom-edge pair of
/// that column.
proof fn lemma_built_pair_step(vx: int, vy: int, width: int, height: int, i: int, x: int, y: int)
    requires
        1 <= width,
        1 <= height,
        0 <= vx <= width,
        0 <= vy,
        0 <= x < width,
        0 <= y < height,
        i == y * width + x,
    ensures
        built_pair(vx, vy, width, height, i + 1) == (
        if vx == width && vy == y && x == width - 1 {
            Pair { top: INVALID, left: ZERO }
        } else if vy == height && vx == x && y == height - 1 {
            Pair { top: ZERO, left: INVALID }
        } else {
            built_pair(vx, vy, width, height, i)
        }),
{
    if vx == width && vy < height {
        if vy * width + width - 1 == i {
            assert(vy == y && x == width - 1) by (nonlinear_arith)
                requires
                    vy * width + width - 1 == y * width + x,
                    0 <= x < width,
                    0 <= vy,
                    0 <= y,
            ;
        }
        if vy == y && x == width - 1 {
            assert(vy * width + width - 1 == i);
        }
    }
    if vy == height && vx < width {
        if (height - 1) * width + vx == i {
            assert(y == height - 1 && vx == x) by (nonlinear_arith)
                requires
                    (height - 1) * width + vx == y * width + x,
                    0 <= x < width,
                    0 <= vx < width,
                    0 <= y < height,
            ;
        }
    }
}

/// Once every cell has been handled, the pairs are the initial ones, apart
/// from the far corner which is set last.
proof fn lemma_built_pair_done(vx: int, vy: int, width: int, height: int)
    requires
        1 <= width,
        1 <= height,
        0 <= vx <= width,
        0 <= vy <= height,
        !(vx == width && vy == height),
    ensures
        built_pair(vx, vy, width, height, width * height) == initial_pair(vx, vy, width, height),
{
    if vx == width && vy < height {
        assert(vy * width + width - 1 < width * height) by (nonlinear_arith)
            requires
                vy < height,
                1 <= width,
        ;
    }
    if vy == height && vx < width {
        assert((height - 1) * width + vx < width * height) by (nonlinear_arith)
            requires
                vx < width,
        ;
    }
}

/// Marks every border cell as solid; other cells keep their state.
pub fn init_solid_map(solid_map: &mut Vec<bool>, width: usize, height: usize)
    requires
        1 <= width,
        1 <= height,
        old(solid_map)@.len() == cell_count(width as int, height as int),
    ensures
        final(solid_map)@.len() == old(solid_map)@.len(),
        forall|k: int|
            0 <= k < old(solid_map)@.len() ==> #[trigger] final(solid_map)@[k] == (old(solid_map)@[k]
                || is_border(k, width as int, height as int)),
{
    let ghost w = width as int;
    let ghost h = height as int;
    let ghost start = solid_map@;
    let n = solid_map.len();
    proof {
        assert(w * h == (h - 1) * w + w) by (nonlinear_arith);
        assert(w * (h - 1) == (h - 1) * w) by (nonlinear_arith);
        assert(n as int == w * h);
        assert((h - 1) * w >= 0) by (nonlinear_arith)
            requires
                h >= 1,
                w >= 1,
        ;
    }
    let last_row = width * (height - 1);
    let mut i: usize = 0;
    while i < width
        invariant
            w == width,
            h == height,
            1 <= w,
            1 <= h,
            n == w * h,
            last_row == (h - 1) * w,
            last_row + w == n,
            0 <= i <= width,
            solid_map@.len() == n,
            forall|k: int|
                0 <= k < n ==> #[trigger] solid_map@[k] == (start[k] || ((k / w == 0 || k / w == h - 1)
                    && k % w < i)),
        decreases width - i,
    {
        solid_map.set(i, true);
        solid_map.set(i + last_row, true);
        proof {
            lemma_pair_position_cells(i as int, 0, w);
            lemma_pair_position_cells(i as int, h - 1, w);
            assert forall|k: int| 0 <= k < n implies #[trigger] solid_map@[k] == (start[k] || ((k / w
                == 0 || k / w == h - 1) && k % w < i + 1)) by {
                lemma_split(k, w);
                if k != i && k != i + last_row {
                    if (k / w == 0 || k / w == h - 1) && k % w == i {
                        if k / w == 0 {
                            assert(k == i);
                        } else {
                            assert(k == (h - 1) * w + i);
                        }
                    }
                }
            }
        }
        i = i + 1;
    }
    let ghost mid = solid_map@;
    let mut row_start: usize = 0;
    let ghost mut r: int = 0;
    while row_start < n
        invariant
            w == width,
            h == height,
            1 <= w,
            1 <= h,
            n == w * h,
            0 <= r <= h,
            row_start == r * w,
            solid_map@.len() == n,
            forall|k: int|
                0 <= k < n ==> #[trigger] solid_map@[k] == (mid[k] || ((k % w == 0 || k % w == w - 1)
                    && k / w < r)),
        decreases n - row_start,
    {
        proof {
            assert(r < h) by (nonlinear_arith)
                requires
                    r * w < w * h,
                    1 <= w,
            ;
            assert(r * w + w <= n) by (nonlinear_arith)
                requires
                    r < h,
                    n == w * h,
                    1 <= w,
            ;
        }
        solid_map.set(row_start, true);
        solid_map.set(row_start + width - 1, true);
        proof {
            lemma_pair_position_cells(0, r, w);
            lemma_pair_position_cells(w - 1, r, w);
            assert forall|k: int| 0 <= k < n implies #[trigger] solid_map@[k] == (mid[k] || ((k % w
                == 0 || k % w == w - 1) && k / w < r + 1)) by {
                lemma_split(k, w);
                if k != row_start && k != row_start + w - 1 {
                    if (k % w == 0 || k % w == w - 1) && k / w == r {
                        assert(k == r * w + k % w);
                    }
                }
            }
        }
        row_start = row_start + width;
        proof {
            r = r + 1;
            assert(row_start == r * w) by (nonlinear_arith)
                requires
                    row_start == (r - 1) * w + w,
            ;
        }
    }
    proof {
        assert(r == h) by (nonlinear_arith)
            requires
                r * w >= w * h,
                r <= h,
                1 <= w,
        ;
        assert forall|k: int| 0 <= k < n implies #[trigger] solid_map@[k] == (start[k] || is_border(
            k,
            w,
            h,
        )) by {
            lemma_split(k, w);
            assert(k / w < h) by (nonlinear_arith)
                requires
                    k == (k / w) * w + k % w,
                    k < w * h,
                    0 <= k % w,
                    1 <= w,
            ;
            assert(mid[k] == (start[k] || ((k / w == 0 || k / w == h - 1) && k % w < w)));
        }
    }
}

/// Column and row of the cell at `row * width + col`.
proof fn lemma_pair_position_cells(col: int, row: int, width: int)
    requires
        1 <= width,
        0 <= col < width,
        0 <= row,
    ensures
        (row * width + col) % width == col,
        (row * width + col) / width == row,
{
    vstd::arithmetic::div_mod::lemma_fundamental_div_mod_converse(row * width + col, width, row, col);
}

/// A non-negative position splits into whole rows and a column.
proof fn lemma_split(k: int, width: int)
    requires
        1 <= width,
        0 <= k,
    ensures
        k == (k / width) * width + k % width,
        0 <= k % width < width,
        0 <= k / width,
{
    vstd::arithmetic::div_mod::lemma_fundamental_div_mod(k, width);
    assert((k / width) * width == width * (k / width)) by (nonlinear_arith);
    assert(0 <= k / width) by (nonlinear_arith)
        requires
            k == width * (k / width) + k % width,
            0 <= k,
            k % width < width,
            1 <= width,
    ;
}

/// Overwrites the faces of cell `pressure_index` where a new value is given
/// (top, left, bottom, right); a `None` keeps the face as it is.
pub fn set_face_velocities(
    velocities: &mut Vec<Pair>,
    width: usize,
    height: usize,
    pressure_index: usize,
    t: Option<u32>,
    l: Option<u32>,
    b: Option<u32>,
    r: Option<u32>,
)
    requires
        1 <= width,
        1 <= height,
        old(velocities)@.len() == velocity_count(width as int, height as int),
        pressure_index < cell_count(width as int, height as int),
    ensures
        final(velocities)@ == with_faces(
            old(velocities)@,
            width as int,
            pressure_index as int,
            t,
            l,
            b,
            r,
        ),
{
    let n = velocities.len();
    proof {
        lemma_cell_position(pressure_index as int, width as int, height as int);
        assert(n == velocities@.len());
    }
    let y = pressure_index / width;
    let vi = pressure_index + y;

    let vel = velocities[vi];
    velocities.set(vi, Pair::new(t.unwrap_or(vel.top), l.unwrap_or(vel.left)));

    let vel = velocities[vi + 1];
    velocities.set(vi + 1, Pair::new(vel.top, r.unwrap_or(vel.left)));

    let vel = velocities[vi + width + 1];
    velocities.set(vi + width + 1, Pair::new(b.unwrap_or(vel.top), vel.left));
}

/// The velocities on the four faces of cell `pressure_index`.
pub fn face_velocities(velocities: &[Pair], width: usize, height: usize, pressure_index: usize) -> (c:
    Cell)
    requires
        1 <= width,
        1 <= height,
        velocities@.len() == velocity_count(width as int, height as int),
        pressure_index < cell_count(width as int, height as int),
    ensures
        c == cell_faces(velocities@, width as int, pressure_index as int),
{
    let n = velocities.len();
    proof {
        lemma_cell_position(pressure_index as int, width as int, height as int);
        assert(n == velocities@.len());
    }
    let y = pressure_index / width;
    let vi = pressure_index + y;
    let t_l = velocities[vi];
    let t = t_l.top;
    let l = t_l.left;
    let b = velocities[vi + width + 1].top;
    let r = velocities[vi + 1].left;
    Cell::new(t, l, b, r)
}

/// Reading a cell's faces right after writing them gives the written values,
/// and the old value for each face that was left out.
pub proof fn law_faces_read_after_write(
    vel: Seq<Pair>,
    width: int,
    height: int,
    p: int,
    t: Option<u32>,
    l: Option<u32>,
    b: Option<u32>,
    r: Option<u32>,
)
    requires
        1 <= width,
        1 <= height,
        vel.len() == velocity_count(width, height),
        0 <= p < cell_count(width, height),
    ensures
        cell_faces(with_faces(vel, width, p, t, l, b, r), width, p) == (Cell {
            t: match t {
                Some(v) => v,
                None => cell_faces(vel, width, p).t,
            },
            l: match l {
                Some(v) => v,
                None => cell_faces(vel, width, p).l,
            },
            b: match b {
                Some(v) => v,
                None => cell_faces(vel, width, p).b,
            },
            r: match r {
                Some(v) => v,
                None => cell_faces(vel, width, p).r,
            },
        }),
{
    lemma_cell_position(p, width, height);
}

/// Neighbouring cells share faces: a cell's right face is the left face of
/// the cell after it in the same row, and its bottom face is the top face of
/// the cell below it.
pub proof fn law_shared_faces(vel: Seq<Pair>, width: int, height: int, p: int)
    requires
        1 <= width,
        1 <= height,
        vel.len() == velocity_count(width, height),
        0 <= p < cell_count(width, height),
    ensures
        p % width + 1 < width ==> cell_faces(vel, width, p).r == cell_faces(vel, width, p + 1).l,
        p + width < cell_count(width, height) ==> cell_faces(vel, width, p).b == cell_faces(
            vel,
            width,
            p + width,
        ).t,
{
    lemma_cell_position(p, width, height);
    let x = p % width;
    let y = p / width;
    if x + 1 < width {
        lemma_pair_position_cells(x + 1, y, width);
        assert(p + 1 == y * width + (x + 1));
    }
    if p + width < cell_count(width, height) {
        lemma_pair_position_cells(x, y + 1, width);
        assert(p + width == (y + 1) * width + x) by (nonlinear_arith)
            requires
                p == y * width + x,
        ;
    }
}

/// A write to the right face of a cell is seen as the left face of its right
/// neighbour, and a write to the bottom face as the top face of the cell
/// below.
pub proof fn law_neighbour_sees_write(
    vel: Seq<Pair>,
    width: int,
    height: int,
    p: int,
    t: Option<u32>,
    l: Option<u32>,
    b: Option<u32>,
    r: Option<u32>,
)
    requires
        1 <= width,
        1 <= height,
        vel.len() == velocity_count(width, height),
        0 <= p < cell_count(width, height),
    ensures
        p % width + 1 < width ==> cell_faces(with_faces(vel, width, p, t, l, b, r), width, p + 1).l
            == or_keep(r, cell_faces(vel, width, p).r),
        p + width < cell_count(width, height) ==> cell_faces(
            with_faces(vel, width, p, t, l, b, r),
            width,
            p + width,
        ).t == or_keep(b, cell_faces(vel, width, p).b),
{
    let after = with_faces(vel, width, p, t, l, b, r);
    lemma_cell_position(p, width, height);
    law_faces_read_after_write(vel, width, height, p, t, l, b, r);
    law_shared_faces(after, width, height, p);
}

/// Number of 8-wide compute workgroups that cover `n` cells; `n` is first
/// cast to `u32` as the GPU parameters are.
pub fn workgroup_count(n: usize) -> (g: u32)
    requires
        (n as u32) + 7 <= u32::MAX,
    ensures
        g == ((n as u32) + 7) / 8,
{
    (n as u32 + 7) / 8
}

/// The pressures around cell `p_index` at column `x`, row `y`: above, left,
/// below and right. Outside the grid the cell's own pressure stands in, except
/// on the left, where the value is zero.
pub open spec fn neighbour_pressures(
    pressures: Seq<u32>,
    p_index: int,
    x: int,
    y: int,
    width: int,
    height: int,
) -> Cell {
    Cell {
        t: if y > 0 { pressures[p_index - width] } else { pressures[p_index] },
        l: if x > 0 { pressures[p_index - 1] } else { ZERO },
        b: if y + 1 < height { pressures[p_index + width] } else { pressures[p_index] },
        r: if x + 1 < width { pressures[p_index + 1] } else { pressures[p_index] },
    }
}

/// The pressures around cell `p_index` at column `x`, row `y`.
pub fn get_pressures(
    pressures: &[u32],
    p_index: usize,
    x: usize,
    y: usize,
    width: usize,
    height: usize,
) -> (c: Cell)
    requires
        1 <= width,
        1 <= height,
        pressures@.len() == cell_count(width as int, height as int),
        p_index < cell_count(width as int, height as int),
        x == p_index as int % width as int,
        y == p_index as int / width as int,
    ensures
        c == neighbour_pressures(pressures@, p_index as int, x as int, y as int, width as int, height as int),
{
    proof {
        lemma_cell_position(p_index as int, width as int, height as int);
        lemma_neighbours_in_grid(p_index as int, width as int, height as int);
    }
    let t = if y > 0 { pressures[p_index - width] } else { pressures[p_index] };
    let l = if x > 0 { pressures[p_index - 1] } else { ZERO };
    let r = if x + 1 < width { pressures[p_index + 1] } else { pressures[p_index] };
    let b = if y + 1 < height { pressures[p_index + width] } else { pressures[p_index] };
    Cell::new(t, l, b, r)
}

/// The neighbours of a cell that exist lie inside the grid.
proof fn lemma_neighbours_in_grid(p: int, width: int, height: int)
    requires
        1 <= width,
        1 <= height,
        0 <= p < width * height,
    ensures
        p / width > 0 ==> p >= width,
        p % width > 0 ==> p >= 1,
        p % width + 1 < width ==> p + 1 < width * height,
        p / width + 1 < height ==> p + width < width * height,
{
    lemma_cell_position(p, width, height);
    let x = p % width;
    let y = p / width;
    if y > 0 {
        assert(y * width >= width) by (nonlinear_arith)
            requires
                y >= 1,
                width >= 1,
        ;
    }
    assert(y * width + width <= width * height) by (nonlinear_arith)
        requires
            y < height,
            width >= 1,
    ;
    if y + 1 < height {
        assert(y * width + 2 * width <= width * height) by (nonlinear_arith)
            requires
                y + 1 < height,
                width >= 1,
        ;
    }
}

/// Which faces of a cell let fluid through, as the pressure solve sees them.
#[derive(Clone, Copy, Debug, PartialEq, Eq, Structural)]
pub struct CellFlow {
    pub solid: bool,
    pub x: usize,
    pub y: usize,
    pub flow_t: bool,
    pub flow_l: bool,
    pub flow_b: bool,
    pub flow_r: bool,
}

/// The flow data of cell `i`: a solid cell lets nothing through; an open
/// cell lets fluid through each face whose neighbour exists and is open.
pub open spec fn cell_flow_spec(solid: Seq<bool>, i: int, width: int, height: int) -> CellFlow {
    let x = i % width;
    let y = i / width;
    if solid[i] {
        CellFlow {
            solid: true,
            x: x as usize,
            y: y as usize,
            flow_t: false,
            flow_l: false,
            flow_b: false,
            flow_r: false,
        }
    } else {
        CellFlow {
            solid: false,
            x: x as usize,
            y: y as usize,
            flow_t: y > 0 && !solid[i - width],
            flow_l: x > 0 && !solid[i - 1],
            flow_b: y + 1 < height && !solid[i + width],
            flow_r: x + 1 < width && !solid[i + 1],
        }
    }
}

/// Number of faces through which fluid can pass.
pub open spec fn open_face_count(f: CellFlow) -> nat {
    (if f.flow_t { 1nat } else { 0nat }) + (if f.flow_l { 1nat } else { 0nat }) + (if f.flow_b {
        1nat
    } else {
        0nat
    }) + (if f.flow_r { 1nat } else { 0nat })
}

/// The flow data of cell `i`, from the solid map.
pub fn cell_flow(solid_map: &[bool], i: usize, width: usize, height: usize) -> (f: CellFlow)
    requires
        1 <= width,
        1 <= height,
        solid_map@.len() == cell_count(width as int, height as int),
        i < cell_count(width as int, height as int),
    ensures
        f == cell_flow_spec(solid_map@, i as int, width as int, height as int),
{
    proof {
        lemma_cell_position(i as int, width as int, height as int);
        lemma_neighbours_in_grid(i as int, width as int, height as int);
    }
    let x = i % width;
    let y = i / width;
    if solid_map[i] {
        return CellFlow {
            solid: true,
            x,
            y,
            flow_t: false,
            flow_l: false,
            flow_b: false,
            flow_r: false,
        };
    }
    let flow_t = y > 0 && !solid_map[i - width];
    let flow_l = x > 0 && !solid_map[i - 1];
    let flow_r = x + 1 < width && !solid_map[i + 1];
    let flow_b = y + 1 < height && !solid_map[i + width];
    CellFlow { solid: false, x, y, flow_t, flow_l, flow_b, flow_r }
}

/// Number of faces of `f` through which fluid can pass.
pub fn open_faces(f: &CellFlow) -> (n: u32)
    ensures
        n == open_face_count(*f),
        n <= 4,
        n == 0 <==> !(f.flow_t || f.flow_l || f.flow_b || f.flow_r),
        n == 4 <==> (f.flow_t && f.flow_l && f.flow_b && f.flow_r),
{
    let mut n: u32 = 0;
    if f.flow_t {
        n = n + 1;
    }
    if f.flow_l {
        n = n + 1;
    }
    if f.flow_b {
        n = n + 1;
    }
    if f.flow_r {
        n = n + 1;
    }
    n
}

/// A fresh grid is at rest: every face of every cell is zero. The `INVALID`
/// markers sit only in slots that no cell face reads (the top slot of the
/// extra column and the left slot of the extra row).
pub proof fn law_initial_grid_at_rest(width: int, height: int, p: int)
    requires
        1 <= width,
        1 <= height,
        0 <= p < cell_count(width, height),
    ensures
        cell_faces(initial_velocities_spec(width, height), width, p) == (Cell {
            t: ZERO,
            l: ZERO,
            b: ZERO,
            r: ZERO,
        }),
{
    lemma_cell_position(p, width, height);
    let x = p % width;
    let y = p / width;
    let vi = vel_index(p, width);
    let v = initial_velocities_spec(width, height);
    lemma_pair_position(x, y, width);
    lemma_pair_position(x + 1, y, width);
    lemma_pair_position(x, y + 1, width);
    assert(vi + 1 == y * (width + 1) + (x + 1));
    assert(vi + width + 1 == (y + 1) * (width + 1) + x) by (nonlinear_arith)
        requires
            vi == y * (width + 1) + x,
    ;
}

/// Each flow flag of a cell says exactly that the cell is open, the
/// neighbour on that side exists, and that neighbour is open. Neighbours are
/// found in the row-major cell array: `i - width` above, `i + width` below,
/// `i - 1` and `i + 1` beside it within the same row.
pub proof fn law_flow_flags_follow_neighbours(solid: Seq<bool>, i: int, width: int, height: int)
    requires
        1 <= width,
        1 <= height,
        solid.len() == cell_count(width, height),
        cell_count(width, height) <= usize::MAX,
        0 <= i < cell_count(width, height),
    ensures
        cell_flow_spec(solid, i, width, height).solid == solid[i],
        cell_flow_spec(solid, i, width, height).x as int == i % width,
        cell_flow_spec(solid, i, width, height).y as int == i / width,
        cell_flow_spec(solid, i, width, height).flow_t <==> (!solid[i] && i >= width && !solid[i
            - width]),
        cell_flow_spec(solid, i, width, height).flow_b <==> (!solid[i] && i + width < cell_count(
            width,
            height,
        ) && !solid[i + width]),
        cell_flow_spec(solid, i, width, height).flow_l <==> (!solid[i] && i % width != 0 && !solid[i
            - 1]),
        cell_flow_spec(solid, i, width, height).flow_r <==> (!solid[i] && (i + 1) % width != 0
            && !solid[i + 1]),
{
    lemma_cell_position(i, width, height);
    lemma_neighbours_in_grid(i, width, height);
    let x = i % width;
    let y = i / width;
    if i >= width {
        assert(y > 0) by (nonlinear_arith)
            requires
                i == y * width + x,
                i >= width,
                x < width,
                0 <= y,
        ;
    }
    if i + width < width * height {
        assert(y + 1 < height) by (nonlinear_arith)
            requires
                i == y * width + x,
                i + width < width * height,
                0 <= x,
                1 <= width,
        ;
    }
    if x + 1 < width {
        lemma_pair_position_cells(x + 1, y, width);
        assert(i + 1 == y * width + (x + 1));
    } else {
        assert(i + 1 == (y + 1) * width) by (nonlinear_arith)
            requires
                i == y * width + x,
                x + 1 == width,
        ;
        vstd::arithmetic::div_mod::lemma_fundamental_div_mod_converse(i + 1, width, y + 1, 0);
    }
}

/// Flow through a face is seen alike from both sides: an open cell lets
/// fluid down exactly when the cell below lets it up, and right exactly when
/// the cell to its right lets it left.
pub proof fn law_flow_is_symmetric(solid: Seq<bool>, i: int, width: int, height: int)
    requires
        1 <= width,
        1 <= height,
        solid.len() == cell_count(width, height),
        cell_count(width, height) <= usize::MAX,
        0 <= i < cell_count(width, height),
    ensures
        i + width < cell_count(width, height) ==> cell_flow_spec(solid, i, width, height).flow_b
            == cell_flow_spec(solid, i + width, width, height).flow_t,
        (i + 1) % width != 0 && i + 1 < cell_count(width, height) ==> cell_flow_spec(
            solid,
            i,
            width,
            height,
        ).flow_r == cell_flow_spec(solid, i + 1, width, height).flow_l,
{
    law_flow_flags_follow_neighbours(solid, i, width, height);
    if i + width < cell_count(width, height) {
        law_flow_flags_follow_neighbours(solid, i + width, width, height);
    }
    if (i + 1) % width != 0 && i + 1 < cell_count(width, height) {
        law_flow_flags_follow_neighbours(solid, i + 1, width, height);
    }
}

/// The open-face count is the number of flags set: none set gives zero, and
/// setting any one flag that was clear adds exactly one.
pub proof fn law_open_faces_counts_flags(f: CellFlow)
    ensures
        open_face_count(CellFlow { flow_t: false, flow_l: false, flow_b: false, flow_r: false, ..f })
            == 0,
        !f.flow_t ==> open_face_count(CellFlow { flow_t: true, ..f }) == open_face_count(f) + 1,
        !f.flow_l ==> open_face_count(CellFlow { flow_l: true, ..f }) == open_face_count(f) + 1,
        !f.flow_b ==> open_face_count(CellFlow { flow_b: true, ..f }) == open_face_count(f) + 1,
        !f.flow_r ==> open_face_count(CellFlow { flow_r: true, ..f }) == open_face_count(f) + 1,
        open_face_count(f) <= 4,
{
}

/// Inside the grid the clamped lookups are plain row-major positions: the
/// smoke of cell `(x, y)` at `x + y * width`, the horizontal velocity of its
/// left face at `x + y * (width + 1)` (also for `x == width`), the vertical
/// velocity of its top face at `x + y * (width + 1)` (also for `y == height`).
/// Outside the grid the coordinate is taken to the nearest edge.
pub proof fn law_lookups_are_row_major(x: int, y: int, width: int, height: int)
    requires
        0 <= x,
        0 <= y,
        1 <= width,
        1 <= height,
    ensures
        x < width && y < height ==> smoke_index(x, y, width, height) == x + y * width,
        x >= width && y < height ==> smoke_index(x, y, width, height) == (width - 1) + y * width,
        x < width && y >= height ==> smoke_index(x, y, width, height) == x + (height - 1) * width,
        x <= width && y < height ==> u_index(x, y, width, height) == x + y * (width + 1),
        x > width && y < height ==> u_index(x, y, width, height) == width + y * (width + 1),
        x <= width && y >= height ==> u_index(x, y, width, height) == x + (height - 1) * (width + 1),
        x < width && y <= height ==> v_index(x, y, width, height) == x + y * (width + 1),
        x >= width && y <= height ==> v_index(x, y, width, height) == (width - 1) + y * (width + 1),
        x < width && y > height ==> v_index(x, y, width, height) == x + height * (width + 1),
{
}

/// The faces of cell `(x, y)` are read from the pair at `(x, y)` (top and
/// left), the pair at `(x + 1, y)` (right, its left slot) and the pair at
/// `(x, y + 1)` (bottom, its top slot), pairs being stored in rows of
/// `width + 1`.
pub proof fn law_faces_positions(vel: Seq<Pair>, width: int, height: int, x: int, y: int)
    requires
        1 <= width,
        1 <= height,
        0 <= x < width,
        0 <= y < height,
        vel.len() == velocity_count(width, height),
    ensures
        cell_faces(vel, width, y * width + x) == (Cell {
            t: vel[y * (width + 1) + x].top,
            l: vel[y * (width + 1) + x].left,
            b: vel[(y + 1) * (width + 1) + x].top,
            r: vel[y * (width + 1) + x + 1].left,
        }),
{
    let p = y * width + x;
    lemma_pair_position_cells(x, y, width);
    assert(vel_index(p, width) == y * (width + 1) + x) by (nonlinear_arith)
        requires
            p / width == y,
            p == y * width + x,
            vel_index(p, width) == p + p / width,
    ;
    assert((y + 1) * (width + 1) + x == y * (width + 1) + x + width + 1) by (nonlinear_arith);
}

/// Overwriting a cell's faces touches no other slot: every pair other than
/// the cell's own, its right neighbour's and the one below keeps its value,
/// the right neighbour's top slot and the lower pair's left slot are kept too.
pub proof fn law_faces_write_is_local(
    vel: Seq<Pair>,
    width: int,
    height: int,
    p: int,
    t: Option<u32>,
    l: Option<u32>,
    b: Option<u32>,
    r: Option<u32>,
)
    requires
        1 <= width,
        1 <= height,
        vel.len() == velocity_count(width, height),
        0 <= p < cell_count(width, height),
    ensures
        with_faces(vel, width, p, t, l, b, r).len() == vel.len(),
        forall|k: int|
            0 <= k < vel.len() && k != vel_index(p, width) && k != vel_index(p, width) + 1 && k
                != vel_index(p, width) + width + 1 ==> #[trigger] with_faces(vel, width, p, t, l, b, r)[k]
                == vel[k],
        with_faces(vel, width, p, t, l, b, r)[vel_index(p, width) + 1].top == vel[vel_index(p, width)
            + 1].top,
        with_faces(vel, width, p, t, l, b, r)[vel_index(p, width) + width + 1].left == vel[vel_index(
            p,
            width,
        ) + width + 1].left,
{
    lemma_cell_position(p, width, height);
}

/// Where the out-of-grid markers sit in a fresh grid: the extra column's
/// pairs have `INVALID` on top, the extra row's pairs have `INVALID` on the
/// left, the far corner has both, and every other pair is zero.
pub proof fn law_initial_markers(width: int, height: int, vx: int, vy: int)
    requires
        1 <= width,
        1 <= height,
        0 <= vx <= width,
        0 <= vy <= height,
    ensures
        initial_velocities_spec(width, height).len() == (width + 1) * (height + 1),
        vx == width && vy < height ==> initial_velocities_spec(width, height)[vy * (width + 1) + vx]
            == (Pair { top: INVALID, left: ZERO }),
        vx < width && vy == height ==> initial_velocities_spec(width, height)[vy * (width + 1) + vx]
            == (Pair { top: ZERO, left: INVALID }),
        vx == width && vy == height ==> initial_velocities_spec(width, height)[vy * (width + 1) + vx]
            == (Pair { top: INVALID, left: INVALID }),
        vx < width && vy < height ==> initial_velocities_spec(width, height)[vy * (width + 1) + vx]
            == (Pair { top: ZERO, left: ZERO }),
{
    lemma_pair_position(vx, vy, width);
    assert(vy * (width + 1) + vx < (width + 1) * (height + 1)) by (nonlinear_arith)
        requires
            vy <= height,
            vx <= width,
            0 <= vx,
    ;
    assert(0 <= vy * (width + 1)) by (nonlinear_arith)
        requires
            0 <= vy,
            0 <= width,
    ;
}

/// A cell is on the border exactly when it is in the first row, the last
/// row, the first column or the last column of the row-major cell array.
pub proof fn law_border_cells(p: int, width: int, height: int)
    requires
        1 <= width,
        1 <= height,
        0 <= p < cell_count(width, height),
    ensures
        is_border(p, width, height) <==> (p < width || p >= width * (height - 1) || p % width == 0
            || p % width == width - 1),
{
    lemma_cell_position(p, width, height);
    let x = p % width;
    let y = p / width;
    assert(y == 0 <==> p < width) by (nonlinear_arith)
        requires
            p == y * width + x,
            0 <= x < width,
            0 <= y,
    ;
    assert(y == height - 1 <==> p >= width * (height - 1)) by (nonlinear_arith)
        requires
            p == y * width + x,
            0 <= x < width,
            0 <= y < height,
    ;
}

/// The pressures around a cell: its neighbours in the row-major array where
/// they exist; at the top, right and bottom edges the cell's own pressure,
/// and zero at the left edge.
pub proof fn law_neighbour_pressure_positions(
    pressures: Seq<u32>,
    p: int,
    width: int,
    height: int,
)
    requires
        1 <= width,
        1 <= height,
        0 <= p < cell_count(width, height),
    ensures
        p >= width ==> neighbour_pressures(pressures, p, p % width, p / width, width, height).t
            == pressures[p - width],
        p < width ==> neighbour_pressures(pressures, p, p % width, p / width, width, height).t
            == pressures[p],
        p % width != 0 ==> neighbour_pressures(pressures, p, p % width, p / width, width, height).l
            == pressures[p - 1],
        p % width == 0 ==> neighbour_pressures(pressures, p, p % width, p / width, width, height).l
            == ZERO,
        p + width < cell_count(width, height) ==> neighbour_pressures(
            pressures,
            p,
            p % width,
            p / width,
            width,
            height,
        ).b == pressures[p + width],
        p + width >= cell_count(width, height) ==> neighbour_pressures(
            pressures,
            p,
            p % width,
            p / width,
            width,
            height,
        ).b == pressures[p],
        p % width + 1 < width ==> neighbour_pressures(pressures, p, p % width, p / width, width, height).r
            == pressures[p + 1],
        p % width + 1 == width ==> neighbour_pressures(pressures, p, p % width, p / width, width, height).r
            == pressures[p],
{
    lemma_cell_position(p, width, height);
    let x = p % width;
    let y = p / width;
    assert(y > 0 <==> p >= width) by (nonlinear_arith)
        requires
            p == y * width + x,
            0 <= x < width,
            0 <= y,
    ;
    assert(y + 1 < height <==> p + width < width * height) by (nonlinear_arith)
        requires
            p == y * width + x,
            0 <= x < width,
            0 <= y < height,
    ;
}

} // verus!
