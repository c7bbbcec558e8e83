//! The per-step driving of the smoke simulation on the CPU side: placing the
//! obstacle, applying the brush's queued edits, and feeding the constant
//! inflow bar.

use vstd::prelude::*;
use crate::grid::GridGpu;
use crate::interactor::{
    smoke_queue_items, smoke_queue_remove, smoke_queue_size, velocity_queue_items,
    velocity_queue_remove, velocity_queue_size, GridInteractor, SmokeData, VelocityData, FULL_SMOKE,
};
use crate::layout::{
    cell_count, cell_faces, law_faces_read_after_write, law_shared_faces, lemma_cell_position, vel_index,
    velocity_count, with_faces, Cell, Pair,
};

verus! {

/// Radius, in cells, of the round obstacle in the middle of the grid.
pub const OBSTACLE_RADIUS: i32 = 10i32;

/// Bit pattern of the `f32` value `600.0`: the horizontal velocity of the
/// inflow bar.
pub const INFLOW: u32 = 0x4416_0000u32;

/// Number of rows of the inflow bar.
pub const BAR_HEIGHT: usize = 10usize;

/// Whether cell `p` lies inside the round obstacle centred on cell
/// `(width / 2, height / 2)`.
pub open spec fn in_obstacle(p: int, width: int, height: int) -> bool {
    let dx = p % width - width / 2;
    let dy = p / width - height / 2;
    dx * dx + dy * dy <= OBSTACLE_RADIUS * OBSTACLE_RADIUS
}

/// Whether the squared distances from the centre fit in an `i32`, as the
/// obstacle test computes them.
pub open spec fn obstacle_arithmetic_fits(width: int, height: int) -> bool {
    (width / 2) * (width / 2) + (height / 2) * (height / 2) <= i32::MAX
}

/// Makes every cell inside the round obstacle solid; other cells keep their
/// state. The caller then sends the solid map to the GPU.
pub fn init_solid_map(grid: &mut GridGpu)
    requires
        old(grid).wf(),
        obstacle_arithmetic_fits(old(grid).width as int, old(grid).height as int),
    ensures
        final(grid).wf(),
        final(grid).width == old(grid).width,
        final(grid).height == old(grid).height,
        final(grid).velocities@ == old(grid).velocities@,
        final(grid).smoke@ == old(grid).smoke@,
        final(grid).velocities_dirty == old(grid).velocities_dirty,
        final(grid).smoke_dirty == old(grid).smoke_dirty,
        final(grid).is_even_frame == old(grid).is_even_frame,
        forall|p: int|
            0 <= p < cell_count(old(grid).width as int, old(grid).height as int)
                ==> #[trigger] final(grid).solid_map@[p] == (old(grid).solid_map@[p] || in_obstacle(
                p,
                old(grid).width as int,
                old(grid).height as int,
            )),
{
    let radius: i32 = OBSTACLE_RADIUS;
    let w = grid.width;
    let h = grid.height;
    let center_x = w / 2;
    let center_y = h / 2;
    let ghost start = grid.solid_map@;
    let mut y: usize = 0;
    while y < h
        invariant
            grid.wf(),
            w == grid.width,
            h == grid.height,
            obstacle_arithmetic_fits(w as int, h as int),
            center_x == w / 2,
            center_y == h / 2,
            radius == OBSTACLE_RADIUS,
            0 <= y <= h,
            grid.velocities@ == old(grid).velocities@,
            grid.smoke@ == old(grid).smoke@,
            grid.velocities_dirty == old(grid).velocities_dirty,
            grid.smoke_dirty == old(grid).smoke_dirty,
            grid.is_even_frame == old(grid).is_even_frame,
            start == old(grid).solid_map@,
            forall|p: int|
                0 <= p < cell_count(w as int, h as int) ==> #[trigger] grid.solid_map@[p] == (start[p]
                    || (p / (w as int) < y && in_obstacle(p, w as int, h as int))),
        decreases h - y,
    {
        let ghost row_start = grid.solid_map@;
        let mut x: usize = 0;
        while x < w
            invariant
                grid.wf(),
                w == grid.width,
                h == grid.height,
                obstacle_arithmetic_fits(w as int, h as int),
                center_x == w / 2,
                center_y == h / 2,
                radius == OBSTACLE_RADIUS,
                0 <= y < h,
                0 <= x <= w,
                grid.velocities@ == old(grid).velocities@,
                grid.smoke@ == old(grid).smoke@,
                grid.velocities_dirty == old(grid).velocities_dirty,
                grid.smoke_dirty == old(grid).smoke_dirty,
                grid.is_even_frame == old(grid).is_even_frame,
                forall|p: int|
                    0 <= p < cell_count(w as int, h as int) ==> #[trigger] grid.solid_map@[p] == (
                    row_start[p] || (p / (w as int) == y && p % (w as int) < x && in_obstacle(
                        p,
                        w as int,
                        h as int,
                    ))),
            decreases w - x,
        {
            proof {
                let cw = (w / 2) as int;
                let ch = (h / 2) as int;
                assert(cw * cw <= i32::MAX && ch * ch <= i32::MAX) by (nonlinear_arith)
                    requires
                        cw * cw + ch * ch <= i32::MAX,
                        cw >= 0,
                        ch >= 0,
                ;
                assert(cw <= 46341 && ch <= 46341) by (nonlinear_arith)
                    requires
                        cw * cw <= i32::MAX,
                        ch * ch <= i32::MAX,
                        cw >= 0,
                        ch >= 0,
                ;
            }
            let dx: i32 = x as i32 - center_x as i32;
            let dy: i32 = y as i32 - center_y as i32;
            proof {
                let cw = (w / 2) as int;
                let ch = (h / 2) as int;
                assert(-cw <= dx <= cw);
                assert(-ch <= dy <= ch);
                assert(0 <= dx * dx <= cw * cw) by (nonlinear_arith)
                    requires
                        -cw <= dx <= cw,
                ;
                assert(0 <= dy * dy <= ch * ch) by (nonlinear_arith)
                    requires
                        -ch <= dy <= ch,
                ;
            }
            let distance_squared = dx * dx + dy * dy;
            let ghost p = (y * w + x) as int;
            proof {
                assert(y * w + x < w * h) by (nonlinear_arith)
                    requires
                        y < h,
                        x < w,
                ;
                assert(w * h <= (w + 1) * (h + 1)) by (nonlinear_arith);
                assert((y * w + x) % (w as int) == x && (y * w + x) / (w as int) == y) by {
                    vstd::arithmetic::div_mod::lemma_fundamental_div_mod_converse(
                        y * w + x,
                        w as int,
                        y as int,
                        x as int,
                    );
                }
            }
            if distance_squared <= (radius * radius) {
                grid.solid_map.set(y * w + x, true);
            }
            proof {
                assert forall|q: int| 0 <= q < cell_count(w as int, h as int) implies #[trigger] grid.solid_map@[q]
                    == (row_start[q] || (q / (w as int) == y && q % (w as int) < x + 1 && in_obstacle(
                    q,
                    w as int,
                    h as int,
                ))) by {
                    if q != p {
                        if q / (w as int) == y && q % (w as int) == x {
                            vstd::arithmetic::div_mod::lemma_fundamental_div_mod(q, w as int);
                            assert(q == p);
                        }
                    }
                }
            }
            x = x + 1;
        }
        proof {
            assert forall|p: int| 0 <= p < cell_count(w as int, h as int) implies #[trigger] grid.solid_map@[p]
                == (start[p] || (p / (w as int) < y + 1 && in_obstacle(p, w as int, h as int))) by {
                vstd::arithmetic::div_mod::lemma_fundamental_div_mod(p, w as int);
                assert(0 <= p % (w as int) < w);
            }
        }
        y = y + 1;
    }
    proof {
        assert forall|p: int| 0 <= p < cell_count(w as int, h as int) implies #[trigger] grid.solid_map@[p]
            == (start[p] || in_obstacle(p, w as int, h as int)) by {
            lemma_cell_position(p, w as int, h as int);
        }
    }
}

/// The velocity array after applying queued edits in order, oldest first.
pub open spec fn applied_velocities(vel: Seq<Pair>, width: int, items: Seq<VelocityData>) -> Seq<
    Pair,
>
    decreases items.len(),
{
    if items.len() == 0 {
        vel
    } else {
        let d = items[0];
        applied_velocities(
            with_faces(vel, width, d.i as int, d.t, d.l, d.b, d.r),
            width,
            items.drop_first(),
        )
    }
}

/// The smoke array after applying queued edits in order, oldest first.
pub open spec fn applied_smoke(smoke: Seq<u32>, items: Seq<SmokeData>) -> Seq<u32>
    decreases items.len(),
{
    if items.len() == 0 {
        smoke
    } else {
        applied_smoke(smoke.update(items[0].i as int, items[0].t), items.drop_first())
    }
}

/// First cell of the inflow bar: the middle of the grid, moved up by half
/// the bar's height and right by five cells.
pub open spec fn bar_start(width: int, height: int) -> int {
    (width * height) / 2 - (width * BAR_HEIGHT) / 2 + 5
}

/// Whether the inflow bar fits in the grid: its first cell is not before the
/// start of the grid and the smoke cell of its last row lies in the grid.
pub open spec fn bar_fits(width: int, height: int) -> bool {
    &&& (width * height) / 2 >= (width * BAR_HEIGHT) / 2
    &&& bar_start(width, height) + width * (BAR_HEIGHT - 1) + 1 < width * height
}

/// The velocity array after the inflow bar's rows `k..BAR_HEIGHT` are set.
pub open spec fn bar_velocities(vel: Seq<Pair>, width: int, start: int, k: int) -> Seq<Pair>
    decreases BAR_HEIGHT - k,
{
    if k >= BAR_HEIGHT {
        vel
    } else {
        bar_velocities(
            with_faces(vel, width, start + width * k, None, Some(INFLOW), None, None),
            width,
            start,
            k + 1,
        )
    }
}

/// The smoke array after the inflow bar's rows `k..BAR_HEIGHT` are filled.
pub open spec fn bar_smoke(smoke: Seq<u32>, width: int, start: int, k: int) -> Seq<u32>
    decreases BAR_HEIGHT - k,
{
    if k >= BAR_HEIGHT {
        smoke
    } else {
        bar_smoke(smoke.update(start + width * k + 1, FULL_SMOKE), width, start, k + 1)
    }
}

/// Applies the queued velocity edits in order, emptying the queue, then sets
/// the inflow bar: each of its rows gets the inflow velocity on the left face
/// of its first cell and full smoke in the cell after it.
pub fn apply_velocities(grid: &mut GridGpu, interactor: &mut GridInteractor)
    requires
        old(grid).wf(),
        old(interactor).wf(),
        old(interactor).cell_count == cell_count(old(grid).width as int, old(grid).height as int),
        bar_fits(old(grid).width as int, old(grid).height as int),
    ensures
        final(grid).wf(),
        final(interactor).wf(),
        final(grid).width == old(grid).width,
        final(grid).height == old(grid).height,
        final(grid).velocities@ == bar_velocities(
            applied_velocities(
                old(grid).velocities@,
                old(grid).width as int,
                velocity_queue_items(old(interactor).velocity_q),
            ),
            old(grid).width as int,
            bar_start(old(grid).width as int, old(grid).height as int),
            0,
        ),
        final(grid).smoke@ == bar_smoke(
            old(grid).smoke@,
            old(grid).width as int,
            bar_start(old(grid).width as int, old(grid).height as int),
            0,
        ),
        final(grid).solid_map@ == old(grid).solid_map@,
        final(grid).velocities_dirty,
        final(grid).smoke_dirty,
        final(grid).is_even_frame == old(grid).is_even_frame,
        velocity_queue_items(final(interactor).velocity_q) == Seq::<VelocityData>::empty(),
        final(interactor).smoke_q == old(interactor).smoke_q,
        final(interactor).cell_count == old(interactor).cell_count,
        final(interactor).is_dragging == old(interactor).is_dragging,
        final(interactor).mouse_pressed_btn == old(interactor).mouse_pressed_btn,
{
    let ghost target = applied_velocities(
        grid.velocities@,
        grid.width as int,
        velocity_queue_items(interactor.velocity_q),
    );
    while velocity_queue_size(&interactor.velocity_q) > 0
        invariant
            grid.wf(),
            interactor.wf(),
            grid.width == old(grid).width,
            grid.height == old(grid).height,
            interactor.cell_count == cell_count(grid.width as int, grid.height as int),
            applied_velocities(grid.velocities@, grid.width as int, velocity_queue_items(interactor.velocity_q))
                == target,
            grid.smoke@ == old(grid).smoke@,
            grid.solid_map@ == old(grid).solid_map@,
            grid.smoke_dirty == old(grid).smoke_dirty,
            grid.is_even_frame == old(grid).is_even_frame,
            interactor.smoke_q == old(interactor).smoke_q,
            interactor.cell_count == old(interactor).cell_count,
            interactor.is_dragging == old(interactor).is_dragging,
            interactor.mouse_pressed_btn == old(interactor).mouse_pressed_btn,
        decreases velocity_queue_items(interactor.velocity_q).len(),
    {
        let ghost items = velocity_queue_items(interactor.velocity_q);
        let removed = velocity_queue_remove(&mut interactor.velocity_q);
        match removed {
            Some(data) => {
                assert(items[0].i < interactor.cell_count);
                proof {
                    let rest = velocity_queue_items(interactor.velocity_q);
                    assert forall|k: int| 0 <= k < rest.len() implies #[trigger] rest[k].i
                        < interactor.cell_count by {
                        assert(rest[k] == items[k + 1]);
                    }
                }
                grid.set_velocities(data.i, data.t, data.l, data.b, data.r);
            },
            None => {},
        }
    }
    let w = grid.width;
    let h = grid.height;
    let bar_height = BAR_HEIGHT;
    let bar_center_offset: usize = 0;
    proof {
        assert(w * h <= (w + 1) * (h + 1)) by (nonlinear_arith);
        assert(w * bar_height <= w * h) by (nonlinear_arith)
            requires
                (w * h) / 2 >= (w * BAR_HEIGHT) / 2,
                bar_height == BAR_HEIGHT,
        ;
    }
    let start = (w * h) / 2 - (w * bar_height / 2) - (w * bar_center_offset) + 5;
    let ghost velocities_after_queue = grid.velocities@;
    let ghost smoke_before_bar = grid.smoke@;
    let mut i: usize = 0;
    while i < bar_height
        invariant
            grid.wf(),
            grid.width == w,
            grid.height == h,
            bar_height == BAR_HEIGHT,
            start == bar_start(w as int, h as int),
            bar_fits(w as int, h as int),
            0 <= i <= bar_height,
            bar_velocities(grid.velocities@, w as int, start as int, i as int) == bar_velocities(
                velocities_after_queue,
                w as int,
                start as int,
                0,
            ),
            bar_smoke(grid.smoke@, w as int, start as int, i as int) == bar_smoke(
                smoke_before_bar,
                w as int,
                start as int,
                0,
            ),
            grid.solid_map@ == old(grid).solid_map@,
            grid.is_even_frame == old(grid).is_even_frame,
            i > 0 ==> grid.velocities_dirty && grid.smoke_dirty,
        decreases bar_height - i,
    {
        proof {
            assert(w * i <= w * (BAR_HEIGHT - 1)) by (nonlinear_arith)
                requires
                    i < BAR_HEIGHT,
            ;
            assert(0 <= w * i) by (nonlinear_arith);
            assert(w * h <= (w + 1) * (h + 1)) by (nonlinear_arith);
        }
        grid.set_velocities(start + w * i, None, Some(INFLOW), None, None);
        grid.set_smoke(start + w * i + 1, FULL_SMOKE);
        i = i + 1;
    }
}

/// Applies the queued smoke edits in order, emptying the queue.
pub fn apply_smoke(grid: &mut GridGpu, interactor: &mut GridInteractor)
    requires
        old(grid).wf(),
        old(interactor).wf(),
        old(interactor).cell_count == cell_count(old(grid).width as int, old(grid).height as int),
    ensures
        final(grid).wf(),
        final(interactor).wf(),
        final(grid).width == old(grid).width,
        final(grid).height == old(grid).height,
        final(grid).smoke@ == applied_smoke(old(grid).smoke@, smoke_queue_items(old(interactor).smoke_q)),
        final(grid).velocities@ == old(grid).velocities@,
        final(grid).solid_map@ == old(grid).solid_map@,
        final(grid).velocities_dirty == old(grid).velocities_dirty,
        final(grid).smoke_dirty == (old(grid).smoke_dirty || smoke_queue_items(
            old(interactor).smoke_q,
        ).len() > 0),
        final(grid).is_even_frame == old(grid).is_even_frame,
        smoke_queue_items(final(interactor).smoke_q) == Seq::<SmokeData>::empty(),
        final(interactor).velocity_q == old(interactor).velocity_q,
        final(interactor).cell_count == old(interactor).cell_count,
        final(interactor).is_dragging == old(interactor).is_dragging,
        final(interactor).mouse_pressed_btn == old(interactor).mouse_pressed_btn,
{
    let ghost target = applied_smoke(grid.smoke@, smoke_queue_items(interactor.smoke_q));
    let ghost had_items = smoke_queue_items(interactor.smoke_q).len() > 0;
    while smoke_queue_size(&interactor.smoke_q) > 0
        invariant
            grid.wf(),
            interactor.wf(),
            grid.width == old(grid).width,
            grid.height == old(grid).height,
            interactor.cell_count == cell_count(grid.width as int, grid.height as int),
            applied_smoke(grid.smoke@, smoke_queue_items(interactor.smoke_q)) == target,
            grid.velocities@ == old(grid).velocities@,
            grid.solid_map@ == old(grid).solid_map@,
            grid.velocities_dirty == old(grid).velocities_dirty,
            grid.is_even_frame == old(grid).is_even_frame,
            had_items == (smoke_queue_items(old(interactor).smoke_q).len() > 0),
            grid.smoke_dirty == (old(grid).smoke_dirty || (had_items && smoke_queue_items(
                interactor.smoke_q,
            ).len() < smoke_queue_items(old(interactor).smoke_q).len())),
            smoke_queue_items(interactor.smoke_q).len() <= smoke_queue_items(old(interactor).smoke_q).len(),
            interactor.velocity_q == old(interactor).velocity_q,
            interactor.cell_count == old(interactor).cell_count,
            interactor.is_dragging == old(interactor).is_dragging,
            interactor.mouse_pressed_btn == old(interactor).mouse_pressed_btn,
        decreases smoke_queue_items(interactor.smoke_q).len(),
    {
        let ghost items = smoke_queue_items(interactor.smoke_q);
        let removed = smoke_queue_remove(&mut interactor.smoke_q);
        match removed {
            Some(data) => {
                assert(items[0].i < interactor.cell_count);
                proof {
                    let rest = smoke_queue_items(interactor.smoke_q);
                    assert forall|k: int| 0 <= k < rest.len() implies #[trigger] rest[k].i
                        < interactor.cell_count by {
                        assert(rest[k] == items[k + 1]);
                    }
                }
                grid.set_smoke(data.i, data.t);
            },
            None => {},
        }
    }
}

/// The value of the newest edit of cell `c` among `items`, if any.
pub open spec fn last_smoke_edit(items: Seq<SmokeData>, c: int) -> Option<u32>
    decreases items.len(),
{
    if items.len() == 0 {
        None
    } else {
        match last_smoke_edit(items.drop_first(), c) {
            Some(v) => Some(v),
            None => if items[0].i as int == c {
                Some(items[0].t)
            } else {
                None
            },
        }
    }
}

/// After the queued smoke edits are applied, each cell holds the value of
/// its newest edit, and cells without an edit keep their value.
pub proof fn law_newest_smoke_edit_wins(smoke: Seq<u32>, items: Seq<SmokeData>, c: int)
    requires
        0 <= c < smoke.len(),
        forall|k: int| 0 <= k < items.len() ==> #[trigger] items[k].i < smoke.len(),
    ensures
        applied_smoke(smoke, items).len() == smoke.len(),
        applied_smoke(smoke, items)[c] == match last_smoke_edit(items, c) {
            Some(v) => v,
            None => smoke[c],
        },
    decreases items.len(),
{
    if items.len() > 0 {
        let next = smoke.update(items[0].i as int, items[0].t);
        let rest = items.drop_first();
        assert forall|k: int| 0 <= k < rest.len() implies #[trigger] rest[k].i < next.len() by {
            assert(rest[k] == items[k + 1]);
        }
        law_newest_smoke_edit_wins(next, rest, c);
    }
}

/// Setting only the left face of a cell writes only the left slot of the
/// cell's own pair.
proof fn lemma_left_face_only(vel: Seq<Pair>, width: int, height: int, p: int, v: u32)
    requires
        1 <= width,
        1 <= height,
        vel.len() == velocity_count(width, height),
        0 <= p < cell_count(width, height),
    ensures
        with_faces(vel, width, p, None, Some(v), None, None) == vel.update(
            vel_index(p, width),
            Pair { top: vel[vel_index(p, width)].top, left: v },
        ),
{
    lemma_cell_position(p, width, height);
    let vi = vel_index(p, width);
    assert(with_faces(vel, width, p, None, Some(v), None, None) =~= vel.update(
        vi,
        Pair { top: vel[vi].top, left: v },
    ));
}

/// Rows `k..BAR_HEIGHT` of the bar only write the left slots of their own
/// pairs, and leave the inflow velocity in each.
proof fn lemma_bar_rows(vel: Seq<Pair>, width: int, height: int, start: int, k: int)
    requires
        1 <= width,
        1 <= height,
        0 <= k <= BAR_HEIGHT,
        vel.len() == velocity_count(width, height),
        0 <= start,
        start + width * (BAR_HEIGHT - 1) < cell_count(width, height),
    ensures
        bar_velocities(vel, width, start, k).len() == vel.len(),
        forall|j: int|
            k <= j < BAR_HEIGHT ==> #[trigger] bar_velocities(vel, width, start, k)[vel_index(
                start + width * j,
                width,
            )].left == INFLOW,
        forall|q: int|
            0 <= q < vel.len() && (forall|j: int|
                k <= j < BAR_HEIGHT ==> q != #[trigger] vel_index(start + width * j, width))
                ==> #[trigger] bar_velocities(vel, width, start, k)[q].left == vel[q].left,
    decreases BAR_HEIGHT - k,
{
    if k < BAR_HEIGHT {
        let p = start + width * k;
        assert(0 <= width * k <= width * (BAR_HEIGHT - 1)) by (nonlinear_arith)
            requires
                0 <= k < BAR_HEIGHT,
                1 <= width,
        ;
        lemma_cell_position(p, width, height);
        lemma_left_face_only(vel, width, height, p, INFLOW);
        let next = with_faces(vel, width, p, None, Some(INFLOW), None, None);
        lemma_bar_rows(next, width, height, start, k + 1);
        let vi = vel_index(p, width);
        let result = bar_velocities(vel, width, start, k);
        assert(result == bar_velocities(next, width, start, k + 1));
        assert forall|j: int| k <= j < BAR_HEIGHT implies #[trigger] result[vel_index(
            start + width * j,
            width,
        )].left == INFLOW by {
            if j > k {
            } else {
                let q = vel_index(start + width * j, width);
                if forall|jj: int| k + 1 <= jj < BAR_HEIGHT ==> q != #[trigger] vel_index(
                    start + width * jj,
                    width,
                ) {
                    assert(next[q].left == INFLOW);
                } else {
                    let jj = choose|jj: int| k + 1 <= jj < BAR_HEIGHT && q == #[trigger] vel_index(
                        start + width * jj,
                        width,
                    );
                    assert(result[vel_index(start + width * jj, width)].left == INFLOW);
                }
            }
        }
        assert forall|q: int|
            0 <= q < vel.len() && (forall|j: int|
                k <= j < BAR_HEIGHT ==> q != #[trigger] vel_index(start + width * j, width))
                implies #[trigger] result[q].left == vel[q].left by {
            assert(q != vel_index(start + width * k, width));
            assert forall|j: int| k + 1 <= j < BAR_HEIGHT implies q != #[trigger] vel_index(
                start + width * j,
                width,
            ) by {
                assert(k <= j < BAR_HEIGHT);
            }
        }
    }
}

/// Rows `k..BAR_HEIGHT` of the bar fill the smoke cell after each row's first
/// cell and leave every other cell as it was.
proof fn lemma_bar_smoke_rows(smoke: Seq<u32>, width: int, start: int, k: int)
    requires
        1 <= width,
        0 <= k <= BAR_HEIGHT,
        0 <= start,
        start + width * (BAR_HEIGHT - 1) + 1 < smoke.len(),
    ensures
        bar_smoke(smoke, width, start, k).len() == smoke.len(),
        forall|j: int|
            k <= j < BAR_HEIGHT ==> #[trigger] bar_smoke(smoke, width, start, k)[start + width * j + 1]
                == FULL_SMOKE,
    decreases BAR_HEIGHT - k,
{
    if k < BAR_HEIGHT {
        assert(0 <= width * k <= width * (BAR_HEIGHT - 1)) by (nonlinear_arith)
            requires
                0 <= k < BAR_HEIGHT,
                1 <= width,
        ;
        let next = smoke.update(start + width * k + 1, FULL_SMOKE);
        lemma_bar_smoke_rows(next, width, start, k + 1);
        assert forall|j: int| k <= j < BAR_HEIGHT implies #[trigger] bar_smoke(
            smoke,
            width,
            start,
            k,
        )[start + width * j + 1] == FULL_SMOKE by {
            if j == k {
                assert(width * k + width == width * (k + 1)) by (nonlinear_arith);
                lemma_bar_smoke_frame(next, width, start, k + 1, start + width * k + 1);
            }
        }
    }
}

/// Cells before the smoke cell of row `k` keep their smoke while rows
/// `k..BAR_HEIGHT` are filled.
proof fn lemma_bar_smoke_frame(smoke: Seq<u32>, width: int, start: int, k: int, c: int)
    requires
        1 <= width,
        0 <= k <= BAR_HEIGHT,
        0 <= start,
        start + width * (BAR_HEIGHT - 1) + 1 < smoke.len(),
        0 <= c < smoke.len(),
        c < start + width * k + 1,
    ensures
        bar_smoke(smoke, width, start, k).len() == smoke.len(),
        bar_smoke(smoke, width, start, k)[c] == smoke[c],
    decreases BAR_HEIGHT - k,
{
    if k < BAR_HEIGHT {
        assert(0 <= width * k <= width * (BAR_HEIGHT - 1)) by (nonlinear_arith)
            requires
                0 <= k < BAR_HEIGHT,
                1 <= width,
        ;
        let next = smoke.update(start + width * k + 1, FULL_SMOKE);
        assert(width * k + width == width * (k + 1)) by (nonlinear_arith);
        lemma_bar_smoke_frame(next, width, start, k + 1, c);
    }
}

/// After a step's edits are applied, every row of the inflow bar carries the
/// inflow velocity on the left face of its first cell and full smoke in the
/// cell after it.
pub proof fn law_inflow_bar_is_set(vel: Seq<Pair>, smoke: Seq<u32>, width: int, height: int)
    requires
        1 <= width,
        1 <= height,
        vel.len() == velocity_count(width, height),
        smoke.len() == cell_count(width, height),
        bar_fits(width, height),
    ensures
        forall|k: int|
            0 <= k < BAR_HEIGHT ==> #[trigger] cell_faces(
                bar_velocities(vel, width, bar_start(width, height), 0),
                width,
                bar_start(width, height) + width * k,
            ).l == INFLOW,
        forall|k: int|
            0 <= k < BAR_HEIGHT ==> #[trigger] bar_smoke(smoke, width, bar_start(width, height), 0)[bar_start(
                width,
                height,
            ) + width * k + 1] == FULL_SMOKE,
{
    let start = bar_start(width, height);
    assert(0 <= start) by (nonlinear_arith)
        requires
            (width * height) / 2 >= (width * BAR_HEIGHT) / 2,
            start == (width * height) / 2 - (width * BAR_HEIGHT) / 2 + 5,
    ;
    lemma_bar_rows(vel, width, height, start, 0);
    lemma_bar_smoke_rows(smoke, width, start, 0);
    assert forall|k: int| 0 <= k < BAR_HEIGHT implies #[trigger] cell_faces(
        bar_velocities(vel, width, start, 0),
        width,
        start + width * k,
    ).l == INFLOW by {
        assert(bar_velocities(vel, width, start, 0)[vel_index(start + width * k, width)].left == INFLOW);
    }
}

/// Applying a single queued edit sets each face that the edit names and keeps
/// each face it leaves out.
pub proof fn law_single_edit_sets_its_faces(vel: Seq<Pair>, width: int, height: int, d: VelocityData)
    requires
        1 <= width,
        1 <= height,
        vel.len() == velocity_count(width, height),
        d.i < cell_count(width, height),
    ensures
        applied_velocities(vel, width, seq![d]) == with_faces(vel, width, d.i as int, d.t, d.l, d.b, d.r),
        cell_faces(applied_velocities(vel, width, seq![d]), width, d.i as int) == (Cell {
            t: match d.t {
                Some(v) => v,
                None => cell_faces(vel, width, d.i as int).t,
            },
            l: match d.l {
                Some(v) => v,
                None => cell_faces(vel, width, d.i as int).l,
            },
            b: match d.b {
                Some(v) => v,
                None => cell_faces(vel, width, d.i as int).b,
            },
            r: match d.r {
                Some(v) => v,
                None => cell_faces(vel, width, d.i as int).r,
            },
        }),
{
    let after = with_faces(vel, width, d.i as int, d.t, d.l, d.b, d.r);
    assert(seq![d].drop_first() =~= Seq::<VelocityData>::empty());
    assert(applied_velocities(after, width, Seq::<VelocityData>::empty()) == after);
    law_faces_read_after_write(vel, width, height, d.i as int, d.t, d.l, d.b, d.r);
}

/// Queued edits are applied one after another, oldest first: applying a
/// queue with one more edit at its back is applying the queue and then that
/// edit.
pub proof fn law_edits_apply_in_order(
    vel: Seq<Pair>,
    width: int,
    height: int,
    items: Seq<VelocityData>,
    d: VelocityData,
)
    requires
        1 <= width,
        1 <= height,
        vel.len() == velocity_count(width, height),
        forall|k: int| 0 <= k < items.len() ==> #[trigger] items[k].i < cell_count(width, height),
    ensures
        applied_velocities(vel, width, items.push(d)) == with_faces(
            applied_velocities(vel, width, items),
            width,
            d.i as int,
            d.t,
            d.l,
            d.b,
            d.r,
        ),
        applied_velocities(vel, width, items).len() == vel.len(),
    decreases items.len(),
{
    if items.len() == 0 {
        assert(items.push(d) =~= seq![d]);
        assert(applied_velocities(vel, width, items) == vel);
        let after = with_faces(vel, width, d.i as int, d.t, d.l, d.b, d.r);
        assert(seq![d].drop_first() =~= Seq::<VelocityData>::empty());
        assert(applied_velocities(after, width, Seq::<VelocityData>::empty()) == after);
        assert(applied_velocities(vel, width, seq![d]) == applied_velocities(
            after,
            width,
            seq![d].drop_first(),
        ));
    } else {
        let first = items[0];
        lemma_cell_position(first.i as int, width, height);
        let next = with_faces(vel, width, first.i as int, first.t, first.l, first.b, first.r);
        let rest = items.drop_first();
        assert forall|k: int| 0 <= k < rest.len() implies #[trigger] rest[k].i < cell_count(
            width,
            height,
        ) by {
            assert(rest[k] == items[k + 1]);
        }
        law_edits_apply_in_order(next, width, height, rest, d);
        assert(items.push(d).drop_first() =~= rest.push(d));
        assert(items.push(d)[0] == first);
    }
}

/// The inflow bar writes only the left slots of pairs: every top slot is left
/// as it was.
pub proof fn law_bar_keeps_top_slots(vel: Seq<Pair>, width: int, height: int, start: int, k: int)
    requires
        1 <= width,
        1 <= height,
        0 <= k <= BAR_HEIGHT,
        vel.len() == velocity_count(width, height),
        0 <= start,
        start + width * (BAR_HEIGHT - 1) < cell_count(width, height),
    ensures
        bar_velocities(vel, width, start, k).len() == vel.len(),
        forall|q: int| 0 <= q < vel.len() ==> #[trigger] bar_velocities(vel, width, start, k)[q].top
            == vel[q].top,
    decreases BAR_HEIGHT - k,
{
    if k < BAR_HEIGHT {
        let p = start + width * k;
        assert(0 <= width * k <= width * (BAR_HEIGHT - 1)) by (nonlinear_arith)
            requires
                0 <= k < BAR_HEIGHT,
                1 <= width,
        ;
        lemma_cell_position(p, width, height);
        lemma_left_face_only(vel, width, height, p, INFLOW);
        let next = with_faces(vel, width, p, None, Some(INFLOW), None, None);
        law_bar_keeps_top_slots(next, width, height, start, k + 1);
    }
}

/// A single queued edit of a cell's bottom face is still there after the
/// step's edits and the inflow bar are applied, and the cell below sees it
/// as its top face.
pub proof fn law_queued_bottom_face_survives_step(
    vel: Seq<Pair>,
    width: int,
    height: int,
    d: VelocityData,
    v: u32,
)
    requires
        1 <= width,
        1 <= height,
        vel.len() == velocity_count(width, height),
        d.i < cell_count(width, height),
        d.b == Some(v),
        bar_fits(width, height),
    ensures
        cell_faces(
            bar_velocities(applied_velocities(vel, width, seq![d]), width, bar_start(width, height), 0),
            width,
            d.i as int,
        ).b == v,
        d.i + width < cell_count(width, height) ==> cell_faces(
            bar_velocities(applied_velocities(vel, width, seq![d]), width, bar_start(width, height), 0),
            width,
            d.i + width,
        ).t == v,
{
    let start = bar_start(width, height);
    assert(0 <= start) by (nonlinear_arith)
        requires
            (width * height) / 2 >= (width * BAR_HEIGHT) / 2,
            start == (width * height) / 2 - (width * BAR_HEIGHT) / 2 + 5,
    ;
    law_single_edit_sets_its_faces(vel, width, height, d);
    let after = applied_velocities(vel, width, seq![d]);
    lemma_cell_position(d.i as int, width, height);
    law_bar_keeps_top_slots(after, width, height, start, 0);
    let fin = bar_velocities(after, width, start, 0);
    let vi = vel_index(d.i as int, width);
    assert(fin[vi + width + 1].top == after[vi + width + 1].top);
    law_shared_faces(fin, width, height, d.i as int);
}

/// Applying one smoke edit sets that cell and nothing else, and a queue with
/// one more edit at its back is the queue applied and then that edit.
pub proof fn law_smoke_edits_apply_in_order(smoke: Seq<u32>, items: Seq<SmokeData>, d: SmokeData)
    ensures
        applied_smoke(smoke, seq![d]) == smoke.update(d.i as int, d.t),
        applied_smoke(smoke, items.push(d)) == applied_smoke(smoke, items).update(d.i as int, d.t),
    decreases items.len(),
{
    assert(seq![d].drop_first() =~= Seq::<SmokeData>::empty());
    let one = smoke.update(d.i as int, d.t);
    assert(applied_smoke(one, Seq::<SmokeData>::empty()) == one);
    assert(applied_smoke(smoke, seq![d]) == applied_smoke(one, seq![d].drop_first()));
    if items.len() == 0 {
        assert(items.push(d) =~= seq![d]);
    } else {
        let next = smoke.update(items[0].i as int, items[0].t);
        law_smoke_edits_apply_in_order(next, items.drop_first(), d);
        assert(items.push(d).drop_first() =~= items.drop_first().push(d));
        assert(items.push(d)[0] == items[0]);
    }
}

/// The obstacle is the disc of radius ten cells around the middle cell
/// `(width / 2, height / 2)`: that cell and the cells ten rows or columns
/// straight away from it are inside, cells more than ten columns or rows away
/// are outside.
pub proof fn law_obstacle_is_centred_disc(width: int, height: int, x: int, y: int)
    requires
        1 <= width,
        1 <= height,
        0 <= x < width,
        0 <= y < height,
    ensures
        in_obstacle(y * width + x, width, height) <==> (x - width / 2) * (x - width / 2) + (y - height
            / 2) * (y - height / 2) <= 100,
        x == width / 2 && y == height / 2 ==> in_obstacle(y * width + x, width, height),
        x == width / 2 && (y == height / 2 + 10 || y == height / 2 - 10) ==> in_obstacle(
            y * width + x,
            width,
            height,
        ),
        (x > width / 2 + 10 || x < width / 2 - 10 || y > height / 2 + 10 || y < height / 2 - 10)
            ==> !in_obstacle(y * width + x, width, height),
{
    vstd::arithmetic::div_mod::lemma_fundamental_div_mod_converse(y * width + x, width, y, x);
    let dx = x - width / 2;
    let dy = y - height / 2;
    assert(dx * dx >= 0 && dy * dy >= 0) by (nonlinear_arith);
    if dx > 10 || dx < -10 {
        assert(dx * dx > 100) by (nonlinear_arith)
            requires
                dx > 10 || dx < -10,
        ;
    }
    if dy > 10 || dy < -10 {
        assert(dy * dy > 100) by (nonlinear_arith)
            requires
                dy > 10 || dy < -10,
        ;
    }
    if dx == 0 {
        assert(dx * dx == 0) by (nonlinear_arith)
            requires
                dx == 0,
        ;
        if dy == 10 || dy == -10 {
            assert(dy * dy == 100) by (nonlinear_arith)
                requires
                    dy == 10 || dy == -10,
            ;
        }
        if dy == 0 {
            assert(dy * dy == 0) by (nonlinear_arith)
                requires
                    dy == 0,
            ;
        }
    }
}

/// The inflow bar starts five cells right of the grid's middle cell, moved
/// up by half the bar's height, i.e. five rows.
pub proof fn law_bar_start_position(width: int, height: int)
    requires
        1 <= width,
        1 <= height,
    ensures
        bar_start(width, height) == (width * height) / 2 - 5 * width + 5,
{
    assert((width * BAR_HEIGHT) / 2 == 5 * width);
}

} // verus!
