//! The mouse brush: it turns drags into queued edits of the grid, which the
//! simulation applies at the start of its next step.
//!
//! The queues are `queues::Queue`s. Their contents are described by the names
//! [`velocity_queue_items`] and [`smoke_queue_items`], and every queue
//! operation the library uses goes through one of the trusted wrappers below.

use vstd::prelude::*;
use queues::IsQueue;
use queues::Queue;

verus! {

/// Bit pattern of the `f32` value `1.0`: the smoke density the brush paints.
pub const FULL_SMOKE: u32 = 0x3F80_0000u32;

/// A queued edit of the faces of cell `i`; `None` leaves a face unchanged.
#[derive(Clone, Copy, Debug, PartialEq, Eq, Structural)]
pub struct VelocityData {
    pub i: usize,
    pub t: Option<u32>,
    pub l: Option<u32>,
    pub b: Option<u32>,
    pub r: Option<u32>,
}

/// A queued edit of the smoke density of cell `i`.
#[derive(Clone, Copy, Debug, PartialEq, Eq, Structural)]
pub struct SmokeData {
    pub i: usize,
    pub t: u32,
}

#[verifier::external_type_specification]
#[verifier::external_body]
#[verifier::reject_recursive_types(T)]
pub struct ExQueue<T: Clone>(Queue<T>);

/// The items of a queue of velocity edits, oldest first.
pub uninterp spec fn velocity_queue_items(q: Queue<VelocityData>) -> Seq<VelocityData>;

/// The items of a queue of smoke edits, oldest first.
pub uninterp spec fn smoke_queue_items(q: Queue<SmokeData>) -> Seq<SmokeData>;

/// Calls `Queue::new`, which builds a queue over an empty `Vec`.
#[verifier::external_body]
pub(crate) fn new_velocity_queue() -> (q: Queue<VelocityData>)
    ensures
        velocity_queue_items(q) == Seq::<VelocityData>::empty(),
{
    Queue::new()
}

/// Calls `Queue::new`, which builds a queue over an empty `Vec`.
#[verifier::external_body]
pub(crate) fn new_smoke_queue() -> (q: Queue<SmokeData>)
    ensures
        smoke_queue_items(q) == Seq::<SmokeData>::empty(),
{
    Queue::new()
}

/// Calls `IsQueue::add` of `Queue`, which pushes the item at the back of its
/// `Vec` and always answers `Ok(None)`; the answer carries nothing and is
/// dropped.
#[verifier::external_body]
pub(crate) fn velocity_queue_add(q: &mut Queue<VelocityData>, item: VelocityData)
    ensures
        velocity_queue_items(*final(q)) == velocity_queue_items(*old(q)).push(item),
{
    let _ = q.add(item);
}

/// Calls `IsQueue::add` of `Queue`, which pushes the item at the back of its
/// `Vec` and always answers `Ok(None)`; the answer carries nothing and is
/// dropped.
#[verifier::external_body]
pub(crate) fn smoke_queue_add(q: &mut Queue<SmokeData>, item: SmokeData)
    ensures
        smoke_queue_items(*final(q)) == smoke_queue_items(*old(q)).push(item),
{
    let _ = q.add(item);
}

/// Calls `IsQueue::remove` of `Queue`: on a non-empty queue it takes out and
/// returns the oldest item (`Vec::remove(0)`); on an empty queue it returns an
/// error and changes nothing. The error becomes `None`.
#[verifier::external_body]
pub(crate) fn velocity_queue_remove(q: &mut Queue<VelocityData>) -> (r: Option<VelocityData>)
    ensures
        velocity_queue_items(*old(q)).len() > 0 ==> r == Some(velocity_queue_items(*old(q))[0])
            && velocity_queue_items(*final(q)) == velocity_queue_items(*old(q)).drop_first(),
        velocity_queue_items(*old(q)).len() == 0 ==> r is None && velocity_queue_items(*final(q))
            == velocity_queue_items(*old(q)),
{
    q.remove().ok()
}

/// Calls `IsQueue::remove` of `Queue`: on a non-empty queue it takes out and
/// returns the oldest item (`Vec::remove(0)`); on an empty queue it returns an
/// error and changes nothing. The error becomes `None`.
#[verifier::external_body]
pub(crate) fn smoke_queue_remove(q: &mut Queue<SmokeData>) -> (r: Option<SmokeData>)
    ensures
        smoke_queue_items(*old(q)).len() > 0 ==> r == Some(smoke_queue_items(*old(q))[0])
            && smoke_queue_items(*final(q)) == smoke_queue_items(*old(q)).drop_first(),
        smoke_queue_items(*old(q)).len() == 0 ==> r is None && smoke_queue_items(*final(q))
            == smoke_queue_items(*old(q)),
{
    q.remove().ok()
}

/// Calls `IsQueue::size` of `Queue`, the length of its `Vec`.
#[verifier::external_body]
pub(crate) fn velocity_queue_size(q: &Queue<VelocityData>) -> (n: usize)
    ensures
        n == velocity_queue_items(*q).len(),
{
    q.size()
}

/// Calls `IsQueue::size` of `Queue`, the length of its `Vec`.
#[verifier::external_body]
pub(crate) fn smoke_queue_size(q: &Queue<SmokeData>) -> (n: usize)
    ensures
        n == smoke_queue_items(*q).len(),
{
    q.size()
}

/// The cells of row `cy` from column `min_x` up to, not including, `max_x`.
pub open spec fn row_cells(cy: int, min_x: int, max_x: int, width: int) -> Seq<usize> {
    if min_x >= max_x {
        Seq::empty()
    } else {
        Seq::new((max_x - min_x) as nat, |j: int| (cy * width + min_x + j) as usize)
    }
}

/// The cells of the rectangle of rows `min_y..max_y` and columns
/// `min_x..max_x`, row by row, each row from left to right.
pub open spec fn region_cells(min_x: int, max_x: int, min_y: int, max_y: int, width: int) -> Seq<
    usize,
>
    decreases max_y - min_y,
{
    if min_y >= max_y {
        Seq::empty()
    } else {
        region_cells(min_x, max_x, min_y, max_y - 1, width) + row_cells(max_y - 1, min_x, max_x, width)
    }
}

/// The cells under the brush's bounding box: rows `min_y..max_y`, columns
/// `min_x..max_x` (both upper bounds excluded), row by row.
pub fn brush_cells(min_x: usize, max_x: usize, min_y: usize, max_y: usize, width: usize) -> (cells:
    Vec<usize>)
    requires
        max_x <= width,
        max_y * width <= usize::MAX,
    ensures
        cells@ == region_cells(min_x as int, max_x as int, min_y as int, max_y as int, width as int),
{
    let mut cells: Vec<usize> = Vec::new();
    let mut cy = min_y;
    while cy < max_y
        invariant
            min_y <= cy,
            cy <= max_y || cy == min_y,
            max_x <= width,
            max_y * width <= usize::MAX,
            cells@ == region_cells(min_x as int, max_x as int, min_y as int, cy as int, width as int),
        decreases max_y - cy,
    {
        let ghost before = cells@;
        proof {
            assert(cy * width + width <= max_y * width) by (nonlinear_arith)
                requires
                    cy < max_y,
            ;
        }
        let mut cx = min_x;
        while cx < max_x
            invariant
                min_y <= cy < max_y,
                min_x <= cx,
                cx <= max_x || cx == min_x,
                max_x <= width,
                cy * width + width <= usize::MAX,
                cells@ == before + row_cells(cy as int, min_x as int, cx as int, width as int),
            decreases max_x - cx,
        {
            proof {
                assert(cy * width + cx < usize::MAX) by (nonlinear_arith)
                    requires
                        cy * width + width <= usize::MAX,
                        cx < max_x,
                        max_x <= width,
                ;
            }
            cells.push(cy * width + cx);
            proof {
                assert(cells@ =~= before + row_cells(cy as int, min_x as int, cx + 1, width as int));
            }
            cx = cx + 1;
        }
        proof {
            if max_x <= min_x {
                assert(row_cells(cy as int, min_x as int, cx as int, width as int) =~= row_cells(
                    cy as int,
                    min_x as int,
                    max_x as int,
                    width as int,
                ));
            }
            assert(region_cells(min_x as int, max_x as int, min_y as int, cy + 1, width as int)
                == region_cells(min_x as int, max_x as int, min_y as int, cy as int, width as int)
                + row_cells(cy as int, min_x as int, max_x as int, width as int));
        }
        cy = cy + 1;
    }
    proof {
        if max_y <= min_y {
            assert(cells@ =~= region_cells(
                min_x as int,
                max_x as int,
                min_y as int,
                max_y as int,
                width as int,
            ));
        }
    }
    cells
}

/// Every cell of a rectangle whose rows end before `max_y` and whose
/// columns end before `max_x <= width` lies below `max_y * width`.
proof fn lemma_region_cells_below(min_x: int, max_x: int, min_y: int, max_y: int, width: int)
    requires
        0 <= min_x,
        0 <= min_y,
        0 <= width,
        max_x <= width,
        max_y * width <= usize::MAX,
    ensures
        forall|j: int|
            0 <= j < region_cells(min_x, max_x, min_y, max_y, width).len() ==> #[trigger] region_cells(
                min_x,
                max_x,
                min_y,
                max_y,
                width,
            )[j] < max_y * width,
    decreases max_y - min_y,
{
    if min_y < max_y {
        assert((max_y - 1) * width <= max_y * width) by (nonlinear_arith)
            requires
                0 <= width,
        ;
        lemma_region_cells_below(min_x, max_x, min_y, max_y - 1, width);
        let prev = region_cells(min_x, max_x, min_y, max_y - 1, width);
        let row = row_cells(max_y - 1, min_x, max_x, width);
        assert forall|j: int| 0 <= j < row.len() implies #[trigger] row[j] < max_y * width by {
            assert((max_y - 1) * width + min_x + j < max_y * width) by (nonlinear_arith)
                requires
                    min_x + j < max_x,
                    max_x <= width,
            ;
            assert(0 <= (max_y - 1) * width) by (nonlinear_arith)
                requires
                    max_y - 1 >= 0,
                    width >= 0,
            ;
        }
        assert forall|j: int| 0 <= j < (prev + row).len() implies #[trigger] (prev + row)[j] < max_y
            * width by {
            if j < prev.len() {
                assert((prev + row)[j] == prev[j]);
            } else {
                assert((prev + row)[j] == row[j - prev.len()]);
            }
        }
    }
}

/// The smoke edits that painting the given cells queues, in order.
pub open spec fn painted(cells: Seq<usize>) -> Seq<SmokeData> {
    cells.map_values(|c: usize| SmokeData { i: c, t: FULL_SMOKE })
}

/// The brush state and the edits it has queued but the simulation has not
/// yet applied, for a grid of `cell_count` cells.
pub struct GridInteractor {
    pub cell_count: usize,
    pub is_dragging: bool,
    pub mouse_pressed_btn: u8,
    pub velocity_q: Queue<VelocityData>,
    pub smoke_q: Queue<SmokeData>,
}

impl GridInteractor {
    /// Every queued edit names a cell of the grid.
    pub open spec fn wf(&self) -> bool {
        &&& forall|k: int|
            0 <= k < velocity_queue_items(self.velocity_q).len() ==> #[trigger] velocity_queue_items(
                self.velocity_q,
            )[k].i < self.cell_count
        &&& forall|k: int|
            0 <= k < smoke_queue_items(self.smoke_q).len() ==> #[trigger] smoke_queue_items(
                self.smoke_q,
            )[k].i < self.cell_count
    }

    /// An idle brush with nothing queued, for a grid of `cell_count` cells.
    pub fn new(cell_count: usize) -> (g: GridInteractor)
        ensures
            g.wf(),
            g.cell_count == cell_count,
            !g.is_dragging,
            g.mouse_pressed_btn == 0,
            velocity_queue_items(g.velocity_q) == Seq::<VelocityData>::empty(),
            smoke_queue_items(g.smoke_q) == Seq::<SmokeData>::empty(),
    {
        GridInteractor {
            cell_count,
            is_dragging: false,
            mouse_pressed_btn: 0,
            velocity_q: new_velocity_queue(),
            smoke_q: new_smoke_queue(),
        }
    }

    /// A button went down: the drag starts with that button.
    pub fn on_mouse_down(&mut self, button: u8)
        ensures
            final(self).is_dragging,
            final(self).mouse_pressed_btn == button,
            final(self).cell_count == old(self).cell_count,
            final(self).velocity_q == old(self).velocity_q,
            final(self).smoke_q == old(self).smoke_q,
    {
        self.is_dragging = true;
        self.mouse_pressed_btn = button;
    }

    /// The button came up: the drag ends.
    pub fn on_mouse_up(&mut self)
        ensures
            !final(self).is_dragging,
            final(self).mouse_pressed_btn == old(self).mouse_pressed_btn,
            final(self).cell_count == old(self).cell_count,
            final(self).velocity_q == old(self).velocity_q,
            final(self).smoke_q == old(self).smoke_q,
    {
        self.is_dragging = false;
    }

    /// Whether a drag with the smoke button (button 0) paints smoke; other
    /// buttons push the fluid.
    pub fn paints_smoke(&self) -> (b: bool)
        ensures
            b == (self.mouse_pressed_btn == 0),
    {
        self.mouse_pressed_btn == 0
    }

    /// Queues full smoke for every cell of the brush's bounding box.
    pub fn queue_smoke_region(
        &mut self,
        min_x: usize,
        max_x: usize,
        min_y: usize,
        max_y: usize,
        width: usize,
    )
        requires
            old(self).wf(),
            max_x <= width,
            max_y * width <= old(self).cell_count,
        ensures
            final(self).wf(),
            final(self).cell_count == old(self).cell_count,
            smoke_queue_items(final(self).smoke_q) == smoke_queue_items(old(self).smoke_q) + painted(
                region_cells(min_x as int, max_x as int, min_y as int, max_y as int, width as int),
            ),
            final(self).velocity_q == old(self).velocity_q,
            final(self).is_dragging == old(self).is_dragging,
            final(self).mouse_pressed_btn == old(self).mouse_pressed_btn,
    {
        let cells = brush_cells(min_x, max_x, min_y, max_y, width);
        proof {
            lemma_region_cells_below(min_x as int, max_x as int, min_y as int, max_y as int, width as int);
        }
        let mut k: usize = 0;
        while k < cells.len()
            invariant
                0 <= k <= cells@.len(),
                smoke_queue_items(self.smoke_q) == smoke_queue_items(old(self).smoke_q) + painted(
                    cells@.take(k as int),
                ),
                self.wf(),
                self.cell_count == old(self).cell_count,
                forall|j: int| 0 <= j < cells@.len() ==> #[trigger] cells@[j] < self.cell_count,
                self.velocity_q == old(self).velocity_q,
                self.is_dragging == old(self).is_dragging,
                self.mouse_pressed_btn == old(self).mouse_pressed_btn,
            decreases cells.len() - k,
        {
            smoke_queue_add(&mut self.smoke_q, SmokeData { i: cells[k], t: FULL_SMOKE });
            proof {
                assert(painted(cells@.take(k + 1)) =~= painted(cells@.take(k as int)).push(
                    SmokeData { i: cells@[k as int], t: FULL_SMOKE },
                ));
            }
            k = k + 1;
        }
        proof {
            assert(cells@.take(cells@.len() as int) =~= cells@);
        }
    }

    /// Queues an edit of the faces of one cell.
    pub fn queue_velocity(&mut self, data: VelocityData)
        requires
            old(self).wf(),
            data.i < old(self).cell_count,
        ensures
            final(self).wf(),
            final(self).cell_count == old(self).cell_count,
            velocity_queue_items(final(self).velocity_q) == velocity_queue_items(
                old(self).velocity_q,
            ).push(data),
            final(self).smoke_q == old(self).smoke_q,
            final(self).is_dragging == old(self).is_dragging,
            final(self).mouse_pressed_btn == old(self).mouse_pressed_btn,
    {
        velocity_queue_add(&mut self.velocity_q, data);
    }
}

/// The brush rectangle holds one entry per cell, row by row from `min_y`,
/// each row from `min_x` rightwards: entry `k` is the cell in column
/// `min_x + k % cols`, row `min_y + k / cols` of rows `width` long, where
/// `cols = max_x - min_x`.
pub proof fn law_region_cells_row_major(min_x: int, max_x: int, min_y: int, max_y: int, width: int)
    requires
        0 <= min_x < max_x <= width,
        0 <= min_y <= max_y,
        max_y * width <= usize::MAX,
    ensures
        region_cells(min_x, max_x, min_y, max_y, width).len() == (max_y - min_y) * (max_x - min_x),
        forall|k: int|
            0 <= k < region_cells(min_x, max_x, min_y, max_y, width).len() ==> #[trigger] region_cells(
                min_x,
                max_x,
                min_y,
                max_y,
                width,
            )[k] == (min_y + k / (max_x - min_x)) * width + min_x + k % (max_x - min_x),
    decreases max_y - min_y,
{
    let cols = max_x - min_x;
    if min_y == max_y {
        assert((max_y - min_y) * cols == 0) by (nonlinear_arith)
            requires
                max_y == min_y,
        ;
    }
    if min_y < max_y {
        assert((max_y - 1) * width <= max_y * width) by (nonlinear_arith)
            requires
                0 <= width,
        ;
        law_region_cells_row_major(min_x, max_x, min_y, max_y - 1, width);
        let prev = region_cells(min_x, max_x, min_y, max_y - 1, width);
        let row = row_cells(max_y - 1, min_x, max_x, width);
        let all = region_cells(min_x, max_x, min_y, max_y, width);
        assert(all == prev + row);
        assert(prev.len() == (max_y - 1 - min_y) * cols);
        assert((max_y - 1 - min_y) * cols + cols == (max_y - min_y) * cols) by (nonlinear_arith);
        assert forall|k: int| 0 <= k < all.len() implies #[trigger] all[k] == (min_y + k / cols) * width
            + min_x + k % cols by {
            if k >= prev.len() {
                let j = k - prev.len();
                assert(0 <= j < cols);
                vstd::arithmetic::div_mod::lemma_fundamental_div_mod_converse(
                    k,
                    cols,
                    max_y - 1 - min_y,
                    j,
                );
                assert(all[k] == row[j]);
                assert(0 <= (max_y - 1) * width) by (nonlinear_arith)
                    requires
                        max_y >= 1,
                        width >= 0,
                ;
                assert((max_y - 1) * width + min_x + j < max_y * width) by (nonlinear_arith)
                    requires
                        min_x + j < max_x,
                        max_x <= width,
                ;
            } else {
                assert(all[k] == prev[k]);
            }
        }
    }
}

/// Painting queues one full-smoke edit per cell, in the cells' order.
pub proof fn law_painted_cells(cells: Seq<usize>)
    ensures
        painted(cells).len() == cells.len(),
        forall|k: int|
            0 <= k < cells.len() ==> #[trigger] painted(cells)[k] == (SmokeData {
                i: cells[k],
                t: FULL_SMOKE,
            }),
{
}

} // verus!
