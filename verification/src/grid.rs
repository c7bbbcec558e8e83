//! The CPU-side state of the smoke grid that the GPU passes work on: the
//! velocity faces, the smoke densities and the solid map, with the record of
//! which of them have changed since they were last sent to the GPU.

use vstd::prelude::*;
use crate::layout::{
    cell_count, cell_faces, init_solid_map, initial_velocities, initial_velocities_spec, is_border,
    lemma_cell_position, set_face_velocities, face_velocities, velocity_count, with_faces, Cell, Pair,
    ZERO,
};

verus! {

/// The grid state shared with the GPU.
pub struct GridGpu {
    pub width: usize,
    pub height: usize,
    pub smoke: Vec<u32>,
    pub velocities: Vec<Pair>,
    pub solid_map: Vec<bool>,
    pub velocities_dirty: bool,
    pub smoke_dirty: bool,
    pub is_even_frame: bool,
}

impl GridGpu {
    /// The sizes of the arrays match the grid's dimensions.
    pub open spec fn wf(&self) -> bool {
        &&& 1 <= self.width
        &&& 1 <= self.height
        &&& velocity_count(self.width as int, self.height as int) <= usize::MAX
        &&& self.smoke@.len() == cell_count(self.width as int, self.height as int)
        &&& self.solid_map@.len() == cell_count(self.width as int, self.height as int)
        &&& self.velocities@.len() == velocity_count(self.width as int, self.height as int)
    }

    /// A still grid of `width` by `height` cells: zero velocities with the
    /// out-of-grid faces marked `INVALID`, no smoke, solid border cells.
    /// Both arrays are due to be sent to the GPU.
    pub fn new(width: usize, height: usize) -> (g: GridGpu)
        requires
            1 <= width,
            1 <= height,
            velocity_count(width as int, height as int) <= usize::MAX,
        ensures
            g.wf(),
            g.width == width,
            g.height == height,
            g.velocities@ == initial_velocities_spec(width as int, height as int),
            g.smoke@ == Seq::new(cell_count(width as int, height as int) as nat, |i: int| ZERO),
            forall|i: int|
                0 <= i < cell_count(width as int, height as int) ==> #[trigger] g.solid_map@[i]
                    == is_border(i, width as int, height as int),
            g.velocities_dirty,
            g.smoke_dirty,
            g.is_even_frame,
    {
        proof {
            assert(velocity_count(width as int, height as int) == width * height + width + height + 1)
                by (nonlinear_arith);
            assert(width * height >= 0) by (nonlinear_arith)
                requires
                    width >= 1,
                    height >= 1,
            ;
        }
        let size = width * height;
        let velocities = initial_velocities(width, height);
        let smoke: Vec<u32> = vec![ZERO; size];
        let mut solid_map: Vec<bool> = vec![false; size];
        init_solid_map(&mut solid_map, width, height);
        let g = GridGpu {
            width,
            height,
            smoke,
            velocities,
            solid_map,
            velocities_dirty: true,
            smoke_dirty: true,
            is_even_frame: true,
        };
        assert(g.smoke@ =~= Seq::new(size as nat, |i: int| ZERO));
        g
    }

    /// Overwrites the faces of cell `pressure_index` where a new value is
    /// given; the velocities are then due to be sent to the GPU.
    pub fn set_velocities(
        &mut self,
        pressure_index: usize,
        t: Option<u32>,
        l: Option<u32>,
        b: Option<u32>,
        r: Option<u32>,
    )
        requires
            old(self).wf(),
            pressure_index < cell_count(old(self).width as int, old(self).height as int),
        ensures
            final(self).wf(),
            final(self).width == old(self).width,
            final(self).height == old(self).height,
            final(self).velocities@ == with_faces(
                old(self).velocities@,
                old(self).width as int,
                pressure_index as int,
                t,
                l,
                b,
                r,
            ),
            final(self).smoke@ == old(self).smoke@,
            final(self).solid_map@ == old(self).solid_map@,
            final(self).velocities_dirty,
            final(self).smoke_dirty == old(self).smoke_dirty,
            final(self).is_even_frame == old(self).is_even_frame,
    {
        set_face_velocities(&mut self.velocities, self.width, self.height, pressure_index, t, l, b, r);
        proof {
            lemma_cell_position(pressure_index as int, self.width as int, self.height as int);
        }
        self.velocities_dirty = true;
    }

    /// The velocities on the four faces of cell `pressure_index`.
    pub fn get_velocities(&self, pressure_index: usize) -> (c: Cell)
        requires
            self.wf(),
            pressure_index < cell_count(self.width as int, self.height as int),
        ensures
            c == cell_faces(self.velocities@, self.width as int, pressure_index as int),
    {
        face_velocities(&self.velocities, self.width, self.height, pressure_index)
    }

    /// Sets the smoke density of cell `i`; the smoke is then due to be sent
    /// to the GPU.
    pub fn set_smoke(&mut self, i: usize, val: u32)
        requires
            old(self).wf(),
            i < cell_count(old(self).width as int, old(self).height as int),
        ensures
            final(self).wf(),
            final(self).width == old(self).width,
            final(self).height == old(self).height,
            final(self).smoke@ == old(self).smoke@.update(i as int, val),
            final(self).velocities@ == old(self).velocities@,
            final(self).solid_map@ == old(self).solid_map@,
            final(self).smoke_dirty,
            final(self).velocities_dirty == old(self).velocities_dirty,
            final(self).is_even_frame == old(self).is_even_frame,
    {
        self.smoke.set(i, val);
        self.smoke_dirty = true;
    }

    /// Starts a simulation step: reports which arrays must be sent to the GPU
    /// (velocities, smoke) and counts them as sent.
    pub fn take_pending_uploads(&mut self) -> (uploads: (bool, bool))
        ensures
            uploads == (old(self).velocities_dirty, old(self).smoke_dirty),
            !final(self).velocities_dirty,
            !final(self).smoke_dirty,
            final(self).width == old(self).width,
            final(self).height == old(self).height,
            final(self).velocities@ == old(self).velocities@,
            final(self).smoke@ == old(self).smoke@,
            final(self).solid_map@ == old(self).solid_map@,
            final(self).is_even_frame == old(self).is_even_frame,
    {
        let uploads = (self.velocities_dirty, self.smoke_dirty);
        self.velocities_dirty = false;
        self.smoke_dirty = false;
        uploads
    }

    /// Ends a simulation step: takes over the velocities and smoke that the
    /// GPU computed. They match the GPU, so nothing is due to be sent.
    pub fn finish_step(&mut self, velocities: Vec<Pair>, smoke: Vec<u32>)
        requires
            old(self).wf(),
            velocities@.len() == old(self).velocities@.len(),
            smoke@.len() == old(self).smoke@.len(),
        ensures
            final(self).wf(),
            final(self).width == old(self).width,
            final(self).height == old(self).height,
            final(self).velocities@ == velocities@,
            final(self).smoke@ == smoke@,
            final(self).solid_map@ == old(self).solid_map@,
            final(self).velocities_dirty == old(self).velocities_dirty,
            final(self).smoke_dirty == old(self).smoke_dirty,
            final(self).is_even_frame == old(self).is_even_frame,
    {
        self.velocities = velocities;
        self.smoke = smoke;
    }

    /// Swaps the roles of the two GPU buffer sets, as each step writes its
    /// results into the set it did not read.
    pub fn advance_frame(&mut self)
        ensures
            final(self).is_even_frame == !old(self).is_even_frame,
            final(self).width == old(self).width,
            final(self).height == old(self).height,
            final(self).velocities@ == old(self).velocities@,
            final(self).smoke@ == old(self).smoke@,
            final(self).solid_map@ == old(self).solid_map@,
            final(self).velocities_dirty == old(self).velocities_dirty,
            final(self).smoke_dirty == old(self).smoke_dirty,
    {
        self.is_even_frame = !self.is_even_frame;
    }
}

} // verus!
