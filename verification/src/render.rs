use vstd::prelude::*;

verus! {

/// What an instanced draw call renders.
#[derive(PartialEq, Eq, Structural, Clone, Copy, Debug)]
pub enum Layer {
    Grid,
    Particles,
}

/// An instanced draw of a four-vertex quad (triangle strip) per instance.
#[derive(PartialEq, Eq, Structural, Clone, Copy, Debug)]
pub struct DrawCall {
    pub layer: Layer,
    pub vertices: u32,
    pub instances: u32,
}

pub open spec fn grid_calls(draw_grid: bool, num_cells: usize) -> Seq<DrawCall> {
    if draw_grid {
        seq![DrawCall { layer: Layer::Grid, vertices: 4, instances: num_cells as u32 }]
    } else {
        Seq::empty()
    }
}

pub open spec fn particle_calls(draw_particles: bool, num_particles: usize) -> Seq<DrawCall> {
    if draw_particles {
        seq![DrawCall { layer: Layer::Particles, vertices: 4, instances: num_particles as u32 }]
    } else {
        Seq::empty()
    }
}

/// The draw calls of one frame: first the grid cells, then the particles, each only
/// when it is switched on. The instance counts are the numbers of cells and of
/// particles, converted to `u32` as the GPU interface takes them.
pub fn draw_calls(draw_grid: bool, draw_particles: bool, num_cells: usize, num_particles: usize) -> (calls: Vec<DrawCall>)
    ensures
        calls@ == grid_calls(draw_grid, num_cells) + particle_calls(draw_particles, num_particles),
        calls@.len() == (if draw_grid {
            1int
        } else {
            0int
        }) + (if draw_particles {
            1int
        } else {
            0int
        }),
        draw_grid ==> calls@[0] == (DrawCall {
            layer: Layer::Grid,
            vertices: 4,
            instances: num_cells as u32,
        }),
        draw_particles ==> calls@[calls@.len() - 1] == (DrawCall {
            layer: Layer::Particles,
            vertices: 4,
            instances: num_particles as u32,
        }),
        forall|i: int|
            0 <= i < calls@.len() ==> (#[trigger] calls@[i]).vertices == 4 && (calls@[i].layer
                == Layer::Grid ==> draw_grid) && (calls@[i].layer == Layer::Particles
                ==> draw_particles),
{
    let mut calls: Vec<DrawCall> = Vec::new();
    if draw_grid {
        calls.push(DrawCall { layer: Layer::Grid, vertices: 4, instances: num_cells as u32 });
    }
    if draw_particles {
        calls.push(
            DrawCall { layer: Layer::Particles, vertices: 4, instances: num_particles as u32 },
        );
    }
    assert(calls@ =~= grid_calls(draw_grid, num_cells) + particle_calls(
        draw_particles,
        num_particles,
    ));
    calls
}

/// The surface size after a resize request: a request with a zero side (a
/// minimised window) leaves the size as it was.
pub fn resize_target(current: (u32, u32), requested: (u32, u32)) -> (size: (u32, u32))
    ensures
        size == if requested.0 > 0 && requested.1 > 0 {
            requested
        } else {
            current
        },
{
    if requested.0 > 0 && requested.1 > 0 {
        requested
    } else {
        current
    }
}

} // verus!
