# flip

A FLIP (fluid-implicit-particle) fluid simulation whose discrete core is verified
with Verus.

The simulation moves particles and grid velocities in floating point. Everything it
decides on integers lives in the verified library under `src/`:

- `cell`: cell types, their glyphs and colour rules.
- `grid`: the fluid grid's cell types and indexing; clamping particle coordinates,
  bilinear interpolation stencils, marking liquid cells, valid velocity samples,
  velocities fixed by solid walls, and the cells (and neighbours) visited by the
  pressure solver.
- `hashing`: the spatial hash used to push particles apart: a counting sort of the
  particles into the cells of a coarse grid, and the neighbour lists drawn from it.
  The proofs show that each bucket holds exactly the particles of its cell and
  that the neighbour list of a particle holds exactly the other particles of the
  surrounding 3x3 cells.
- `spawn`: the lattice on which the initial block of fluid is placed.
- `schedule`: the order of the stages of one step.
- `screen`: the byte protocol of the grayscale OLED panel (initialisation,
  windows, pixel transfers, packing two pixels per byte).
- `text`, `render`: what the terminal and the GPU front ends draw.

`app/` holds the floating-point simulation, the terminal, GPU (wgpu/winit) and OLED
front ends, and `main`; it calls the library for every discrete decision.
