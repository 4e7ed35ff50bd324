use vstd::prelude::*;

use crate::cell::CellTypes;

verus! {

/// Clamps a (possibly negative) cell coordinate into `0 ..= n - 1`.
pub open spec fn clamped(v: int, n: int) -> int {
    if v < 0 {
        0
    } else if v > n - 1 {
        n - 1
    } else {
        v
    }
}

/// Clamps an integer cell coordinate, as obtained by flooring a particle position
/// scaled by the inverse spacing, into the valid range `0 ..= n - 1` of an axis with
/// `n` cells.
pub fn clamp_coord(v: i32, n: usize) -> (r: usize)
    requires
        1 <= n <= i32::MAX,
    ensures
        r == clamped(v as int, n as int),
        r < n,
{
    let hi: i32 = (n - 1) as i32;
    if v < 0 {
        0
    } else if v > hi {
        hi as usize
    } else {
        v as usize
    }
}

/// A clamped coordinate lies on the axis, and a coordinate already on the axis is
/// left as it is; clamping never reverses the order of two coordinates.
pub proof fn lemma_clamped_laws(v: int, w: int, n: int)
    requires
        n >= 1,
    ensures
        0 <= clamped(v, n) < n,
        0 <= v < n ==> clamped(v, n) == v,
        v <= w ==> clamped(v, n) <= clamped(w, n),
        clamped(clamped(v, n), n) == clamped(v, n),
{
}

/// Lower corner of a bilinear interpolation stencil along one axis with `n` cells,
/// from the floored sample coordinate `raw`.
pub open spec fn stencil_low(raw: int, n: int) -> int {
    let top = if n >= 2 { n - 2 } else { 0 };
    if raw < top { raw } else { top }
}

/// Upper corner of a bilinear interpolation stencil along one axis.
pub open spec fn stencil_high(low: int, n: int) -> int {
    let top = if n >= 2 { n - 2 } else { 0 };
    if low + 1 < top { low + 1 } else { top }
}

/// The stencil's corners lie on the axis (one cell short of its last cell when the
/// axis has two or more), the upper one at most one cell above the lower one, and
/// a sample coordinate that leaves room for both corners is kept as the lower one.
pub proof fn lemma_stencil_laws(raw: int, n: int)
    requires
        n >= 1,
        raw >= 0,
    ensures
        0 <= stencil_low(raw, n) <= stencil_high(stencil_low(raw, n), n) <= stencil_low(raw, n)
            + 1,
        stencil_high(stencil_low(raw, n), n) < n,
        n >= 2 ==> stencil_high(stencil_low(raw, n), n) <= n - 2,
        raw + 1 <= n - 2 ==> stencil_low(raw, n) == raw && stencil_high(stencil_low(raw, n), n)
            == raw + 1,
{
}

/// The four grid cells that a particle's quantity is spread over (or gathered
/// from) in bilinear interpolation, together with their axis coordinates.
pub struct Corners {
    pub x0: usize,
    pub x1: usize,
    pub y0: usize,
    pub y1: usize,
    /// cell `(x0, y0)`
    pub nr0: usize,
    /// cell `(x1, y0)`
    pub nr1: usize,
    /// cell `(x1, y1)`
    pub nr2: usize,
    /// cell `(x0, y1)`
    pub nr3: usize,
}

/// The discrete part of the fluid grid: its dimensions and the type of each cell.
/// Cell `(x, y)` is stored at index `x * num_y + y`.
pub struct FluidGrid {
    pub num_x: usize,
    pub num_y: usize,
    pub cell_types: Vec<CellTypes>,
}

/// `k` lies strictly inside the grid (not in the outermost ring of cells).
pub open spec fn is_interior(k: int, nx: int, ny: int) -> bool {
    &&& 1 <= k / ny < nx - 1
    &&& 1 <= k % ny < ny - 1
}

/// The interior liquid cells among the first `m` cells, in increasing order.
pub open spec fn interior_liquid_upto(types: Seq<CellTypes>, nx: int, ny: int, m: int) -> Seq<usize>
    decreases m,
{
    if m <= 0 {
        Seq::empty()
    } else {
        let prev = interior_liquid_upto(types, nx, ny, m - 1);
        if is_interior(m - 1, nx, ny) && types[m - 1] == CellTypes::Liquid {
            prev.push((m - 1) as usize)
        } else {
            prev
        }
    }
}

/// The liquid cells among the first `m` cells, in increasing order.
pub open spec fn liquid_upto(types: Seq<CellTypes>, m: int) -> Seq<usize>
    decreases m,
{
    if m <= 0 {
        Seq::empty()
    } else {
        let prev = liquid_upto(types, m - 1);
        if types[m - 1] == CellTypes::Liquid {
            prev.push((m - 1) as usize)
        } else {
            prev
        }
    }
}

/// The cell types after a particle marks cell `k`: gas becomes liquid, solid and
/// liquid cells are left as they are.
pub open spec fn mark_liquid_at(types: Seq<CellTypes>, k: int) -> Seq<CellTypes> {
    types.update(
        k,
        if types[k] == CellTypes::Gas {
            CellTypes::Liquid
        } else {
            types[k]
        },
    )
}

/// Marking a cell twice is marking it once, marking never changes which cells are
/// solid, and a cell that is not gas never becomes gas.
pub proof fn lemma_mark_liquid_laws(types: Seq<CellTypes>, k: int)
    requires
        0 <= k < types.len(),
    ensures
        mark_liquid_at(mark_liquid_at(types, k), k) == mark_liquid_at(types, k),
        forall|j: int|
            0 <= j < types.len() ==> (#[trigger] mark_liquid_at(types, k)[j] == CellTypes::Solid
                <==> types[j] == CellTypes::Solid),
        mark_liquid_at(types, k)[k] != CellTypes::Gas,
        forall|j: int|
            0 <= j < types.len() && types[j] != CellTypes::Gas ==> #[trigger] mark_liquid_at(
                types,
                k,
            )[j] != CellTypes::Gas,
{
    assert(mark_liquid_at(mark_liquid_at(types, k), k) =~= mark_liquid_at(types, k));
}

/// The cells listed by the pressure solver among the first `m`: exactly the
/// interior liquid ones, each once, in increasing order.
#[verifier::rlimit(30)]
pub proof fn lemma_interior_liquid_members(types: Seq<CellTypes>, nx: int, ny: int, m: int)
    requires
        0 <= m <= types.len(),
        types.len() <= usize::MAX,
        ny >= 1,
    ensures
        forall|c: int|
            0 <= c < m ==> (interior_liquid_upto(types, nx, ny, m).contains(c as usize) <==> (
            is_interior(c, nx, ny) && types[c] == CellTypes::Liquid)),
        forall|a: int, b: int|
            0 <= a < b < interior_liquid_upto(types, nx, ny, m).len() ==> #[trigger] interior_liquid_upto(
                types,
                nx,
                ny,
                m,
            )[a] < #[trigger] interior_liquid_upto(types, nx, ny, m)[b],
        forall|a: int|
            0 <= a < interior_liquid_upto(types, nx, ny, m).len() ==> #[trigger] interior_liquid_upto(
                types,
                nx,
                ny,
                m,
            )[a] < m,
    decreases m,
{
    broadcast use vstd::seq_lib::group_seq_properties;

    if m > 0 {
        lemma_interior_liquid_members(types, nx, ny, m - 1);
        let prev = interior_liquid_upto(types, nx, ny, m - 1);
        let cur = interior_liquid_upto(types, nx, ny, m);
        let last = (m - 1) as usize;
        assert forall|c: int| 0 <= c < m implies (cur.contains(c as usize) <==> (is_interior(
            c,
            nx,
            ny,
        ) && types[c] == CellTypes::Liquid)) by {
            if prev.contains(c as usize) {
                let a = choose|a: int| 0 <= a < prev.len() && prev[a] == c as usize;
                assert(prev[a] < m - 1);
            }
            if c == m - 1 && is_interior(c, nx, ny) && types[c] == CellTypes::Liquid {
                assert(cur[cur.len() - 1] == last);
            }
        }
    }
}

/// The cells listed among the first `m`: exactly the liquid ones, each once, in
/// increasing order.
#[verifier::rlimit(30)]
pub proof fn lemma_liquid_members(types: Seq<CellTypes>, m: int)
    requires
        0 <= m <= types.len(),
        types.len() <= usize::MAX,
    ensures
        forall|c: int|
            0 <= c < m ==> (liquid_upto(types, m).contains(c as usize) <==> types[c]
                == CellTypes::Liquid),
        forall|a: int, b: int|
            0 <= a < b < liquid_upto(types, m).len() ==> #[trigger] liquid_upto(types, m)[a]
                < #[trigger] liquid_upto(types, m)[b],
        forall|a: int|
            0 <= a < liquid_upto(types, m).len() ==> #[trigger] liquid_upto(types, m)[a] < m,
    decreases m,
{
    broadcast use vstd::seq_lib::group_seq_properties;

    if m > 0 {
        lemma_liquid_members(types, m - 1);
        let prev = liquid_upto(types, m - 1);
        let cur = liquid_upto(types, m);
        let last = (m - 1) as usize;
        assert forall|c: int| 0 <= c < m implies (cur.contains(c as usize) <==> types[c]
            == CellTypes::Liquid) by {
            if prev.contains(c as usize) {
                let a = choose|a: int| 0 <= a < prev.len() && prev[a] == c as usize;
                assert(prev[a] < m - 1);
            }
            if c == m - 1 && types[c] == CellTypes::Liquid {
                assert(cur[cur.len() - 1] == last);
            }
        }
    }
}

/// A cell is interior exactly when it is neither in the first or last column nor
/// in the first or last row.
pub proof fn lemma_interior_by_coords(x: int, y: int, nx: int, ny: int)
    requires
        0 <= x < nx,
        0 <= y < ny,
    ensures
        is_interior(x * ny + y, nx, ny) <==> (1 <= x < nx - 1 && 1 <= y < ny - 1),
{
    lemma_index_in_grid(x, y, nx, ny);
}

/// Whether the velocity component stored at cell `k` borders a solid cell and is
/// therefore kept at its previous value: the horizontal component (`component == 0`)
/// looks at the cell itself and its left neighbour, the vertical one at the cell
/// itself and the neighbour below.
pub open spec fn velocity_fixed(types: Seq<CellTypes>, ny: int, component: int, k: int) -> bool {
    ||| types[k] == CellTypes::Solid
    ||| if component == 0 {
        k >= ny && types[k - ny] == CellTypes::Solid
    } else {
        k % ny != 0 && types[k - 1] == CellTypes::Solid
    }
}

/// The velocity stored at cell `(x, y)` is kept at its previous value exactly when
/// a solid cell touches it: the cell itself, or the cell to its left (horizontal
/// component) or below it (vertical component). A liquid or gas cell with no solid
/// neighbour on that side is never fixed.
pub proof fn lemma_fixed_velocity_by_coords(
    types: Seq<CellTypes>,
    nx: int,
    ny: int,
    component: int,
    x: int,
    y: int,
)
    requires
        types.len() == nx * ny,
        0 <= x < nx,
        0 <= y < ny,
    ensures
        velocity_fixed(types, ny, component, x * ny + y) <==> {
            ||| types[x * ny + y] == CellTypes::Solid
            ||| component == 0 && x > 0 && types[(x - 1) * ny + y] == CellTypes::Solid
            ||| component != 0 && y > 0 && types[x * ny + (y - 1)] == CellTypes::Solid
        },
{
    lemma_index_in_grid(x, y, nx, ny);
    assert((x - 1) * ny + y == x * ny + y - ny) by (nonlinear_arith);
    assert(x > 0 <==> x * ny + y >= ny) by (nonlinear_arith)
        requires
            0 <= x,
            0 <= y < ny,
    ;
}

/// Cell `(x, y)` of an `nx` by `ny` grid has an index inside the grid, and the
/// index gives back both coordinates: different cells have different indices.
pub proof fn lemma_index_in_grid(x: int, y: int, nx: int, ny: int)
    requires
        0 <= x < nx,
        0 <= y < ny,
    ensures
        0 <= x * ny + y < nx * ny,
        (x * ny + y) / ny == x,
        (x * ny + y) % ny == y,
{
    assert(0 <= x * ny + y < nx * ny) by (nonlinear_arith)
        requires
            0 <= x < nx,
            0 <= y < ny,
    ;
    vstd::arithmetic::div_mod::lemma_fundamental_div_mod_converse(x * ny + y, ny, x, y);
}

impl FluidGrid {
    pub open spec fn num_cells(&self) -> int {
        self.num_x * self.num_y
    }

    /// Well-formed: both axes have at least one cell, and there is one type per cell.
    pub open spec fn wf(&self) -> bool {
        &&& 1 <= self.num_x <= i32::MAX
        &&& 1 <= self.num_y <= i32::MAX
        &&& self.num_x * self.num_y <= usize::MAX
        &&& self.cell_types@.len() == self.num_x * self.num_y
    }

    /// A grid of `num_x` by `num_y` cells, all of them liquid.
    pub fn new(num_x: usize, num_y: usize) -> (g: FluidGrid)
        requires
            1 <= num_x <= i32::MAX,
            1 <= num_y <= i32::MAX,
            num_x * num_y <= usize::MAX,
        ensures
            g.wf(),
            g.num_x == num_x,
            g.num_y == num_y,
            forall|k: int| 0 <= k < g.num_cells() ==> g.cell_types@[k] == CellTypes::Liquid,
    {
        let n = num_x * num_y;
        let mut cell_types: Vec<CellTypes> = Vec::new();
        let mut k: usize = 0;
        while k < n
            invariant
                k <= n,
                cell_types@.len() == k,
                forall|i: int| 0 <= i < k ==> cell_types@[i] == CellTypes::Liquid,
            decreases n - k,
        {
            cell_types.push(CellTypes::Liquid);
            k = k + 1;
        }
        FluidGrid { num_x, num_y, cell_types }
    }

    /// The index of cell `(x, y)`.
    pub fn cell_index(&self, x: usize, y: usize) -> (k: usize)
        requires
            self.wf(),
            x < self.num_x,
            y < self.num_y,
        ensures
            k == x * self.num_y + y,
            k < self.num_cells(),
    {
        proof {
            lemma_index_in_grid(x as int, y as int, self.num_x as int, self.num_y as int);
        }
        x * self.num_y + y
    }

    /// The type of cell `(x, y)`.
    pub fn get_cell(&self, x: usize, y: usize) -> (t: CellTypes)
        requires
            self.wf(),
            x < self.num_x,
            y < self.num_y,
        ensures
            t == self.cell_types@[x * self.num_y + y],
    {
        let k = self.cell_index(x, y);
        self.cell_types[k]
    }

    /// The cell that contains a particle whose floored coordinates are `(xi, yi)`,
    /// after clamping them into the grid.
    pub fn particle_cell(&self, xi: i32, yi: i32) -> (k: usize)
        requires
            self.wf(),
        ensures
            k == clamped(xi as int, self.num_x as int) * self.num_y + clamped(
                yi as int,
                self.num_y as int,
            ),
            k < self.num_cells(),
    {
        let x = clamp_coord(xi, self.num_x);
        let y = clamp_coord(yi, self.num_y);
        self.cell_index(x, y)
    }

    /// Resets every cell before particles are transferred to the grid: a cell
    /// becomes solid where `solid` says so (its solid fraction is zero) and gas
    /// elsewhere.
    pub fn reset_cell_types(&mut self, solid: &Vec<bool>)
        requires
            old(self).wf(),
            solid@.len() == old(self).cell_types@.len(),
        ensures
            final(self).wf(),
            final(self).num_x == old(self).num_x,
            final(self).num_y == old(self).num_y,
            forall|k: int|
                0 <= k < solid@.len() ==> final(self).cell_types@[k] == (if solid@[k] {
                    CellTypes::Solid
                } else {
                    CellTypes::Gas
                }),
    {
        let n = self.cell_types.len();
        let mut k: usize = 0;
        while k < n
            invariant
                k <= n,
                n == solid@.len(),
                self.num_x == old(self).num_x,
                self.num_y == old(self).num_y,
                self.cell_types@.len() == n,
                old(self).wf(),
                old(self).cell_types@.len() == n,
                forall|i: int|
                    0 <= i < k ==> self.cell_types@[i] == (if solid@[i] {
                        CellTypes::Solid
                    } else {
                        CellTypes::Gas
                    }),
            decreases n - k,
        {
            let t = if solid[k] {
                CellTypes::Solid
            } else {
                CellTypes::Gas
            };
            self.cell_types.set(k, t);
            k = k + 1;
        }
    }

    /// The cell of a particle with floored coordinates `(xi, yi)`.
    pub open spec fn cell_at(&self, xi: int, yi: int) -> int {
        clamped(xi, self.num_x as int) * self.num_y + clamped(yi, self.num_y as int)
    }

    /// Some particle among the first `m` of `coords` lies in cell `k`.
    pub open spec fn holds_particle(&self, coords: Seq<(i32, i32)>, m: int, k: int) -> bool {
        exists|i: int|
            0 <= i < m && self.cell_at(#[trigger] coords[i].0 as int, coords[i].1 as int) == k
    }

    /// Marks the cells of all particles as liquid before velocities are transferred
    /// to the grid: a gas cell that holds a particle becomes liquid, every other
    /// cell keeps its type.
    pub fn mark_particles_liquid(&mut self, coords: &Vec<(i32, i32)>)
        requires
            old(self).wf(),
        ensures
            final(self).wf(),
            final(self).num_x == old(self).num_x,
            final(self).num_y == old(self).num_y,
            final(self).cell_types@.len() == old(self).cell_types@.len(),
            forall|k: int|
                0 <= k < old(self).cell_types@.len() ==> #[trigger] final(self).cell_types@[k] == if old(
                    self,
                ).cell_types@[k] == CellTypes::Gas && old(self).holds_particle(
                    coords@,
                    coords@.len() as int,
                    k,
                ) {
                    CellTypes::Liquid
                } else {
                    old(self).cell_types@[k]
                },
    {
        let ghost start = self.cell_types@;
        let mut i: usize = 0;
        while i < coords.len()
            invariant
                self.wf(),
                self.num_x == old(self).num_x,
                self.num_y == old(self).num_y,
                start == old(self).cell_types@,
                self.cell_types@.len() == start.len(),
                i <= coords@.len(),
                forall|k: int|
                    0 <= k < start.len() ==> #[trigger] self.cell_types@[k] == if start[k]
                        == CellTypes::Gas && old(self).holds_particle(coords@, i as int, k) {
                        CellTypes::Liquid
                    } else {
                        start[k]
                    },
            decreases coords@.len() - i,
        {
            let (xi, yi) = coords[i];
            let ghost c = self.cell_at(xi as int, yi as int);
            let ghost prev = self.cell_types@;
            self.mark_liquid(xi, yi);
            proof {
                assert forall|k: int| 0 <= k < start.len() implies #[trigger] self.cell_types@[k]
                    == if start[k] == CellTypes::Gas && old(self).holds_particle(
                    coords@,
                    i + 1,
                    k,
                ) {
                    CellTypes::Liquid
                } else {
                    start[k]
                } by {
                    assert(coords@[i as int] == (xi, yi));
                    assert(self.cell_types@ == mark_liquid_at(prev, c));
                    lemma_index_in_grid(
                        clamped(xi as int, self.num_x as int),
                        clamped(yi as int, self.num_y as int),
                        self.num_x as int,
                        self.num_y as int,
                    );
                    if k != c {
                        assert(self.cell_types@[k] == prev[k]);
                        if old(self).holds_particle(coords@, i + 1, k) {
                            let w = choose|w: int|
                                0 <= w < i + 1 && old(self).cell_at(
                                    #[trigger] coords@[w].0 as int,
                                    coords@[w].1 as int,
                                ) == k;
                            assert(w != i);
                            assert(old(self).holds_particle(coords@, i as int, k));
                        }
                        if old(self).holds_particle(coords@, i as int, k) {
                            let w = choose|w: int|
                                0 <= w < i && old(self).cell_at(
                                    #[trigger] coords@[w].0 as int,
                                    coords@[w].1 as int,
                                ) == k;
                            assert(old(self).holds_particle(coords@, i + 1, k));
                        }
                    } else {
                        assert(old(self).cell_at(
                            coords@[i as int].0 as int,
                            coords@[i as int].1 as int,
                        ) == k);
                        assert(old(self).holds_particle(coords@, i + 1, k));
                    }
                }
            }
            i = i + 1;
        }
    }

    /// Marks the cell of a particle with floored coordinates `(xi, yi)` as liquid,
    /// if it was gas; solid and liquid cells keep their type.
    pub fn mark_liquid(&mut self, xi: i32, yi: i32)
        requires
            old(self).wf(),
        ensures
            final(self).wf(),
            final(self).num_x == old(self).num_x,
            final(self).num_y == old(self).num_y,
            final(self).cell_types@ == mark_liquid_at(
                old(self).cell_types@,
                clamped(xi as int, old(self).num_x as int) * old(self).num_y + clamped(
                    yi as int,
                    old(self).num_y as int,
                ),
            ),
    {
        let k = self.particle_cell(xi, yi);
        if self.cell_types[k] == CellTypes::Gas {
            self.cell_types.set(k, CellTypes::Liquid);
        }
    }

    /// The four cells of the bilinear interpolation stencil whose lower corner has
    /// the floored coordinates `(x0_raw, y0_raw)`; the corners are kept one cell
    /// away from the last row and column.
    pub fn interpolation_cells(&self, x0_raw: usize, y0_raw: usize) -> (c: Corners)
        requires
            self.wf(),
        ensures
            c.x0 == stencil_low(x0_raw as int, self.num_x as int),
            c.x1 == stencil_high(c.x0 as int, self.num_x as int),
            c.y0 == stencil_low(y0_raw as int, self.num_y as int),
            c.y1 == stencil_high(c.y0 as int, self.num_y as int),
            c.nr0 == c.x0 * self.num_y + c.y0,
            c.nr1 == c.x1 * self.num_y + c.y0,
            c.nr2 == c.x1 * self.num_y + c.y1,
            c.nr3 == c.x0 * self.num_y + c.y1,
            c.nr0 < self.num_cells(),
            c.nr1 < self.num_cells(),
            c.nr2 < self.num_cells(),
            c.nr3 < self.num_cells(),
    {
        let top_x = self.num_x.saturating_sub(2);
        let top_y = self.num_y.saturating_sub(2);
        let x0 = if x0_raw < top_x {
            x0_raw
        } else {
            top_x
        };
        let x1 = if x0 + 1 < top_x {
            x0 + 1
        } else {
            top_x
        };
        let y0 = if y0_raw < top_y {
            y0_raw
        } else {
            top_y
        };
        let y1 = if y0 + 1 < top_y {
            y0 + 1
        } else {
            top_y
        };
        let nr0 = self.cell_index(x0, y0);
        let nr1 = self.cell_index(x1, y0);
        let nr2 = self.cell_index(x1, y1);
        let nr3 = self.cell_index(x0, y1);
        Corners { x0, x1, y0, y1, nr0, nr1, nr2, nr3 }
    }

    /// Whether a velocity sample at cell `nr` takes part in the grid-to-particle
    /// transfer: the cell, or its neighbour `offset` cells before it, is not gas.
    pub fn sample_is_valid(&self, nr: usize, offset: usize) -> (b: bool)
        requires
            self.wf(),
            nr < self.num_cells(),
        ensures
            b == (self.cell_types@[nr as int] != CellTypes::Gas || (nr >= offset
                && self.cell_types@[nr - offset] != CellTypes::Gas)),
    {
        self.cell_types[nr] != CellTypes::Gas || (nr >= offset && self.cell_types[nr - offset]
            != CellTypes::Gas)
    }

    /// For every cell, whether its velocity component (`component == 0`: horizontal,
    /// otherwise vertical) borders a solid cell and is restored to its previous value.
    pub fn fixed_velocity_mask(&self, component: usize) -> (mask: Vec<bool>)
        requires
            self.wf(),
        ensures
            mask@.len() == self.num_cells(),
            forall|k: int|
                0 <= k < self.num_cells() ==> mask@[k] == velocity_fixed(
                    self.cell_types@,
                    self.num_y as int,
                    component as int,
                    k,
                ),
            forall|x: int, y: int|
                0 <= x < self.num_x && 0 <= y < self.num_y ==> (#[trigger] mask@[x * self.num_y
                    + y] <==> {
                    ||| self.cell_types@[x * self.num_y + y] == CellTypes::Solid
                    ||| component == 0 && x > 0 && self.cell_types@[(x - 1) * self.num_y + y]
                        == CellTypes::Solid
                    ||| component != 0 && y > 0 && self.cell_types@[x * self.num_y + (y - 1)]
                        == CellTypes::Solid
                }),
    {
        let n = self.cell_types.len();
        let ny = self.num_y;
        let mut mask: Vec<bool> = Vec::new();
        let mut k: usize = 0;
        while k < n
            invariant
                self.wf(),
                n == self.cell_types@.len(),
                ny == self.num_y,
                k <= n,
                mask@.len() == k,
                forall|i: int|
                    0 <= i < k ==> mask@[i] == velocity_fixed(
                        self.cell_types@,
                        ny as int,
                        component as int,
                        i,
                    ),
            decreases n - k,
        {
            let solid = self.cell_types[k] == CellTypes::Solid;
            proof {
                vstd::arithmetic::div_mod::lemma_small_mod(0, ny as nat);
            }
            let neighbour = if component == 0 {
                k >= ny && self.cell_types[k - ny] == CellTypes::Solid
            } else {
                k % ny != 0 && self.cell_types[k - 1] == CellTypes::Solid
            };
            mask.push(solid || neighbour);
            k = k + 1;
        }
        proof {
            assert forall|x: int, y: int|
                0 <= x < self.num_x && 0 <= y < self.num_y implies (#[trigger] mask@[x * self.num_y
                + y] <==> {
                ||| self.cell_types@[x * self.num_y + y] == CellTypes::Solid
                ||| component == 0 && x > 0 && self.cell_types@[(x - 1) * self.num_y + y]
                    == CellTypes::Solid
                ||| component != 0 && y > 0 && self.cell_types@[x * self.num_y + (y - 1)]
                    == CellTypes::Solid
            }) by {
                lemma_index_in_grid(x, y, self.num_x as int, self.num_y as int);
                lemma_fixed_velocity_by_coords(
                    self.cell_types@,
                    self.num_x as int,
                    self.num_y as int,
                    component as int,
                    x,
                    y,
                );
            }
        }
        mask
    }

    /// The interior liquid cells, in the order in which the pressure solver visits
    /// them (column by column, bottom to top).
    pub fn pressure_cells(&self) -> (cells: Vec<usize>)
        requires
            self.wf(),
        ensures
            cells@ == interior_liquid_upto(
                self.cell_types@,
                self.num_x as int,
                self.num_y as int,
                self.num_cells(),
            ),
    {
        let n = self.cell_types.len();
        let nx = self.num_x;
        let ny = self.num_y;
        let mut cells: Vec<usize> = Vec::new();
        let mut k: usize = 0;
        while k < n
            invariant
                self.wf(),
                n == self.cell_types@.len(),
                nx == self.num_x,
                ny == self.num_y,
                k <= n,
                cells@ == interior_liquid_upto(self.cell_types@, nx as int, ny as int, k as int),
            decreases n - k,
        {
            let i = k / ny;
            let j = k % ny;
            if 1 <= i && i + 1 < nx && 1 <= j && j + 1 < ny && self.cell_types[k]
                == CellTypes::Liquid {
                cells.push(k);
            }
            k = k + 1;
        }
        cells
    }

    /// The four neighbours `(left, right, bottom, top)` of an interior cell.
    pub fn pressure_stencil(&self, center: usize) -> (s: (usize, usize, usize, usize))
        requires
            self.wf(),
            is_interior(center as int, self.num_x as int, self.num_y as int),
        ensures
            s.0 == center - self.num_y,
            s.1 == center + self.num_y,
            s.2 == center - 1,
            s.3 == center + 1,
            s.1 < self.num_cells(),
            s.3 < self.num_cells(),
    {
        let ny = self.num_y;
        proof {
            let c = center as int;
            let q = c / ny as int;
            let r = c % ny as int;
            let nx = self.num_x as int;
            vstd::arithmetic::div_mod::lemma_fundamental_div_mod(c, ny as int);
            assert(c + ny < nx * ny) by (nonlinear_arith)
                requires
                    c == ny * q + r,
                    0 <= r < ny - 1,
                    q < nx - 1,
            ;
            assert(c >= ny) by (nonlinear_arith)
                requires
                    c == ny * q + r,
                    0 <= r,
                    q >= 1,
                    ny >= 1,
            ;
        }
        (center - ny, center + ny, center - 1, center + 1)
    }

    /// The liquid cells, in increasing order.
    pub fn liquid_cells(&self) -> (cells: Vec<usize>)
        requires
            self.wf(),
        ensures
            cells@ == liquid_upto(self.cell_types@, self.num_cells()),
    {
        let n = self.cell_types.len();
        let mut cells: Vec<usize> = Vec::new();
        let mut k: usize = 0;
        while k < n
            invariant
                self.wf(),
                n == self.cell_types@.len(),
                k <= n,
                cells@ == liquid_upto(self.cell_types@, k as int),
            decreases n - k,
        {
            if self.cell_types[k] == CellTypes::Liquid {
                cells.push(k);
            }
            k = k + 1;
        }
        cells
    }
}

} // verus!
