use vstd::prelude::*;

use crate::cell::{cell_glyph, glyph_of};
use crate::grid::{lemma_index_in_grid, FluidGrid};

verus! {

/// The lines the text front end prints for the grid: the top row first, each cell
/// drawn as two copies of its glyph, columns left to right.
pub fn frame_rows(grid: &FluidGrid) -> (rows: Vec<Vec<char>>)
    requires
        grid.wf(),
    ensures
        rows@.len() == grid.num_y,
        forall|r: int|
            0 <= r < grid.num_y ==> (#[trigger] rows@[r])@.len() == 2 * grid.num_x,
        forall|r: int, k: int|
            0 <= r < grid.num_y && 0 <= k < 2 * grid.num_x ==> (#[trigger] rows@[r]@[k])
                == glyph_of(grid.cell_types@[(k / 2) * grid.num_y + (grid.num_y - 1 - r)]),
{
    let w = grid.num_x;
    let h = grid.num_y;
    let mut rows: Vec<Vec<char>> = Vec::new();
    let mut r: usize = 0;
    while r < h
        invariant
            grid.wf(),
            w == grid.num_x,
            h == grid.num_y,
            r <= h,
            rows@.len() == r,
            forall|q: int| 0 <= q < r ==> (#[trigger] rows@[q])@.len() == 2 * w,
            forall|q: int, k: int|
                0 <= q < r && 0 <= k < 2 * w ==> (#[trigger] rows@[q]@[k]) == glyph_of(
                    grid.cell_types@[(k / 2) * h + (h - 1 - q)],
                ),
        decreases h - r,
    {
        let y = h - 1 - r;
        let mut line: Vec<char> = Vec::new();
        let mut x: usize = 0;
        while x < w
            invariant
                grid.wf(),
                w == grid.num_x,
                h == grid.num_y,
                r < h,
                y == h - 1 - r,
                x <= w,
                line@.len() == 2 * x,
                forall|k: int|
                    0 <= k < 2 * x ==> #[trigger] line@[k] == glyph_of(
                        grid.cell_types@[(k / 2) * h + y],
                    ),
            decreases w - x,
        {
            let c = cell_glyph(grid.get_cell(x, y));
            line.push(c);
            line.push(c);
            x = x + 1;
        }
        rows.push(line);
        r = r + 1;
    }
    rows
}

} // verus!
