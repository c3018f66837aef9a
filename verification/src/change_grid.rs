use vstd::prelude::*;
use crate::grid::{
    Grid, MAX_SIDE, cell_index, lemma_cell_index_bounds, lemma_truncated_rem_wraps, neighbor_index,
    wrap,
};

verus! {

/// Whether the cell stored at index `i` lies in the 3 by 3 neighbourhood of `(px, py)`
/// on a torus of `width` by `height` cells.
pub open spec fn in_neighborhood(width: int, height: int, px: int, py: int, i: int) -> bool {
    exists|k: int| 0 <= k < 9 && #[trigger] neighbor_index(width, height, px, py, k % 3 - 1, k / 3 - 1) == i
}

/// The cells whose next state must be computed: a cell is marked when it or one of its
/// neighbours changed in the last generation.
pub struct ChangeGrid {
    pub grid: Grid<bool>,
}

impl ChangeGrid {
    /// A grid with no cell marked.
    pub fn new(width: usize, height: usize) -> (g: Self)
        requires
            width * height <= usize::MAX,
        ensures
            g.grid.wf(),
            g.grid.width == width,
            g.grid.height == height,
            forall|i: int| 0 <= i < g.grid.storage@.len() ==> !#[trigger] g.grid.storage@[i],
    {
        Self { grid: Grid::new(width, height) }
    }

    /// Marks the cell `(px, py)` and its eight neighbours on the torus.
    pub fn set_changed(&mut self, px: usize, py: usize)
        requires
            old(self).grid.wf(),
            px < old(self).grid.width <= MAX_SIDE,
            py < old(self).grid.height <= MAX_SIDE,
        ensures
            final(self).grid.wf(),
            final(self).grid.width == old(self).grid.width,
            final(self).grid.height == old(self).grid.height,
            forall|i: int|
                0 <= i < final(self).grid.storage@.len() ==> #[trigger] final(self).grid.storage@[i] == (
                old(self).grid.storage@[i] || in_neighborhood(
                    old(self).grid.width as int,
                    old(self).grid.height as int,
                    px as int,
                    py as int,
                    i,
                )),
    {
        let width = self.grid.width;
        let height = self.grid.height;
        let ghost w = width as int;
        let ghost h = height as int;
        for oy in -1..2i32
            invariant
                self.grid.wf(),
                self.grid.width == width,
                self.grid.height == height,
                px < width <= MAX_SIDE,
                py < height <= MAX_SIDE,
                w == width,
                h == height,
                -1 <= oy <= 2,
                forall|i: int|
                    0 <= i < self.grid.storage@.len() ==> #[trigger] self.grid.storage@[i] == (
                    old(self).grid.storage@[i] || exists|k: int|
                        0 <= k < 3 * (oy + 1) && #[trigger] neighbor_index(
                            w,
                            h,
                            px as int,
                            py as int,
                            k % 3 - 1,
                            k / 3 - 1,
                        ) == i),
        {
            for ox in -1..2i32
                invariant
                    self.grid.wf(),
                    self.grid.width == width,
                    self.grid.height == height,
                    px < width <= MAX_SIDE,
                    py < height <= MAX_SIDE,
                    w == width,
                    h == height,
                    -1 <= oy <= 1,
                    -1 <= ox <= 2,
                    forall|i: int|
                        0 <= i < self.grid.storage@.len() ==> #[trigger] self.grid.storage@[i] == (
                        old(self).grid.storage@[i] || exists|k: int|
                            0 <= k < 3 * (oy + 1) + (ox + 1) && #[trigger] neighbor_index(
                                w,
                                h,
                                px as int,
                                py as int,
                                k % 3 - 1,
                                k / 3 - 1,
                            ) == i),
            {
                proof {
                    lemma_truncated_rem_wraps(ox + px as int, w);
                    lemma_truncated_rem_wraps(oy + py as int, h);
                }
                let nx = ((ox + px as i32) % width as i32 + width as i32) as usize % width;
                let ny = ((oy + py as i32) % height as i32 + height as i32) as usize % height;
                let ghost kk = 3 * (oy + 1) + (ox + 1);
                assert(kk % 3 - 1 == ox && kk / 3 - 1 == oy);
                assert(nx as int == wrap(px + ox, w));
                assert(ny as int == wrap(py + oy, h));
                let ghost before = self.grid.storage@;
                proof {
                    lemma_cell_index_bounds(w, h, nx as int, ny as int);
                }
                self.grid.set_value(true, nx, ny);
                proof {
                    let t = cell_index(w, nx as int, ny as int);
                    assert(neighbor_index(w, h, px as int, py as int, kk % 3 - 1, kk / 3 - 1) == t);
                    assert forall|i: int| 0 <= i < self.grid.storage@.len() implies #[trigger] self.grid.storage@[i] == (
                        old(self).grid.storage@[i] || exists|k: int|
                            0 <= k < kk + 1 && #[trigger] neighbor_index(
                                w,
                                h,
                                px as int,
                                py as int,
                                k % 3 - 1,
                                k / 3 - 1,
                            ) == i) by {
                        if i == t {
                        } else {
                            if exists|k: int|
                                0 <= k < kk + 1 && #[trigger] neighbor_index(
                                    w,
                                    h,
                                    px as int,
                                    py as int,
                                    k % 3 - 1,
                                    k / 3 - 1,
                                ) == i {
                                let k = choose|k: int|
                                    0 <= k < kk + 1 && #[trigger] neighbor_index(
                                        w,
                                        h,
                                        px as int,
                                        py as int,
                                        k % 3 - 1,
                                        k / 3 - 1,
                                    ) == i;
                                assert(k != kk);
                            }
                        }
                    }
                }
            }
        }
    }
}

} // verus!
