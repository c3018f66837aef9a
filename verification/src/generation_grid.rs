use vstd::prelude::*;
use crate::cell_grid::CellGrid;
use crate::grid::{Grid, lemma_cell_index_bounds};

verus! {

/// For each cell, the latest generation (counted from one) in which it was alive, or
/// zero if it never was.
pub struct GenerationGrid {
    pub grid: Grid<usize>,
}

impl GenerationGrid {
    /// A grid in which no cell has been alive yet.
    pub fn new(width: usize, height: usize) -> (g: Self)
        requires
            width * height <= usize::MAX,
        ensures
            g.grid.wf(),
            g.grid.width == width,
            g.grid.height == height,
            forall|i: int| 0 <= i < g.grid.storage@.len() ==> #[trigger] g.grid.storage@[i] == 0,
    {
        Self { grid: Grid::new(width, height) }
    }

    /// Records `generation` for every live cell of `cell_grid`; the other cells keep
    /// their value.
    pub fn overlay(&mut self, cell_grid: &CellGrid, generation: usize)
        requires
            old(self).grid.wf(),
            cell_grid.grid.wf(),
            cell_grid.grid.width == old(self).grid.width,
            cell_grid.grid.height == old(self).grid.height,
        ensures
            final(self).grid.wf(),
            final(self).grid.width == old(self).grid.width,
            final(self).grid.height == old(self).grid.height,
            final(self).grid.storage@ == Seq::new(
                old(self).grid.storage@.len(),
                |i: int|
                    if cell_grid.cells()[i] {
                        generation
                    } else {
                        old(self).grid.storage@[i]
                    },
            ),
    {
        let width = self.grid.width;
        let height = self.grid.height;
        let ghost w = width as int;
        let ghost h = height as int;
        let ghost start = self.grid.storage@;
        let ghost target = Seq::new(
            start.len(),
            |i: int|
                if cell_grid.cells()[i] {
                    generation
                } else {
                    start[i]
                },
        );
        assert(0 * width == 0);
        for y in 0..height
            invariant
                self.grid.wf(),
                cell_grid.grid.wf(),
                width == self.grid.width == cell_grid.grid.width,
                height == self.grid.height == cell_grid.grid.height,
                w == width,
                h == height,
                start.len() == w * h,
                target.len() == w * h,
                forall|i: int| 0 <= i < w * h ==> #[trigger] target[i] == if cell_grid.cells()[i] {
                    generation
                } else {
                    start[i]
                },
                forall|i: int|
                    0 <= i < w * h ==> #[trigger] self.grid.storage@[i] == if i < y * w {
                        target[i]
                    } else {
                        start[i]
                    },
        {
            for x in 0..width
                invariant
                    self.grid.wf(),
                    cell_grid.grid.wf(),
                    width == self.grid.width == cell_grid.grid.width,
                    height == self.grid.height == cell_grid.grid.height,
                    w == width,
                    h == height,
                    y < height,
                    start.len() == w * h,
                    target.len() == w * h,
                    forall|i: int| 0 <= i < w * h ==> #[trigger] target[i] == if cell_grid.cells()[i] {
                        generation
                    } else {
                        start[i]
                    },
                    forall|i: int|
                        0 <= i < w * h ==> #[trigger] self.grid.storage@[i] == if i < y * w + x {
                            target[i]
                        } else {
                            start[i]
                        },
            {
                proof {
                    lemma_cell_index_bounds(w, h, x as int, y as int);
                }
                if cell_grid.grid.get_value(x, y) {
                    self.grid.set_value(generation, x, y);
                }
            }
            assert((y + 1) * w == y * w + w) by (nonlinear_arith);
        }
        assert(h * w == w * h) by (nonlinear_arith);
        assert(self.grid.storage@ =~= target);
    }
}

} // verus!
