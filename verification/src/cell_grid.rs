use vstd::prelude::*;
use crate::bit_enumerator::{BitAggregator, BitEnumerator, pack, unpack};
use crate::change_grid::{ChangeGrid, in_neighborhood};
use crate::grid::{
    Grid, MAX_SIDE, cell_index, lemma_cell_index_bounds, lemma_cell_index_div_mod,
    lemma_index_split, lemma_neighbor_in_grid, lemma_neighbor_symmetric, neighbor_index,
    neighbor_of, wrap,
};

verus! {

/// Conway's rule: a live cell survives with two or three live neighbours, a dead cell
/// comes alive with exactly three.
pub open spec fn life_rule(alive: bool, neighbors: int) -> bool {
    if alive {
        neighbors == 2 || neighbors == 3
    } else {
        neighbors == 3
    }
}

/// The live cells among neighbours `0 .. k` of cell `i` (neighbour `4`, the cell
/// itself, is not counted).
pub open spec fn live_neighbors_upto(cells: Seq<bool>, width: int, height: int, i: int, k: nat) -> int
    decreases k,
{
    if k == 0 {
        0
    } else {
        live_neighbors_upto(cells, width, height, i, (k - 1) as nat) + if k - 1 != 4
            && cells[neighbor_of(width, height, i, k - 1)] {
            1int
        } else {
            0int
        }
    }
}

/// The live cells among the eight neighbours of cell `i` on the torus.
pub open spec fn live_neighbors(cells: Seq<bool>, width: int, height: int, i: int) -> int {
    live_neighbors_upto(cells, width, height, i, 9)
}

/// The state of cell `i` in the next generation.
pub open spec fn next_state(cells: Seq<bool>, width: int, height: int, i: int) -> bool {
    life_rule(cells[i], live_neighbors(cells, width, height, i))
}

/// One generation of the Game of Life on the torus.
pub open spec fn life_step(cells: Seq<bool>, width: int, height: int) -> Seq<bool> {
    Seq::new(cells.len(), |i: int| next_state(cells, width, height, i))
}

/// The step that recomputes only the marked cells and copies the others.
pub open spec fn tracked_step(cells: Seq<bool>, marked: Seq<bool>, width: int, height: int) -> Seq<
    bool,
> {
    Seq::new(
        cells.len(),
        |i: int|
            if marked[i] {
                next_state(cells, width, height, i)
            } else {
                cells[i]
            },
    )
}

/// Cell `j` was recomputed and its state changed.
pub open spec fn flipped(cells: Seq<bool>, marked: Seq<bool>, width: int, height: int, j: int) -> bool {
    marked[j] && next_state(cells, width, height, j) != cells[j]
}

/// The marks for the following generation: every cell in the neighbourhood of a cell
/// that flipped.
pub open spec fn tracked_marks(cells: Seq<bool>, marked: Seq<bool>, width: int, height: int) -> Seq<
    bool,
> {
    Seq::new(
        cells.len(),
        |i: int|
            exists|j: int|
                0 <= j < cells.len() && #[trigger] flipped(cells, marked, width, height, j)
                    && in_neighborhood(width, height, j % width, j / width, i),
    )
}

/// Every unmarked cell keeps its state in the next generation.
pub open spec fn stable_outside(cells: Seq<bool>, marked: Seq<bool>, width: int, height: int) -> bool {
    forall|i: int|
        0 <= i < cells.len() && !marked[i] ==> #[trigger] next_state(cells, width, height, i)
            == cells[i]
}

/// The shape shared by the cell and mark grids of one Game of Life run.
pub open spec fn same_shape(a: Grid<bool>, b: Grid<bool>) -> bool {
    &&& a.wf()
    &&& b.wf()
    &&& a.width == b.width
    &&& a.height == b.height
}

/// Two states that agree on the whole neighbourhood of a cell give it the same count.
proof fn lemma_same_neighborhood_same_count(
    a: Seq<bool>,
    b: Seq<bool>,
    width: int,
    height: int,
    i: int,
    k: nat,
)
    requires
        k <= 9,
        forall|m: int| 0 <= m < 9 ==> a[neighbor_of(width, height, i, m)] == b[#[trigger] neighbor_of(width, height, i, m)],
    ensures
        live_neighbors_upto(a, width, height, i, k) == live_neighbors_upto(b, width, height, i, k),
    decreases k,
{
    if k > 0 {
        lemma_same_neighborhood_same_count(a, b, width, height, i, (k - 1) as nat);
        assert(a[neighbor_of(width, height, i, k - 1)] == b[neighbor_of(width, height, i, k - 1)]);
    }
}

/// Change tracking computes the Game of Life exactly: when every unmarked cell is
/// stable, recomputing only the marked cells gives the full next generation, and in that
/// generation every cell left unmarked by the new marks is stable again.
pub proof fn lemma_tracked_step_is_life_step(
    cells: Seq<bool>,
    marked: Seq<bool>,
    width: int,
    height: int,
)
    requires
        0 < width,
        0 < height,
        cells.len() == width * height,
        marked.len() == width * height,
        stable_outside(cells, marked, width, height),
    ensures
        tracked_step(cells, marked, width, height) == life_step(cells, width, height),
        stable_outside(
            life_step(cells, width, height),
            tracked_marks(cells, marked, width, height),
            width,
            height,
        ),
{
    let next = life_step(cells, width, height);
    let marks = tracked_marks(cells, marked, width, height);
    assert(tracked_step(cells, marked, width, height) =~= next);
    assert forall|i: int|
        0 <= i < next.len() && !marks[i] implies #[trigger] next_state(next, width, height, i)
        == next[i] by {
        assert forall|m: int| 0 <= m < 9 implies next[neighbor_of(width, height, i, m)]
            == cells[#[trigger] neighbor_of(width, height, i, m)] by {
            let j = neighbor_of(width, height, i, m);
            lemma_neighbor_in_grid(width, height, i, m);
            lemma_neighbor_symmetric(width, height, i, m);
            if flipped(cells, marked, width, height, j) {
                assert(neighbor_index(
                    width,
                    height,
                    j % width,
                    j / width,
                    (8 - m) % 3 - 1,
                    (8 - m) / 3 - 1,
                ) == i);
                assert(in_neighborhood(width, height, j % width, j / width, i));
                assert(marks[i]);
            }
        }
        lemma_neighbor_in_grid(width, height, i, 4);
        lemma_same_neighborhood_same_count(next, cells, width, height, i, 9);
    }
}

/// Whether the cell `(x + ox, y + oy)` of a `width` by `height` torus is alive, as a
/// count of zero or one.
pub open spec fn alive_at(cells: Seq<bool>, width: int, height: int, x: int, y: int, ox: int, oy: int) -> int {
    if cells[((y + oy) % height) * width + (x + ox) % width] {
        1
    } else {
        0
    }
}

/// Conway's rule (B3/S23): a cell is alive in the next generation exactly when it has
/// three live neighbours, or is alive and has two. In particular a dead cell with any
/// other number of live neighbours stays dead, and a live cell with fewer than two or
/// more than three dies.
pub proof fn lemma_conway_rule(alive: bool, neighbors: int)
    ensures
        life_rule(alive, neighbors) <==> (neighbors == 3 || (alive && neighbors == 2)),
        !alive && neighbors != 3 ==> !life_rule(alive, neighbors),
        alive && (neighbors < 2 || neighbors > 3) ==> !life_rule(alive, neighbors),
{
}

/// The next state of the cell at `(x, y)` counts the live cells among its eight
/// neighbours on the torus (coordinates taken modulo the sides, the cell itself not
/// counted) and applies Conway's rule; the change-tracked step gives that state to
/// every marked cell and copies every unmarked one.
pub proof fn lemma_next_state_is_conway(
    cells: Seq<bool>,
    marked: Seq<bool>,
    width: int,
    height: int,
    x: int,
    y: int,
)
    requires
        0 <= x < width,
        0 <= y < height,
        cells.len() == width * height,
    ensures
        ({
            let i = y * width + x;
            let n = alive_at(cells, width, height, x, y, -1, -1) + alive_at(
                cells,
                width,
                height,
                x,
                y,
                0,
                -1,
            ) + alive_at(cells, width, height, x, y, 1, -1) + alive_at(
                cells,
                width,
                height,
                x,
                y,
                -1,
                0,
            ) + alive_at(cells, width, height, x, y, 1, 0) + alive_at(
                cells,
                width,
                height,
                x,
                y,
                -1,
                1,
            ) + alive_at(cells, width, height, x, y, 0, 1) + alive_at(cells, width, height, x, y, 1, 1);
            &&& live_neighbors(cells, width, height, i) == n
            &&& next_state(cells, width, height, i) == (n == 3 || (cells[i] && n == 2))
            &&& life_step(cells, width, height)[i] == (n == 3 || (cells[i] && n == 2))
            &&& marked.len() == cells.len() ==> tracked_step(cells, marked, width, height)[i] == if marked[i] {
                n == 3 || (cells[i] && n == 2)
            } else {
                cells[i]
            }
        }),
{
    let i = y * width + x;
    lemma_cell_index_div_mod(width, x, y);
    lemma_cell_index_bounds(width, height, x, y);
    assert(i % width == x && i / width == y);
    reveal_with_fuel(live_neighbors_upto, 10);
}

/// A grid of live and dead cells.
pub struct CellGrid {
    pub grid: Grid<bool>,
}

impl CellGrid {
    /// The cells, row by row.
    pub open spec fn cells(&self) -> Seq<bool> {
        self.grid.storage@
    }

    /// A grid of dead cells.
    pub fn new(width: usize, height: usize) -> (g: Self)
        requires
            width * height <= usize::MAX,
        ensures
            g.grid.wf(),
            g.grid.width == width,
            g.grid.height == height,
            forall|i: int| 0 <= i < g.cells().len() ==> !#[trigger] g.cells()[i],
    {
        Self { grid: Grid::new(width, height) }
    }

    fn is_alive_in_next_generation(current_alive: bool, neighbors_count: usize) -> (r: bool)
        ensures
            r == life_rule(current_alive, neighbors_count as int),
    {
        if current_alive {
            neighbors_count == 2 || neighbors_count == 3
        } else {
            neighbors_count == 3
        }
    }

    fn count_neighbors(&self, px: usize, py: usize) -> (total: usize)
        requires
            self.grid.wf(),
            px < self.grid.width <= MAX_SIDE,
            py < self.grid.height <= MAX_SIDE,
        ensures
            total == live_neighbors(
                self.cells(),
                self.grid.width as int,
                self.grid.height as int,
                cell_index(self.grid.width as int, px as int, py as int),
            ),
    {
        let ghost w = self.grid.width as int;
        let ghost h = self.grid.height as int;
        let ghost i = cell_index(w, px as int, py as int);
        proof {
            lemma_cell_index_div_mod(w, px as int, py as int);
            lemma_cell_index_bounds(w, h, px as int, py as int);
        }
        let neighborhood = self.grid.for_neighborhood(px, py);
        let mut total: usize = 0;
        for k in 0..9usize
            invariant
                self.grid.wf(),
                w == self.grid.width,
                h == self.grid.height,
                px < w,
                py < h,
                i == cell_index(w, px as int, py as int),
                i % w == px,
                i / w == py,
                0 <= i < w * h,
                neighborhood@.len() == 9,
                forall|ox: int, oy: int|
                    -1 <= ox <= 1 && -1 <= oy <= 1 ==> #[trigger] neighborhood@[(oy + 1) * 3 + (ox
                        + 1)] == (
                        ox as i32,
                        oy as i32,
                        wrap(px + ox, w) as usize,
                        wrap(py + oy, h) as usize,
                    ),
                total == live_neighbors_upto(self.cells(), w, h, i, k as nat),
                total <= k,
        {
            let ghost ox = k % 3 - 1;
            let ghost oy = k / 3 - 1;
            assert((oy + 1) * 3 + (ox + 1) == k);
            let (ox_, oy_, nx, ny) = neighborhood[k];
            proof {
                lemma_neighbor_in_grid(w, h, i, k as int);
                lemma_index_split(w, h, i);
            }
            if ox_ == 0 && oy_ == 0 {
                assert(k == 4);
            } else if self.grid.get_value(nx, ny) {
                assert(self.cells()[neighbor_of(w, h, i, k as int)]);
                total += 1;
            } else {
                assert(!self.cells()[neighbor_of(w, h, i, k as int)]);
            }
        }
        total
    }

    /// The cells packed eight to a byte, row by row, most significant bit first.
    pub fn data(&self) -> (bytes: Vec<u8>)
        requires
            self.grid.wf(),
        ensures
            bytes@ == pack(self.cells()),
    {
        let mut a = BitAggregator::new();
        let width = self.grid.width;
        let height = self.grid.height;
        assert(0 * width == 0);
        for y in 0..height
            invariant
                self.grid.wf(),
                width == self.grid.width,
                height == self.grid.height,
                a.wf(),
                a.bits() == self.cells().take(y * width),
        {
            for x in 0..width
                invariant
                    self.grid.wf(),
                    width == self.grid.width,
                    height == self.grid.height,
                    y < height,
                    a.wf(),
                    a.bits() == self.cells().take(y * width + x),
            {
                proof {
                    lemma_cell_index_bounds(width as int, height as int, x as int, y as int);
                }
                let v = self.grid.get_value(x, y);
                a.append(v);
                assert(a.bits() =~= self.cells().take(y * width + x + 1));
            }
            assert((y + 1) * width == y * width + width) by (nonlinear_arith);
        }
        assert(height * width == width * height) by (nonlinear_arith);
        assert(self.cells().take(height * width) =~= self.cells());
        a.data()
    }

    /// Sets the cells from packed bytes, row by row, most significant bit first.
    pub fn set_data(&mut self, data: &[u8])
        requires
            old(self).grid.wf(),
            data@.len() > 0,
            old(self).grid.width * old(self).grid.height == data@.len() * 8,
        ensures
            final(self).grid.wf(),
            final(self).grid.width == old(self).grid.width,
            final(self).grid.height == old(self).grid.height,
            final(self).cells() == unpack(data@),
    {
        let mut e = BitEnumerator::new(vstd::slice::slice_to_vec(data));
        let bits = e.for_all();
        assert(bits@ =~= unpack(data@));
        let n = bits.len();
        for i in 0..n
            invariant
                self.grid.wf(),
                self.grid.width == old(self).grid.width,
                self.grid.height == old(self).grid.height,
                n == bits@.len(),
                n == self.grid.storage@.len(),
                forall|j: int| 0 <= j < i ==> #[trigger] self.grid.storage@[j] == bits@[j],
        {
            self.grid.storage.set(i, bits[i]);
        }
        assert(self.cells() =~= unpack(data@));
    }

    /// Computes the next generation into `next_cell_grid`, recomputing only the cells
    /// marked in `current_change_grid` and copying the others, and marks in
    /// `next_change_grid` the neighbourhood of every cell that changed.
    pub fn next_generation(
        &self,
        current_change_grid: &ChangeGrid,
        next_cell_grid: &mut CellGrid,
        next_change_grid: &mut ChangeGrid,
    )
        requires
            same_shape(self.grid, current_change_grid.grid),
            same_shape(self.grid, old(next_cell_grid).grid),
            same_shape(self.grid, old(next_change_grid).grid),
            self.grid.width <= MAX_SIDE,
            self.grid.height <= MAX_SIDE,
        ensures
            same_shape(self.grid, final(next_cell_grid).grid),
            same_shape(self.grid, final(next_change_grid).grid),
            final(next_cell_grid).cells() == tracked_step(
                self.cells(),
                current_change_grid.grid.storage@,
                self.grid.width as int,
                self.grid.height as int,
            ),
            final(next_change_grid).grid.storage@ == tracked_marks(
                self.cells(),
                current_change_grid.grid.storage@,
                self.grid.width as int,
                self.grid.height as int,
            ),
    {
        next_cell_grid.grid.set_all(false);
        next_change_grid.grid.set_all(false);
        let width = self.grid.width;
        let height = self.grid.height;
        let ghost w = width as int;
        let ghost h = height as int;
        let ghost cells = self.cells();
        let ghost marked = current_change_grid.grid.storage@;
        let ghost step = tracked_step(cells, marked, w, h);
        assert(0 * width == 0);
        for y in 0..height
            invariant
                same_shape(self.grid, current_change_grid.grid),
                same_shape(self.grid, next_cell_grid.grid),
                same_shape(self.grid, next_change_grid.grid),
                width == self.grid.width <= MAX_SIDE,
                height == self.grid.height <= MAX_SIDE,
                w == width,
                h == height,
                cells == self.cells(),
                marked == current_change_grid.grid.storage@,
                step == tracked_step(cells, marked, w, h),
                forall|i: int|
                    0 <= i < w * h ==> #[trigger] next_cell_grid.cells()[i] == (i < y * w
                        && step[i]),
                forall|i: int|
                    0 <= i < w * h ==> #[trigger] next_change_grid.grid.storage@[i] == exists|
                        j: int,
                    |
                        0 <= j < y * w && #[trigger] flipped(cells, marked, w, h, j)
                            && in_neighborhood(w, h, j % w, j / w, i),
        {
            for x in 0..width
                invariant
                    same_shape(self.grid, current_change_grid.grid),
                    same_shape(self.grid, next_cell_grid.grid),
                    same_shape(self.grid, next_change_grid.grid),
                    width == self.grid.width <= MAX_SIDE,
                    height == self.grid.height <= MAX_SIDE,
                    w == width,
                    h == height,
                    y < height,
                    cells == self.cells(),
                    marked == current_change_grid.grid.storage@,
                    step == tracked_step(cells, marked, w, h),
                    forall|i: int|
                        0 <= i < w * h ==> #[trigger] next_cell_grid.cells()[i] == (i < y * w + x
                            && step[i]),
                    forall|i: int|
                        0 <= i < w * h ==> #[trigger] next_change_grid.grid.storage@[i] == exists|
                            j: int,
                        |
                            0 <= j < y * w + x && #[trigger] flipped(cells, marked, w, h, j)
                                && in_neighborhood(w, h, j % w, j / w, i),
            {
                let ghost j = cell_index(w, x as int, y as int);
                proof {
                    lemma_cell_index_bounds(w, h, x as int, y as int);
                    lemma_cell_index_div_mod(w, x as int, y as int);
                }
                let ghost cells_before = next_cell_grid.cells();
                let ghost marks_before = next_change_grid.grid.storage@;
                let current_alive = self.grid.get_value(x, y);
                if current_change_grid.grid.get_value(x, y) {
                    let neighbors_count = self.count_neighbors(x, y);
                    let next_alive = Self::is_alive_in_next_generation(current_alive, neighbors_count);
                    assert(next_alive == step[j]);
                    if next_alive {
                        next_cell_grid.grid.set_value(true, x, y);
                    }
                    if current_alive != next_alive {
                        assert(flipped(cells, marked, w, h, j));
                        next_change_grid.set_changed(x, y);
                    } else {
                        assert(!flipped(cells, marked, w, h, j));
                    }
                } else {
                    assert(!flipped(cells, marked, w, h, j));
                    next_cell_grid.grid.set_value(current_alive, x, y);
                }
                assert forall|i: int| 0 <= i < w * h implies #[trigger] next_cell_grid.cells()[i]
                    == (i < y * w + x + 1 && step[i]) by {
                    if i != j {
                        assert(next_cell_grid.cells()[i] == cells_before[i]);
                    }
                }
                assert forall|i: int| 0 <= i < w * h implies #[trigger] next_change_grid.grid.storage@[i]
                    == exists|jj: int|
                    0 <= jj < y * w + x + 1 && #[trigger] flipped(cells, marked, w, h, jj)
                        && in_neighborhood(w, h, jj % w, jj / w, i) by {
                    if exists|jj: int|
                        0 <= jj < y * w + x + 1 && #[trigger] flipped(cells, marked, w, h, jj)
                            && in_neighborhood(w, h, jj % w, jj / w, i) {
                        let jj = choose|jj: int|
                            0 <= jj < y * w + x + 1 && #[trigger] flipped(cells, marked, w, h, jj)
                                && in_neighborhood(w, h, jj % w, jj / w, i);
                        if jj < j {
                            assert(marks_before[i]);
                        }
                    }
                }
            }
            assert((y + 1) * w == y * w + w) by (nonlinear_arith);
        }
        assert(height * width == width * height) by (nonlinear_arith);
        assert(next_cell_grid.cells() =~= step);
        assert(next_change_grid.grid.storage@ =~= tracked_marks(cells, marked, w, h));
    }
}

} // verus!
