use vstd::prelude::*;
use vstd::arithmetic::div_mod::{
    lemma_fundamental_div_mod_converse, lemma_mod_add_multiples_vanish, lemma_mod_twice,
    lemma_mod_self_0, lemma_small_mod, lemma_fundamental_div_mod, lemma_mod_bound,
    lemma_add_mod_noop_right,
};

verus! {

/// The largest side a grid may have: neighbourhood arithmetic is done in `i32`, and
/// wrapping a coordinate adds the side to a remainder below it.
pub const MAX_SIDE: usize = 0x4000_0000;

/// `v` wrapped onto `0 .. m`, as on a torus.
pub open spec fn wrap(v: int, m: int) -> int {
    v % m
}

/// The storage index of the cell at `(x, y)` in a grid `width` cells wide.
pub open spec fn cell_index(width: int, x: int, y: int) -> int {
    y * width + x
}

/// The storage index of the cell at offset `(ox, oy)` from `(x, y)` on a torus of
/// `width` by `height` cells.
pub open spec fn neighbor_index(width: int, height: int, x: int, y: int, ox: int, oy: int) -> int {
    cell_index(width, wrap(x + ox, width), wrap(y + oy, height))
}

/// A cell of a grid of `width` columns lies inside a grid of `height` rows.
pub proof fn lemma_cell_index_bounds(width: int, height: int, x: int, y: int)
    requires
        0 <= x < width,
        0 <= y < height,
    ensures
        0 <= cell_index(width, x, y) < width * height,
{
    assert(0 <= y * width + x < width * height) by (nonlinear_arith)
        requires
            0 <= x < width,
            0 <= y < height,
    ;
}

/// Rust's remainder of `i` by `m`, which keeps the sign of `i`.
pub open spec fn truncated_rem(i: int, m: int) -> int {
    if i >= 0 {
        i % m
    } else {
        -((-i) % m)
    }
}

/// Rust's remainder of `i` by `m`, moved up by `m` and reduced again, is `i` wrapped
/// onto `0 .. m`.
pub proof fn lemma_truncated_rem_wraps(i: int, m: int)
    requires
        0 < m,
    ensures
        -m < truncated_rem(i, m) < m,
        (truncated_rem(i, m) + m) % m == wrap(i, m),
{
    if i >= 0 {
        lemma_mod_bound(i, m);
        lemma_mod_add_multiples_vanish(i % m, m);
        lemma_mod_twice(i, m);
    } else {
        let r = (-i) % m;
        let q = (-i) / m;
        lemma_fundamental_div_mod(-i, m);
        lemma_mod_bound(-i, m);
        if r == 0 {
            lemma_mod_self_0(m);
            assert(i == (-q) * m + 0) by (nonlinear_arith)
                requires
                    -i == m * q + r,
                    r == 0,
            ;
            lemma_fundamental_div_mod_converse(i, m, -q, 0);
        } else {
            lemma_small_mod((m - r) as nat, m as nat);
            assert(i == (-q - 1) * m + (m - r)) by (nonlinear_arith)
                requires
                    -i == m * q + r,
            ;
            lemma_fundamental_div_mod_converse(i, m, -q - 1, m - r);
        }
    }
}

/// The storage index of neighbour `k` (`0 .. 9`, row by row from the upper left,
/// `4` being the cell itself) of the cell stored at index `i`.
pub open spec fn neighbor_of(width: int, height: int, i: int, k: int) -> int {
    neighbor_index(width, height, i % width, i / width, k % 3 - 1, k / 3 - 1)
}

/// Distinct cells have distinct storage indices.
pub proof fn lemma_cell_index_injective(width: int, height: int, x1: int, y1: int, x2: int, y2: int)
    requires
        0 <= x1 < width,
        0 <= x2 < width,
        0 <= y1 < height,
        0 <= y2 < height,
    ensures
        (cell_index(width, x1, y1) == cell_index(width, x2, y2)) == (x1 == x2 && y1 == y2),
{
    lemma_cell_index_div_mod(width, x1, y1);
    lemma_cell_index_div_mod(width, x2, y2);
}

/// A storage index splits back into its column and row.
pub proof fn lemma_cell_index_div_mod(width: int, x: int, y: int)
    requires
        0 <= x < width,
        0 <= y,
    ensures
        cell_index(width, x, y) % width == x,
        cell_index(width, x, y) / width == y,
{
    lemma_fundamental_div_mod_converse(cell_index(width, x, y), width, y, x);
}

/// An index of a grid names a column and a row inside it.
pub proof fn lemma_index_split(width: int, height: int, i: int)
    requires
        0 < width,
        0 < height,
        0 <= i < width * height,
    ensures
        0 <= i % width < width,
        0 <= i / width < height,
        cell_index(width, i % width, i / width) == i,
{
    lemma_fundamental_div_mod(i, width);
    lemma_mod_bound(i, width);
    assert(0 <= i / width < height) by (nonlinear_arith)
        requires
            i == width * (i / width) + i % width,
            0 <= i % width < width,
            0 <= i < width * height,
            0 < width,
    ;
    assert(cell_index(width, i % width, i / width) == i) by (nonlinear_arith)
        requires
            i == width * (i / width) + i % width,
    ;
}

/// The nine neighbours of a cell lie in the grid, and neighbour `4` is the cell itself.
pub proof fn lemma_neighbor_in_grid(width: int, height: int, i: int, k: int)
    requires
        0 < width,
        0 < height,
        0 <= i < width * height,
        0 <= k < 9,
    ensures
        0 <= neighbor_of(width, height, i, k) < width * height,
        neighbor_of(width, height, i, k) % width == wrap(i % width + k % 3 - 1, width),
        neighbor_of(width, height, i, k) / width == wrap(i / width + k / 3 - 1, height),
        neighbor_of(width, height, i, 4) == i,
{
    lemma_index_split(width, height, i);
    let x = wrap(i % width + k % 3 - 1, width);
    let y = wrap(i / width + k / 3 - 1, height);
    lemma_mod_bound(i % width + k % 3 - 1, width);
    lemma_mod_bound(i / width + k / 3 - 1, height);
    lemma_cell_index_bounds(width, height, x, y);
    lemma_cell_index_div_mod(width, x, y);
    lemma_small_mod((i % width) as nat, width as nat);
    lemma_small_mod((i / width) as nat, height as nat);
}

/// Neighbourhood on the torus is symmetric: going to neighbour `k` and then to
/// neighbour `8 - k` (the opposite offset) comes back to the start.
pub proof fn lemma_neighbor_symmetric(width: int, height: int, i: int, k: int)
    requires
        0 < width,
        0 < height,
        0 <= i < width * height,
        0 <= k < 9,
    ensures
        neighbor_of(width, height, neighbor_of(width, height, i, k), 8 - k) == i,
{
    let j = neighbor_of(width, height, i, k);
    lemma_neighbor_in_grid(width, height, i, k);
    lemma_index_split(width, height, i);
    let ox = k % 3 - 1;
    let oy = k / 3 - 1;
    assert((8 - k) % 3 - 1 == -ox && (8 - k) / 3 - 1 == -oy);
    let x = i % width;
    let y = i / width;
    assert(wrap(j % width - ox, width) == x) by {
        assert(j % width == (x + ox) % width);
        lemma_add_mod_noop_right(-ox, x + ox, width);
        assert(-ox + (x + ox) == x);
        lemma_small_mod(x as nat, width as nat);
    }
    assert(wrap(j / width - oy, height) == y) by {
        assert(j / width == (y + oy) % height);
        lemma_add_mod_noop_right(-oy, y + oy, height);
        assert(-oy + (y + oy) == y);
        lemma_small_mod(y as nat, height as nat);
    }
}

/// Reading a cell after storing a value in it gives the value; storing it changes no
/// other cell.
pub proof fn lemma_get_after_set<T>(
    storage: Seq<T>,
    width: int,
    height: int,
    x: int,
    y: int,
    value: T,
    x2: int,
    y2: int,
)
    requires
        storage.len() == width * height,
        0 <= x < width,
        0 <= y < height,
        0 <= x2 < width,
        0 <= y2 < height,
    ensures
        storage.update(cell_index(width, x, y), value)[cell_index(width, x, y)] == value,
        (x2, y2) != (x, y) ==> storage.update(cell_index(width, x, y), value)[cell_index(
            width,
            x2,
            y2,
        )] == storage[cell_index(width, x2, y2)],
{
    lemma_cell_index_bounds(width, height, x, y);
    lemma_cell_index_bounds(width, height, x2, y2);
    lemma_cell_index_injective(width, height, x, y, x2, y2);
}

/// A rectangle of cells stored row by row.
pub struct Grid<T> {
    pub width: usize,
    pub height: usize,
    pub storage: Vec<T>,
}

impl<T: Copy + Default> Grid<T> {
    /// The storage holds exactly one value per cell.
    pub open spec fn wf(&self) -> bool {
        &&& self.storage@.len() == self.width * self.height
        &&& self.width * self.height <= usize::MAX
    }

    /// The value of the cell at `(x, y)`.
    pub open spec fn cell(&self, x: int, y: int) -> T {
        self.storage@[cell_index(self.width as int, x, y)]
    }

    /// A grid whose every cell holds `T::default()`.
    pub fn new(width: usize, height: usize) -> (g: Self)
        requires
            width * height <= usize::MAX,
        ensures
            g.wf(),
            g.width == width,
            g.height == height,
            forall|i: int|
                0 <= i < g.storage@.len() ==> call_ensures(T::default, (), #[trigger] g.storage@[i]),
    {
        let capacity = width * height;
        let value = T::default();
        let mut storage: Vec<T> = Vec::new();
        while storage.len() < capacity
            invariant
                storage@.len() <= capacity,
                call_ensures(T::default, (), value),
                forall|i: int| 0 <= i < storage@.len() ==> #[trigger] storage@[i] == value,
            decreases capacity - storage@.len(),
        {
            storage.push(value);
        }
        Self { width, height, storage }
    }

    fn offset(&self, x: usize, y: usize) -> (off: usize)
        requires
            self.wf(),
            x < self.width,
            y < self.height,
        ensures
            off == cell_index(self.width as int, x as int, y as int),
            off < self.storage@.len(),
    {
        proof {
            lemma_cell_index_bounds(self.width as int, self.height as int, x as int, y as int);
        }
        y * self.width + x
    }

    fn circular_index(index: i32, modulus: i32) -> (r: usize)
        requires
            0 < modulus,
            truncated_rem(index as int, modulus as int) + modulus <= i32::MAX,
        ensures
            r as int == wrap(index as int, modulus as int),
    {
        let a = index % modulus;
        proof {
            lemma_truncated_rem_wraps(index as int, modulus as int);
        }
        let b = (a + modulus) % modulus;
        b as usize
    }

    /// Gives every cell the value `value`.
    pub fn set_all(&mut self, value: T)
        requires
            old(self).wf(),
        ensures
            final(self).wf(),
            final(self).width == old(self).width,
            final(self).height == old(self).height,
            forall|i: int| 0 <= i < final(self).storage@.len() ==> #[trigger] final(self).storage@[i] == value,
    {
        let n = self.storage.len();
        for i in 0..n
            invariant
                self.wf(),
                self.width == old(self).width,
                self.height == old(self).height,
                n == self.storage@.len(),
                forall|j: int| 0 <= j < i ==> #[trigger] self.storage@[j] == value,
        {
            self.storage.set(i, value);
        }
    }

    /// Stores `value` in the cell at `(x, y)`; no other cell changes.
    pub fn set_value(&mut self, value: T, x: usize, y: usize)
        requires
            old(self).wf(),
            x < old(self).width,
            y < old(self).height,
        ensures
            final(self).wf(),
            final(self).width == old(self).width,
            final(self).height == old(self).height,
            final(self).storage@ == old(self).storage@.update(
                cell_index(old(self).width as int, x as int, y as int),
                value,
            ),
    {
        let off = self.offset(x, y);
        self.storage.set(off, value);
    }

    /// The value of the cell at `(x, y)`.
    pub fn get_value(&self, x: usize, y: usize) -> (v: T)
        requires
            self.wf(),
            x < self.width,
            y < self.height,
        ensures
            v == self.cell(x as int, y as int),
    {
        let off = self.offset(x, y);
        self.storage[off]
    }

    /// The coordinates of every cell, row by row.
    pub fn for_all(&self) -> (points: Vec<(usize, usize)>)
        requires
            self.wf(),
        ensures
            points@.len() == self.width * self.height,
            forall|x: int, y: int|
                0 <= x < self.width && 0 <= y < self.height ==> #[trigger] points@[cell_index(
                    self.width as int,
                    x,
                    y,
                )] == (x as usize, y as usize),
    {
        let mut points: Vec<(usize, usize)> = Vec::new();
        assert(0 * self.width == 0);
        for y in 0..self.height
            invariant
                self.wf(),
                points@.len() == y * self.width,
                forall|xx: int, yy: int|
                    0 <= xx < self.width && 0 <= yy < y ==> #[trigger] points@[cell_index(
                        self.width as int,
                        xx,
                        yy,
                    )] == (xx as usize, yy as usize),
        {
            for x in 0..self.width
                invariant
                    self.wf(),
                    y < self.height,
                    points@.len() == y * self.width + x,
                    forall|xx: int, yy: int|
                        0 <= xx < self.width && 0 <= yy < y ==> #[trigger] points@[cell_index(
                            self.width as int,
                            xx,
                            yy,
                        )] == (xx as usize, yy as usize),
                    forall|xx: int| 0 <= xx < x ==> #[trigger] points@[cell_index(
                        self.width as int,
                        xx,
                        y as int,
                    )] == (xx as usize, y),
            {
                proof {
                    lemma_cell_index_bounds(self.width as int, self.height as int, x as int, y as int);
                }
                points.push((x, y));
                proof {
                    assert forall|xx: int, yy: int|
                        0 <= xx < self.width && 0 <= yy < y implies #[trigger] points@[cell_index(
                            self.width as int,
                            xx,
                            yy,
                        )] == (xx as usize, yy as usize) by {
                        assert(cell_index(self.width as int, xx, yy) < y * self.width)
                            by (nonlinear_arith)
                            requires
                                0 <= xx < self.width,
                                0 <= yy < y,
                        ;
                    }
                }
            }
            assert((y + 1) * self.width == y * self.width + self.width) by (nonlinear_arith);
        }
        assert(self.height * self.width == self.width * self.height) by (nonlinear_arith);
        points
    }

    /// The nine cells of the 3 by 3 neighbourhood of `(px, py)` on the torus, row by
    /// row: each entry is the offset `(ox, oy)` and the wrapped coordinates.
    pub fn for_neighborhood(&self, px: usize, py: usize) -> (cells: Vec<(i32, i32, usize, usize)>)
        requires
            self.wf(),
            px < self.width <= MAX_SIDE,
            py < self.height <= MAX_SIDE,
        ensures
            cells@.len() == 9,
            forall|ox: int, oy: int|
                -1 <= ox <= 1 && -1 <= oy <= 1 ==> #[trigger] cells@[(oy + 1) * 3 + (ox + 1)] == (
                    ox as i32,
                    oy as i32,
                    wrap(px + ox, self.width as int) as usize,
                    wrap(py + oy, self.height as int) as usize,
                ),
    {
        let mut cells: Vec<(i32, i32, usize, usize)> = Vec::new();
        for oy in -1..2i32
            invariant
                self.wf(),
                px < self.width <= MAX_SIDE,
                py < self.height <= MAX_SIDE,
                -1 <= oy <= 2,
                cells@.len() == (oy + 1) * 3,
                forall|ox2: int, oy2: int|
                    -1 <= ox2 <= 1 && -1 <= oy2 < oy ==> #[trigger] cells@[(oy2 + 1) * 3 + (ox2
                        + 1)] == (
                        ox2 as i32,
                        oy2 as i32,
                        wrap(px + ox2, self.width as int) as usize,
                        wrap(py + oy2, self.height as int) as usize,
                    ),
        {
            for ox in -1..2i32
                invariant
                    self.wf(),
                    px < self.width <= MAX_SIDE,
                    py < self.height <= MAX_SIDE,
                    -1 <= oy <= 1,
                    -1 <= ox <= 2,
                    cells@.len() == (oy + 1) * 3 + (ox + 1),
                    forall|ox2: int, oy2: int|
                        (-1 <= ox2 <= 1 && -1 <= oy2 < oy) || (-1 <= ox2 < ox && oy2 == oy)
                            ==> #[trigger] cells@[(oy2 + 1) * 3 + (ox2 + 1)] == (
                            ox2 as i32,
                            oy2 as i32,
                            wrap(px + ox2, self.width as int) as usize,
                            wrap(py + oy2, self.height as int) as usize,
                        ),
            {
                let nx = Self::circular_index(ox + px as i32, self.width as i32);
                let ny = Self::circular_index(oy + py as i32, self.height as i32);
                cells.push((ox, oy, nx, ny));
            }
        }
        cells
    }
}

} // verus!
