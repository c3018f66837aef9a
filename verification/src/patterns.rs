use vstd::prelude::*;
use crate::Version;
use crate::bit_enumerator::{BitEnumerator, bit_at};
use crate::grid::{Grid, cell_index, lemma_cell_index_bounds, lemma_cell_index_injective};

verus! {

/// The symmetry that turns the grid of one quadrant into the finished image.
#[derive(Clone, Copy, Debug, PartialEq, Eq, Structural)]
pub enum Pattern {
    Snowflake,
    Pinwheel,
    Fiducial,
}

/// The pattern a version uses when the entropy bit at `pos` of `data` is read, and
/// where reading stops.
pub open spec fn pattern_choice(version: Version, data: Seq<u8>, pos: int) -> (Pattern, int) {
    match version {
        Version::Fiducial | Version::GrayscaleFiducial => (Pattern::Fiducial, pos),
        _ => (if bit_at(data, pos) { Pattern::Snowflake } else { Pattern::Pinwheel }, pos + 1),
    }
}

/// Chooses the pattern: fiducial versions always use `Fiducial`; the others read one
/// bit, `Snowflake` if it is set and `Pinwheel` if not.
pub fn select_pattern(entropy: &mut BitEnumerator, version: Version) -> (p: Pattern)
    requires
        old(entropy).wf(),
        pattern_choice(version, old(entropy).source(), old(entropy).position()).1 <= 8
            * old(entropy).source().len(),
    ensures
        final(entropy).wf(),
        final(entropy).source() == old(entropy).source(),
        (p, final(entropy).position()) == pattern_choice(
            version,
            old(entropy).source(),
            old(entropy).position(),
        ),
{
    match version {
        Version::Fiducial | Version::GrayscaleFiducial => Pattern::Fiducial,
        _ => {
            if entropy.next() {
                Pattern::Snowflake
            } else {
                Pattern::Pinwheel
            }
        },
    }
}

/// The fiducial versions read no bit and always use the fiducial pattern. Every other
/// version reads exactly one bit and treats it alike: the pattern is `Snowflake` when
/// the bit is set and `Pinwheel` when it is clear, whichever of those versions it is.
pub proof fn lemma_pattern_bit(version: Version, data: Seq<u8>, pos: int)
    ensures
        version == Version::Fiducial || version == Version::GrayscaleFiducial
            ==> pattern_choice(version, data, pos) == (Pattern::Fiducial, pos),
        version != Version::Fiducial && version != Version::GrayscaleFiducial ==> {
            &&& pattern_choice(version, data, pos).1 == pos + 1
            &&& (pattern_choice(version, data, pos).0 == Pattern::Snowflake <==> bit_at(data, pos))
            &&& (pattern_choice(version, data, pos).0 == Pattern::Pinwheel <==> !bit_at(data, pos))
            &&& pattern_choice(version, data, pos) == pattern_choice(Version::Version1, data, pos)
        },
{
}

/// How many times the source grid's width (and height) the image is.
pub open spec fn pattern_multiplier(pattern: Pattern) -> int {
    if pattern == Pattern::Fiducial {
        1
    } else {
        2
    }
}

/// The quadrant of an image twice `width` by twice `height` that holds `(tx, ty)`:
/// `0` upper left, `1` upper right, `2` lower left, `3` lower right.
pub open spec fn quadrant(width: int, height: int, tx: int, ty: int) -> int {
    (if tx >= width {
        1int
    } else {
        0int
    }) + (if ty >= height {
        2int
    } else {
        0int
    })
}

/// The cell of the `width` by `height` source grid whose value the pattern places at
/// `(tx, ty)` of the image.
pub open spec fn source_cell(pattern: Pattern, width: int, height: int, tx: int, ty: int) -> (
    int,
    int,
) {
    let max_x = 2 * width - 1;
    let max_y = 2 * height - 1;
    match pattern {
        Pattern::Fiducial => (tx, ty),
        Pattern::Snowflake => (
            if tx < width {
                tx
            } else {
                max_x - tx
            },
            if ty < height {
                ty
            } else {
                max_y - ty
            },
        ),
        Pattern::Pinwheel => {
            let q = quadrant(width, height, tx, ty);
            if q == 0 {
                (tx, ty)
            } else if q == 1 {
                (ty, max_x - tx)
            } else if q == 2 {
                (max_y - ty, tx)
            } else {
                (max_x - tx, max_y - ty)
            }
        },
    }
}

/// The snowflake image is mirror-symmetric left to right and top to bottom, and the
/// pinwheel image is unchanged by a quarter turn: mirrored or turned spots show the same
/// source cell.
pub proof fn lemma_pattern_symmetry(pattern: Pattern, width: int, height: int, tx: int, ty: int)
    requires
        pattern_fits(pattern, width, height),
        0 <= tx < pattern_multiplier(pattern) * width,
        0 <= ty < pattern_multiplier(pattern) * height,
    ensures
        pattern == Pattern::Snowflake ==> source_cell(pattern, width, height, tx, ty)
            == source_cell(pattern, width, height, 2 * width - 1 - tx, ty),
        pattern == Pattern::Snowflake ==> source_cell(pattern, width, height, tx, ty)
            == source_cell(pattern, width, height, tx, 2 * height - 1 - ty),
        pattern == Pattern::Pinwheel ==> source_cell(pattern, width, height, tx, ty)
            == source_cell(pattern, width, height, 2 * width - 1 - ty, tx),
{
}

/// Every pattern shows the source grid unchanged in the upper left quadrant, and the
/// fiducial pattern, whose image is the grid itself, shows it unchanged everywhere.
pub proof fn lemma_upper_left_is_source(pattern: Pattern, width: int, height: int, tx: int, ty: int)
    requires
        0 <= tx,
        0 <= ty,
        pattern == Pattern::Fiducial || (tx < width && ty < height),
    ensures
        source_cell(pattern, width, height, tx, ty) == (tx, ty),
{
}

/// One placement of a source cell: optionally swap the coordinates, then optionally
/// mirror them.
struct Transform {
    transpose: bool,
    reflect_x: bool,
    reflect_y: bool,
}

/// Where a placement puts the source cell `(x, y)`.
spec fn transform_point(t: Transform, max_x: int, max_y: int, x: int, y: int) -> (int, int) {
    let (px, py) = if t.transpose {
        (y, x)
    } else {
        (x, y)
    };
    (if t.reflect_x {
        max_x - px
    } else {
        px
    }, if t.reflect_y {
        max_y - py
    } else {
        py
    })
}

/// The placements of a pattern, in the order they are applied.
spec fn pattern_transforms(pattern: Pattern) -> Seq<Transform> {
    match pattern {
        Pattern::Snowflake => seq![
            Transform { transpose: false, reflect_x: false, reflect_y: false },
            Transform { transpose: false, reflect_x: true, reflect_y: false },
            Transform { transpose: false, reflect_x: false, reflect_y: true },
            Transform { transpose: false, reflect_x: true, reflect_y: true },
        ],
        Pattern::Pinwheel => seq![
            Transform { transpose: false, reflect_x: false, reflect_y: false },
            Transform { transpose: true, reflect_x: true, reflect_y: false },
            Transform { transpose: true, reflect_x: false, reflect_y: true },
            Transform { transpose: false, reflect_x: true, reflect_y: true },
        ],
        Pattern::Fiducial => seq![Transform { transpose: false, reflect_x: false, reflect_y: false }],
    }
}

/// The shape a pattern can be applied to: square for the pinwheel, which transposes.
pub open spec fn pattern_fits(pattern: Pattern, width: int, height: int) -> bool {
    &&& 0 < width
    &&& 0 < height
    &&& pattern == Pattern::Pinwheel ==> width == height
}

/// Placement `t` puts each source cell in quadrant `t` (or, for the fiducial pattern,
/// leaves it where it is), and the source cell of that spot is the cell placed.
proof fn lemma_placement(pattern: Pattern, width: int, height: int, t: int, x: int, y: int)
    requires
        pattern_fits(pattern, width, height),
        0 <= t < pattern_transforms(pattern).len(),
        0 <= x < width,
        0 <= y < height,
    ensures
        ({
            let m = pattern_multiplier(pattern);
            let (tx, ty) = transform_point(
                pattern_transforms(pattern)[t],
                m * width - 1,
                m * height - 1,
                x,
                y,
            );
            &&& 0 <= tx < m * width
            &&& 0 <= ty < m * height
            &&& pattern != Pattern::Fiducial ==> quadrant(width, height, tx, ty) == t
            &&& source_cell(pattern, width, height, tx, ty) == (x, y)
        }),
{
}

/// Every spot of the image is the placement of its source cell by the placement that
/// serves its quadrant.
proof fn lemma_spot(pattern: Pattern, width: int, height: int, tx: int, ty: int)
    requires
        pattern_fits(pattern, width, height),
        0 <= tx < pattern_multiplier(pattern) * width,
        0 <= ty < pattern_multiplier(pattern) * height,
    ensures
        ({
            let m = pattern_multiplier(pattern);
            let t = if pattern == Pattern::Fiducial {
                0
            } else {
                quadrant(width, height, tx, ty)
            };
            let (x, y) = source_cell(pattern, width, height, tx, ty);
            &&& 0 <= t < pattern_transforms(pattern).len()
            &&& 0 <= x < width
            &&& 0 <= y < height
            &&& transform_point(pattern_transforms(pattern)[t], m * width - 1, m * height - 1, x, y)
                == (tx, ty)
        }),
{
}

/// The placement index that serves the spot `(tx, ty)`.
spec fn serving_placement(pattern: Pattern, width: int, height: int, tx: int, ty: int) -> int {
    if pattern == Pattern::Fiducial {
        0
    } else {
        quadrant(width, height, tx, ty)
    }
}

/// The image `target` holds the placements made so far: those of every source cell
/// before index `c`, and the first `t` placements of cell `c`; every other spot still
/// holds its value from `init`.
spec fn placed<T>(
    pattern: Pattern,
    width: int,
    height: int,
    target: Seq<T>,
    init: Seq<T>,
    source: Seq<T>,
    c: int,
    t: int,
) -> bool {
    let m = pattern_multiplier(pattern);
    forall|tx: int, ty: int|
        0 <= tx < m * width && 0 <= ty < m * height ==> {
            let (sx, sy) = source_cell(pattern, width, height, tx, ty);
            let done = cell_index(width, sx, sy) < c || (cell_index(width, sx, sy) == c
                && serving_placement(pattern, width, height, tx, ty) < t);
            #[trigger] target[cell_index(m * width, tx, ty)] == if done {
                source[cell_index(width, sx, sy)]
            } else {
                init[cell_index(m * width, tx, ty)]
            }
        }
}

/// Making placement `t` of source cell `c` extends what has been placed.
proof fn lemma_place<T>(
    pattern: Pattern,
    width: int,
    height: int,
    before: Seq<T>,
    after: Seq<T>,
    init: Seq<T>,
    source: Seq<T>,
    x: int,
    y: int,
    t: int,
    px: int,
    py: int,
)
    requires
        pattern_fits(pattern, width, height),
        0 <= x < width,
        0 <= y < height,
        0 <= t < pattern_transforms(pattern).len(),
        (px, py) == transform_point(
            pattern_transforms(pattern)[t],
            pattern_multiplier(pattern) * width - 1,
            pattern_multiplier(pattern) * height - 1,
            x,
            y,
        ),
        placed(pattern, width, height, before, init, source, cell_index(width, x, y), t),
        before.len() == (pattern_multiplier(pattern) * width) * (pattern_multiplier(pattern) * height),
        after == before.update(
            cell_index(pattern_multiplier(pattern) * width, px, py),
            source[cell_index(width, x, y)],
        ),
    ensures
        placed(pattern, width, height, after, init, source, cell_index(width, x, y), t + 1),
{
    let m = pattern_multiplier(pattern);
    let c = cell_index(width, x, y);
    lemma_placement(pattern, width, height, t, x, y);
    assert forall|tx: int, ty: int| 0 <= tx < m * width && 0 <= ty < m * height implies {
        let (sx, sy) = source_cell(pattern, width, height, tx, ty);
        let done = cell_index(width, sx, sy) < c || (cell_index(width, sx, sy) == c
            && serving_placement(pattern, width, height, tx, ty) < t + 1);
        #[trigger] after[cell_index(m * width, tx, ty)] == if done {
            source[cell_index(width, sx, sy)]
        } else {
            init[cell_index(m * width, tx, ty)]
        }
    } by {
        lemma_spot(pattern, width, height, tx, ty);
        let (sx, sy) = source_cell(pattern, width, height, tx, ty);
        lemma_cell_index_injective(width, height, sx, sy, x, y);
        lemma_cell_index_injective(m * width, m * height, tx, ty, px, py);
        lemma_cell_index_bounds(m * width, m * height, tx, ty);
        lemma_cell_index_bounds(m * width, m * height, px, py);
        let old_value = before[cell_index(m * width, tx, ty)];
        let q = serving_placement(pattern, width, height, tx, ty);
        if tx == px && ty == py {
            assert(sx == x && sy == y);
            assert(q == t);
            assert(after[cell_index(m * width, tx, ty)] == source[c]);
        } else {
            assert(cell_index(m * width, tx, ty) != cell_index(m * width, px, py));
            assert(after[cell_index(m * width, tx, ty)] == old_value);
            if cell_index(width, sx, sy) == c && q == t {
                assert(sx == x && sy == y);
                assert(false);
            }
        }
    }
}

/// Applies a pattern to a grid: the grid becomes one quadrant of an image twice as
/// wide and high, and mirrored or turned copies fill the others (the fiducial pattern
/// keeps the grid as it is).
pub fn apply_pattern<T: Copy + Default>(source: &Grid<T>, pattern: Pattern) -> (target: Grid<T>)
    requires
        source.wf(),
        pattern_fits(pattern, source.width as int, source.height as int),
        4 * source.width * source.height <= usize::MAX,
    ensures
        target.wf(),
        target.width == pattern_multiplier(pattern) * source.width,
        target.height == pattern_multiplier(pattern) * source.height,
        forall|tx: int, ty: int|
            0 <= tx < target.width && 0 <= ty < target.height ==> {
                let (x, y) = source_cell(pattern, source.width as int, source.height as int, tx, ty);
                #[trigger] target.cell(tx, ty) == source.cell(x, y)
            },
{
    let multiplier: usize = if pattern == Pattern::Fiducial { 1 } else { 2 };
    assert(source.width * 2 <= usize::MAX && source.height * 2 <= usize::MAX) by (nonlinear_arith)
        requires
            4 * source.width * source.height <= usize::MAX,
            source.width > 0,
            source.height > 0,
    ;
    let target_width = source.width * multiplier;
    let target_height = source.height * multiplier;
    assert(target_width * target_height <= usize::MAX) by (nonlinear_arith)
        requires
            target_width == source.width * multiplier,
            target_height == source.height * multiplier,
            multiplier <= 2,
            4 * source.width * source.height <= usize::MAX,
    ;
    let mut grid: Grid<T> = Grid::new(target_width, target_height);
    let ghost init = grid.storage@;
    let max_x = target_width - 1;
    let max_y = target_height - 1;

    let transforms: Vec<Transform> = match pattern {
        Pattern::Snowflake => vec![
            Transform { transpose: false, reflect_x: false, reflect_y: false },
            Transform { transpose: false, reflect_x: true, reflect_y: false },
            Transform { transpose: false, reflect_x: false, reflect_y: true },
            Transform { transpose: false, reflect_x: true, reflect_y: true },
        ],
        Pattern::Pinwheel => vec![
            Transform { transpose: false, reflect_x: false, reflect_y: false },
            Transform { transpose: true, reflect_x: true, reflect_y: false },
            Transform { transpose: true, reflect_x: false, reflect_y: true },
            Transform { transpose: false, reflect_x: true, reflect_y: true },
        ],
        Pattern::Fiducial => vec![Transform { transpose: false, reflect_x: false, reflect_y: false }],
    };
    assert(transforms@ =~= pattern_transforms(pattern));

    let frac_width = source.width;
    let frac_height = source.height;
    let ghost w = frac_width as int;
    let ghost h = frac_height as int;
    let ghost tw = target_width as int;
    let ghost th = target_height as int;
    assert(0 * w == 0);
    assert(placed(pattern, w, h, grid.storage@, init, source.storage@, 0, 0));
    for y in 0..frac_height
        invariant
            source.wf(),
            grid.wf(),
            pattern_fits(pattern, w, h),
            w == frac_width == source.width,
            h == frac_height == source.height,
            tw == target_width == grid.width == multiplier * w,
            th == target_height == grid.height == multiplier * h,
            multiplier == pattern_multiplier(pattern),
            max_x == tw - 1,
            max_y == th - 1,
            transforms@ == pattern_transforms(pattern),
            placed(pattern, w, h, grid.storage@, init, source.storage@, y * w, 0),
    {
        for x in 0..frac_width
            invariant
                source.wf(),
                grid.wf(),
                pattern_fits(pattern, w, h),
                w == frac_width == source.width,
                h == frac_height == source.height,
                tw == target_width == grid.width == multiplier * w,
                th == target_height == grid.height == multiplier * h,
                multiplier == pattern_multiplier(pattern),
                max_x == tw - 1,
                max_y == th - 1,
                y < h,
                transforms@ == pattern_transforms(pattern),
                placed(pattern, w, h, grid.storage@, init, source.storage@, y * w + x, 0),
        {
            let value = source.get_value(x, y);
            let ghost c = y * w + x;
            let n = transforms.len();
            for ti in 0..n
                invariant
                    source.wf(),
                    grid.wf(),
                    pattern_fits(pattern, w, h),
                    w == frac_width == source.width,
                    h == frac_height == source.height,
                    tw == target_width == grid.width == multiplier * w,
                    th == target_height == grid.height == multiplier * h,
                    multiplier == pattern_multiplier(pattern),
                    max_x == tw - 1,
                    max_y == th - 1,
                    x < w,
                    y < h,
                    c == cell_index(w, x as int, y as int),
                    value == source.storage@[c],
                    n == transforms@.len(),
                    transforms@ == pattern_transforms(pattern),
                    placed(pattern, w, h, grid.storage@, init, source.storage@, c, ti as int),
            {
                let t = &transforms[ti];
                let mut px = x;
                let mut py = y;
                if t.transpose {
                    std::mem::swap(&mut px, &mut py);
                }
                if t.reflect_x {
                    px = max_x - px;
                }
                if t.reflect_y {
                    py = max_y - py;
                }
                proof {
                    lemma_placement(pattern, w, h, ti as int, x as int, y as int);
                }
                let ghost before = grid.storage@;
                grid.set_value(value, px, py);
                proof {
                    lemma_place(
                        pattern,
                        w,
                        h,
                        before,
                        grid.storage@,
                        init,
                        source.storage@,
                        x as int,
                        y as int,
                        ti as int,
                        px as int,
                        py as int,
                    );
                }
            }
            proof {
                lemma_next_cell(pattern, w, h, grid.storage@, init, source.storage@, c);
            }
        }
        assert((y + 1) * w == y * w + w) by (nonlinear_arith);
    }
    proof {
        assert forall|tx: int, ty: int| 0 <= tx < tw && 0 <= ty < th implies {
            let (x, y) = source_cell(pattern, w, h, tx, ty);
            #[trigger] grid.cell(tx, ty) == source.cell(x, y)
        } by {
            lemma_spot(pattern, w, h, tx, ty);
            let (sx, sy) = source_cell(pattern, w, h, tx, ty);
            lemma_cell_index_bounds(w, h, sx, sy);
            assert(h * w == w * h) by (nonlinear_arith);
            assert(grid.storage@[cell_index(tw, tx, ty)] == grid.storage@[cell_index(tw, tx, ty)]);
        }
    }
    grid
}

/// Once every placement of cell `c` is made, the placements of the cells before `c + 1`
/// are made.
proof fn lemma_next_cell<T>(
    pattern: Pattern,
    width: int,
    height: int,
    target: Seq<T>,
    init: Seq<T>,
    source: Seq<T>,
    c: int,
)
    requires
        pattern_fits(pattern, width, height),
        placed(pattern, width, height, target, init, source, c, pattern_transforms(pattern).len() as int),
    ensures
        placed(pattern, width, height, target, init, source, c + 1, 0),
{
    let m = pattern_multiplier(pattern);
    assert forall|tx: int, ty: int| 0 <= tx < m * width && 0 <= ty < m * height implies {
        let (sx, sy) = source_cell(pattern, width, height, tx, ty);
        let done = cell_index(width, sx, sy) < c + 1 || (cell_index(width, sx, sy) == c + 1
            && serving_placement(pattern, width, height, tx, ty) < 0);
        #[trigger] target[cell_index(m * width, tx, ty)] == if done {
            source[cell_index(width, sx, sy)]
        } else {
            init[cell_index(m * width, tx, ty)]
        }
    } by {
        lemma_spot(pattern, width, height, tx, ty);
    }
}

} // verus!
