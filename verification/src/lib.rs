use vstd::prelude::*;
use sha2::{Digest, Sha256};

pub mod bit_enumerator;
pub mod grid;
pub mod change_grid;
pub mod cell_grid;
pub mod generation_grid;
pub mod patterns;
pub mod gradients;

use crate::bit_enumerator::{BitEnumerator, lemma_unpack_pack, pack, unpack};
use crate::cell_grid::{CellGrid, lemma_tracked_step_is_life_step, life_step, stable_outside};
use crate::change_grid::ChangeGrid;
use crate::generation_grid::GenerationGrid;
use crate::gradients::{Gradient, gradient_choice, select_gradient};
use crate::grid::{Grid, MAX_SIDE};
use crate::patterns::{Pattern, pattern_choice, select_pattern};

verus! {

/// The LifeHash variants.
#[derive(Clone, Copy, Debug, PartialEq, Eq, Structural)]
pub enum Version {
    Version1,
    Version2,
    Detailed,
    Fiducial,
    GrayscaleFiducial,
}

/// An image as packed 8-bit color components, row by row.
pub struct Image {
    pub width: usize,
    pub height: usize,
    pub colors: Vec<u8>,
}

/// The SHA-256 digest of a byte string.
pub uninterp spec fn sha256_digest(data: Seq<u8>) -> Seq<u8>;

/// Calls `sha2::Sha256` (`new`, `update`, `finalize`). Trusted: the digest is
/// `sha256_digest` of the input, and it is 32 bytes long (the output size of SHA-256).
#[verifier::external_body]
fn sha256(data: &[u8]) -> (digest: Vec<u8>)
    ensures
        digest@ == sha256_digest(data@),
        digest@.len() == 32,
{
    let mut hasher = Sha256::new();
    hasher.update(data);
    hasher.finalize().to_vec()
}

/// The side of the square cell grid of a version.
pub open spec fn grid_side(version: Version) -> nat {
    match version {
        Version::Version1 | Version::Version2 => 16,
        _ => 32,
    }
}

/// The most generations a version runs.
pub open spec fn generation_limit(version: Version) -> nat {
    match version {
        Version::Version1 | Version::Version2 => 150,
        _ => 300,
    }
}

/// The bytes whose bits seed the first generation: the digest itself for version 1,
/// its digest for version 2, and for the 32 by 32 versions four chained digests
/// (starting from the digest, or from its digest for the grayscale fiducial version).
pub open spec fn seed_bytes(digest: Seq<u8>, version: Version) -> Seq<u8> {
    match version {
        Version::Version1 => digest,
        Version::Version2 => sha256_digest(digest),
        _ => {
            let d1 = if version == Version::GrayscaleFiducial {
                sha256_digest(digest)
            } else {
                digest
            };
            let d2 = sha256_digest(d1);
            let d3 = sha256_digest(d2);
            let d4 = sha256_digest(d3);
            d1 + d2 + d3 + d4
        },
    }
}

/// Generation `k` of the Game of Life started from `seed` on a `side` by `side` torus.
pub open spec fn generation(seed: Seq<bool>, side: int, k: nat) -> Seq<bool>
    decreases k,
{
    if k == 0 {
        seed
    } else {
        life_step(generation(seed, side, (k - 1) as nat), side, side)
    }
}

/// The digest of the packed cells of generation `k`.
pub open spec fn generation_digest(seed: Seq<bool>, side: int, k: nat) -> Seq<u8> {
    sha256_digest(pack(generation(seed, side, k)))
}

/// Generation `k` has the digest of an earlier generation.
pub open spec fn repeats(seed: Seq<bool>, side: int, k: nat) -> bool {
    exists|j: nat| j < k && #[trigger] generation_digest(seed, side, j) == generation_digest(seed, side, k)
}

/// The number of generations recorded when recording starts at generation `k`: recording
/// stops at the `limit`, or at the first generation whose digest was seen before.
pub open spec fn history_length(seed: Seq<bool>, side: int, limit: nat, k: nat) -> nat
    decreases limit - k,
{
    if k >= limit || repeats(seed, side, k) {
        k
    } else {
        history_length(seed, side, limit, k + 1)
    }
}

/// The latest of the first `n` generations (counted from one) in which cell `i` is
/// alive, or zero.
pub open spec fn last_alive(seed: Seq<bool>, side: int, i: int, n: nat) -> nat
    decreases n,
{
    if n == 0 {
        0
    } else if generation(seed, side, (n - 1) as nat)[i] {
        n
    } else {
        last_alive(seed, side, i, (n - 1) as nat)
    }
}

/// The stamp of a cell is zero exactly when the cell is dead in each of the first `n`
/// generations; otherwise it is one more than the last of those generations in which
/// the cell is alive.
pub proof fn lemma_last_alive_meaning(seed: Seq<bool>, side: int, i: int, n: nat)
    ensures
        last_alive(seed, side, i, n) <= n,
        last_alive(seed, side, i, n) == 0 <==> forall|k: nat|
            k < n ==> !#[trigger] generation(seed, side, k)[i],
        last_alive(seed, side, i, n) > 0 ==> generation(
            seed,
            side,
            (last_alive(seed, side, i, n) - 1) as nat,
        )[i],
        forall|k: nat|
            last_alive(seed, side, i, n) <= k < n ==> !#[trigger] generation(seed, side, k)[i],
    decreases n,
{
    if n > 0 {
        lemma_last_alive_meaning(seed, side, i, (n - 1) as nat);
        if generation(seed, side, (n - 1) as nat)[i] {
            assert(!(forall|k: nat| k < n ==> !#[trigger] generation(seed, side, k)[i]));
        }
    }
}

/// Where the entropy read for the gradient starts: version 2 first skips two bits and
/// the detailed version one.
pub open spec fn entropy_start(version: Version) -> int {
    match version {
        Version::Version2 => 2,
        Version::Detailed => 1,
        _ => 0,
    }
}

/// Every generation has as many cells as the seed.
proof fn lemma_generation_len(seed: Seq<bool>, side: int, k: nat)
    ensures
        generation(seed, side, k).len() == seed.len(),
    decreases k,
{
    if k > 0 {
        lemma_generation_len(seed, side, (k - 1) as nat);
    }
}

/// Everything in a LifeHash except its colours: what the Game of Life left in each
/// cell, and the gradient and pattern chosen from the digest.
pub struct Plan {
    pub version: Version,
    /// The number of generations that were recorded.
    pub history_len: usize,
    /// For each cell, the latest recorded generation (counted from one) in which it
    /// was alive, or zero.
    pub generations: Grid<usize>,
    pub gradient: Gradient,
    pub pattern: Pattern,
}

fn bytes_equal(a: &Vec<u8>, b: &Vec<u8>) -> (eq: bool)
    ensures
        eq == (a@ == b@),
{
    if a.len() != b.len() {
        return false;
    }
    let n = a.len();
    for i in 0..n
        invariant
            n == a@.len() == b@.len(),
            forall|j: int| 0 <= j < i ==> a@[j] == b@[j],
    {
        if a[i] != b[i] {
            return false;
        }
    }
    assert(a@ =~= b@);
    true
}

fn contains_digest(list: &Vec<Vec<u8>>, item: &Vec<u8>) -> (found: bool)
    ensures
        found == exists|j: int| 0 <= j < list@.len() && #[trigger] list@[j]@ == item@,
{
    let n = list.len();
    for i in 0..n
        invariant
            n == list@.len(),
            forall|j: int| 0 <= j < i ==> #[trigger] list@[j]@ != item@,
    {
        if bytes_equal(&list[i], item) {
            return true;
        }
    }
    false
}

fn seed_data(digest: &[u8], version: Version) -> (seed: Vec<u8>)
    requires
        digest@.len() == 32,
    ensures
        seed@ == seed_bytes(digest@, version),
        8 * seed@.len() == grid_side(version) * grid_side(version),
{
    match version {
        Version::Version1 => vstd::slice::slice_to_vec(digest),
        Version::Version2 => sha256(digest),
        _ => {
            let mut digest1 = vstd::slice::slice_to_vec(digest);
            if version == Version::GrayscaleFiducial {
                digest1 = sha256(digest1.as_slice());
            }
            let digest2 = sha256(digest1.as_slice());
            let digest3 = sha256(digest2.as_slice());
            let digest4 = sha256(digest3.as_slice());
            let mut digest_final = digest1;
            digest_final.extend_from_slice(digest2.as_slice());
            digest_final.extend_from_slice(digest3.as_slice());
            digest_final.extend_from_slice(digest4.as_slice());
            assert(digest_final@ =~= seed_bytes(digest@, version));
            digest_final
        },
    }
}

/// Runs the Game of Life from the packed `seed` on a `length` by `length` torus and
/// records the packed cells of each generation, stopping after `max_generations` or
/// before the first generation whose digest was recorded already.
pub fn run_generations(seed: &Vec<u8>, length: usize, max_generations: usize) -> (history: Vec<Vec<u8>>)
    requires
        0 < length <= MAX_SIDE,
        length * length <= usize::MAX,
        8 * seed@.len() == length * length,
    ensures
        history@.len() == history_length(unpack(seed@), length as int, max_generations as nat, 0),
        forall|k: int|
            0 <= k < history@.len() ==> #[trigger] history@[k]@ == pack(
                generation(unpack(seed@), length as int, k as nat),
            ),
{
    let ghost side = length as int;
    let ghost cells0 = unpack(seed@);
    let ghost limit = max_generations as nat;
    assert(0 < length * length) by (nonlinear_arith)
        requires
            0 < length,
    ;
    let mut current_cell_grid = CellGrid::new(length, length);
    let mut next_cell_grid = CellGrid::new(length, length);
    let mut current_change_grid = ChangeGrid::new(length, length);
    let mut next_change_grid = ChangeGrid::new(length, length);

    next_cell_grid.set_data(seed.as_slice());
    next_change_grid.grid.set_all(true);

    let mut history_digests: Vec<Vec<u8>> = Vec::new();
    let mut history: Vec<Vec<u8>> = Vec::new();

    while history.len() < max_generations
        invariant_except_break
            history@.len() <= max_generations,
            history_length(cells0, side, limit, 0) == history_length(cells0, side, limit, history@.len() as nat),
            next_cell_grid.cells() == generation(cells0, side, history@.len() as nat),
            stable_outside(next_cell_grid.cells(), next_change_grid.grid.storage@, side, side),
        invariant
            0 < length <= MAX_SIDE,
            length * length <= usize::MAX,
            side == length,
            limit == max_generations,
            cells0 == unpack(seed@),
            cells0.len() == side * side,
            current_cell_grid.grid.wf(),
            current_cell_grid.grid.width == length,
            current_cell_grid.grid.height == length,
            current_change_grid.grid.wf(),
            current_change_grid.grid.width == length,
            current_change_grid.grid.height == length,
            next_cell_grid.grid.wf(),
            next_cell_grid.grid.width == length,
            next_cell_grid.grid.height == length,
            next_change_grid.grid.wf(),
            next_change_grid.grid.width == length,
            next_change_grid.grid.height == length,
            history_digests@.len() == history@.len(),
            forall|k: int|
                0 <= k < history@.len() ==> #[trigger] history@[k]@ == pack(
                    generation(cells0, side, k as nat),
                ),
            forall|k: int|
                0 <= k < history@.len() ==> #[trigger] history_digests@[k]@ == generation_digest(
                    cells0,
                    side,
                    k as nat,
                ),
        ensures
            history@.len() == history_length(cells0, side, limit, 0),
        decreases max_generations - history@.len(),
    {
        let ghost k = history@.len() as nat;
        std::mem::swap(&mut current_cell_grid, &mut next_cell_grid);
        std::mem::swap(&mut current_change_grid, &mut next_change_grid);

        let data = current_cell_grid.data();
        let hash = sha256(data.as_slice());
        if contains_digest(&history_digests, &hash) {
            proof {
                let j = choose|j: int| 0 <= j < history_digests@.len() && #[trigger] history_digests@[j]@ == hash@;
                assert(generation_digest(cells0, side, j as nat) == generation_digest(cells0, side, k));
                assert(repeats(cells0, side, k));
            }
            break;
        }
        proof {
            assert forall|j: nat| j < k implies #[trigger] generation_digest(cells0, side, j) != generation_digest(cells0, side, k) by {
                assert(history_digests@[j as int]@ == generation_digest(cells0, side, j));
            }
            assert(!repeats(cells0, side, k));
        }
        history_digests.push(hash);
        history.push(data);

        proof {
            lemma_generation_len(cells0, side, k);
            lemma_tracked_step_is_life_step(
                current_cell_grid.cells(),
                current_change_grid.grid.storage@,
                side,
                side,
            );
        }
        current_cell_grid.next_generation(
            &current_change_grid,
            &mut next_cell_grid,
            &mut next_change_grid,
        );
    }
    history
}


/// Records, for each cell, the latest generation of `history` (counted from one) in
/// which it is alive.
fn stamp_generations(history: &Vec<Vec<u8>>, length: usize, Ghost(seed): Ghost<Seq<bool>>) -> (stamps: GenerationGrid)
    requires
        0 < length,
        length * length <= usize::MAX,
        seed.len() == length * length,
        seed.len() % 8 == 0,
        forall|k: int|
            0 <= k < history@.len() ==> #[trigger] history@[k]@ == pack(
                generation(seed, length as int, k as nat),
            ),
    ensures
        stamps.grid.wf(),
        stamps.grid.width == length,
        stamps.grid.height == length,
        forall|c: int|
            0 <= c < length * length ==> #[trigger] stamps.grid.storage@[c] == last_alive(
                seed,
                length as int,
                c,
                history@.len() as nat,
            ),
{
    let ghost side = length as int;
    assert(0 < length * length) by (nonlinear_arith)
        requires
            0 < length,
    ;
    let mut cell_grid = CellGrid::new(length, length);
    let mut stamps = GenerationGrid::new(length, length);
    let n = history.len();
    for i in 0..n
        invariant
            0 < length,
            length * length <= usize::MAX,
            side == length,
            0 < length * length,
            seed.len() == length * length,
            seed.len() % 8 == 0,
            n == history@.len(),
            forall|k: int|
                0 <= k < history@.len() ==> #[trigger] history@[k]@ == pack(
                    generation(seed, side, k as nat),
                ),
            cell_grid.grid.wf(),
            cell_grid.grid.width == length,
            cell_grid.grid.height == length,
            stamps.grid.wf(),
            stamps.grid.width == length,
            stamps.grid.height == length,
            forall|c: int|
                0 <= c < length * length ==> #[trigger] stamps.grid.storage@[c] == last_alive(
                    seed,
                    side,
                    c,
                    i as nat,
                ),
    {
        proof {
            lemma_generation_len(seed, side, i as nat);
            lemma_unpack_pack(generation(seed, side, i as nat));
            assert(history@[i as int]@ == pack(generation(seed, side, i as nat)));
        }
        cell_grid.set_data(history[i].as_slice());
        assert(cell_grid.cells() == generation(seed, side, i as nat));
        stamps.overlay(&cell_grid, i + 1);
    }
    stamps
}

/// The plan fits the digest: the history is that of the Game of Life seeded from the
/// digest, and the gradient and pattern are those the digest's bits choose.
pub open spec fn plan_matches(plan: Plan, digest: Seq<u8>, version: Version) -> bool {
    let side = grid_side(version) as int;
    let seed = unpack(seed_bytes(digest, version));
    let (gradient, after_gradient) = gradient_choice(version, digest, entropy_start(version));
    &&& plan.version == version
    &&& plan.history_len == history_length(seed, side, generation_limit(version), 0)
    &&& plan.generations.wf()
    &&& plan.generations.width == side
    &&& plan.generations.height == side
    &&& forall|c: int|
        0 <= c < side * side ==> #[trigger] plan.generations.storage@[c] == last_alive(
            seed,
            side,
            c,
            plan.history_len as nat,
        )
    &&& plan.gradient == gradient
    &&& plan.pattern == pattern_choice(version, digest, after_gradient).0
}

/// Runs LifeHash on a 32-byte digest up to the choice of colours.
pub fn plan_from_digest(digest: &[u8], version: Version) -> (plan: Plan)
    requires
        digest@.len() == 32,
    ensures
        plan_matches(plan, digest@, version),
{
    let (length, max_generations): (usize, usize) = match version {
        Version::Version1 | Version::Version2 => (16, 150),
        Version::Detailed | Version::Fiducial | Version::GrayscaleFiducial => (32, 300),
    };
    let seed = seed_data(digest, version);
    let history = run_generations(&seed, length, max_generations);
    let stamps = stamp_generations(&history, length, Ghost(unpack(seed@)));

    let mut entropy = BitEnumerator::new(vstd::slice::slice_to_vec(digest));
    match version {
        Version::Detailed => {
            entropy.next();
        },
        Version::Version2 => {
            entropy.next_uint2();
        },
        _ => {},
    }
    assert(entropy.position() == entropy_start(version));
    let gradient = select_gradient(&mut entropy, version);
    let pattern = select_pattern(&mut entropy, version);
    Plan { version, history_len: history.len(), generations: stamps.grid, gradient, pattern }
}

/// Runs LifeHash on the SHA-256 digest of `data` up to the choice of colours.
pub fn plan_from_data(data: &[u8], version: Version) -> (plan: Plan)
    ensures
        plan_matches(plan, sha256_digest(data@), version),
{
    let digest = sha256(data);
    plan_from_digest(digest.as_slice(), version)
}


/// The components per pixel of an image: RGBA with alpha, RGB without.
pub open spec fn components(has_alpha: bool) -> int {
    if has_alpha {
        4
    } else {
        3
    }
}

/// Component `c` of the pixel at `(tx, ty)` when an RGB image `width` pixels wide is
/// scaled up by `module_size`: each pixel becomes a square of `module_size` by
/// `module_size` pixels, and the alpha component is opaque.
pub open spec fn scaled_component(
    rgb: Seq<u8>,
    width: int,
    module_size: int,
    tx: int,
    ty: int,
    c: int,
) -> u8 {
    if c < 3 {
        rgb[((ty / module_size) * width + tx / module_size) * 3 + c]
    } else {
        255u8
    }
}

/// Distinct pixels own distinct components.
proof fn lemma_component_offsets(p1: int, c1: int, p2: int, c2: int, k: int)
    requires
        0 <= p1,
        0 <= p2,
        0 <= c1 < k,
        0 <= c2 < k,
        p1 * k + c1 == p2 * k + c2,
    ensures
        p1 == p2,
        c1 == c2,
{
    if p1 < p2 {
        assert(p1 * k + c1 < p2 * k + c2) by (nonlinear_arith)
            requires
                p1 < p2,
                0 <= c1 < k,
                0 <= c2,
        ;
    } else if p2 < p1 {
        assert(p2 * k + c2 < p1 * k + c1) by (nonlinear_arith)
            requires
                p2 < p1,
                0 <= c2 < k,
                0 <= c1,
        ;
    }
}

/// The components of a pixel lie in an image of `n` pixels.
proof fn lemma_component_bound(p: int, c: int, k: int, n: int)
    requires
        0 <= p < n,
        0 <= c < k,
    ensures
        0 <= p * k + c < n * k,
{
    assert(0 <= p * k + c < n * k) by (nonlinear_arith)
        requires
            0 <= p < n,
            0 <= c < k,
    ;
}

/// Scales an RGB image up by `module_size`, optionally adding an opaque alpha
/// component to each pixel.
pub fn make_image(width: usize, height: usize, colors: &Vec<u8>, module_size: usize, has_alpha: bool) -> (image: Image)
    requires
        module_size > 0,
        colors@.len() == width * height * 3,
        width * height * 3 <= usize::MAX,
        width * module_size <= usize::MAX,
        height * module_size <= usize::MAX,
        (width * module_size) * (height * module_size) * 4 <= usize::MAX,
    ensures
        image.width == width * module_size,
        image.height == height * module_size,
        image.colors@.len() == image.width * image.height * components(has_alpha),
        forall|tx: int, ty: int, c: int|
            0 <= tx < image.width && 0 <= ty < image.height && 0 <= c < components(has_alpha)
                ==> #[trigger] image.colors@[(ty * image.width + tx) * components(has_alpha) + c]
                == scaled_component(colors@, width as int, module_size as int, tx, ty, c),
{
    let scaled_width = width * module_size;
    let scaled_height = height * module_size;
    let result_components: usize = if has_alpha { 4 } else { 3 };
    let scaled_capacity = scaled_width * scaled_height * result_components;
    let ghost k = result_components as int;
    let ghost sw = scaled_width as int;
    let ghost sh = scaled_height as int;
    let ghost ms = module_size as int;
    let ghost w = width as int;
    let ghost h = height as int;

    let mut result_colors: Vec<u8> = vec![0u8; scaled_capacity];

    assert(0 * sw == 0);
    for target_y in 0..scaled_height
        invariant
            scaled_width == width * module_size,
            scaled_height == height * module_size,
            module_size > 0,
            colors@.len() == w * h * 3,
            w * h * 3 <= usize::MAX,
            k == result_components == components(has_alpha),
            sw == scaled_width,
            sh == scaled_height,
            ms == module_size,
            w == width,
            h == height,
            scaled_capacity == sw * sh * k,
            sw * sh * 4 <= usize::MAX,
            result_colors@.len() == scaled_capacity,
            forall|tx: int, ty: int, c: int|
                0 <= tx < sw && 0 <= ty < target_y && 0 <= c < k
                    ==> #[trigger] result_colors@[(ty * sw + tx) * k + c]
                    == scaled_component(colors@, w, ms, tx, ty, c),
    {
        for target_x in 0..scaled_width
            invariant
                scaled_width == width * module_size,
                scaled_height == height * module_size,
                module_size > 0,
                colors@.len() == w * h * 3,
                w * h * 3 <= usize::MAX,
                k == result_components == components(has_alpha),
                sw == scaled_width,
                sh == scaled_height,
                ms == module_size,
                w == width,
                h == height,
                target_y < sh,
                scaled_capacity == sw * sh * k,
                sw * sh * 4 <= usize::MAX,
                result_colors@.len() == scaled_capacity,
                forall|tx: int, ty: int, c: int|
                    0 <= tx < sw && 0 <= ty < sh && (ty < target_y || (ty == target_y && tx < target_x)) && 0 <= c < k
                        ==> #[trigger] result_colors@[(ty * sw + tx) * k + c]
                        == scaled_component(colors@, w, ms, tx, ty, c),
        {
            let source_x = target_x / module_size;
            let source_y = target_y / module_size;
            proof {
                vstd::arithmetic::div_mod::lemma_multiply_divide_lt(target_x as int, ms, w);
                vstd::arithmetic::div_mod::lemma_multiply_divide_lt(target_y as int, ms, h);
                crate::grid::lemma_cell_index_bounds(w, h, source_x as int, source_y as int);
                lemma_component_bound(source_y * w + source_x, 2, 3, w * h);
                crate::grid::lemma_cell_index_bounds(sw, sh, target_x as int, target_y as int);
                lemma_component_bound(target_y * sw + target_x, k - 1, k, sw * sh);
                assert(sw * sh * k <= usize::MAX) by (nonlinear_arith)
                    requires
                        sw * sh * 4 <= usize::MAX,
                        k <= 4,
                        0 <= sw * sh,
                ;
            }
            let source_offset = (source_y * width + source_x) * 3;
            let target_offset = (target_y * scaled_width + target_x) * result_components;
            let ghost before = result_colors@;

            result_colors.set(target_offset, colors[source_offset]);
            result_colors.set(target_offset + 1, colors[source_offset + 1]);
            result_colors.set(target_offset + 2, colors[source_offset + 2]);
            if has_alpha {
                result_colors.set(target_offset + 3, 255);
            }
            proof {
                assert forall|tx: int, ty: int, c: int|
                    0 <= tx < sw && 0 <= ty < sh && (ty < target_y || (ty == target_y && tx < target_x + 1)) && 0 <= c < k
                        implies #[trigger] result_colors@[(ty * sw + tx) * k + c]
                        == scaled_component(colors@, w, ms, tx, ty, c) by {
                    crate::grid::lemma_cell_index_bounds(sw, sh, tx, ty);
                    lemma_component_bound(ty * sw + tx, c, k, sw * sh);
                    if tx == target_x && ty == target_y {
                    } else {
                        crate::grid::lemma_cell_index_injective(sw, sh, tx, ty, target_x as int, target_y as int);
                        let p = ty * sw + tx;
                        let q = target_y * sw + target_x;
                        if p * k + c == q * k + 0 {
                            lemma_component_offsets(p, c, q, 0, k);
                        }
                        if p * k + c == q * k + 1 {
                            lemma_component_offsets(p, c, q, 1, k);
                        }
                        if p * k + c == q * k + 2 {
                            lemma_component_offsets(p, c, q, 2, k);
                        }
                        if k == 4 && p * k + c == q * k + 3 {
                            lemma_component_offsets(p, c, q, 3, k);
                        }
                        assert(result_colors@[p * k + c] == before[p * k + c]);
                    }
                }
            }
        }
    }

    Image { width: scaled_width, height: scaled_height, colors: result_colors }
}


/// The recorded history never repeats itself: no two recorded generations share a
/// digest, and recording stopped either at the limit or at a generation whose digest
/// had been recorded.
pub proof fn lemma_history_stops_at_first_repeat(seed: Seq<bool>, side: int, limit: nat)
    ensures
        ({
            let n = history_length(seed, side, limit, 0);
            &&& n <= limit
            &&& n == limit || repeats(seed, side, n)
            &&& forall|j: nat, k: nat|
                j < k < n ==> #[trigger] generation_digest(seed, side, j) != #[trigger] generation_digest(
                    seed,
                    side,
                    k,
                )
        }),
{
    lemma_history_length_from(seed, side, limit, 0);
    let n = history_length(seed, side, limit, 0);
    assert forall|j: nat, k: nat| j < k < n implies #[trigger] generation_digest(seed, side, j)
        != #[trigger] generation_digest(seed, side, k) by {
        assert(!repeats(seed, side, k));
    }
}

/// Recording from generation `k` on stops at the limit or at the first repeat after `k`.
proof fn lemma_history_length_from(seed: Seq<bool>, side: int, limit: nat, k: nat)
    ensures
        ({
            let n = history_length(seed, side, limit, k);
            &&& k <= n
            &&& n <= limit || n == k
            &&& n >= limit || repeats(seed, side, n)
            &&& forall|m: nat| k <= m < n ==> !#[trigger] repeats(seed, side, m)
        }),
    decreases limit - k,
{
    if k < limit && !repeats(seed, side, k) {
        lemma_history_length_from(seed, side, limit, k + 1);
    }
}

/// The seed of the first generation, by version: the digest itself for version 1 and
/// its SHA-256 digest for version 2; for the detailed and fiducial versions the digest
/// followed by its digest, that digest's digest and the next one; for the grayscale
/// fiducial version the same chain of four, started from the digest's digest. Each
/// seed has one bit for every cell of the version's grid.
pub proof fn lemma_seed_by_version(digest: Seq<u8>)
    ensures
        seed_bytes(digest, Version::Version1) == digest,
        seed_bytes(digest, Version::Version2) == sha256_digest(digest),
        seed_bytes(digest, Version::Detailed) == digest + sha256_digest(digest) + sha256_digest(
            sha256_digest(digest),
        ) + sha256_digest(sha256_digest(sha256_digest(digest))),
        seed_bytes(digest, Version::Fiducial) == seed_bytes(digest, Version::Detailed),
        seed_bytes(digest, Version::GrayscaleFiducial) == seed_bytes(
            sha256_digest(digest),
            Version::Detailed,
        ),
{
}

/// What a plan records of the Game of Life seeded with the bits of `seed` on a `side`
/// by `side` torus and run for at most `limit` generations.
pub open spec fn records_run(plan: Plan, seed: Seq<u8>, side: int, limit: nat) -> bool {
    let cells = unpack(seed);
    &&& plan.history_len == history_length(cells, side, limit, 0)
    &&& forall|c: int|
        0 <= c < side * side ==> #[trigger] plan.generations.storage@[c] == last_alive(
            cells,
            side,
            c,
            plan.history_len as nat,
        )
}

/// A plan of a digest, by version: version 1 runs 150 generations of a 16 by 16 grid
/// seeded with the digest, version 2 the same grid seeded with the digest's SHA-256
/// digest; the other versions run 300 generations of a 32 by 32 grid seeded with four
/// chained digests. Version 2 reads the gradient from bit 2 of the digest, the detailed
/// version from bit 1 and the others from bit 0, and the pattern is read where the
/// gradient ends.
pub proof fn lemma_plan_by_version(plan: Plan, digest: Seq<u8>, version: Version)
    requires
        plan_matches(plan, digest, version),
    ensures
        version == Version::Version1 ==> records_run(plan, digest, 16, 150),
        version == Version::Version2 ==> records_run(plan, sha256_digest(digest), 16, 150),
        version == Version::Detailed || version == Version::Fiducial ==> records_run(
            plan,
            seed_bytes(digest, Version::Detailed),
            32,
            300,
        ),
        version == Version::GrayscaleFiducial ==> records_run(
            plan,
            seed_bytes(sha256_digest(digest), Version::Detailed),
            32,
            300,
        ),
        plan.generations.width == plan.generations.height == grid_side(version),
        version == Version::Version1 || version == Version::Fiducial || version
            == Version::GrayscaleFiducial ==> plan.gradient == gradient_choice(version, digest, 0).0
            && plan.pattern == pattern_choice(version, digest, gradient_choice(version, digest, 0).1).0,
        version == Version::Version2 ==> plan.gradient == gradient_choice(version, digest, 2).0
            && plan.pattern == pattern_choice(version, digest, gradient_choice(version, digest, 2).1).0,
        version == Version::Detailed ==> plan.gradient == gradient_choice(version, digest, 1).0
            && plan.pattern == pattern_choice(version, digest, gradient_choice(version, digest, 1).1).0,
{
    lemma_seed_by_version(digest);
}

/// Scaling turns each source pixel into a `module_size` by `module_size` square in the
/// same place: for `dx` and `dy` below `module_size`, the pixel at
/// `(x * module_size + dx, y * module_size + dy)` takes the colour components of the
/// source pixel `(x, y)`, rows counted from the top whatever the image's height, and
/// its alpha component is opaque.
pub proof fn lemma_scaled_pixel(
    rgb: Seq<u8>,
    width: int,
    module_size: int,
    x: int,
    y: int,
    dx: int,
    dy: int,
)
    requires
        0 < module_size,
        0 <= x < width,
        0 <= y,
        0 <= dx < module_size,
        0 <= dy < module_size,
    ensures
        forall|c: int|
            0 <= c < 3 ==> #[trigger] scaled_component(
                rgb,
                width,
                module_size,
                x * module_size + dx,
                y * module_size + dy,
                c,
            ) == rgb[(y * width + x) * 3 + c],
        scaled_component(rgb, width, module_size, x * module_size + dx, y * module_size + dy, 3)
            == 255u8,
{
    vstd::arithmetic::div_mod::lemma_fundamental_div_mod_converse(
        x * module_size + dx,
        module_size,
        x,
        dx,
    );
    vstd::arithmetic::div_mod::lemma_fundamental_div_mod_converse(
        y * module_size + dy,
        module_size,
        y,
        dy,
    );
}

} // verus!
