//! The pipeline: from a digest to the field of fractions, the palette and
//! the pattern, and from a field and its shades to the image.

use vstd::prelude::*;
use vstd::slice::slice_to_vec;
use crate::grids::cell_grid::{
    covers, lemma_all_marked_covers, lemma_spread_covers, lemma_stepped_is_life_step, life_step,
    seeded, Cellgrid,
};
use crate::colors::gradient::{gradient_at, gradient_bits, select_gradient};
use crate::colors::{Palette, Pixel};
use crate::grids::change_grid::ChangeGrid;
use crate::grids::color_grid::{source_of, tiled_size, tiles, ColorGrid};
use crate::grids::frac_grid::{overlaid, FracGrid};
use crate::grids::{lemma_index_of_point, lemma_point_at_index, point_at};
use crate::utils::bits::{bit_at, pack, Enumerator};
use crate::utils::hash::{sha256, sha256_digest};
use crate::utils::{multiplier, pattern_at, pattern_bits, select_pattern};
use crate::{Dimensions, Error, Image, Pattern, Point, Version};

verus! {

/// The bytes that seed the automaton. The legacy version takes the digest as
/// it is, the default version its SHA-256 digest. The versions with the
/// larger board take four blocks: the digest (the grayscale fiducial version
/// its SHA-256 digest instead), and three more, each the SHA-256 digest of
/// the block before it.
pub open spec fn seed_of(digest: Seq<u8>, version: Version) -> Seq<u8> {
    match version {
        Version::Version1 => digest,
        Version::Version2 => sha256(digest),
        _ => {
            let first = if version == Version::GrayscaleFiducial {
                sha256(digest)
            } else {
                digest
            };
            let second = sha256(first);
            let third = sha256(second);
            let fourth = sha256(third);
            first + second + third + fourth
        },
    }
}

/// The digest is short enough for its seed to fit the board of the version.
pub open spec fn seed_fits(digest_len: int, version: Version) -> bool {
    match version {
        Version::Version2 | Version::GrayscaleFiducial => true,
        _ => digest_len <= 32,
    }
}

fn append_bytes(target: &mut Vec<u8>, more: &Vec<u8>)
    ensures
        final(target)@ == old(target)@ + more@,
{
    let mut i: usize = 0;
    while i < more.len()
        invariant
            i <= more@.len(),
            target@ == old(target)@ + more@.take(i as int),
        decreases more@.len() - i,
    {
        target.push(more[i]);
        assert(more@.take(i as int).push(more@[i as int]) =~= more@.take(i + 1));
        assert(target@ =~= old(target)@ + more@.take(i + 1));
        i += 1;
    }
    assert(more@.take(i as int) =~= more@);
    assert(old(target)@ + more@.take(0) =~= old(target)@);
}

/// Prepares the seed of the automaton from the digest.
pub fn seed(digest: &[u8], version: Version) -> (bytes: Vec<u8>)
    ensures
        bytes@ == seed_of(digest@, version),
        seed_fits(digest@.len() as int, version) ==> 8 * bytes@.len() <= version.grid_side()
            * version.grid_side(),
{
    match version {
        Version::Version1 => slice_to_vec(digest),
        Version::Version2 => sha256_digest(digest),
        _ => {
            let mut digest1 = if version == Version::GrayscaleFiducial {
                sha256_digest(digest)
            } else {
                slice_to_vec(digest)
            };
            let digest2 = sha256_digest(digest1.as_slice());
            let digest3 = sha256_digest(digest2.as_slice());
            let digest4 = sha256_digest(digest3.as_slice());
            append_bytes(&mut digest1, &digest2);
            append_bytes(&mut digest1, &digest3);
            append_bytes(&mut digest1, &digest4);
            digest1
        },
    }
}

/// The byte strings that the vectors hold.
pub open spec fn snapshots(history: Seq<Vec<u8>>) -> Seq<Seq<u8>> {
    Seq::new(history.len(), |i: int| history[i]@)
}

/// The snapshots that a run records when it stands at `board` and has
/// recorded `seen`: it stops once `cap` snapshots are recorded or the packed
/// board is among them; otherwise it records the packed board and goes on
/// with the next generation.
pub open spec fn recorded(board: Seq<bool>, dims: Dimensions, seen: Seq<Seq<u8>>, cap: int) -> Seq<
    Seq<u8>,
>
    decreases cap - seen.len(),
{
    if seen.len() >= cap || seen.contains(pack(board)) {
        seen
    } else {
        recorded(life_step(board, dims), dims, seen.push(pack(board)), cap)
    }
}

/// The board that the seed bytes give: their bits in the first cells, dead
/// cells after them.
pub open spec fn seed_board(seed: Seq<u8>, dims: Dimensions) -> Seq<bool> {
    seeded(Seq::new(dims.area() as nat, |i: int| false), seed)
}

/// The snapshots of a whole run from the seed.
pub open spec fn history_of(seed: Seq<u8>, dims: Dimensions, cap: int) -> Seq<Seq<u8>> {
    recorded(seed_board(seed, dims), dims, Seq::empty(), cap)
}

fn same_bytes(a: &Vec<u8>, b: &Vec<u8>) -> (same: bool)
    ensures
        same == (a@ == b@),
{
    if a.len() != b.len() {
        return false;
    }
    let mut i: usize = 0;
    while i < a.len()
        invariant
            a@.len() == b@.len(),
            i <= a@.len(),
            forall|j: int| 0 <= j < i ==> a@[j] == b@[j],
        decreases a@.len() - i,
    {
        if a[i] != b[i] {
            return false;
        }
        i += 1;
    }
    assert(a@ =~= b@);
    true
}

/// Whether `data` is among the snapshots in `history`.
pub fn contains(history: &Vec<Vec<u8>>, data: &Vec<u8>) -> (found: bool)
    ensures
        found == snapshots(history@).contains(data@),
{
    let mut i: usize = 0;
    while i < history.len()
        invariant
            i <= history@.len(),
            forall|j: int| 0 <= j < i ==> snapshots(history@)[j] != data@,
        decreases history@.len() - i,
    {
        if same_bytes(&history[i], data) {
            assert(snapshots(history@)[i as int] == data@);
            return true;
        }
        i += 1;
    }
    false
}

/// Runs the automaton from the seed and records the packed board of every
/// generation, until a board comes up that was recorded before or
/// `max_generations` boards are recorded.
pub fn generations(seed: &[u8], dimensions: Dimensions, max_generations: usize) -> (history: Vec<
    Vec<u8>,
>)
    requires
        dimensions.nonempty(),
        dimensions.area() <= usize::MAX,
        8 * seed@.len() <= dimensions.area(),
    ensures
        snapshots(history@) == history_of(seed@, dimensions, max_generations as int),
{
    let mut current_cell_grid = Cellgrid::new(dimensions);
    let mut next_cell_grid = Cellgrid::new(dimensions);
    let mut current_change_grid = ChangeGrid::new(dimensions);
    let mut next_change_grid = ChangeGrid::new(dimensions);
    let mut history: Vec<Vec<u8>> = Vec::new();
    let ghost blank = next_cell_grid@;
    next_cell_grid.set_data(seed);
    next_change_grid.set_all(true);
    let ghost goal = history_of(seed@, dimensions, max_generations as int);
    proof {
        assert(blank =~= Seq::new(dimensions.area() as nat, |i: int| false));
        assert(snapshots(history@) =~= Seq::<Seq<u8>>::empty());
        lemma_all_marked_covers(next_cell_grid@, next_change_grid@, dimensions);
    }
    while history.len() < max_generations
        invariant_except_break
            current_cell_grid.wf(),
            next_cell_grid.wf(),
            current_change_grid.wf(),
            next_change_grid.wf(),
            current_cell_grid.dimensions == dimensions,
            next_cell_grid.dimensions == dimensions,
            current_change_grid.dimensions == dimensions,
            next_change_grid.dimensions == dimensions,
            covers(next_cell_grid@, next_change_grid@, dimensions),
            recorded(next_cell_grid@, dimensions, snapshots(history@), max_generations as int)
                == goal,
        ensures
            snapshots(history@) == goal,
        decreases max_generations - history@.len(),
    {
        std::mem::swap(&mut current_cell_grid, &mut next_cell_grid);
        std::mem::swap(&mut current_change_grid, &mut next_change_grid);
        let data = current_cell_grid.get_data();
        if contains(&history, &data) {
            break ;
        }
        let ghost before = snapshots(history@);
        history.push(data);
        assert(snapshots(history@) =~= before.push(pack(current_cell_grid@)));
        current_cell_grid.next_generation(
            &current_change_grid,
            &mut next_cell_grid,
            &mut next_change_grid,
        );
        proof {
            lemma_stepped_is_life_step(current_cell_grid@, current_change_grid@, dimensions);
            lemma_spread_covers(current_cell_grid@, dimensions);
        }
    }
    history
}

/// The number, counted from one, of the last of the first `n` snapshots in
/// which cell `cell` is alive, and zero if it is alive in none.
pub open spec fn last_alive(history: Seq<Seq<u8>>, cell: int, n: int) -> int
    decreases n,
{
    if n <= 0 {
        0
    } else if bit_at(history[n - 1], cell) {
        n
    } else {
        last_alive(history, cell, n - 1)
    }
}

/// The field that a history accumulates to: for every cell the number of the
/// last snapshot in which it is alive.
pub open spec fn field_of(history: Seq<Seq<u8>>, dims: Dimensions) -> Seq<usize> {
    Seq::new(dims.area() as nat, |c: int| last_alive(history, c, history.len() as int) as usize)
}

/// No cell was last alive later than in the last snapshot.
pub proof fn lemma_last_alive_bounds(history: Seq<Seq<u8>>, cell: int, n: int)
    requires
        0 <= n,
    ensures
        0 <= last_alive(history, cell, n) <= n,
    decreases n,
{
    if n > 0 {
        lemma_last_alive_bounds(history, cell, n - 1);
    }
}

/// Overlays the snapshots in order, each with its number, so that every cell
/// ends up with the number of the last snapshot in which it is alive.
pub fn accumulate(history: &Vec<Vec<u8>>, dimensions: Dimensions) -> (frac_grid: FracGrid)
    requires
        dimensions.nonempty(),
        dimensions.area() <= usize::MAX,
        forall|i: int| 0 <= i < history@.len() ==> 8 * (#[trigger] history@[i])@.len() == dimensions.area(),
    ensures
        frac_grid.wf(),
        frac_grid.dimensions == dimensions,
        frac_grid@ == field_of(snapshots(history@), dimensions),
        forall|c: int| 0 <= c < frac_grid@.len() ==> #[trigger] frac_grid@[c] <= history@.len(),
{
    let mut cell_grid = Cellgrid::new(dimensions);
    let mut frac_grid = FracGrid::new(dimensions);
    let ghost shots = snapshots(history@);
    let mut i: usize = 0;
    while i < history.len()
        invariant
            cell_grid.wf(),
            frac_grid.wf(),
            cell_grid.dimensions == dimensions,
            frac_grid.dimensions == dimensions,
            shots == snapshots(history@),
            i <= history@.len(),
            forall|j: int|
                0 <= j < history@.len() ==> 8 * (#[trigger] history@[j])@.len() == dimensions.area(),
            forall|c: int|
                0 <= c < dimensions.area() ==> #[trigger] frac_grid@[c] == last_alive(
                    shots,
                    c,
                    i as int,
                ),
        decreases history@.len() - i,
    {
        let ghost before = frac_grid@;
        cell_grid.set_data(history[i].as_slice());
        frac_grid.overlay(&cell_grid, i + 1);
        proof {
            assert(shots[i as int] == history@[i as int]@);
            assert forall|c: int| 0 <= c < dimensions.area() implies #[trigger] frac_grid@[c]
                == last_alive(shots, c, i + 1) by {
                assert(frac_grid@[c] == overlaid(before, cell_grid@, (i + 1) as usize)[c]);
                assert(cell_grid@[c] == bit_at(shots[i as int], c));
            }
        }
        i += 1;
    }
    proof {
        assert forall|c: int| 0 <= c < frac_grid@.len() implies #[trigger] frac_grid@[c]
            <= history@.len() by {
            lemma_last_alive_bounds(shots, c, i as int);
        }
        assert(frac_grid@ =~= field_of(shots, dimensions));
    }
    frac_grid
}

/// The board after `i` generations of the rule from `board`.
pub open spec fn generation(board: Seq<bool>, dims: Dimensions, i: nat) -> Seq<bool>
    decreases i,
{
    if i == 0 {
        board
    } else {
        life_step(generation(board, dims, (i - 1) as nat), dims)
    }
}

proof fn lemma_recorded_is_life(
    start: Seq<bool>,
    dims: Dimensions,
    seen: Seq<Seq<u8>>,
    cap: int,
    i: int,
)
    requires
        forall|j: int|
            0 <= j < seen.len() ==> #[trigger] seen[j] == pack(generation(start, dims, j as nat)),
        0 <= i < recorded(generation(start, dims, seen.len()), dims, seen, cap).len(),
    ensures
        recorded(generation(start, dims, seen.len()), dims, seen, cap)[i] == pack(
            generation(start, dims, i as nat),
        ),
    decreases cap - seen.len(),
{
    let board = generation(start, dims, seen.len());
    if seen.len() >= cap || seen.contains(pack(board)) {
    } else {
        let more = seen.push(pack(board));
        assert(generation(start, dims, more.len()) == life_step(board, dims));
        assert forall|j: int| 0 <= j < more.len() implies #[trigger] more[j] == pack(
            generation(start, dims, j as nat),
        ) by {
            if j < seen.len() {
                assert(more[j] == seen[j]);
            }
        }
        lemma_recorded_is_life(start, dims, more, cap, i);
    }
}

/// The snapshots of a run are the boards of the plain rule, generation by
/// generation from the seed: snapshot `i` is the packed board after `i`
/// generations.
pub proof fn lemma_history_is_life(seed: Seq<u8>, dims: Dimensions, cap: int, i: int)
    requires
        0 <= i < history_of(seed, dims, cap).len(),
    ensures
        history_of(seed, dims, cap)[i] == pack(generation(seed_board(seed, dims), dims, i as nat)),
{
    lemma_recorded_is_life(seed_board(seed, dims), dims, Seq::empty(), cap, i);
}

/// Every snapshot of a run has one bit for each cell, and the run records at
/// least one snapshot and at most `cap`.
pub proof fn lemma_recorded_shape(board: Seq<bool>, dims: Dimensions, seen: Seq<Seq<u8>>, cap: int)
    requires
        board.len() == dims.area(),
        dims.area() % 8 == 0,
        seen.len() <= cap,
        cap >= 1,
        forall|i: int| 0 <= i < seen.len() ==> 8 * (#[trigger] seen[i]).len() == dims.area(),
    ensures
        seen.len() <= recorded(board, dims, seen, cap).len() <= cap,
        recorded(board, dims, seen, cap).len() >= 1,
        forall|i: int|
            0 <= i < recorded(board, dims, seen, cap).len() ==> 8 * (#[trigger] recorded(
                board,
                dims,
                seen,
                cap,
            )[i]).len() == dims.area(),
    decreases cap - seen.len(),
{
    let packed = pack(board);
    if seen.len() >= cap {
    } else if seen.contains(packed) {
        assert(seen.len() >= 1);
    } else {
        let more = seen.push(packed);
        let next = life_step(board, dims);
        assert(packed.len() == (board.len() + 7) / 8);
        assert(8 * packed.len() == dims.area());
        assert(next.len() == dims.area());
        assert forall|i: int| 0 <= i < more.len() implies 8 * (#[trigger] more[i]).len()
            == dims.area() by {
            if i < seen.len() {
                assert(more[i] == seen[i]);
            } else {
                assert(more[i] == packed);
            }
        }
        lemma_recorded_shape(next, dims, more, cap);
        assert(recorded(board, dims, seen, cap) == recorded(next, dims, more, cap));
    }
}

/// A run from a seed whose board the rule leaves as it is records that one
/// board and stops, whatever the cap.
pub proof fn lemma_stable_seed_records_once(seed: Seq<u8>, dims: Dimensions, cap: int)
    requires
        cap >= 1,
        life_step(seed_board(seed, dims), dims) == seed_board(seed, dims),
    ensures
        history_of(seed, dims, cap) == seq![pack(seed_board(seed, dims))],
        history_of(seed, dims, cap).len() == 1,
{
    let board = seed_board(seed, dims);
    let none = Seq::<Seq<u8>>::empty();
    let one = none.push(pack(board));
    assert(!none.contains(pack(board)));
    assert(one[0] == pack(board));
    assert(one.contains(pack(board)));
    assert(recorded(board, dims, one, cap) == one);
    assert(recorded(board, dims, none, cap) == recorded(life_step(board, dims), dims, one, cap));
    assert(one =~= seq![pack(board)]);
}

/// `low` is the smallest and `high` the largest value of the field.
pub open spec fn is_range_of(field: Seq<usize>, low: usize, high: usize) -> bool {
    &&& forall|j: int| 0 <= j < field.len() ==> low <= #[trigger] field[j] <= high
    &&& exists|j: int| 0 <= j < field.len() && field[j] == low
    &&& exists|j: int| 0 <= j < field.len() && field[j] == high
}

/// Once the field is stretched from its range `low` to `high` to the range
/// from 0 to 1, every cell holds the fraction `(value - low) / (high - low)`.
/// Where the field holds two different values, that fraction is a number
/// from 0 to 1 in every cell, 0 in some cell and 1 in some cell.
pub proof fn lemma_normalized_field_spans_unit(field: Seq<usize>, low: usize, high: usize)
    requires
        is_range_of(field, low, high),
        exists|i: int, j: int| 0 <= i < field.len() && 0 <= j < field.len() && field[i] != field[j],
    ensures
        high - low > 0,
        forall|j: int| 0 <= j < field.len() ==> 0 <= #[trigger] field[j] - low <= high - low,
        exists|j: int| 0 <= j < field.len() && field[j] - low == 0,
        exists|j: int| 0 <= j < field.len() && field[j] - low == high - low,
{
    let (i, j) = choose|i: int, j: int|
        0 <= i < field.len() && 0 <= j < field.len() && field[i] != field[j];
    assert(low <= field[i] <= high && low <= field[j] <= high);
    let at_low = choose|j: int| 0 <= j < field.len() && field[j] == low;
    let at_high = choose|j: int| 0 <= j < field.len() && field[j] == high;
    assert(field[at_low] - low == 0);
    assert(field[at_high] - low == high - low);
}

/// The bits that a version throws away before it chooses its palette, so
/// that no two versions read their palette from the same bits.
pub open spec fn skipped_bits(version: Version) -> int {
    match version {
        Version::Detailed => 1,
        Version::Version2 => 2,
        _ => 0,
    }
}

/// The number of bits of the digest that a version needs for its palette and
/// its pattern.
pub open spec fn needed_bits(digest: Seq<u8>, version: Version) -> int {
    skipped_bits(version) + gradient_bits(digest, skipped_bits(version), version) + pattern_bits(
        version,
    )
}

/// The board of a version.
pub open spec fn board_size(version: Version) -> Dimensions {
    Dimensions { width: version.grid_side(), height: version.grid_side() }
}

/// What the digest decides: the field of fractions, the palette and the
/// pattern.
pub struct Design {
    /// For every cell the number of the last generation, counted from one, in
    /// which it was alive, and zero if it never was. Divided by
    /// `generations` this is the cell's fraction.
    pub frac_grid: FracGrid,
    /// The number of generations that were recorded.
    pub generations: usize,
    /// The smallest and the largest value of the field, where the version
    /// stretches the fractions between them to the range from 0 to 1.
    pub normalized_range: Option<(usize, usize)>,
    /// The palette and its parameters.
    pub gradient: Palette,
    /// The pattern in which the field is tiled.
    pub pattern: Pattern,
    /// The digest that all this was made from.
    pub digest: Vec<u8>,
}

/// `design` is what `digest` decides under `version`.
pub open spec fn designed(digest: Seq<u8>, version: Version, design: Design) -> bool {
    let dims = board_size(version);
    let history = history_of(seed_of(digest, version), dims, version.max_generations() as int);
    let palette_at = skipped_bits(version);
    &&& design.frac_grid.wf()
    &&& design.frac_grid.dimensions == dims
    &&& design.frac_grid@ == field_of(history, dims)
    &&& design.generations == history.len()
    &&& 1 <= design.generations <= version.max_generations()
    &&& match design.normalized_range {
        Some(range) => version != Version::Version1 && is_range_of(
            design.frac_grid@,
            range.0,
            range.1,
        ),
        None => version == Version::Version1,
    }
    &&& design.gradient == gradient_at(digest, palette_at, version)
    &&& design.pattern == pattern_at(
        digest,
        palette_at + gradient_bits(digest, palette_at, version),
        version,
    )
    &&& design.digest@ == digest
}

/// A digest and a version decide one design only: two designs that they
/// decide agree in the field, the number of generations, the range, the
/// palette, the pattern and the digest.
pub proof fn lemma_design_is_determined(digest: Seq<u8>, version: Version, a: Design, b: Design)
    requires
        designed(digest, version, a),
        designed(digest, version, b),
    ensures
        a.frac_grid@ == b.frac_grid@,
        a.frac_grid.dimensions == b.frac_grid.dimensions,
        a.generations == b.generations,
        a.normalized_range == b.normalized_range,
        a.gradient == b.gradient,
        a.pattern == b.pattern,
        a.digest@ == b.digest@,
{
    let field = a.frac_grid@;
    if version != Version::Version1 {
        let ra = a.normalized_range->Some_0;
        let rb = b.normalized_range->Some_0;
        let a_low = choose|j: int| 0 <= j < field.len() && field[j] == ra.0;
        let b_low = choose|j: int| 0 <= j < field.len() && field[j] == rb.0;
        let a_high = choose|j: int| 0 <= j < field.len() && field[j] == ra.1;
        let b_high = choose|j: int| 0 <= j < field.len() && field[j] == rb.1;
        assert(rb.0 <= field[a_low] && ra.0 <= field[b_low]);
        assert(field[a_high] <= rb.1 && field[b_high] <= ra.1);
    }
}

/// Works out what a digest decides: runs the automaton from the seed,
/// accumulates the field, takes its range for every version but the legacy
/// one, and reads palette and pattern from the digest's bits. Fails when the
/// digest has too few bits for that.
pub fn from_digest(digest: &[u8], version: Version) -> (r: Result<Design, Error>)
    requires
        seed_fits(digest@.len() as int, version),
    ensures
        match r {
            Ok(design) => needed_bits(digest@, version) <= 8 * digest@.len() && designed(
                digest@,
                version,
                design,
            ),
            Err(e) => e == Error::Exhausted && needed_bits(digest@, version) > 8 * digest@.len(),
        },
{
    let length: usize = version.grid_side();
    let max_generations: usize = version.max_generations();
    let dimensions = Dimensions { width: length, height: length };
    let seed_bytes = seed(digest, version);
    let history = generations(seed_bytes.as_slice(), dimensions, max_generations);
    proof {
        lemma_recorded_shape(
            seed_board(seed_bytes@, dimensions),
            dimensions,
            Seq::empty(),
            max_generations as int,
        );
        assert forall|i: int| 0 <= i < history@.len() implies 8 * (#[trigger] history@[i])@.len()
            == dimensions.area() by {
            assert(snapshots(history@)[i] == history@[i]@);
        }
    }
    let frac_grid = accumulate(&history, dimensions);
    let normalized_range = if version != Version::Version1 {
        Some(frac_grid.value_range())
    } else {
        None
    };
    let mut entropy = Enumerator::new(digest);
    match version {
        Version::Detailed => {
            let _ = entropy.next()?;
        },
        Version::Version2 => {
            let _ = entropy.next()?;
            let _ = entropy.next()?;
        },
        _ => {},
    }
    let gradient = select_gradient(&mut entropy, version)?;
    let pattern = select_pattern(&mut entropy, version)?;
    Ok(
        Design {
            frac_grid,
            generations: history.len(),
            normalized_range,
            gradient,
            pattern,
            digest: slice_to_vec(digest),
        },
    )
}

/// Works out what the SHA-256 digest of `data` decides. Such a digest has
/// bits enough for every version.
pub fn from_data(data: &[u8], version: Version) -> (r: Result<Design, Error>)
    ensures
        r is Ok,
        designed(sha256(data@), version, r->Ok_0),
{
    let sha256 = sha256_digest(data);
    from_digest(sha256.as_slice(), version)
}

/// Number of channels of an image with or without alpha.
pub open spec fn channels_of(has_alpha: bool) -> int {
    if has_alpha {
        4
    } else {
        3
    }
}

/// Channel `c` of pixel `n` of the image that shows, `module_size` times
/// enlarged, the `width` pixels wide picture whose flat red, green and blue
/// values are `colors`: the value of the pixel of the picture that pixel `n`
/// falls into, and 255 for the alpha channel.
pub open spec fn scaled_channel(
    colors: Seq<u8>,
    width: int,
    height: int,
    module_size: int,
    n: int,
    c: int,
) -> u8 {
    let at = point_at(
        Dimensions { width: (width * module_size) as usize, height: (height * module_size) as usize },
        n,
    );
    if c == 3 {
        255
    } else {
        colors[3 * ((at.y as int / module_size) * width + at.x as int / module_size) + c]
    }
}

proof fn lemma_scaled_source(width: int, height: int, m: int, x: int, y: int)
    requires
        m > 0,
        0 <= x < width * m,
        0 <= y < height * m,
    ensures
        0 <= x / m < width,
        0 <= y / m < height,
        0 <= (y / m) * width + x / m < width * height,
{
    vstd::arithmetic::div_mod::lemma_fundamental_div_mod(x, m);
    vstd::arithmetic::div_mod::lemma_fundamental_div_mod(y, m);
    assert(0 <= x / m < width) by (nonlinear_arith)
        requires
            m > 0,
            0 <= x < width * m,
            x == m * (x / m) + x % m,
            0 <= x % m < m,
    ;
    assert(0 <= y / m < height) by (nonlinear_arith)
        requires
            m > 0,
            0 <= y < height * m,
            y == m * (y / m) + y % m,
            0 <= y % m < m,
    ;
    assert(0 <= (y / m) * width + x / m < width * height) by (nonlinear_arith)
        requires
            0 <= x / m < width,
            0 <= y / m < height,
    ;
}

/// Enlarges a picture: every pixel becomes a square of `module_size` by
/// `module_size` pixels, and every pixel gets an alpha channel of 255 where
/// alpha is asked for. Fails when the module size is zero.
pub fn make_image(
    width: usize,
    height: usize,
    colors: Vec<u8>,
    module_size: usize,
    has_alpha: bool,
) -> (r: Result<Image, Error>)
    requires
        colors@.len() == 3 * (width * height),
        width * module_size <= usize::MAX,
        height * module_size <= usize::MAX,
        (width * module_size) * (height * module_size) * channels_of(has_alpha) <= usize::MAX,
    ensures
        match r {
            Ok(image) => {
                &&& module_size > 0
                &&& image.width == width * module_size
                &&& image.height == height * module_size
                &&& image.channels == channels_of(has_alpha)
                &&& image.pixels@.len() == image.width * image.height * image.channels
                &&& forall|n: int, c: int|
                    0 <= n < image.width * image.height && 0 <= c < image.channels
                        ==> #[trigger] image.pixels@[n * channels_of(has_alpha) + c]
                        == scaled_channel(
                        colors@,
                        width as int,
                        height as int,
                        module_size as int,
                        n,
                        c,
                    )
            },
            Err(e) => e == Error::InvalidConfiguration && module_size == 0,
        },
{
    if module_size == 0 {
        return Err(Error::InvalidConfiguration);
    }
    let scaled_width: usize = width * module_size;
    let scaled_height: usize = height * module_size;
    let result_components: usize = if has_alpha {
        4
    } else {
        3
    };
    let ghost out = Dimensions { width: scaled_width, height: scaled_height };
    let ghost ch = result_components as int;
    let mut result_colors: Vec<u8> = Vec::new();
    let mut target_y: usize = 0;
    while target_y < scaled_height
        invariant
            module_size > 0,
            scaled_width == width * module_size,
            scaled_height == height * module_size,
            colors@.len() == 3 * (width * height),
            ch == channels_of(has_alpha),
            ch == result_components,
            out == (Dimensions { width: scaled_width, height: scaled_height }),
            target_y <= scaled_height,
            result_colors@.len() == (target_y * scaled_width) * ch,
            forall|n: int, c: int|
                0 <= n < target_y * scaled_width && 0 <= c < ch ==> #[trigger] result_colors@[n
                    * ch + c] == scaled_channel(
                    colors@,
                    width as int,
                    height as int,
                    module_size as int,
                    n,
                    c,
                ),
        decreases scaled_height - target_y,
    {
        let mut target_x: usize = 0;
        while target_x < scaled_width
            invariant
                module_size > 0,
                scaled_width == width * module_size,
                scaled_height == height * module_size,
                colors@.len() == 3 * (width * height),
                ch == channels_of(has_alpha),
                ch == result_components,
                out == (Dimensions { width: scaled_width, height: scaled_height }),
                target_y < scaled_height,
                target_x <= scaled_width,
                result_colors@.len() == (target_y * scaled_width + target_x) * ch,
                forall|n: int, c: int|
                    0 <= n < target_y * scaled_width + target_x && 0 <= c < ch
                        ==> #[trigger] result_colors@[n * ch + c] == scaled_channel(
                        colors@,
                        width as int,
                        height as int,
                        module_size as int,
                        n,
                        c,
                    ),
            decreases scaled_width - target_x,
        {
            let ghost n0 = target_y * scaled_width + target_x;
            let ghost before = result_colors@;
            proof {
                lemma_scaled_source(
                    width as int,
                    height as int,
                    module_size as int,
                    target_x as int,
                    target_y as int,
                );
                lemma_index_of_point(out, Point { x: target_x, y: target_y });
                assert(colors@.len() == colors.len());
                assert(0 <= (target_y as int / module_size as int) * width) by (nonlinear_arith)
                    requires
                        0 <= target_y as int / module_size as int,
                        0 <= width,
                ;
            }
            let source_x: usize = target_x / module_size;
            let source_y: usize = target_y / module_size;
            let source_offset: usize = (source_y * width + source_x) * 3;
            result_colors.push(colors[source_offset]);
            result_colors.push(colors[source_offset + 1]);
            result_colors.push(colors[source_offset + 2]);
            if has_alpha {
                result_colors.push(255);
            }
            proof {
                assert(before.len() == n0 * ch);
                assert((n0 + 1) * ch == n0 * ch + ch) by (nonlinear_arith);
                assert forall|n: int, c: int| 0 <= n < n0 + 1 && 0 <= c < ch implies #[trigger] result_colors@[n
                    * ch + c] == scaled_channel(
                    colors@,
                    width as int,
                    height as int,
                    module_size as int,
                    n,
                    c,
                ) by {
                    if n < n0 {
                        assert(n * ch + c < n0 * ch) by (nonlinear_arith)
                            requires
                                0 <= n < n0,
                                0 <= c < ch,
                        ;
                        assert(result_colors@[n * ch + c] == before[n * ch + c]);
                    } else {
                        assert(point_at(out, n) == (Point { x: target_x, y: target_y }));
                    }
                }
            }
            target_x += 1;
        }
        assert((target_y + 1) * scaled_width == target_y * scaled_width + scaled_width)
            by (nonlinear_arith);
        target_y += 1;
    }
    proof {
        assert(scaled_height * scaled_width == scaled_width * scaled_height) by (nonlinear_arith);
    }
    Ok(
        Image {
            width: scaled_width,
            height: scaled_height,
            channels: result_components,
            pixels: result_colors,
        },
    )
}

/// Size of the picture that tiles a field of size `size`, enlarged.
pub open spec fn image_size(size: Dimensions, pattern: Pattern, module_size: int) -> (int, int) {
    (
        size.width * multiplier(pattern) * module_size,
        size.height * multiplier(pattern) * module_size,
    )
}

/// The pixel, before enlargement, that pixel `n` of the enlarged image falls
/// into.
pub open spec fn module_at(size: Dimensions, pattern: Pattern, module_size: int, n: int) -> Point {
    let at = point_at(
        Dimensions {
            width: image_size(size, pattern, module_size).0 as usize,
            height: image_size(size, pattern, module_size).1 as usize,
        },
        n,
    );
    Point { x: (at.x as int / module_size) as usize, y: (at.y as int / module_size) as usize }
}

/// `image` is the rendering of the field: its size is that of the field
/// times the copies of the pattern times the module size, it has four
/// channels with alpha and three without, and every pixel shows the shade
/// that `gradient` holds for the value of the cell shown there, with an alpha
/// of 255.
pub open spec fn renders(
    frac_grid: FracGrid,
    gradient: Seq<Pixel>,
    pattern: Pattern,
    module_size: int,
    has_alpha: bool,
    image: Image,
) -> bool {
    &&& image.width == frac_grid.dimensions.width * multiplier(pattern) * module_size
    &&& image.height == frac_grid.dimensions.height * multiplier(pattern) * module_size
    &&& image.channels == channels_of(has_alpha)
    &&& image.pixels@.len() == image.width * image.height * image.channels
    &&& forall|n: int, c: int|
        0 <= n < image.width * image.height && 0 <= c < image.channels
            ==> #[trigger] image.pixels@[n * channels_of(has_alpha) + c] == (if c == 3 {
            255u8
        } else {
            gradient[frac_grid.at(
                source_of(
                    frac_grid.dimensions,
                    pattern,
                    module_at(frac_grid.dimensions, pattern, module_size, n),
                ),
            ) as int].channel(c)
        })
}

/// A field, its shades, a pattern, a module size and the choice of alpha
/// decide one image only: two renderings of them agree in size, channels and
/// every byte.
pub proof fn lemma_rendering_is_determined(
    frac_grid: FracGrid,
    gradient: Seq<Pixel>,
    pattern: Pattern,
    module_size: int,
    has_alpha: bool,
    a: Image,
    b: Image,
)
    requires
        renders(frac_grid, gradient, pattern, module_size, has_alpha, a),
        renders(frac_grid, gradient, pattern, module_size, has_alpha, b),
    ensures
        a.width == b.width,
        a.height == b.height,
        a.channels == b.channels,
        a.pixels@ == b.pixels@,
{
    let ch = channels_of(has_alpha);
    let count = a.width * a.height;
    assert forall|i: int| 0 <= i < a.pixels@.len() implies a.pixels@[i] == b.pixels@[i] by {
        let n = i / ch;
        let c = i % ch;
        assert(i == n * ch + c);
        assert(n < count) by (nonlinear_arith)
            requires
                0 <= i < count * ch,
                i == n * ch + c,
                0 <= c < ch,
        ;
        assert(a.pixels@[n * ch + c] == b.pixels@[n * ch + c]);
    }
    assert(a.pixels@ =~= b.pixels@);
}

/// With alpha an image has four channels and every fourth byte, the alpha of
/// its pixel, is 255; without alpha it has three channels.
pub proof fn lemma_alpha_channel(
    frac_grid: FracGrid,
    gradient: Seq<Pixel>,
    pattern: Pattern,
    module_size: int,
    has_alpha: bool,
    image: Image,
    n: int,
)
    requires
        renders(frac_grid, gradient, pattern, module_size, has_alpha, image),
        0 <= n < image.width * image.height,
    ensures
        image.channels == 4 <==> has_alpha,
        image.channels == 3 <==> !has_alpha,
        has_alpha ==> image.pixels@[4 * n + 3] == 255,
{
    if has_alpha {
        assert(image.pixels@[n * channels_of(has_alpha) + 3] == 255);
    }
}

/// Renders a field: tiles it by the pattern, shows every cell in the shade
/// that `gradient` holds for its value, and enlarges the picture. Fails when
/// the module size is zero.
pub fn render(
    frac_grid: &FracGrid,
    gradient: &Vec<Pixel>,
    pattern: Pattern,
    module_size: usize,
    has_alpha: bool,
) -> (r: Result<Image, Error>)
    requires
        frac_grid.wf(),
        tiles(frac_grid.dimensions, pattern),
        forall|i: int| 0 <= i < frac_grid@.len() ==> #[trigger] frac_grid@[i] < gradient@.len(),
        image_size(frac_grid.dimensions, pattern, module_size as int).0 <= usize::MAX,
        image_size(frac_grid.dimensions, pattern, module_size as int).1 <= usize::MAX,
        tiled_size(frac_grid.dimensions, pattern).area() <= usize::MAX,
        image_size(frac_grid.dimensions, pattern, module_size as int).0 * image_size(
            frac_grid.dimensions,
            pattern,
            module_size as int,
        ).1 * channels_of(has_alpha) <= usize::MAX,
    ensures
        match r {
            Ok(image) => module_size > 0 && renders(
                *frac_grid,
                gradient@,
                pattern,
                module_size as int,
                has_alpha,
                image,
            ),
            Err(e) => e == Error::InvalidConfiguration && module_size == 0,
        },
{
    let color_grid = ColorGrid::create(frac_grid, gradient, pattern);
    let colors = color_grid.colors();
    let ghost tiled = color_grid.dimensions;
    let ghost flat = colors@;
    let r = make_image(
        color_grid.dimensions.width,
        color_grid.dimensions.height,
        colors,
        module_size,
        has_alpha,
    );
    proof {
        if r is Ok {
            let image = r->Ok_0;
            let m = module_size as int;
            let out = Dimensions { width: image.width, height: image.height };
            assert forall|n: int, c: int|
                0 <= n < image.width * image.height && 0 <= c < image.channels implies #[trigger] image.pixels@[n
                * channels_of(has_alpha) + c] == (if c == 3 {
                255u8
            } else {
                gradient@[frac_grid.at(
                    source_of(
                        frac_grid.dimensions,
                        pattern,
                        module_at(frac_grid.dimensions, pattern, m, n),
                    ),
                ) as int].channel(c)
            }) by {
                if c != 3 {
                    lemma_point_at_index(out, n);
                    let at = point_at(out, n);
                    lemma_scaled_source(
                        tiled.width as int,
                        tiled.height as int,
                        m,
                        at.x as int,
                        at.y as int,
                    );
                    let q = Point { x: (at.x as int / m) as usize, y: (at.y as int / m) as usize };
                    lemma_index_of_point(tiled, q);
                    let j = tiled.index_of(q);
                    assert(flat[3 * j + c] == color_grid@[j].channel(c));
                    assert(module_at(frac_grid.dimensions, pattern, m, n) == q);
                }
            }
        }
    }
    r
}

} // verus!
