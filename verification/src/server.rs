//! Projection generation, the fingerprint database and the predictors.
//!
//! Each projection slot is filled with pseudo-random Gaussian samples drawn
//! from a ChaCha stream seeded from the slot index alone, so generation is
//! deterministic per slot.  The fingerprint database records every cell's
//! ideal response under every slot; the predictors invert an observation
//! against it.

use vstd::prelude::*;
use rand_chacha::rand_core::SeedableRng;
use rand_chacha::rand_core::RngCore;
use crate::common::{quantize_spec, trunc_ratio, FP_ONE};

verus! {

/// The word stream that a ChaCha20 generator yields for a 32-byte seed: a
/// deterministic function of the seed alone.
pub uninterp spec fn chacha_words_of(seed: Seq<u8>, count: int) -> Seq<u64>;

/// Relies on rand_chacha's ChaCha20Rng: the ChaCha20 stream is a
/// documented, portable, deterministic function of its 32-byte seed, so
/// the words drawn depend on the seed and the count alone.
#[verifier::external_body]
fn chacha_words(seed: &Vec<u8>, count: usize) -> (words: Vec<u64>)
    requires
        seed.len() == 32,
    ensures
        words@ == chacha_words_of(seed@, count as int),
        words.len() == count,
{
    let mut seed_bytes: [u8; 32] = [0u8; 32];
    seed_bytes.copy_from_slice(seed.as_slice());
    let mut rng = rand_chacha::ChaCha20Rng::from_seed(seed_bytes);
    let mut words: Vec<u64> = Vec::with_capacity(count);
    for _ in 0..count {
        words.push(rng.next_u64());
    }
    words
}

/// Sum of `n` uniform fixed-point values, each the top 20 bits of one
/// stream word, so each uniform on `[0, 1)` in fixed-point form.
pub open spec fn uniform_sum(words: Seq<u64>, start: int, n: int) -> int
    decreases n,
{
    if n <= 0 {
        0
    } else {
        uniform_sum(words, start, n - 1) + (words[start + n - 1] >> 44u64)
    }
}

/// The `k`-th fixed-point Gaussian sample shaped from a word stream: the
/// sum of twelve uniforms on `[0, 1)` minus its mean `6` is approximately
/// `Normal(0, 1)` with exact mean `0` and standard deviation `1`; scaling
/// by `sigma` yields `Normal(0, sigma)`.
pub open spec fn gaussian_sample_spec(words: Seq<u64>, k: int, sigma: i64) -> int {
    trunc_ratio((uniform_sum(words, 12 * k, 12) - 6 * FP_ONE) * sigma, FP_ONE as int)
}

/// Shapes a word stream into `count` fixed-point `Normal(0, sigma)`
/// samples, twelve stream words per sample.
pub fn gaussian_row_from_words(words: &Vec<u64>, count: usize, sigma: i64) -> (row: Vec<i64>)
    requires
        words.len() == 12 * count,
        0 < sigma <= FP_ONE,
    ensures
        row.len() == count,
        forall|k: int|
            0 <= k < count ==> (#[trigger] row@[k]) as int == gaussian_sample_spec(
                words@,
                k,
                sigma,
            ),
{
    let mut row: Vec<i64> = Vec::new();
    let mut k: usize = 0;
    while k < count
        invariant
            k <= count,
            words.len() == 12 * count,
            0 < sigma <= FP_ONE,
            row.len() == k,
            forall|m: int|
                0 <= m < k ==> (#[trigger] row@[m]) as int == gaussian_sample_spec(
                    words@,
                    m,
                    sigma,
                ),
        decreases count - k,
    {
        let mut acc: u64 = 0;
        let mut i: usize = 0;
        while i < 12
            invariant
                i <= 12,
                k < count,
                words.len() == 12 * count,
                acc <= i * 1048576,
                acc == uniform_sum(words@, 12 * k as int, i as int),
            decreases 12 - i,
        {
            let w: u64 = words[12 * k + i];
            let u: u64 = w >> 44;
            proof {
                assert(w >> 44u64 < 1048576u64) by (bit_vector);
            }
            acc = acc + u;
            i += 1;
        }
        let z: i64 = (acc as i64) - 6 * FP_ONE;
        proof {
            assert(-6 * (FP_ONE as int) <= z as int <= 6 * (FP_ONE as int));
            assert(z as int * (sigma as int) <= 6 * (FP_ONE as int) * (FP_ONE as int)
                && z as int * (sigma as int) >= -6 * (FP_ONE as int) * (FP_ONE as int))
                by (nonlinear_arith)
                requires
                    -6 * (FP_ONE as int) <= z as int <= 6 * (FP_ONE as int),
                    0 < sigma as int <= FP_ONE as int,
                    FP_ONE as int == 1048576;
        }
        let t: i64 = z * sigma;
        let neg: bool = t < 0;
        let a: i64 = if neg {
            -t
        } else {
            t
        };
        let q: i64 = a / FP_ONE;
        let sample: i64 = if neg {
            -q
        } else {
            q
        };
        proof {
            assert(sample as int == gaussian_sample_spec(words@, k as int, sigma));
        }
        row.push(sample);
        k += 1;
    }
    row
}

/// Little-endian byte `j` of a 64-bit value.
pub open spec fn u64_le_byte(x: u64, j: u64) -> u8 {
    (x >> ((8 * j) as u64)) as u8
}

/// The 32-byte ChaCha seed of a projection slot: the slot index's eight
/// little-endian bytes, repeated four times.
pub open spec fn slot_seed_spec(slot: u64) -> Seq<u8> {
    Seq::new(32, |i: int| u64_le_byte(slot, (i % 8) as u64))
}

/// Builds the per-slot seed bytes: the slot index repeated across the seed.
pub fn slot_seed(slot: u64) -> (seed: Vec<u8>)
    ensures
        seed@ == slot_seed_spec(slot),
{
    let mut seed: Vec<u8> = Vec::new();
    let mut i: usize = 0;
    while i < 32
        invariant
            i <= 32,
            seed.len() == i,
            forall|k: int| 0 <= k < i ==> seed@[k] == slot_seed_spec(slot)[k],
        decreases 32 - i,
    {
        let j: u64 = (i as u64) % 8;
        let b: u8 = (slot >> (8 * j)) as u8;
        seed.push(b);
        i += 1;
    }
    proof {
        assert(seed@ =~= slot_seed_spec(slot));
    }
    seed
}

/// The deterministic ideal response row of one projection slot: `grid_size`
/// Gaussian samples shaped from the slot's own ChaCha stream.
pub open spec fn projection_row_spec(slot: u64, grid_size: int, sigma: i64) -> Seq<i64> {
    Seq::new(
        grid_size as nat,
        |k: int|
            gaussian_sample_spec(
                chacha_words_of(slot_seed_spec(slot), 12 * grid_size),
                k,
                sigma,
            ) as i64,
    )
}

/// The deterministic projection matrix of a configuration: one Gaussian row
/// per slot, each drawn from that slot's own seed.
pub open spec fn projection_matrix_spec(num_projections: int, grid_size: int, sigma: i64) -> Seq<
    Seq<i64>,
> {
    Seq::new(num_projections as nat, |s: int| projection_row_spec(s as u64, grid_size, sigma))
}

/// The mathematical view of a projection matrix held as vectors.
pub open spec fn rows_view(m: Vec<Vec<i64>>) -> Seq<Seq<i64>> {
    m@.map_values(|r: Vec<i64>| r@)
}

/// Generates the family of pseudo-random projection vectors: for each slot,
/// `grid_size` fixed-point samples from `Normal(0, sigma)`, drawn from a
/// ChaCha stream seeded from the slot index alone.
pub fn generate_projection_matrix(num_projections: usize, grid_size: usize, sigma: i64) -> (
    projections: Vec<Vec<i64>>)
    requires
        num_projections <= u64::MAX,
        grid_size < 16777216,
        0 < sigma <= FP_ONE,
    ensures
        projections.len() == num_projections,
        rows_view(projections) == projection_matrix_spec(
            num_projections as int,
            grid_size as int,
            sigma,
        ),
        forall|s: int|
            0 <= s < num_projections ==> (#[trigger] projections@[s]).len() == grid_size,
{
    let mut projections: Vec<Vec<i64>> = Vec::new();
    let mut s: usize = 0;
    while s < num_projections
        invariant
            s <= num_projections,
            num_projections <= u64::MAX,
            grid_size < 16777216,
            0 < sigma <= FP_ONE,
            projections.len() == s,
            forall|k: int|
                0 <= k < s ==> (#[trigger] projections@[k])@ == projection_row_spec(
                    k as u64,
                    grid_size as int,
                    sigma,
                ),
            forall|k: int| 0 <= k < s ==> (#[trigger] projections@[k]).len() == grid_size,
        decreases num_projections - s,
    {
        let seed: Vec<u8> = slot_seed(s as u64);
        let words: Vec<u64> = chacha_words(&seed, 12 * grid_size);
        let row: Vec<i64> = gaussian_row_from_words(&words, grid_size, sigma);
        proof {
            assert(row@ =~= projection_row_spec(s as u64, grid_size as int, sigma));
        }
        projections.push(row);
        s += 1;
    }
    proof {
        assert(rows_view(projections) =~= projection_matrix_spec(
            num_projections as int,
            grid_size as int,
            sigma,
        ));
    }
    projections
}

/// Determinism of generation: the projection matrix is a function of the
/// configuration alone, so two generation runs over the same configuration
/// yield bit-identical matrices.
pub proof fn lemma_generation_deterministic(
    a: Seq<Seq<i64>>,
    b: Seq<Seq<i64>>,
    num_projections: int,
    grid_size: int,
    sigma: i64,
)
    requires
        a == projection_matrix_spec(num_projections, grid_size, sigma),
        b == projection_matrix_spec(num_projections, grid_size, sigma),
    ensures
        a == b,
{
}

/// The fingerprint database: for every projection slot, the ideal
/// fixed-point response of every cell, together with the quantizer scale it
/// is queried under.  Slot `s`'s vector sits at position `s`.
pub struct FingerprintDatabase {
    pub entries: Vec<Vec<i64>>,
    pub scale: i64,
}

/// The ideal response vector that the database holds for a slot.
pub open spec fn db_row(db: FingerprintDatabase, slot: int) -> Seq<i64> {
    db.entries@[slot]@
}

/// Builds the fingerprint database over a projection set: slot `s`'s ideal
/// response vector is exactly projection `s`.
pub fn generate_fingerprint_database(projections: Vec<Vec<i64>>, scale: i64) -> (db:
    FingerprintDatabase)
    requires
        0 < scale,
    ensures
        db.entries == projections,
        db.scale == scale,
{
    FingerprintDatabase { entries: projections, scale }
}

/// Fingerprint/observer consistency: a database built over a projection set
/// answers, for any slot and cell, exactly the response that the projection
/// set itself holds there.
pub proof fn lemma_fingerprint_observer_consistency(
    projections: Vec<Vec<i64>>,
    db: FingerprintDatabase,
    slot: int,
    idx: int,
)
    requires
        db.entries == projections,
        0 <= slot < projections.len(),
        0 <= idx < projections@[slot]@.len(),
    ensures
        db_row(db, slot)[idx] == projections@[slot]@[idx],
{
}

/// Absolute difference between a stored ideal response and an observed one.
pub open spec fn response_distance(a: i64, b: i64) -> int {
    if a >= b {
        a - b
    } else {
        b - a
    }
}

/// The raw predictor: the single cell whose ideal response under the
/// observation's slot is nearest to the observed raw response in absolute
/// difference; among equally near cells the lowest index wins.
///
/// A slot absent from the database would be a construction mismatch
/// between generator and database; observation slots always lie in
/// `[0, num_projections)` by construction, so the precondition excludes it.
pub fn predict_location_from_database(db: &FingerprintDatabase, observation: (usize, i64)) -> (
    cell: usize)
    requires
        observation.0 < db.entries.len(),
        db_row(*db, observation.0 as int).len() > 0,
    ensures
        cell < db_row(*db, observation.0 as int).len(),
        forall|j: int|
            0 <= j < db_row(*db, observation.0 as int).len() ==> response_distance(
                #[trigger] db_row(*db, observation.0 as int)[j],
                observation.1,
            ) >= response_distance(db_row(*db, observation.0 as int)[cell as int], observation.1),
        forall|j: int|
            0 <= j < cell ==> response_distance(
                #[trigger] db_row(*db, observation.0 as int)[j],
                observation.1,
            ) > response_distance(db_row(*db, observation.0 as int)[cell as int], observation.1),
{
    let row: &Vec<i64> = &db.entries[observation.0];
    let first: i64 = row[0];
    let mut best: usize = 0;
    let mut best_dist: i128 = abs_diff_i64(first, observation.1);
    let mut j: usize = 1;
    while j < row.len()
        invariant
            1 <= j <= row.len(),
            row@ == db_row(*db, observation.0 as int),
            (best as int) < j,
            best_dist == response_distance(row@[best as int], observation.1),
            forall|k: int|
                0 <= k < j ==> response_distance(#[trigger] row@[k], observation.1) >= best_dist,
            forall|k: int|
                0 <= k < best ==> response_distance(#[trigger] row@[k], observation.1) > best_dist,
        decreases row.len() - j,
    {
        let d: i128 = abs_diff_i64(row[j], observation.1);
        if d < best_dist {
            best = j;
            best_dist = d;
        }
        j += 1;
    }
    best
}

/// Absolute difference of two 64-bit values, computed without overflow.
fn abs_diff_i64(a: i64, b: i64) -> (d: i128)
    ensures
        d == response_distance(a, b),
{
    let wide: i128 = (a as i128) - (b as i128);
    if wide < 0 {
        -wide
    } else {
        wide
    }
}

/// The candidate cells of a quantized observation `(slot, q)` against an
/// ideal response vector: every index whose quantized ideal response equals
/// `q`, in increasing index order.
pub open spec fn matching_cells(row: Seq<i64>, scale: int, q: int) -> Seq<int>
    decreases row.len(),
{
    if row.len() == 0 {
        Seq::empty()
    } else if quantize_spec(row.last() as int, scale) == q {
        matching_cells(row.drop_last(), scale, q).push(row.len() - 1)
    } else {
        matching_cells(row.drop_last(), scale, q)
    }
}

/// Every candidate returned for a quantized observation is a real match:
/// its quantized ideal response equals the observed value.
pub proof fn lemma_matching_cells_sound(row: Seq<i64>, scale: int, q: int)
    ensures
        forall|k: int|
            0 <= k < matching_cells(row, scale, q).len() ==> {
                let i = #[trigger] matching_cells(row, scale, q)[k];
                0 <= i < row.len() && quantize_spec(row[i] as int, scale) == q
            },
    decreases row.len(),
{
    if row.len() > 0 {
        let prefix = row.drop_last();
        let pre = matching_cells(prefix, scale, q);
        lemma_matching_cells_sound(prefix, scale, q);
        let whole = matching_cells(row, scale, q);
        assert forall|k: int| 0 <= k < whole.len() implies {
            let i = #[trigger] whole[k];
            0 <= i < row.len() && quantize_spec(row[i] as int, scale) == q
        } by {
            if k < pre.len() {
                assert(whole[k] == pre[k]);
                assert(0 <= pre[k] < prefix.len());
                assert(prefix[pre[k]] == row[pre[k]]);
            } else {
                assert(whole[k] == row.len() - 1);
            }
        }
    }
}

/// Candidates come out in strictly increasing index order, so no cell is
/// listed twice.
pub proof fn lemma_matching_cells_increasing(row: Seq<i64>, scale: int, q: int)
    ensures
        forall|a: int, b: int|
            #![trigger matching_cells(row, scale, q)[a], matching_cells(row, scale, q)[b]]
            0 <= a < b < matching_cells(row, scale, q).len() ==> matching_cells(row, scale, q)[a]
                < matching_cells(row, scale, q)[b],
    decreases row.len(),
{
    if row.len() > 0 {
        let prefix = row.drop_last();
        let pre = matching_cells(prefix, scale, q);
        lemma_matching_cells_increasing(prefix, scale, q);
        lemma_matching_cells_sound(prefix, scale, q);
        let whole = matching_cells(row, scale, q);
        assert forall|a: int, b: int|
            0 <= a < b < whole.len() implies #[trigger] whole[a] < #[trigger] whole[b] by {
            if b < pre.len() {
                assert(whole[a] == pre[a] && whole[b] == pre[b]);
            } else {
                assert(whole[b] == row.len() - 1);
                assert(whole[a] == pre[a]);
                assert(0 <= pre[a] < prefix.len());
            }
        }
    }
}

/// Predictor soundness: a cell is always among the candidates for its own
/// quantized observation.
pub proof fn lemma_predictor_soundness(row: Seq<i64>, scale: int, q: int, idx: int)
    requires
        0 <= idx < row.len(),
        quantize_spec(row[idx] as int, scale) == q,
    ensures
        matching_cells(row, scale, q).contains(idx),
    decreases row.len(),
{
    if idx == row.len() - 1 {
        assert(matching_cells(row, scale, q).last() == idx);
    } else {
        lemma_predictor_soundness(row.drop_last(), scale, q, idx);
        let pre = matching_cells(row.drop_last(), scale, q);
        let k = choose|k: int| 0 <= k < pre.len() && pre[k] == idx;
        assert(matching_cells(row, scale, q)[k] == idx);
    }
}

/// The quantized predictor: scans the slot's ideal response vector,
/// quantizes every entry, and returns every cell index whose quantized
/// ideal response equals the observed value.  Quantization is many-to-one,
/// so the result is typically a non-singleton candidate set; an empty
/// result is a legitimate, uninformative outcome, not a fault.
pub fn predict_location_from_database_quantized(
    db: &FingerprintDatabase,
    observation: (usize, i8),
) -> (cells: Vec<usize>)
    requires
        observation.0 < db.entries.len(),
        0 < db.scale,
    ensures
        cells@.map_values(|c: usize| c as int) == matching_cells(
            db_row(*db, observation.0 as int),
            db.scale as int,
            observation.1 as int,
        ),
{
    let row: &Vec<i64> = &db.entries[observation.0];
    let mut cells: Vec<usize> = Vec::new();
    let mut j: usize = 0;
    while j < row.len()
        invariant
            j <= row.len(),
            row@ == db_row(*db, observation.0 as int),
            0 < db.scale,
            cells@.map_values(|c: usize| c as int) == matching_cells(
                row@.take(j as int),
                db.scale as int,
                observation.1 as int,
            ),
        decreases row.len() - j,
    {
        let v: i64 = row[j];
        let q: i8 = crate::common::quantize(v, db.scale);
        let ghost prev = cells@;
        if q == observation.1 {
            cells.push(j);
        }
        j += 1;
        proof {
            let taken = row@.take(j as int);
            assert(taken.drop_last() =~= row@.take(j as int - 1));
            assert(taken.last() == row@[j as int - 1]);
            if q == observation.1 {
                assert(cells@.map_values(|c: usize| c as int) =~= prev.map_values(
                    |c: usize| c as int,
                ).push(j as int - 1));
            }
        }
    }
    proof {
        assert(row@.take(row@.len() as int) =~= row@);
    }
    cells
}

} // verus!
