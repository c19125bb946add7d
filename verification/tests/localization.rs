//! End-to-end tests of the grid localization engine on concrete data.

use grid_localizer::aggregate::{run_localization, tally_votes, top_locations};
use grid_localizer::client::Client;
use grid_localizer::common::{
    grid_to_index, index_to_grid, isqrt, quantize, quantizer_scale, sigma_fp,
};
use grid_localizer::server::{
    generate_fingerprint_database, generate_projection_matrix, predict_location_from_database,
    predict_location_from_database_quantized, slot_seed,
};

const FP_ONE: i64 = 1048576;

/// Fixed-point rows of the small end-to-end scenario: a 2x2 grid under two
/// projections, real values 0.1, -0.2, 0.3, -0.1 and 0.05, 0.2, -0.3, 0.1.
fn scenario_rows() -> Vec<Vec<i64>> {
    vec![
        vec![104858, -209715, 314573, -104858],
        vec![52429, 209715, -314573, 104858],
    ]
}

#[test]
fn grid_round_trip_index_to_grid_and_back() {
    let width: usize = 7;
    for idx in 0..35usize {
        let grid = index_to_grid(idx, width);
        assert_eq!(grid_to_index(grid, width), idx);
    }
}

#[test]
fn grid_round_trip_grid_to_index_and_back() {
    let width: usize = 5;
    for row in 0..4usize {
        for col in 0..5usize {
            let idx = grid_to_index((row, col), width);
            assert_eq!(index_to_grid(idx, width), (row, col));
        }
    }
}

#[test]
fn grid_to_index_formula() {
    assert_eq!(grid_to_index((5, 5), 201), 5 * 201 + 5);
    assert_eq!(grid_to_index((0, 0), 201), 0);
    assert_eq!(grid_to_index((200, 200), 201), 200 * 201 + 200);
}

#[test]
fn isqrt_small_values() {
    assert_eq!(isqrt(0), 0);
    assert_eq!(isqrt(1), 1);
    assert_eq!(isqrt(15), 3);
    assert_eq!(isqrt(16), 4);
    assert_eq!(isqrt(u64::MAX), 4294967295);
}

#[test]
fn quantizer_scale_formula() {
    // 40 * sqrt(4) in fixed point: 80 * FP_ONE.
    assert_eq!(quantizer_scale(4), 80 * FP_ONE);
    // 40 * sqrt(9) in fixed point: 120 * FP_ONE.
    assert_eq!(quantizer_scale(9), 120 * FP_ONE);
}

#[test]
fn sigma_formula() {
    // 1 / sqrt(4) in fixed point: FP_ONE / 2.
    assert_eq!(sigma_fp(4), FP_ONE / 2);
    // 1 / sqrt(1): one.
    assert_eq!(sigma_fp(1), FP_ONE);
}

#[test]
fn quantize_zero_is_zero() {
    assert_eq!(quantize(0, quantizer_scale(4)), 0);
    assert_eq!(quantize(0, 1), 0);
}

#[test]
fn quantize_exact_buckets() {
    let scale = quantizer_scale(4);
    assert_eq!(quantize(104858, scale), 8);
    assert_eq!(quantize(-209715, scale), -16);
    assert_eq!(quantize(314573, scale), 24);
    assert_eq!(quantize(-104858, scale), -8);
}

#[test]
fn quantize_saturates_and_stays_in_range() {
    let scale = quantizer_scale(4);
    // 1.7 is far past three sigma for a 2x2 grid.
    assert_eq!(quantize(17 * FP_ONE / 10, scale), 127);
    assert_eq!(quantize(-17 * FP_ONE / 10, scale), -128);
    for v in [i64::MIN, -FP_ONE, -1, 0, 1, FP_ONE, i64::MAX] {
        let q = quantize(v, scale) as i32;
        assert!((-128..=127).contains(&q));
    }
    assert_eq!(quantize(i64::MAX, 1), 127);
    assert_eq!(quantize(i64::MIN, i64::MAX), -128);
}

#[test]
fn quantize_monotonic_on_samples() {
    let scale = quantizer_scale(9);
    let mut prev = i8::MIN;
    for v in [
        i64::MIN,
        -3 * FP_ONE,
        -FP_ONE,
        -104858,
        -1,
        0,
        1,
        104858,
        FP_ONE,
        3 * FP_ONE,
        i64::MAX,
    ] {
        let q = quantize(v, scale);
        assert!(q >= prev);
        prev = q;
    }
}

#[test]
fn slot_seed_repeats_index_bytes() {
    let seed = slot_seed(0x0102030405060708);
    assert_eq!(seed.len(), 32);
    let pattern = [0x08u8, 0x07, 0x06, 0x05, 0x04, 0x03, 0x02, 0x01];
    for (i, b) in seed.iter().enumerate() {
        assert_eq!(*b, pattern[i % 8]);
    }
    assert_eq!(slot_seed(0), vec![0u8; 32]);
}

#[test]
fn generation_is_deterministic() {
    let sigma = sigma_fp(9);
    let a = generate_projection_matrix(4, 9, sigma);
    let b = generate_projection_matrix(4, 9, sigma);
    assert_eq!(a, b);
    assert_eq!(a.len(), 4);
    for row in &a {
        assert_eq!(row.len(), 9);
    }
}

#[test]
fn generation_rows_differ_by_slot() {
    let sigma = sigma_fp(16);
    let m = generate_projection_matrix(3, 16, sigma);
    assert_ne!(m[0], m[1]);
    assert_ne!(m[1], m[2]);
    assert!(m[0].iter().any(|v| *v != 0));
}

#[test]
fn fingerprint_database_copies_projections() {
    let rows = scenario_rows();
    let db = generate_fingerprint_database(rows.clone(), quantizer_scale(4));
    assert_eq!(db.entries, rows);
    assert_eq!(db.scale, quantizer_scale(4));
}

#[test]
fn observer_matches_database() {
    // Fingerprint/observer consistency: the raw response the observer
    // reports equals the database's ideal response at that slot and cell.
    let rows = scenario_rows();
    let db = generate_fingerprint_database(rows.clone(), quantizer_scale(4));
    let mut client = Client::new(0, rows, 2, quantizer_scale(4));
    for (row, col) in [(0usize, 0usize), (0, 1), (1, 0), (1, 1)] {
        let slot_before = client.i;
        let (slot, response) = client.observe((row, col));
        assert_eq!(slot, slot_before);
        assert_eq!(response, db.entries[slot][row * 2 + col]);
    }
}

#[test]
fn cursor_cycles_through_all_slots() {
    let rows = vec![vec![0i64; 4]; 3];
    let mut client = Client::new(0, rows, 2, quantizer_scale(4));
    let mut slots = Vec::new();
    for _ in 0..7 {
        let (slot, _) = client.observe((1, 1));
        slots.push(slot);
    }
    assert_eq!(slots, vec![0, 1, 2, 0, 1, 2, 0]);
    // After a whole cycle of three observations the cursor is back at 0;
    // after seven it sits on slot 1.
    assert_eq!(client.i, 1);
}

#[test]
fn end_to_end_scenario() {
    // 2x2 grid, two projections; observing true cell index 2 at cursor 0
    // yields the raw response 0.3 in fixed point, quantized to bucket 24,
    // and the candidate set for that observation includes index 2.
    let rows = scenario_rows();
    let scale = quantizer_scale(4);
    let db = generate_fingerprint_database(rows.clone(), scale);
    let mut client = Client::new(0, rows, 2, scale);
    let (slot, raw) = client.observe((1, 0));
    assert_eq!(slot, 0);
    assert_eq!(raw, 314573);
    assert_eq!(quantize(raw, scale), 24);
    let mut client2 = Client::new(0, client.projection_matrix.clone(), 2, scale);
    let (slot2, q) = client2.observe_quantized((1, 0));
    assert_eq!((slot2, q), (0, 24));
    let candidates = predict_location_from_database_quantized(&db, (slot2, q));
    assert!(candidates.contains(&2));
    assert_eq!(candidates, vec![2]);
}

#[test]
fn predictor_returns_all_colliding_cells() {
    // Quantization is many-to-one: two nearly equal responses fall in the
    // same bucket and both cells are candidates.
    let scale = quantizer_scale(4);
    let rows = vec![vec![104858, 104857, -314573, 0]];
    let db = generate_fingerprint_database(rows, scale);
    let candidates = predict_location_from_database_quantized(&db, (0, 8));
    assert_eq!(candidates, vec![0, 1]);
}

#[test]
fn predictor_empty_candidate_set_is_no_vote() {
    let scale = quantizer_scale(4);
    let rows = vec![vec![104858, -209715, 314573, -104858]];
    let db = generate_fingerprint_database(rows, scale);
    let candidates = predict_location_from_database_quantized(&db, (0, 100));
    assert!(candidates.is_empty());
    let mut tally = vec![3usize, 1, 4, 1];
    tally_votes(&mut tally, &candidates);
    assert_eq!(tally, vec![3, 1, 4, 1]);
}

#[test]
fn raw_predictor_nearest_and_first_tie_wins() {
    let scale = quantizer_scale(4);
    let rows = vec![vec![100i64, 300, 1000, -50]];
    let db = generate_fingerprint_database(rows, scale);
    // Equidistant between cells 0 and 1: the strict comparison keeps the
    // first minimum.
    assert_eq!(predict_location_from_database(&db, (0, 200)), 0);
    assert_eq!(predict_location_from_database(&db, (0, 990)), 2);
    assert_eq!(predict_location_from_database(&db, (0, -49)), 3);
}

#[test]
fn predictor_sound_on_generated_data() {
    // The true cell is always among the candidates for its own
    // observation, on real generated projections.
    let grid_size = 9;
    let width = 3;
    let sigma = sigma_fp(grid_size);
    let scale = quantizer_scale(grid_size);
    let projections = generate_projection_matrix(8, grid_size, sigma);
    let db = generate_fingerprint_database(projections.clone(), scale);
    let mut client = Client::new(0, projections, width, scale);
    for step in 0..16usize {
        let cell = (step % 3, (step / 3) % 3);
        let observation = client.observe_quantized(cell);
        let candidates = predict_location_from_database_quantized(&db, observation);
        assert!(candidates.contains(&grid_to_index(cell, width)));
    }
}

#[test]
fn shared_reference_observer_behaves_like_owning_one() {
    let rows = scenario_rows();
    let scale = quantizer_scale(4);
    let shared = rows.clone();
    let mut by_ref = Client::new_with_ref(0, &shared, 2, scale);
    let mut owning = Client::new(0, rows, 2, scale);
    for cell in [(0usize, 1usize), (1, 0), (1, 1), (0, 0), (1, 0)] {
        assert_eq!(by_ref.observe(cell), owning.observe(cell));
    }
    assert_eq!(
        by_ref.observe_quantized((1, 0)),
        owning.observe_quantized((1, 0))
    );
    assert_eq!(by_ref.i, owning.i);
}

#[test]
fn quantizer_scale_on_square_grid() {
    // A 201 x 201 grid has an exact integer square root.
    assert_eq!(quantizer_scale(201 * 201), 40 * 201 * FP_ONE);
}

#[test]
fn tally_votes_counts_occurrences() {
    let mut tally = vec![0usize, 0, 0];
    tally_votes(&mut tally, &vec![2, 0, 2]);
    assert_eq!(tally, vec![1, 0, 2]);
    tally_votes(&mut tally, &vec![1]);
    assert_eq!(tally, vec![1, 1, 2]);
}

#[test]
fn top_locations_ranks_by_descending_count() {
    let tally = vec![5usize, 1, 7, 7, 0];
    let ranked = top_locations(&tally, 3);
    assert_eq!(ranked.len(), 3);
    let counts: Vec<usize> = ranked.iter().map(|c| tally[*c]).collect();
    assert_eq!(counts, vec![7, 7, 5]);
    let all = top_locations(&tally, 10);
    assert_eq!(all.len(), 5);
    let all_counts: Vec<usize> = all.iter().map(|c| tally[*c]).collect();
    assert_eq!(all_counts, vec![7, 7, 5, 1, 0]);
    assert!(top_locations(&tally, 0).is_empty());
}

#[test]
fn run_localization_empty_is_all_zero() {
    let rows = scenario_rows();
    let db = generate_fingerprint_database(rows, quantizer_scale(4));
    let tally = run_localization(&db, 2, 0, 4, &Vec::new());
    assert_eq!(tally, vec![0usize, 0, 0, 0]);
}

#[test]
fn voting_scenario_ranks_true_cell_highest() {
    // With deterministic projections and a fixed true cell, the true cell
    // gathers one vote every cycle, so it ends with the maximal tally and
    // strictly outvotes the average cell.
    let grid_size = 9;
    let width = 3;
    let cycles = 24;
    let sigma = sigma_fp(grid_size);
    let scale = quantizer_scale(grid_size);
    let projections = generate_projection_matrix(8, grid_size, sigma);
    let db = generate_fingerprint_database(projections, scale);
    let true_cell = (1usize, 1usize);
    let cells = vec![true_cell; cycles];
    let tally = run_localization(&db, width, 0, grid_size, &cells);
    let true_idx = grid_to_index(true_cell, width);
    assert_eq!(tally[true_idx], cycles);
    for c in 0..grid_size {
        assert!(tally[c] <= cycles);
    }
    let ranked = top_locations(&tally, 3);
    assert_eq!(tally[ranked[0]], cycles);
    let total: usize = tally.iter().sum();
    // Strictly better than a uniformly random cell on average.
    assert!(tally[true_idx] * grid_size > total);
}
