//! The aggregator: drives observe/predict cycles, tallies one vote per
//! candidate cell per cycle, and reports the cells with the highest vote
//! counts.

use vstd::prelude::*;
use vstd::arithmetic::div_mod::lemma_mod_bound;
use crate::client::{Client, ClientRef, cursor_after};
use crate::common::{grid_to_index_spec, quantize_spec};
use crate::server::{db_row, matching_cells, rows_view, FingerprintDatabase};
use crate::server::{lemma_matching_cells_sound, predict_location_from_database_quantized};

verus! {

/// Merges one prediction's candidate set into the vote tally: one vote
/// per candidate cell, increment-or-keep per tally entry.
pub fn tally_votes(tally: &mut Vec<usize>, predictions: &Vec<usize>)
    requires
        forall|k: int|
            0 <= k < predictions.len() ==> (#[trigger] predictions@[k]) < old(tally).len(),
        forall|c: int|
            0 <= c < old(tally).len() ==> (#[trigger] old(tally)@[c]) + predictions.len()
                <= usize::MAX,
    ensures
        final(tally).len() == old(tally).len(),
        forall|c: int|
            0 <= c < old(tally).len() ==> (#[trigger] final(tally)@[c]) == old(tally)@[c]
                + predictions@.to_multiset().count(c as usize),
{
    proof {
        let prefix0 = predictions@.take(0);
        prefix0.to_multiset_ensures();
        vstd::multiset::lemma_multiset_empty_len(prefix0.to_multiset());
        assert(forall|c: usize| #[trigger] prefix0.to_multiset().count(c) == 0);
    }
    let mut j: usize = 0;
    while j < predictions.len()
        invariant
            j <= predictions.len(),
            tally.len() == old(tally).len(),
            forall|k: int|
                0 <= k < predictions.len() ==> (#[trigger] predictions@[k]) < old(tally).len(),
            forall|c: int|
                0 <= c < old(tally).len() ==> (#[trigger] old(tally)@[c]) + predictions.len()
                    <= usize::MAX,
            forall|c: int|
                0 <= c < old(tally).len() ==> (#[trigger] tally@[c]) == old(tally)@[c]
                    + predictions@.take(j as int).to_multiset().count(c as usize),
        decreases predictions.len() - j,
    {
        let p: usize = predictions[j];
        proof {
            let prefix = predictions@.take(j as int);
            prefix.to_multiset_ensures();
            predictions@.take(j as int + 1).to_multiset_ensures();
            assert(predictions@.take(j as int + 1) =~= prefix.push(predictions@[j as int]));
            assert(prefix.to_multiset().count(p) <= prefix.to_multiset().len());
        }
        let cur: usize = tally[p];
        tally[p] = cur + 1;
        j += 1;
    }
    proof {
        assert(predictions@.take(predictions@.len() as int) =~= predictions@);
    }
}

/// Votes cast by one observe/predict cycle: the candidate cells of the
/// quantized observation of `cell` under projection slot `cursor`.
pub open spec fn step_votes(
    matrix: Seq<Seq<i64>>,
    scale: int,
    width: int,
    cursor: int,
    cell: (int, int),
) -> Seq<int> {
    matching_cells(
        matrix[cursor],
        scale,
        quantize_spec(matrix[cursor][grid_to_index_spec(cell, width)] as int, scale),
    )
}

/// The vote count of cell `c` after one observation cycle per true cell,
/// the observer's cursor starting at `start` and advancing cyclically over
/// the `n` projection slots.
pub open spec fn votes_after(
    matrix: Seq<Seq<i64>>,
    scale: int,
    width: int,
    start: int,
    cells: Seq<(usize, usize)>,
    n: int,
    c: int,
) -> nat
    decreases cells.len(),
{
    if cells.len() == 0 {
        0
    } else {
        votes_after(matrix, scale, width, start, cells.drop_last(), n, c) + step_votes(
            matrix,
            scale,
            width,
            cursor_after(start, (cells.len() - 1) as nat, n),
            (cells.last().0 as int, cells.last().1 as int),
        ).to_multiset().count(c)
    }
}

/// The number of candidates never exceeds the number of cells scanned.
proof fn lemma_matching_cells_len(row: Seq<i64>, scale: int, q: int)
    ensures
        matching_cells(row, scale, q).len() <= row.len(),
    decreases row.len(),
{
    if row.len() > 0 {
        lemma_matching_cells_len(row.drop_last(), scale, q);
    }
}

/// Counting a cell among candidate indices is the same whether the
/// indices are read as machine words or as integers.
proof fn lemma_count_map_cast(s: Seq<usize>, x: usize)
    ensures
        s.to_multiset().count(x) == s.map_values(|c: usize| c as int).to_multiset().count(
            x as int,
        ),
    decreases s.len(),
{
    s.to_multiset_ensures();
    s.map_values(|c: usize| c as int).to_multiset_ensures();
    if s.len() == 0 {
        vstd::multiset::lemma_multiset_empty_len(s.to_multiset());
        vstd::multiset::lemma_multiset_empty_len(
            s.map_values(|c: usize| c as int).to_multiset(),
        );
    } else {
        let pre = s.drop_last();
        lemma_count_map_cast(pre, x);
        pre.to_multiset_ensures();
        pre.map_values(|c: usize| c as int).to_multiset_ensures();
        assert(s =~= pre.push(s.last()));
        assert(s.map_values(|c: usize| c as int) =~= pre.map_values(|c: usize| c as int).push(
            s.last() as int,
        ));
    }
}

/// The cursor always points at a valid projection slot.
proof fn lemma_cursor_in_range(start: int, steps: nat, n: int)
    requires
        0 < n,
        0 <= start < n,
    ensures
        0 <= cursor_after(start, steps, n) < n,
    decreases steps,
{
    if steps > 0 {
        lemma_cursor_in_range(start, (steps - 1) as nat, n);
        lemma_mod_bound(cursor_after(start, (steps - 1) as nat, n) + 1, n);
    }
}

/// A cell gathers at most one vote per scanned cell per cycle, so its
/// total never exceeds `cells.len() * grid_size`.
proof fn lemma_votes_after_bound(
    matrix: Seq<Seq<i64>>,
    scale: int,
    width: int,
    start: int,
    cells: Seq<(usize, usize)>,
    n: int,
    grid_size: int,
    c: int,
)
    requires
        0 < n,
        0 <= start < n,
        matrix.len() == n,
        forall|s: int| 0 <= s < n ==> (#[trigger] matrix[s]).len() == grid_size,
    ensures
        votes_after(matrix, scale, width, start, cells, n, c) <= cells.len() * grid_size,
    decreases cells.len(),
{
    if cells.len() == 0 {
    } else {
        let pre = cells.drop_last();
        lemma_votes_after_bound(matrix, scale, width, start, pre, n, grid_size, c);
        let cursor = cursor_after(start, (cells.len() - 1) as nat, n);
        lemma_cursor_in_range(start, (cells.len() - 1) as nat, n);
        let votes = step_votes(
            matrix,
            scale,
            width,
            cursor,
            (cells.last().0 as int, cells.last().1 as int),
        );
        votes.to_multiset_ensures();
        lemma_matching_cells_len(
            matrix[cursor],
            scale,
            quantize_spec(
                matrix[cursor][grid_to_index_spec(
                    (cells.last().0 as int, cells.last().1 as int),
                    width,
                )] as int,
                scale,
            ),
        );
        assert(votes.to_multiset().count(c) <= grid_size);
        assert((cells.len() - 1) * grid_size + grid_size == cells.len() * grid_size)
            by (nonlinear_arith);
    }
}

/// The sequential aggregator: runs one observe/predict cycle per true
/// cell with a single observer borrowing the database's projection set,
/// casting one vote per candidate cell each cycle, and returns the final
/// per-cell vote tally.
pub fn run_localization(
    db: &FingerprintDatabase,
    width: usize,
    start_slot: usize,
    grid_size: usize,
    true_cells: &Vec<(usize, usize)>,
) -> (tally: Vec<usize>)
    requires
        start_slot < db.entries.len(),
        0 < width,
        0 < db.scale,
        forall|s: int|
            0 <= s < db.entries.len() ==> (#[trigger] db.entries@[s])@.len() == grid_size,
        forall|k: int|
            0 <= k < true_cells.len() ==> (#[trigger] true_cells@[k]).0 * width
                + true_cells@[k].1 < grid_size,
        true_cells.len() * grid_size <= usize::MAX,
    ensures
        tally.len() == grid_size,
        forall|c: int|
            0 <= c < grid_size ==> (#[trigger] tally@[c]) == votes_after(
                rows_view(db.entries),
                db.scale as int,
                width as int,
                start_slot as int,
                true_cells@,
                db.entries.len() as int,
                c,
            ),
{
    let ghost matrix = rows_view(db.entries);
    let ghost n = db.entries.len() as int;
    let mut tally: Vec<usize> = Vec::new();
    let mut c: usize = 0;
    while c < grid_size
        invariant
            c <= grid_size,
            tally.len() == c,
            forall|i: int| 0 <= i < c ==> (#[trigger] tally@[i]) == 0,
        decreases grid_size - c,
    {
        tally.push(0);
        c += 1;
    }
    let mut client: ClientRef = Client::new_with_ref(start_slot, &db.entries, width, db.scale);
    let mut j: usize = 0;
    while j < true_cells.len()
        invariant
            j <= true_cells.len(),
            client.wf(),
            client.projection_matrix == &db.entries,
            client.width == width,
            client.scale == db.scale,
            start_slot < db.entries.len(),
            0 < width,
            0 < db.scale,
            matrix == rows_view(db.entries),
            n == db.entries.len() as int,
            forall|s: int|
                0 <= s < db.entries.len() ==> (#[trigger] db.entries@[s])@.len() == grid_size,
            forall|k: int|
                0 <= k < true_cells.len() ==> (#[trigger] true_cells@[k]).0 * width
                    + true_cells@[k].1 < grid_size,
            true_cells.len() * grid_size <= usize::MAX,
            client.i as int == cursor_after(start_slot as int, j as nat, n),
            tally.len() == grid_size,
            forall|c: int|
                0 <= c < grid_size ==> (#[trigger] tally@[c]) == votes_after(
                    matrix,
                    db.scale as int,
                    width as int,
                    start_slot as int,
                    true_cells@.take(j as int),
                    n,
                    c,
                ),
        decreases true_cells.len() - j,
    {
        let cell: (usize, usize) = true_cells[j];
        let ghost pre_cursor = client.i as int;
        proof {
            lemma_cursor_in_range(start_slot as int, j as nat, n);
        }
        let observation: (usize, i8) = client.observe_quantized(cell);
        let predictions: Vec<usize> = predict_location_from_database_quantized(db, observation);
        let ghost cell_int = (cell.0 as int, cell.1 as int);
        let ghost q = quantize_spec(
            matrix[pre_cursor][grid_to_index_spec(cell_int, width as int)] as int,
            db.scale as int,
        );
        let ghost votes = step_votes(matrix, db.scale as int, width as int, pre_cursor, cell_int);
        proof {
            assert(observation.0 == pre_cursor);
            assert(matrix[pre_cursor] == db_row(*db, pre_cursor));
            assert(observation.1 as int == q);
            assert(predictions@.map_values(|c: usize| c as int) == votes);
            lemma_matching_cells_sound(matrix[pre_cursor], db.scale as int, q);
            assert forall|k: int| 0 <= k < predictions.len() implies (#[trigger] predictions@[k])
                < tally.len() by {
                assert(votes[k] == predictions@[k] as int);
                assert(0 <= votes[k] < matrix[pre_cursor].len());
            }
            lemma_matching_cells_len(matrix[pre_cursor], db.scale as int, q);
            votes.to_multiset_ensures();
            assert forall|c: int| 0 <= c < tally.len() implies (#[trigger] tally@[c])
                + predictions.len() <= usize::MAX by {
                lemma_votes_after_bound(
                    matrix,
                    db.scale as int,
                    width as int,
                    start_slot as int,
                    true_cells@.take(j as int),
                    n,
                    grid_size as int,
                    c,
                );
                assert(tally@[c] <= j * grid_size);
                assert(predictions.len() <= grid_size);
                assert(j * grid_size + grid_size <= true_cells@.len() * grid_size)
                    by (nonlinear_arith)
                    requires
                        j < true_cells@.len(),
                        grid_size >= 0;
            }
        }
        tally_votes(&mut tally, &predictions);
        j += 1;
        proof {
            let taken = true_cells@.take(j as int);
            assert(taken.drop_last() =~= true_cells@.take(j as int - 1));
            assert(taken.last() == true_cells@[j as int - 1]);
            assert forall|c: int| 0 <= c < grid_size implies (#[trigger] tally@[c]) == votes_after(
                matrix,
                db.scale as int,
                width as int,
                start_slot as int,
                taken,
                n,
                c,
            ) by {
                lemma_count_map_cast(predictions@, c as usize);
                assert(predictions@.to_multiset().count(c as usize) == votes.to_multiset().count(
                    c,
                ));
            }
        }
    }
    proof {
        assert(true_cells@.take(true_cells@.len() as int) =~= true_cells@);
    }
    tally
}

/// Ranks the tally: returns the `k` highest-voted cells (all cells when
/// the grid has fewer), vote counts non-increasing along the result, no
/// cell repeated, and no omitted cell outvoting a reported one.
pub fn top_locations(tally: &Vec<usize>, k: usize) -> (ranked: Vec<usize>)
    ensures
        ranked.len() == (if k <= tally.len() {
            k as int
        } else {
            tally.len() as int
        }),
        ranked@.no_duplicates(),
        forall|a: int| 0 <= a < ranked.len() ==> (#[trigger] ranked@[a]) < tally.len(),
        forall|a: int, b: int|
            #![trigger ranked@[a], ranked@[b]]
            0 <= a < b < ranked.len() ==> tally@[ranked@[a] as int] >= tally@[ranked@[b] as int],
        forall|c: int|
            0 <= c < tally.len() && ranked.len() > 0 && !ranked@.contains(c as usize) ==> (
            #[trigger] tally@[c]) <= tally@[ranked@[ranked.len() - 1] as int],
{
    let n: usize = tally.len();
    let rounds: usize = if k <= n {
        k
    } else {
        n
    };
    let mut used: Vec<bool> = Vec::new();
    let mut c0: usize = 0;
    while c0 < n
        invariant
            c0 <= n,
            used.len() == c0,
            forall|c: int| 0 <= c < c0 ==> !(#[trigger] used@[c]),
        decreases n - c0,
    {
        used.push(false);
        c0 += 1;
    }
    let mut ranked: Vec<usize> = Vec::new();
    let mut r: usize = 0;
    while r < rounds
        invariant
            r <= rounds,
            rounds <= n,
            n == tally.len(),
            used.len() == n,
            ranked.len() == r,
            ranked@.no_duplicates(),
            forall|a: int| 0 <= a < r ==> (#[trigger] ranked@[a]) < n,
            forall|c: int|
                0 <= c < n ==> ((#[trigger] used@[c]) <==> ranked@.contains(c as usize)),
            forall|a: int, b: int|
                #![trigger ranked@[a], ranked@[b]]
                0 <= a < b < r ==> tally@[ranked@[a] as int] >= tally@[ranked@[b] as int],
            forall|c: int|
                0 <= c < n && r > 0 && !used@[c] ==> (#[trigger] tally@[c]) <= tally@[ranked@[r
                    - 1] as int],
        decreases rounds - r,
    {
        let mut best: usize = n;
        let mut c: usize = 0;
        while c < n
            invariant
                c <= n,
                n == tally.len(),
                used.len() == n,
                best <= n,
                best == n ==> forall|i: int| 0 <= i < c ==> (#[trigger] used@[i]),
                best < n ==> !used@[best as int] && (best as int) < c,
                best < n ==> forall|i: int|
                    0 <= i < c && !(#[trigger] used@[i]) ==> tally@[i] <= tally@[best as int],
            decreases n - c,
        {
            if !used[c] && (best == n || tally[c] > tally[best]) {
                best = c;
            }
            c += 1;
        }
        proof {
            if best == n {
                let rseq = ranked@.map_values(|x: usize| x as int);
                assert(rseq.no_duplicates()) by {
                    assert forall|i: int, j: int|
                        0 <= i < j < rseq.len() implies rseq[i] != rseq[j] by {
                        assert(ranked@[i] != ranked@[j]);
                    }
                }
                rseq.unique_seq_to_set();
                vstd::seq_lib::seq_to_set_is_finite(rseq);
                assert forall|x: int|
                    vstd::set_lib::set_int_range(0, n as int).contains(x) implies rseq.to_set()
                    .contains(x) by {
                    assert(used@[x]);
                    assert(ranked@.contains(x as usize));
                    let w = choose|w: int| 0 <= w < ranked@.len() && ranked@[w] == x as usize;
                    assert(rseq[w] == x);
                    assert(rseq.contains(x));
                }
                vstd::set_lib::lemma_len_subset(
                    vstd::set_lib::set_int_range(0, n as int),
                    rseq.to_set(),
                );
                vstd::set_lib::lemma_int_range(0, n as int);
                assert(false);
            }
        }
        let ghost old_ranked = ranked@;
        let ghost old_used = used@;
        ranked.push(best);
        used[best] = true;
        r += 1;
        proof {
            assert(!old_ranked.contains(best));
            assert(ranked@ == old_ranked.push(best));
            assert(ranked@.no_duplicates()) by {
                assert forall|i: int, j: int|
                    0 <= i < j < ranked@.len() implies ranked@[i] != ranked@[j] by {
                    if j < ranked@.len() - 1 {
                        assert(old_ranked[i] != old_ranked[j]);
                    } else {
                        assert(old_ranked.contains(old_ranked[i]));
                    }
                }
            }
            assert forall|c: int|
                0 <= c < n implies ((#[trigger] used@[c]) <==> ranked@.contains(c as usize)) by {
                if used@[c] {
                    if c == best {
                        assert(ranked@[ranked@.len() - 1] == best);
                        assert(ranked@.contains(c as usize));
                    } else {
                        assert(old_used[c]);
                        assert(old_ranked.contains(c as usize));
                        let w = choose|w: int|
                            0 <= w < old_ranked.len() && old_ranked[w] == c as usize;
                        assert(ranked@[w] == c as usize);
                    }
                } else {
                    if ranked@.contains(c as usize) {
                        let w = choose|w: int|
                            0 <= w < ranked@.len() && ranked@[w] == c as usize;
                        if w < ranked@.len() - 1 {
                            assert(old_ranked.contains(c as usize));
                        }
                        assert(false);
                    }
                }
            }
        }
    }
    ranked
}

} // verus!
