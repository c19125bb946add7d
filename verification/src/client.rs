//! The observer: an agent that cycles through projection slots and reports
//! the (quantized) response of its true grid cell under the current slot.
//!
//! Two deployment variants exist: `Client` owns its copy of the projection
//! set, `ClientRef` borrows a projection set shared read-only among many
//! concurrently running observers, each with its own private cursor.

use vstd::prelude::*;
use vstd::arithmetic::div_mod::{lemma_small_mod, lemma_mod_self_0, lemma_add_mod_noop};
use crate::common::{grid_to_index_spec, quantize_spec};

verus! {

/// An observer that owns its projection set.
pub struct Client {
    /// The cursor: the projection slot the next observation uses.
    pub i: usize,
    /// One ideal response vector per projection slot.
    pub projection_matrix: Vec<Vec<i64>>,
    /// Grid width, for mapping a 2D coordinate to a cell index.
    pub width: usize,
    /// Fixed-point quantizer scale factor of the configuration.
    pub scale: i64,
}

/// An observer that borrows a shared read-only projection set.
pub struct ClientRef<'a> {
    /// The cursor: the projection slot the next observation uses.
    pub i: usize,
    /// The shared ideal response vectors, one per projection slot.
    pub projection_matrix: &'a Vec<Vec<i64>>,
    /// Grid width, for mapping a 2D coordinate to a cell index.
    pub width: usize,
    /// Fixed-point quantizer scale factor of the configuration.
    pub scale: i64,
}

/// The cursor value after one observation: advance by one, wrapping to
/// slot zero past the last projection.
pub open spec fn next_cursor(cursor: int, num_projections: int) -> int {
    (cursor + 1) % num_projections
}

/// The cursor value after `steps` consecutive observations.
pub open spec fn cursor_after(start: int, steps: nat, num_projections: int) -> int
    decreases steps,
{
    if steps == 0 {
        start
    } else {
        next_cursor(cursor_after(start, (steps - 1) as nat, num_projections), num_projections)
    }
}

/// Cursor cycling: the slot observed at the `k`-th step from a start slot
/// is `(start + k) % num_projections`, so the observed slots from slot `0`
/// are exactly `0, 1, ..., num_projections - 1, 0, 1, ...`, and after
/// `num_projections` consecutive observations the cursor is back where it
/// started.
pub proof fn lemma_cursor_cycling(start: int, steps: nat, n: int)
    requires
        0 < n,
        0 <= start < n,
    ensures
        cursor_after(start, steps, n) == (start + steps) % n,
        steps < n - start ==> cursor_after(start, steps, n) == start + steps,
    decreases steps,
{
    if steps == 0 {
        lemma_small_mod(start as nat, n as nat);
    } else {
        lemma_cursor_cycling(start, (steps - 1) as nat, n);
        lemma_add_mod_noop(start + steps - 1, 1, n);
        if n == 1 {
            lemma_mod_self_0(n);
        } else {
            lemma_small_mod(1nat, n as nat);
        }
        vstd::arithmetic::div_mod::lemma_mod_twice(start + steps - 1, n);
        assert(((start + steps - 1) % n + 1) % n == (start + steps) % n) by {
            lemma_add_mod_noop((start + steps - 1) % n, 1, n);
        }
    }
    if steps < n - start {
        lemma_small_mod((start + steps) as nat, n as nat);
    }
}

/// After `num_projections` consecutive observations the cursor is back
/// where it started.
pub proof fn lemma_cursor_full_cycle(start: int, n: int)
    requires
        0 < n,
        0 <= start < n,
    ensures
        cursor_after(start, n as nat, n) == start,
{
    lemma_cursor_cycling(start, n as nat, n);
    assert((start + n) % n == start % n) by {
        vstd::arithmetic::div_mod::lemma_mod_add_multiples_vanish(start, n);
    }
    lemma_small_mod(start as nat, n as nat);
}

impl Client {
    /// Well-formed: at least one projection, a valid cursor, a positive
    /// grid width and a positive quantizer scale.
    pub open spec fn wf(self) -> bool {
        &&& 0 < self.projection_matrix.len()
        &&& self.i < self.projection_matrix.len()
        &&& 0 < self.width
        &&& 0 < self.scale
    }

    /// Creates an observer owning its projection set, with its cursor on
    /// the given initial slot.
    pub fn new(i: usize, projection_matrix: Vec<Vec<i64>>, width: usize, scale: i64) -> (client:
        Client)
        requires
            i < projection_matrix.len(),
            0 < width,
            0 < scale,
        ensures
            client.wf(),
            client.i == i,
            client.projection_matrix == projection_matrix,
            client.width == width,
            client.scale == scale,
    {
        Client { i, projection_matrix, width, scale }
    }

    /// Creates an observer borrowing a shared projection set, with its
    /// cursor on the given initial slot.
    pub fn new_with_ref<'a>(
        i: usize,
        projection_matrix: &'a Vec<Vec<i64>>,
        width: usize,
        scale: i64,
    ) -> (client: ClientRef<'a>)
        requires
            i < projection_matrix.len(),
            0 < width,
            0 < scale,
        ensures
            client.wf(),
            client.i == i,
            client.projection_matrix == projection_matrix,
            client.width == width,
            client.scale == scale,
    {
        ClientRef { i, projection_matrix, width, scale }
    }

    /// One observation step: reads the true cell's raw response under the
    /// current slot, returns `(slot, response)` for the pre-advance slot,
    /// and advances the cursor cyclically.
    pub fn observe(&mut self, current_grid: (usize, usize)) -> (result: (usize, i64))
        requires
            old(self).wf(),
            current_grid.0 * old(self).width + current_grid.1 <= usize::MAX,
            grid_to_index_spec(
                (current_grid.0 as int, current_grid.1 as int),
                old(self).width as int,
            ) < old(self).projection_matrix@[old(self).i as int]@.len(),
        ensures
            final(self).wf(),
            final(self).projection_matrix == old(self).projection_matrix,
            final(self).width == old(self).width,
            final(self).scale == old(self).scale,
            result.0 == old(self).i,
            result.1 == old(self).projection_matrix@[old(self).i as int]@[grid_to_index_spec(
                (current_grid.0 as int, current_grid.1 as int),
                old(self).width as int,
            )],
            final(self).i as int == next_cursor(
                old(self).i as int,
                old(self).projection_matrix.len() as int,
            ),
    {
        let index: usize = crate::common::grid_to_index(current_grid, self.width);
        let projection: &Vec<i64> = &self.projection_matrix[self.i];
        let observation: i64 = projection[index];
        let result: (usize, i64) = (self.i, observation);
        let n: usize = self.projection_matrix.len();
        proof {
            if old(self).i + 1 < n {
                lemma_small_mod((old(self).i + 1) as nat, n as nat);
            } else {
                lemma_mod_self_0(n as int);
            }
        }
        if self.i < n - 1 {
            self.i = self.i + 1;
        } else {
            self.i = 0;
        }
        result
    }

    /// One observation step returning the quantized response: `observe`
    /// composed with the quantizer.
    pub fn observe_quantized(&mut self, current_grid: (usize, usize)) -> (result: (usize, i8))
        requires
            old(self).wf(),
            current_grid.0 * old(self).width + current_grid.1 <= usize::MAX,
            grid_to_index_spec(
                (current_grid.0 as int, current_grid.1 as int),
                old(self).width as int,
            ) < old(self).projection_matrix@[old(self).i as int]@.len(),
        ensures
            final(self).wf(),
            final(self).projection_matrix == old(self).projection_matrix,
            final(self).width == old(self).width,
            final(self).scale == old(self).scale,
            result.0 == old(self).i,
            result.1 as int == quantize_spec(
                old(self).projection_matrix@[old(self).i as int]@[grid_to_index_spec(
                    (current_grid.0 as int, current_grid.1 as int),
                    old(self).width as int,
                )] as int,
                old(self).scale as int,
            ),
            final(self).i as int == next_cursor(
                old(self).i as int,
                old(self).projection_matrix.len() as int,
            ),
    {
        let normal_observation: (usize, i64) = self.observe(current_grid);
        let quantized_observation: i8 = crate::common::quantize(normal_observation.1, self.scale);
        (normal_observation.0, quantized_observation)
    }
}

impl<'a> ClientRef<'a> {
    /// Well-formed: at least one projection, a valid cursor, a positive
    /// grid width and a positive quantizer scale.
    pub open spec fn wf(self) -> bool {
        &&& 0 < self.projection_matrix.len()
        &&& self.i < self.projection_matrix.len()
        &&& 0 < self.width
        &&& 0 < self.scale
    }

    /// One observation step: reads the true cell's raw response under the
    /// current slot, returns `(slot, response)` for the pre-advance slot,
    /// and advances the cursor cyclically.  Only the cursor is written;
    /// the borrowed projection set is never mutated.
    pub fn observe(&mut self, current_grid: (usize, usize)) -> (result: (usize, i64))
        requires
            old(self).wf(),
            current_grid.0 * old(self).width + current_grid.1 <= usize::MAX,
            grid_to_index_spec(
                (current_grid.0 as int, current_grid.1 as int),
                old(self).width as int,
            ) < old(self).projection_matrix@[old(self).i as int]@.len(),
        ensures
            final(self).wf(),
            final(self).projection_matrix == old(self).projection_matrix,
            final(self).width == old(self).width,
            final(self).scale == old(self).scale,
            result.0 == old(self).i,
            result.1 == old(self).projection_matrix@[old(self).i as int]@[grid_to_index_spec(
                (current_grid.0 as int, current_grid.1 as int),
                old(self).width as int,
            )],
            final(self).i as int == next_cursor(
                old(self).i as int,
                old(self).projection_matrix.len() as int,
            ),
    {
        let index: usize = crate::common::grid_to_index(current_grid, self.width);
        let projection: &Vec<i64> = &self.projection_matrix[self.i];
        let observation: i64 = projection[index];
        let result: (usize, i64) = (self.i, observation);
        let n: usize = self.projection_matrix.len();
        proof {
            if old(self).i + 1 < n {
                lemma_small_mod((old(self).i + 1) as nat, n as nat);
            } else {
                lemma_mod_self_0(n as int);
            }
        }
        if self.i < n - 1 {
            self.i = self.i + 1;
        } else {
            self.i = 0;
        }
        result
    }

    /// One observation step returning the quantized response: `observe`
    /// composed with the quantizer.
    pub fn observe_quantized(&mut self, current_grid: (usize, usize)) -> (result: (usize, i8))
        requires
            old(self).wf(),
            current_grid.0 * old(self).width + current_grid.1 <= usize::MAX,
            grid_to_index_spec(
                (current_grid.0 as int, current_grid.1 as int),
                old(self).width as int,
            ) < old(self).projection_matrix@[old(self).i as int]@.len(),
        ensures
            final(self).wf(),
            final(self).projection_matrix == old(self).projection_matrix,
            final(self).width == old(self).width,
            final(self).scale == old(self).scale,
            result.0 == old(self).i,
            result.1 as int == quantize_spec(
                old(self).projection_matrix@[old(self).i as int]@[grid_to_index_spec(
                    (current_grid.0 as int, current_grid.1 as int),
                    old(self).width as int,
                )] as int,
                old(self).scale as int,
            ),
            final(self).i as int == next_cursor(
                old(self).i as int,
                old(self).projection_matrix.len() as int,
            ),
    {
        let normal_observation: (usize, i64) = self.observe(current_grid);
        let quantized_observation: i8 = crate::common::quantize(normal_observation.1, self.scale);
        (normal_observation.0, quantized_observation)
    }
}

} // verus!
