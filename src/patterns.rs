//! Facts about the update rule: what zero steps and repeated steps do, and
//! two classic patterns.

use crate::board::{generations, live_neighbours, next_cells};
use crate::cells::Cell;
use vstd::prelude::*;

verus! {

/// Running zero generations leaves the live cells exactly as they were.
pub proof fn lemma_zero_generations(live: Set<Cell>, cols: int, rows: int)
    ensures
        generations(live, cols, rows, 0) == live,
{
}

/// The next generation depends on the current one and the board size alone:
/// computing it twice from the same cells gives the same cells.
pub proof fn lemma_next_cells_deterministic(a: Set<Cell>, b: Set<Cell>, cols: int, rows: int)
    requires
        a == b,
    ensures
        next_cells(a, cols, rows) == next_cells(b, cols, rows),
{
}

/// The 2x2 block at (1,1), (1,2), (2,1), (2,2).
pub open spec fn block() -> Set<Cell> {
    set![(1i32, 1i32), (1i32, 2i32), (2i32, 1i32), (2i32, 2i32)]
}

/// The line (2,1), (2,2), (2,3).
pub open spec fn blinker_horizontal() -> Set<Cell> {
    set![(2i32, 1i32), (2i32, 2i32), (2i32, 3i32)]
}

/// The line (1,2), (2,2), (3,2).
pub open spec fn blinker_vertical() -> Set<Cell> {
    set![(1i32, 2i32), (2i32, 2i32), (3i32, 2i32)]
}

/// The block is a still life: one step maps it to itself.
pub proof fn lemma_block_step(cols: int, rows: int)
    requires
        cols >= 3,
        rows >= 3,
    ensures
        next_cells(block(), cols, rows) == block(),
{
    assert forall|c: Cell| #[trigger]
        next_cells(block(), cols, rows).contains(c) <==> block().contains(c) by {
        let n = live_neighbours(block(), c);
        if c.0 < 0 || c.0 > 3 || c.1 < 0 || c.1 > 3 {
            assert(n == 0);
        }
    }
    assert(next_cells(block(), cols, rows) =~= block());
}

/// The block stays exactly those four cells after any number of generations.
pub proof fn lemma_block_still_life(cols: int, rows: int, k: nat)
    requires
        cols >= 3,
        rows >= 3,
    ensures
        generations(block(), cols, rows, k) == block(),
    decreases k,
{
    if k > 0 {
        lemma_block_still_life(cols, rows, (k - 1) as nat);
        lemma_block_step(cols, rows);
    }
}

/// One step turns the horizontal blinker vertical.
pub proof fn lemma_blinker_turns_vertical(cols: int, rows: int)
    requires
        cols >= 4,
        rows >= 4,
    ensures
        next_cells(blinker_horizontal(), cols, rows) == blinker_vertical(),
{
    assert forall|c: Cell| #[trigger]
        next_cells(blinker_horizontal(), cols, rows).contains(c) <==> blinker_vertical().contains(c) by {
        let n = live_neighbours(blinker_horizontal(), c);
        if c.0 < 1 || c.0 > 3 || c.1 < 0 || c.1 > 4 {
            assert(n == 0);
        }
    }
    assert(next_cells(blinker_horizontal(), cols, rows) =~= blinker_vertical());
}

/// One step turns the vertical blinker horizontal.
pub proof fn lemma_blinker_turns_horizontal(cols: int, rows: int)
    requires
        cols >= 4,
        rows >= 4,
    ensures
        next_cells(blinker_vertical(), cols, rows) == blinker_horizontal(),
{
    assert forall|c: Cell| #[trigger]
        next_cells(blinker_vertical(), cols, rows).contains(c) <==> blinker_horizontal().contains(c) by {
        let n = live_neighbours(blinker_vertical(), c);
        if c.0 < 0 || c.0 > 4 || c.1 < 1 || c.1 > 3 {
            assert(n == 0);
        }
    }
    assert(next_cells(blinker_vertical(), cols, rows) =~= blinker_horizontal());
}

/// The blinker oscillates with period two: vertical after one generation,
/// horizontal again after two.
pub proof fn lemma_blinker_oscillates(cols: int, rows: int)
    requires
        cols >= 4,
        rows >= 4,
    ensures
        generations(blinker_horizontal(), cols, rows, 1) == blinker_vertical(),
        generations(blinker_horizontal(), cols, rows, 2) == blinker_horizontal(),
{
    lemma_blinker_turns_vertical(cols, rows);
    lemma_blinker_turns_horizontal(cols, rows);
    assert(generations(blinker_horizontal(), cols, rows, 1) == next_cells(
        generations(blinker_horizontal(), cols, rows, 0),
        cols,
        rows,
    ));
    assert(generations(blinker_horizontal(), cols, rows, 2) == next_cells(
        generations(blinker_horizontal(), cols, rows, 1),
        cols,
        rows,
    ));
}

} // verus!
