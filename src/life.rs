//! The simulation: a board, how many generations to run, and how many cells
//! were seeded.

use crate::board::{generations, next_cells, Board, SeedError};
use crate::cells::Cell;
use vstd::prelude::*;

verus! {

/// A board together with its run parameters.
pub struct GameOfLife {
    pub board: Board,
    pub iterations: u32,
    pub initial_points: u32,
}

impl GameOfLife {
    /// Builds a `dimensions.0 x dimensions.1` board seeded with
    /// `initial_points` random live cells; fails when they do not fit.
    pub fn new(dimensions: (u32, u32), iterations: u32, initial_points: u32) -> (r: Result<
        GameOfLife,
        SeedError,
    >)
        requires
            dimensions.0 <= i32::MAX,
            dimensions.1 <= i32::MAX,
        ensures
            r is Err <==> initial_points as int > dimensions.0 as int * dimensions.1 as int,
            r is Err ==> r == Err::<GameOfLife, SeedError>(SeedError::TooManyPoints),
            r matches Ok(g) ==> {
                &&& g.board.wf()
                &&& g.board.cols == dimensions.0
                &&& g.board.rows == dimensions.1
                &&& g.board@.len() == initial_points
                &&& g.iterations == iterations
                &&& g.initial_points == initial_points
            },
    {
        let (x, y) = dimensions;
        let mut board = Board::new(x, y);
        match board.create_random_points(initial_points) {
            Ok(()) => Ok(GameOfLife { board, iterations, initial_points }),
            Err(e) => Err(e),
        }
    }

    /// Advances the board by one generation.
    pub fn step(&mut self)
        requires
            old(self).board.wf(),
        ensures
            final(self).board.wf(),
            final(self).board@ == next_cells(
                old(self).board@,
                old(self).board.cols as int,
                old(self).board.rows as int,
            ),
            final(self).board.cols == old(self).board.cols,
            final(self).board.rows == old(self).board.rows,
            final(self).iterations == old(self).iterations,
            final(self).initial_points == old(self).initial_points,
    {
        let next = self.board.next_generation();
        self.board.update(next);
    }

    /// Advances the board by `iterations` generations, each computed from the
    /// whole of the one before.
    pub fn run(&mut self)
        requires
            old(self).board.wf(),
        ensures
            final(self).board.wf(),
            final(self).board@ == generations(
                old(self).board@,
                old(self).board.cols as int,
                old(self).board.rows as int,
                old(self).iterations as nat,
            ),
            final(self).board.cols == old(self).board.cols,
            final(self).board.rows == old(self).board.rows,
            final(self).iterations == old(self).iterations,
            final(self).initial_points == old(self).initial_points,
    {
        let ghost start: Set<Cell> = self.board@;
        let mut i: u32 = 0;
        while i < self.iterations
            invariant
                i <= self.iterations,
                self.board.wf(),
                self.board@ == generations(
                    start,
                    self.board.cols as int,
                    self.board.rows as int,
                    i as nat,
                ),
                self.board.cols == old(self).board.cols,
                self.board.rows == old(self).board.rows,
                self.iterations == old(self).iterations,
                self.initial_points == old(self).initial_points,
            decreases self.iterations - i,
        {
            self.step();
            i = i + 1;
        }
    }
}

} // verus!
