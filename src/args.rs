//! The run parameters a front end hands to the library.

use vstd::prelude::*;

verus! {

/// Board size, seed count, generation count and verbosity of one run.
#[derive(Debug, Clone, Copy, PartialEq, Eq, Structural)]
pub struct Args {
    /// Number of columns of the board.
    pub x: u32,
    /// Number of rows of the board.
    pub y: u32,
    /// Number of cells alive at the start.
    pub p: u32,
    /// Number of generations to run.
    pub i: u32,
    /// Whether to show every generation.
    pub v: bool,
}

} // verus!
