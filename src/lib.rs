//! Conway's Game of Life on a bounded grid: a sparse set of live cells, the
//! Moore-neighbourhood update rule, random seeding and the generation loop.

pub mod args;
pub mod cells;
pub mod board;
pub mod life;
pub mod patterns;
