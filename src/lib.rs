//! A minesweeper game engine whose board logic, mine placement, flood-fill
//! reveal and chord rule are verified with Verus.

pub mod app;
pub mod clock;
pub mod counting;
pub mod model;
pub mod random;
