pub mod counting;
pub mod game;
pub mod grid;
mod rng;

use vstd::prelude::*;

verus! {

/// Side length of the square board.
pub const GRID_SIZE: usize = 16;

/// Number of hazards seeded on the board after the first click.
pub const VIRUSES: usize = 30;

/// The state of one board position.
///
/// Every cell starts as `Hidden(false)`. Seeding turns exactly `VIRUSES`
/// cells into `Hidden(true)`. A click on a safe hidden cell turns it (and,
/// transitively, its safe surroundings) into `Neighbours(k)`, where `k` is
/// the number of adjacent cells carrying a hazard. A click on a hazardous
/// hidden cell turns it into `Infected`, which ends the game.
#[derive(Clone, Copy, Debug, PartialEq, Eq, Structural)]
pub enum Cell {
    Hidden(bool),
    Infected,
    Neighbours(usize),
}

/// What a click ended in: play goes on, the clicked cell detonated, or
/// every safe cell has been revealed.
#[derive(Clone, Copy, Debug, PartialEq, Eq, Structural)]
pub enum Outcome {
    Proceed,
    Defeat,
    Victory,
}

} // verus!

pub use game::{click, count_hidden_cells, explode, get_neighbours, insert_viruses, with_viruses, Field};
