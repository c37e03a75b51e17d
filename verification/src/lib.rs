//! The core of a Snake game: a snake that moves on a toroidal grid, grows by
//! eating food, and ends the game by running into itself or by filling the board.

pub mod direction;
pub mod grid;
pub mod snake;
pub mod universe;

pub use crate::direction::Direction;
pub use crate::grid::Block;
pub use crate::snake::Snake;
pub use crate::snake::SnakeTickOutcomes;
pub use crate::snake::SnakeView;
pub use crate::universe::Universe;
pub use crate::universe::UniverseTickOutcomes;
pub use crate::universe::UniverseView;
