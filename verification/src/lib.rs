//! A tile-based push-box puzzle engine: a player moves across a rectangular
//! grid, pushes boxes onto trigger tiles, and a door opens when every trigger
//! is covered, granting level advancement.
//!
//! The crate covers the puzzle simulation proper: the level loader, the grid
//! occupancy index, the move/push resolver, the win evaluator, the level
//! state machine, and the integer timers that pace moves and drive the grid
//! reveal animation. Input devices and rendering are outside collaborators:
//! they hand the engine directional intents and read plain positions back.

pub mod animate;
pub mod grid;
pub mod level;
pub mod session;
pub mod state;
