//! Conway's Game of Life on a toroidal grid: geometry, the board and its
//! generational rule, a plain-text save format, and the interactive session
//! state machine.
pub mod codec;
pub mod config;
pub mod game;
pub mod geometry;
pub mod session;
