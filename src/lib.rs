//! Multiplayer snake game: the shared world, its tick rules, request framing
//! and the per-connection session state machine.

pub mod apple;
pub mod aux;
pub mod error;
pub mod game;
pub mod grid;
mod pairs;
pub mod parse;
pub mod protocol;
mod random;
pub mod session;
pub mod snake;
