//! The rules of a two-player block-stacking game: grids, pieces, level
//! policies, effects, the state of a player, and the match that resolves
//! landings, special actions and turns. Drivers call in with moves and read
//! the state back for display. The functions here are verified against their
//! contracts; pieces are drawn with `rand`, and what is taken from that crate
//! on trust is said where it is called, in `level` and in `game`.

pub mod block;
pub mod commands;
pub mod config;
pub mod effects;
pub mod game;
pub mod grid;
pub mod level;
pub mod ownership;
pub mod player;
pub mod render_text;
pub mod sums;
pub mod text;
pub mod turns;
