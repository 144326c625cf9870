//! Rule engine for a grid-based snake game.
//!
//! The library tracks a snake's body on a discrete toroidal grid, advances it
//! on a fixed tick, detects self-collision, places and consumes food, and
//! manages the game's lifecycle (waiting, ongoing, paused, dead, restart).
//! Rendering, audio and input polling are outside collaborators: they feed
//! input intents and elapsed time in, and read a snapshot of the state back.
//!
//! The edge policy is wrap: a snake leaving the grid on one edge re-enters on
//! the opposite edge (`grid::step`). Food placement always lands strictly
//! inside the outer ring of tiles and never on the snake; on the degenerate
//! board whose interior the snake fills completely, placement fails and the
//! session ends instead of searching forever.

pub mod config;
pub mod gamestate;
pub mod grid;
