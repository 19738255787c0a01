//! A chat scoring game: players earn a point for a configured name by being
//! the first, within a calendar hour, to mention it in a message of some length.

pub mod catch_up;
pub mod dispatch;
pub mod game;
pub mod leaderboard;
pub mod search;
pub mod text;
pub mod time;
