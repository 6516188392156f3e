//! Scores for coding-assistant sessions.
pub mod animation;
pub mod browser;
pub mod discovery;
pub mod heuristic;
pub mod hook;
pub mod json;
pub mod particles;
pub mod score;
pub mod scoring;
pub mod screen;
pub mod session;
pub mod signals;
pub mod single;
pub mod text;
pub mod time;
