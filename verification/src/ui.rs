//! What the terminal shows.
pub mod render;
pub mod visualizers;
