//! The audio pipeline: decode-and-feed, playback, analysis.
pub mod analyzer;
pub mod decoder;
pub mod player;
