//! A real-time audio pipeline and what steers it.
//!
//! Decoded audio is brought to interleaved stereo samples and fed through a
//! bounded channel to the render step of the output device, and through a
//! second channel to the analyzer, which keeps a rolling window and the
//! levels that the bar display shows. Beside the pipeline stand the catalog
//! of tracks, the presets, and the state that the keys of the listener
//! change.
//!
//! Samples, volumes and levels travel through the library as 32-bit IEEE-754
//! patterns (`u32`). [`sample`] says what a pattern denotes; [`arith`]
//! computes with patterns, each result being the pattern nearest to the
//! exact one.
pub mod app;
pub mod arith;
pub mod audio;
pub mod channel;
pub mod presets;
pub mod sample;
pub mod text;
pub mod tracks;
pub mod ui;
