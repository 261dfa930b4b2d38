//! Tracks: the catalog, what of it is on disk, and what is on its way.
pub mod catalog;
pub mod downloader;
pub mod loader;
