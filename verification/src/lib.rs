//! Image collections of a desktop tool, kept per project: previews and full
//! images served from an in-memory cache, the rules that keep that cache and
//! the per-image evaluation ledger in step with the files of a project, and
//! the decode and thumbnail pipeline behind the previews.
//!
//! The library never touches the file system. A caller lists, reads, copies
//! and removes files, and hands the library what it found; the library
//! decides what is cached, what is evicted, which store paths are meant and
//! what the ledger holds afterwards.

pub mod app_save;
pub mod cache;
pub mod codec;
pub mod image_evaluations;
pub mod image_exporter;
pub mod image_loader;
pub mod laws;
pub mod listing;
pub mod models;
pub mod paths;
pub mod preview;
pub mod text;
