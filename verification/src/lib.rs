//! Batch translation of comic archives.

pub mod archive;
pub mod batch;
pub mod cbz;
pub mod chapters;
pub mod error;
pub mod events;
pub mod export;
pub mod images;
pub mod import;
pub mod job;
pub mod natural;
pub mod paths;
pub mod previews;
pub mod progress;
pub mod text;
pub mod views;
pub mod workspace;
