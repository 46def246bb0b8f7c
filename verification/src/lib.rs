//! Verified core of a batch audio converter: format detection, path
//! modelling, input discovery, output planning, job decisions, summaries
//! and readiness diagnostics. Process spawning, file-system access and
//! thread pools live in the application around this library.
pub mod text;
pub mod path;
pub mod path_bytes;
pub mod audio_format;
pub mod cli;
pub mod config;
pub mod discover;
pub mod plan;
pub mod convert;
pub mod summary;
pub mod progress;
pub mod interrupt;
pub mod ffmpeg;
pub mod doctor;
