//! One-shot mirror synchronisation: snapshot models, the diff-transfer
//! planner and scheduler, and the pipes that decorate a source.

pub mod checksum_pipe;
pub mod common;
pub mod conda;
pub mod crates_io;
pub mod dart;
pub mod error;
pub mod file_backend;
pub mod filter_pipe;
pub mod ghcup;
pub mod github_release;
pub mod gradle;
pub mod homebrew;
pub mod html_scanner;
pub mod index_page;
pub mod index_pipe;
pub mod lean;
pub mod merge_pipe;
pub mod metadata;
pub mod mirror_intel;
pub mod opam;
pub mod opts;
pub mod overlay;
pub mod pattern;
pub mod pypi;
pub mod python_version;
pub mod rewrite_pipe;
pub mod rsync;
pub mod rustup;
pub mod s3;
pub mod scheduler;
pub mod simple_diff_transfer;
pub mod sorting;
pub mod stream_pipe;
pub mod text;
pub mod timeout;
pub mod traits;
pub mod utils;
