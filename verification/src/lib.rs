//! Core logic of a userspace package manager for portable Linux binaries:
//! query parsing, catalog lookup, install bookkeeping and the decisions of
//! the install engine, with machine-checked contracts.

pub mod appimage;
pub mod codec;
pub mod color;
pub mod config;
pub mod digest;
pub mod display;
pub mod download;
pub mod engine;
pub mod file;
pub mod forge;
pub mod install;
pub mod installed;
pub mod metadata;
pub mod package;
pub mod registry;
pub mod remove;
pub mod run;
pub mod seqs;
pub mod sorting;
pub mod storage;
pub mod terminal;
pub mod text;
pub mod update;
pub mod util;
