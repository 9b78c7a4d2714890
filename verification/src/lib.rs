//! Change detection and directory mirroring for a dotfiles synchronizer.
//!
//! The crate models a file-system subtree as a value (`tree`), fingerprints
//! such a value with a structural hash (`hash`), and computes the result of
//! mirroring one subtree onto another (`mirror`).  On top of those engines sit
//! the per-item change-detection records (`config`) and the batch operations
//! over a whole list of tracked items (`dotconfig`).

pub mod args;
pub mod config;
pub mod dotconfig;
pub mod hash;
pub mod mirror;
pub mod tree;
