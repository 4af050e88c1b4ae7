//! Verified core of a mutation-testing runner for Rust crates.
pub mod text;
pub mod diff;
pub mod campaign;
pub mod params_writer;
pub mod args;
pub mod config;
pub mod cargo_mutants;
pub mod paths;
pub mod path_order;
pub mod fixtures;
