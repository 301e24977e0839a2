//! The scripting layer: aliases and variables.
pub mod engine;
