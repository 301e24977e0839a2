//! Plugins: which are loaded, under which names.
pub mod manager;
