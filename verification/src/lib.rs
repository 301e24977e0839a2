//! BitchY: the protocol, state and text-processing core of an IRC client.
pub mod text;
pub mod error;
pub mod config;
pub mod cli;
pub mod collections;
pub mod irc;
pub mod scripting;
pub mod ui;
pub mod plugin;
