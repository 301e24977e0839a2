//! The IRC protocol: messages, commands, modes, users and the rest.
pub mod message;
pub mod mode;
pub mod user;
pub mod command;
pub mod ctcp;
pub mod flood;
pub mod encrypt;
pub mod dcc;
pub mod channel;
pub mod client;
pub mod connection;
