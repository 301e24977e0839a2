//! The terminal interface's logic: the input line, colours and banners.
pub mod input;
pub mod ansi_art;
pub mod theme;
pub mod listing;
pub mod widgets;
pub mod dumb;
pub mod app;
pub mod app_laws;
