//! Command-line front end: completion and the terminal's decision logic.
pub mod completer;
pub mod tui;
pub mod commands;
pub mod render;
