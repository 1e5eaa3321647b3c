//! Verified core of an Android logcat / traffic console: log-line parsing,
//! filtering, output configuration, mock rules, traffic inspection and the
//! decision logic of the terminal front end.
pub mod text;
pub mod logs;
pub mod mock;
pub mod traffic;
pub mod adb;
pub mod cli;
pub mod config;
pub mod laws;
