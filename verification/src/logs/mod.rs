//! Log lines: parsing, filtering and output configuration.
pub mod parser;
pub mod pattern;
pub mod filters;
pub mod formatter;
pub mod edit;
