//! Gerber file handling: command data structures and the parser.

pub mod parse;
pub mod types;
