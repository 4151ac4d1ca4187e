//! Commands: what a client can ask for.

pub mod parser;

pub use parser::{parse_command, Command};
