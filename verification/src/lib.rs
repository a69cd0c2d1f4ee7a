//! A memcached-compatible key-value server's core: the text protocol's grammar,
//! the item store, and the handling of each command.

pub mod bytes;
pub mod clock;
pub mod command;
pub mod handler;
pub mod keyword;
pub mod laws;
pub mod parser;
pub mod response;
pub mod session;
pub mod state;
pub mod strict_parser;
pub mod text;
pub mod utils;

pub use session::{process_input, process_input_buffered};
