//! The command words of the protocol, without their arguments.

use vstd::prelude::*;

verus! {

/// A command word of the protocol.
#[derive(Debug, PartialEq, Eq, Clone, Copy)]
pub enum Command {
    // Storage commands
    SetItem,
    Add,
    Replace,
    Append,
    Prepend,
    Cas,
    // Retrieval commands
    Get,
    Gets,
    Gat,
    Gats,
    //
    Version,
    Quit,
}

impl Command {
    /// Leaves a command line as it is: line endings are dealt with by the grammar.
    pub fn remove_newline(_s: &str) {
    }
}

} // verus!
