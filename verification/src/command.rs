//! The commands of the text protocol, as the parser produces them.

use vstd::prelude::*;

verus! {

/// One request of the text protocol.
#[derive(Debug, PartialEq, Eq)]
pub enum Command {
    // Storage commands
    SetItem { key: Vec<u8>, flags: i32, timeout: i64, noreply: bool, value: Vec<u8>, value_size: u32 },
    Add { key: Vec<u8>, flags: i32, timeout: i64, noreply: bool, value: Vec<u8>, value_size: u32 },
    Replace { key: Vec<u8>, flags: i32, timeout: i64, noreply: bool, value: Vec<u8>, value_size: u32 },
    Append { key: Vec<u8>, flags: i32, timeout: i64, noreply: bool, value: Vec<u8>, value_size: u32 },
    Prepend { key: Vec<u8>, flags: i32, timeout: i64, noreply: bool, value: Vec<u8>, value_size: u32 },
    Cas {
        key: Vec<u8>,
        flags: i32,
        timeout: i64,
        noreply: bool,
        value: Vec<u8>,
        value_size: u32,
        cas_unique: u64,
    },
    // Retrieval commands
    Get { keys: Vec<Vec<u8>> },
    Gets { keys: Vec<Vec<u8>> },
    Gat { timeout: i64, keys: Vec<Vec<u8>> },
    Gats { timeout: i64, keys: Vec<Vec<u8>> },
    // Arithmetic commands
    Incr { key: Vec<u8>, delta: u64, noreply: bool },
    Decr { key: Vec<u8>, delta: u64, noreply: bool },
    // Touch command
    Touch { key: Vec<u8>, timeout: i64, noreply: bool },
    // Deletion commands
    Delete { key: Vec<u8>, noreply: bool },
    FlushAll { delay: u64, noreply: bool },
    // Statistics
    Stats { sub: Option<Vec<u8>> },
    // Meta commands
    Version,
    Quit,
    Malformed,
    CannotParse(String),
}

/// A command as mathematical values: byte strings become sequences.
pub enum CommandView {
    SetItem { key: Seq<u8>, flags: i32, timeout: i64, noreply: bool, value: Seq<u8>, value_size: u32 },
    Add { key: Seq<u8>, flags: i32, timeout: i64, noreply: bool, value: Seq<u8>, value_size: u32 },
    Replace { key: Seq<u8>, flags: i32, timeout: i64, noreply: bool, value: Seq<u8>, value_size: u32 },
    Append { key: Seq<u8>, flags: i32, timeout: i64, noreply: bool, value: Seq<u8>, value_size: u32 },
    Prepend { key: Seq<u8>, flags: i32, timeout: i64, noreply: bool, value: Seq<u8>, value_size: u32 },
    Cas {
        key: Seq<u8>,
        flags: i32,
        timeout: i64,
        noreply: bool,
        value: Seq<u8>,
        value_size: u32,
        cas_unique: u64,
    },
    Get { keys: Seq<Seq<u8>> },
    Gets { keys: Seq<Seq<u8>> },
    Gat { timeout: i64, keys: Seq<Seq<u8>> },
    Gats { timeout: i64, keys: Seq<Seq<u8>> },
    Incr { key: Seq<u8>, delta: u64, noreply: bool },
    Decr { key: Seq<u8>, delta: u64, noreply: bool },
    Touch { key: Seq<u8>, timeout: i64, noreply: bool },
    Delete { key: Seq<u8>, noreply: bool },
    FlushAll { delay: u64, noreply: bool },
    Stats { sub: Option<Seq<u8>> },
    Version,
    Quit,
    Malformed,
    CannotParse(Seq<char>),
}

/// The contents of a list of keys.
pub open spec fn keys_view(keys: Seq<Vec<u8>>) -> Seq<Seq<u8>> {
    keys.map_values(|k: Vec<u8>| k@)
}

impl View for Command {
    type V = CommandView;

    open spec fn view(&self) -> CommandView {
        match self {
            Command::SetItem { key, flags, timeout, noreply, value, value_size } => CommandView::SetItem {
                key: key@,
                flags: *flags,
                timeout: *timeout,
                noreply: *noreply,
                value: value@,
                value_size: *value_size,
            },
            Command::Add { key, flags, timeout, noreply, value, value_size } => CommandView::Add {
                key: key@,
                flags: *flags,
                timeout: *timeout,
                noreply: *noreply,
                value: value@,
                value_size: *value_size,
            },
            Command::Replace { key, flags, timeout, noreply, value, value_size } =>
                CommandView::Replace {
                key: key@,
                flags: *flags,
                timeout: *timeout,
                noreply: *noreply,
                value: value@,
                value_size: *value_size,
            },
            Command::Append { key, flags, timeout, noreply, value, value_size } =>
                CommandView::Append {
                key: key@,
                flags: *flags,
                timeout: *timeout,
                noreply: *noreply,
                value: value@,
                value_size: *value_size,
            },
            Command::Prepend { key, flags, timeout, noreply, value, value_size } =>
                CommandView::Prepend {
                key: key@,
                flags: *flags,
                timeout: *timeout,
                noreply: *noreply,
                value: value@,
                value_size: *value_size,
            },
            Command::Cas { key, flags, timeout, noreply, value, value_size, cas_unique } =>
                CommandView::Cas {
                key: key@,
                flags: *flags,
                timeout: *timeout,
                noreply: *noreply,
                value: value@,
                value_size: *value_size,
                cas_unique: *cas_unique,
            },
            Command::Get { keys } => CommandView::Get { keys: keys_view(keys@) },
            Command::Gets { keys } => CommandView::Gets { keys: keys_view(keys@) },
            Command::Gat { timeout, keys } => CommandView::Gat {
                timeout: *timeout,
                keys: keys_view(keys@),
            },
            Command::Gats { timeout, keys } => CommandView::Gats {
                timeout: *timeout,
                keys: keys_view(keys@),
            },
            Command::Incr { key, delta, noreply } => CommandView::Incr {
                key: key@,
                delta: *delta,
                noreply: *noreply,
            },
            Command::Decr { key, delta, noreply } => CommandView::Decr {
                key: key@,
                delta: *delta,
                noreply: *noreply,
            },
            Command::Touch { key, timeout, noreply } => CommandView::Touch {
                key: key@,
                timeout: *timeout,
                noreply: *noreply,
            },
            Command::Delete { key, noreply } => CommandView::Delete {
                key: key@,
                noreply: *noreply,
            },
            Command::FlushAll { delay, noreply } => CommandView::FlushAll {
                delay: *delay,
                noreply: *noreply,
            },
            Command::Stats { sub } => CommandView::Stats {
                sub: match sub {
                    Some(s) => Some(s@),
                    None => None,
                },
            },
            Command::Version => CommandView::Version,
            Command::Quit => CommandView::Quit,
            Command::Malformed => CommandView::Malformed,
            Command::CannotParse(s) => CommandView::CannotParse(s@),
        }
    }
}

impl Command {
    /// Whether this is the `quit` command.
    pub fn is_quit(&self) -> (r: bool)
        ensures
            r == (self@ is Quit),
    {
        match self {
            Command::Quit => true,
            _ => false,
        }
    }
}

} // verus!
