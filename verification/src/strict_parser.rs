//! The minimal line grammar of a server that knows only `version` and `quit`,
//! each an exact word followed by `\r\n`.

use vstd::prelude::*;
use crate::bytes::{emit, starts_with, tag_at};
use crate::command::{Command, CommandView};
use crate::text;

verus! {

/// `version\r\n`
pub open spec fn version_request() -> Seq<u8> {
    seq![118, 101, 114, 115, 105, 111, 110, 13, 10]
}

/// `quit\r\n`
pub open spec fn quit_request() -> Seq<u8> {
    seq![113, 117, 105, 116, 13, 10]
}

/// What [`parse`] reads: `version\r\n` or else `quit\r\n` at the start, and how many
/// bytes it takes.
pub open spec fn strict_spec(s: Seq<u8>) -> Option<(CommandView, int)> {
    if tag_at(s, 0, version_request()) {
        Some((CommandView::Version, 9))
    } else if tag_at(s, 0, quit_request()) {
        Some((CommandView::Quit, 6))
    } else {
        None
    }
}

/// Reads `version\r\n` at the start of `input`.
pub fn parse_version(input: &[u8]) -> (r: Option<(usize, Command)>)
    ensures
        r matches Some((n, c)) ==> tag_at(input@, 0, version_request()) && n == 9 && c@
            == CommandView::Version,
        r is None ==> !tag_at(input@, 0, version_request()),
{
    let word: [u8; 9] = [118, 101, 114, 115, 105, 111, 110, 13, 10];
    if starts_with(input, &word) {
        Some((9, Command::Version))
    } else {
        None
    }
}

/// Reads `quit\r\n` at the start of `input`.
pub fn parse_quit(input: &[u8]) -> (r: Option<(usize, Command)>)
    ensures
        r matches Some((n, c)) ==> tag_at(input@, 0, quit_request()) && n == 6 && c@
            == CommandView::Quit,
        r is None ==> !tag_at(input@, 0, quit_request()),
{
    let word: [u8; 6] = [113, 117, 105, 116, 13, 10];
    if starts_with(input, &word) {
        Some((6, Command::Quit))
    } else {
        None
    }
}

/// Reads `version\r\n` or else `quit\r\n` at the start of `input`.
pub fn parse(input: &[u8]) -> (r: Option<(usize, Command)>)
    ensures
        r matches Some((n, c)) ==> strict_spec(input@) == Some((c@, n as int)),
        r is None ==> strict_spec(input@) is None,
{
    match parse_version(input) {
        Some(x) => Some(x),
        None => parse_quit(input),
    }
}

/// Reads whole request lines with the strict grammar.
pub struct Parser;

impl Parser {
    pub fn new() -> Parser {
        Parser
    }

    /// The command on a line that has been read (up to and with its `\n`), if the
    /// strict grammar knows it.
    pub fn parse_command(line: &[u8]) -> (r: Option<Command>)
        ensures
            r matches Some(c) ==> strict_spec(line@) matches Some((v, _)) && v == c@,
            r is None ==> strict_spec(line@) is None,
    {
        match parse(line) {
            Some((_, c)) => Some(c),
            None => None,
        }
    }
}

/// What the minimal line server answers to a line whose command is `c` (`None`
/// when the line could not be read), and whether it keeps the connection.
pub open spec fn strict_answer(c: Option<CommandView>) -> (Seq<u8>, bool) {
    match c {
        Some(CommandView::Version) => (text::short_version(), true),
        Some(CommandView::Quit) => (text::crlf(), false),
        Some(_) => (text::not_implemented_line(), true),
        None => (text::unrecognized_line(), true),
    }
}

impl Parser {
    /// The answer to a line whose command is `command`, and whether to keep the
    /// connection, as [`strict_answer`] says.
    pub fn answer(command: &Option<Command>) -> (r: (Vec<u8>, bool))
        ensures
            (r.0@, r.1) == strict_answer(
                match command {
                    Some(c) => Some(c@),
                    None => None,
                },
            ),
    {
        let mut out: Vec<u8> = Vec::new();
        match command {
            Some(Command::Version) => {
                emit(&mut out, &text::short_version_bytes());
                (out, true)
            },
            Some(Command::Quit) => {
                emit(&mut out, &text::crlf_bytes());
                (out, false)
            },
            Some(_) => {
                emit(&mut out, &text::not_implemented_line_bytes());
                (out, true)
            },
            None => {
                emit(&mut out, &text::unrecognized_line_bytes());
                (out, true)
            },
        }
    }
}

} // verus!
