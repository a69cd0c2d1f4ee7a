//! Replies as values, and their bytes on the wire.

use vstd::prelude::*;
use vstd::utf8::encode_utf8;
use crate::bytes::emit;
use crate::handler::common::{append_value, value_line};
use crate::text;

verus! {

/// A reply to one command.
#[derive(Debug, PartialEq, Eq)]
pub enum CommandResponse {
    /// `VERSION <text>`
    Version(String),
    /// A storage reply, written as it is.
    Stored(String),
    /// One found item, then `END`.
    Get { key: Vec<u8>, data: Vec<u8>, flags: i32 },
    /// Nothing found: `END`.
    GetNotFound,
    /// `ERROR`
    Error,
}

impl CommandResponse {
    /// The bytes of the reply as `as_vec` writes them.
    pub open spec fn wire(&self) -> Seq<u8> {
        match self {
            CommandResponse::Version(v) => text::version_prefix() + encode_utf8(v@) + text::crlf(),
            CommandResponse::Stored(r) => encode_utf8(r@),
            CommandResponse::Get { key, data, flags } => value_line(key@, *flags, data@)
                + text::end_line(),
            CommandResponse::GetNotFound => text::end_line(),
            CommandResponse::Error => text::error_line(),
        }
    }

    /// The reply's bytes.
    pub fn as_vec(&self) -> (r: Vec<u8>)
        ensures
            r@ == self.wire(),
    {
        let mut out: Vec<u8> = Vec::new();
        match self {
            CommandResponse::Version(v) => {
                emit(&mut out, &text::version_prefix_bytes());
                emit(&mut out, v.as_str().as_bytes());
                emit(&mut out, &text::crlf_bytes());
            },
            CommandResponse::Stored(r) => {
                emit(&mut out, r.as_str().as_bytes());
            },
            CommandResponse::Get { key, data, flags } => {
                append_value(&mut out, key.as_slice(), *flags, data.as_slice());
                emit(&mut out, &text::end_line_bytes());
            },
            CommandResponse::GetNotFound => {
                emit(&mut out, &text::end_line_bytes());
            },
            CommandResponse::Error => {
                emit(&mut out, &text::error_line_bytes());
            },
        }
        assert(out@ =~= self.wire());
        out
    }
}

} // verus!
