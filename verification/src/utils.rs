//! Showing raw bytes as text.

use vstd::prelude::*;
use vstd::utf8::{decode_utf8, valid_utf8};

verus! {

/// Calls `std::str::from_utf8`. Claimed: it succeeds exactly on valid UTF-8, and the
/// text it gives decodes the bytes (as vstd's `valid_utf8` and `decode_utf8` define
/// UTF-8).
#[verifier::external_body]
fn str_from_utf8(raw: &[u8]) -> (r: Option<&str>)
    ensures
        r is Some <==> valid_utf8(raw@),
        r matches Some(s) ==> s@ == decode_utf8(raw@),
{
    std::str::from_utf8(raw).ok()
}

/// The bytes as text when they are valid UTF-8, and a fixed notice otherwise.
pub fn raw_string_to_string(raw_input: &[u8]) -> (r: &str)
    ensures
        valid_utf8(raw_input@) ==> r@ == decode_utf8(raw_input@),
        !valid_utf8(raw_input@) ==> r@ == "Unparsable Input String"@,
{
    match str_from_utf8(raw_input) {
        Some(s) => s,
        None => "Unparsable Input String",
    }
}

} // verus!
