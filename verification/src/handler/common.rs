//! What all handlers share: which keys are acceptable, when an item is alive,
//! how expiration times are read, and how an item is written in a reply.

use vstd::prelude::*;
use crate::bytes::{
    append_decimal, append_signed_decimal, decimal, emit, has_control_chars, holds_control,
    signed_decimal,
};
use crate::state::{Data, ItemView};
use crate::text;

verus! {

/// Keys longer than this are refused.
pub open spec fn max_key_len() -> int {
    250
}

/// Whether a key is acceptable: at most 250 bytes and no control byte.
pub open spec fn valid_key(key: Seq<u8>) -> bool {
    key.len() <= max_key_len() && !holds_control(key)
}

/// Whether a key is acceptable: at most 250 bytes and no control byte.
pub fn is_valid_key(key: &[u8]) -> (r: bool)
    ensures
        r == valid_key(key@),
{
    key.len() <= 250 && !has_control_chars(key)
}

/// The reply a command gives unless it was sent with `noreply`.
pub open spec fn reply(noreply: bool, line: Seq<u8>) -> Seq<u8> {
    if noreply {
        Seq::empty()
    } else {
        line
    }
}

/// Whole seconds from `since` to `now` (both in nanoseconds), 0 if `now` is earlier.
pub open spec fn elapsed_secs(now: u128, since: u128) -> int {
    if now >= since {
        (now - since) as int / 1_000_000_000
    } else {
        0
    }
}

/// Whether an item is still alive at `now`: it never expires (timeout 0), or its
/// positive timeout has not yet passed.
pub open spec fn is_live(item: ItemView, now: u128) -> bool {
    item.timeout == 0 || (item.timeout > 0 && elapsed_secs(now, item.time) < item.timeout)
}

/// Whether `d` is still alive at `now`.
pub fn data_is_live(d: &Data, now: u128) -> (r: bool)
    ensures
        r == is_live(d@, now),
{
    let elapsed: u128 = if now >= d.time {
        (now - d.time) / 1_000_000_000
    } else {
        0
    };
    d.timeout == 0 || (d.timeout > 0 && elapsed < d.timeout as u128)
}

/// The seconds since the Unix epoch at `now`, as the clock's seconds count
/// (a `u64`) reads when taken as an `i64`.
pub open spec fn unix_secs_signed(now: u128) -> int {
    let u: int = (now as int / 1_000_000_000) % 0x1_0000_0000_0000_0000;
    if u > i64::MAX {
        u - 0x1_0000_0000_0000_0000
    } else {
        u
    }
}

/// `a - b`, held to the range of `i64`.
pub open spec fn saturating_diff(a: int, b: int) -> i64 {
    if a - b > i64::MAX {
        i64::MAX
    } else if a - b < i64::MIN {
        i64::MIN
    } else {
        (a - b) as i64
    }
}

/// Expiration times above thirty days are absolute Unix times; they become the
/// number of seconds left from `now` (saturating). Smaller ones are kept.
pub open spec fn normalized_timeout(timeout: i64, now: u128) -> i64 {
    if timeout > 2_592_000 {
        saturating_diff(timeout as int, unix_secs_signed(now))
    } else {
        timeout
    }
}

/// Turns an absolute expiration time into seconds left from `now`, as
/// [`normalized_timeout`] says.
pub fn normalize_timeout_at(timeout: i64, now: u128) -> (r: i64)
    ensures
        r == normalized_timeout(timeout, now),
{
    if timeout > 2_592_000 {
        let u: u64 = ((now / 1_000_000_000) % 0x1_0000_0000_0000_0000) as u64;
        let secs: i128 = if u > 0x7fff_ffff_ffff_ffff {
            u as i128 - 0x1_0000_0000_0000_0000
        } else {
            u as i128
        };
        let d: i128 = timeout as i128 - secs;
        if d > 0x7fff_ffff_ffff_ffff {
            i64::MAX
        } else if d < -0x8000_0000_0000_0000 {
            i64::MIN
        } else {
            d as i64
        }
    } else {
        timeout
    }
}

/// Turns an absolute expiration time into seconds left from the current time.
pub fn normalize_timeout(timeout: i64) -> (r: i64)
    ensures
        exists|now: u128| r == #[trigger] normalized_timeout(timeout, now),
{
    let now = crate::clock::now_nanos();
    normalize_timeout_at(timeout, now)
}

/// `VALUE <key> <flags> <bytes>\r\n<data>\r\n`
pub open spec fn value_line(key: Seq<u8>, flags: i32, value: Seq<u8>) -> Seq<u8> {
    text::value_prefix() + key + text::space() + signed_decimal(flags as int) + text::space()
        + decimal(value.len()) + text::crlf() + value + text::crlf()
}

/// `VALUE <key> <flags> <bytes> <cas unique>\r\n<data>\r\n`
pub open spec fn value_line_with_cas(key: Seq<u8>, flags: i32, value: Seq<u8>, cas: u64) -> Seq<
    u8,
> {
    text::value_prefix() + key + text::space() + signed_decimal(flags as int) + text::space()
        + decimal(value.len()) + text::space() + decimal(cas as nat) + text::crlf() + value
        + text::crlf()
}

/// Appends the reply line of an item without its `cas` token.
pub fn append_value(output: &mut Vec<u8>, key: &[u8], flags: i32, value: &[u8])
    ensures
        final(output)@ == old(output)@ + value_line(key@, flags, value@),
{
    emit(output, &text::value_prefix_bytes());
    emit(output, key);
    emit(output, &text::space_bytes());
    append_signed_decimal(output, flags as i64);
    emit(output, &text::space_bytes());
    append_decimal(output, value.len() as u128);
    emit(output, &text::crlf_bytes());
    emit(output, value);
    emit(output, &text::crlf_bytes());
    assert(final(output)@ =~= old(output)@ + value_line(key@, flags, value@));
}

/// Appends the reply line of an item with its `cas` token.
pub fn append_value_with_cas(
    output: &mut Vec<u8>,
    key: &[u8],
    flags: i32,
    value: &[u8],
    cas_unique: u64,
)
    ensures
        final(output)@ == old(output)@ + value_line_with_cas(key@, flags, value@, cas_unique),
{
    emit(output, &text::value_prefix_bytes());
    emit(output, key);
    emit(output, &text::space_bytes());
    append_signed_decimal(output, flags as i64);
    emit(output, &text::space_bytes());
    append_decimal(output, value.len() as u128);
    emit(output, &text::space_bytes());
    append_decimal(output, cas_unique as u128);
    emit(output, &text::crlf_bytes());
    emit(output, value);
    emit(output, &text::crlf_bytes());
    assert(final(output)@ =~= old(output)@ + value_line_with_cas(key@, flags, value@, cas_unique));
}

/// Appends `line` unless `noreply` is set.
pub fn emit_reply(output: &mut Vec<u8>, noreply: bool, line: &[u8])
    ensures
        final(output)@ == old(output)@ + reply(noreply, line@),
{
    if !noreply {
        emit(output, line);
    } else {
        assert(old(output)@ + reply(noreply, line@) =~= old(output)@);
    }
}

} // verus!
