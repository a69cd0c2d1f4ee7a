//! The grammar of the text protocol.
//!
//! Each command has a spec function that says what it reads at the start of a byte
//! string (the command and how many bytes it takes) and an executable parser proved
//! to agree with it. [`parse_spec`] combines them in the order in which the server
//! tries them; [`parse_command`] is its executable form.

use vstd::prelude::*;
use crate::bytes::{
    all_digits, copy_range, crlf_at, find_crlf, first_crlf, is_strict_prefix, strict_prefix_of, digits_to_u64, digits_value, in_class, is_digit, lemma_span,
    matches_at, scan, span, starts_with, tag_at, ByteClass,
};
use crate::command::{keys_view, Command, CommandView};
use crate::text;

verus! {

// ---------------------------------------------------------------------------
// Small pieces of the grammar
// ---------------------------------------------------------------------------

/// The position after a line ending (`\n` or `\r\n`) at `i`, if there is one.
pub open spec fn line_end(s: Seq<u8>, i: int) -> Option<int> {
    if 0 <= i < s.len() && s[i] == 10 {
        Some(i + 1)
    } else if crlf_at(s, i) {
        Some(i + 2)
    } else {
        None
    }
}

/// The position after a line ending at `i`, if there is one.
pub fn line_end_at(s: &[u8], i: usize) -> (r: Option<usize>)
    requires
        i <= s.len(),
    ensures
        r matches Some(e) ==> line_end(s@, i as int) == Some(e as int) && e <= s.len(),
        r is None ==> line_end(s@, i as int) is None,
{
    if i < s.len() && s[i] == 10 {
        Some(i + 1)
    } else if s.len() - i >= 2 && s[i] == 13 && s[i + 1] == 10 {
        Some(i + 2)
    } else {
        None
    }
}

/// A run of at least one digit at `i` and its value, when that value is at most `max`.
pub open spec fn number_at(s: Seq<u8>, i: int, max: nat) -> Option<(nat, int)> {
    let n = span(s, i, ByteClass::Digit);
    if n == 0 {
        None
    } else {
        let v = digits_value(s.subrange(i, i + n));
        if v <= max {
            Some((v, i + n))
        } else {
            None
        }
    }
}

/// A run of at least one digit at `i` and its value, when that value is at most `max`.
pub fn read_number(s: &[u8], i: usize, max: u64) -> (r: Option<(u64, usize)>)
    requires
        i <= s.len(),
    ensures
        r matches Some((v, e)) ==> number_at(s@, i as int, max as nat) == Some((v as nat, e as int))
            && i < e <= s.len(),
        r is None ==> number_at(s@, i as int, max as nat) is None,
{
    let e = scan(s, i, ByteClass::Digit);
    if e == i {
        return None;
    }
    proof {
        lemma_span(s@, i as int, ByteClass::Digit);
        assert forall|k: int| 0 <= k < e - i implies is_digit(
            #[trigger] s@.subrange(i as int, e as int)[k],
        ) by {
            assert(in_class(ByteClass::Digit, s@[i + k]));
        }
    }
    match digits_to_u64(s, i, e) {
        None => None,
        Some(v) => {
            if v <= max {
                Some((v, e))
            } else {
                None
            }
        },
    }
}

/// A decimal integer with an optional `+` or `-` sign at `i`, when it fits an `i64`.
pub open spec fn signed_at(s: Seq<u8>, i: int) -> Option<(i64, int)> {
    let neg = 0 <= i < s.len() && s[i] == 45;
    let plus = 0 <= i < s.len() && s[i] == 43;
    let j = if neg || plus {
        i + 1
    } else {
        i
    };
    if neg {
        match number_at(s, j, 0x8000_0000_0000_0000) {
            Some((v, e)) => Some(((-v) as i64, e)),
            None => None,
        }
    } else {
        match number_at(s, j, i64::MAX as nat) {
            Some((v, e)) => Some((v as i64, e)),
            None => None,
        }
    }
}

/// A decimal integer with an optional sign at `i`, when it fits an `i64`.
pub fn read_signed(s: &[u8], i: usize) -> (r: Option<(i64, usize)>)
    requires
        i <= s.len(),
    ensures
        r matches Some((v, e)) ==> signed_at(s@, i as int) == Some((v, e as int)) && i < e <= s.len(),
        r is None ==> signed_at(s@, i as int) is None,
{
    let neg = i < s.len() && s[i] == 45;
    let plus = i < s.len() && s[i] == 43;
    let j = if neg || plus {
        i + 1
    } else {
        i
    };
    if neg {
        match read_number(s, j, 0x8000_0000_0000_0000) {
            Some((v, e)) => {
                let r: i64 = if v == 0x8000_0000_0000_0000 {
                    i64::MIN
                } else {
                    0 - (v as i64)
                };
                Some((r, e))
            },
            None => None,
        }
    } else {
        match read_number(s, j, 0x7fff_ffff_ffff_ffff) {
            Some((v, e)) => Some((v as i64, e)),
            None => None,
        }
    }
}

/// The position after an optional run of blanks at `i`.
pub open spec fn skip_blanks(s: Seq<u8>, i: int) -> int {
    i + span(s, i, ByteClass::Blank)
}

/// The position after an optional `noreply` at `i`, and whether it was there.
pub open spec fn noreply_at(s: Seq<u8>, i: int) -> (bool, int) {
    if tag_at(s, i, text::tag_noreply()) {
        (true, i + 7)
    } else {
        (false, i)
    }
}

/// The position after an optional `noreply` at `i`, and whether it was there.
pub fn read_noreply(s: &[u8], i: usize) -> (r: (bool, usize))
    requires
        i <= s.len(),
    ensures
        noreply_at(s@, i as int) == (r.0, r.1 as int),
        i <= r.1 <= s.len(),
{
    if matches_at(s, i, &text::tag_noreply_bytes()) {
        (true, i + 7)
    } else {
        (false, i)
    }
}

// ---------------------------------------------------------------------------
// Storage commands
// ---------------------------------------------------------------------------

/// The fields of a storage command line and its data block.
pub struct StorageLine {
    pub key: Seq<u8>,
    pub flags: i32,
    pub timeout: i64,
    pub noreply: bool,
    pub value: Seq<u8>,
    pub value_size: u32,
    pub cas_unique: u64,
}

/// The expiration field of a storage command: `set` reads digits only, the
/// other storage commands read a signed integer.
pub open spec fn timeout_field(s: Seq<u8>, i: int, signed: bool) -> Option<(i64, int)> {
    if signed {
        signed_at(s, i)
    } else {
        match number_at(s, i, i64::MAX as nat) {
            Some((v, e)) => Some((v as i64, e)),
            None => None,
        }
    }
}

/// The `cas` token field, read only by `cas` (others get 0 and read nothing).
pub open spec fn cas_field(s: Seq<u8>, i: int, with_cas: bool) -> Option<(u64, int)> {
    if !with_cas {
        Some((0, i))
    } else {
        let q = skip_blanks(s, i);
        if q == i {
            None
        } else {
            match number_at(s, q, u64::MAX as nat) {
                Some((v, e)) => Some((v as u64, e)),
                None => None,
            }
        }
    }
}

/// What follows the command word of a storage command at `i`:
/// ` <key> <flags> <exptime> <bytes>[ <cas>][ noreply]\r\n<data>\r\n`.
pub open spec fn storage_at(s: Seq<u8>, i: int, signed: bool, with_cas: bool) -> Option<
    (StorageLine, int),
> {
    let p1 = skip_blanks(s, i);
    let p2 = p1 + span(s, p1, ByteClass::NotSpace);
    let p3 = skip_blanks(s, p2);
    if p1 == i || p2 == p1 || p3 == p2 {
        None
    } else {
        match number_at(s, p3, i32::MAX as nat) {
            None => None,
            Some((flags, p4)) => {
                let p5 = skip_blanks(s, p4);
                if p5 == p4 {
                    None
                } else {
                    match timeout_field(s, p5, signed) {
                        None => None,
                        Some((timeout, p6)) => {
                            let p7 = skip_blanks(s, p6);
                            if p7 == p6 {
                                None
                            } else {
                                match number_at(s, p7, u32::MAX as nat) {
                                    None => None,
                                    Some((size, p8)) => {
                                        match cas_field(s, p8, with_cas) {
                                            None => None,
                                            Some((cas, p9)) => {
                                                let (noreply, p10) = noreply_at(
                                                    s,
                                                    skip_blanks(s, p9),
                                                );
                                                match line_end(s, p10) {
                                                    None => None,
                                                    Some(p11) => {
                                                        if p11 + size > s.len() {
                                                            None
                                                        } else {
                                                            match line_end(s, p11 + size) {
                                                                None => None,
                                                                Some(p12) => Some(
                                                                    (
                                                                        StorageLine {
                                                                            key: s.subrange(p1, p2),
                                                                            flags: flags as i32,
                                                                            timeout,
                                                                            noreply,
                                                                            value: s.subrange(
                                                                                p11,
                                                                                p11 + size,
                                                                            ),
                                                                            value_size: size as u32,
                                                                            cas_unique: cas,
                                                                        },
                                                                        p12,
                                                                    ),
                                                                ),
                                                            }
                                                        }
                                                    },
                                                }
                                            },
                                        }
                                    },
                                }
                            }
                        },
                    }
                }
            },
        }
    }
}

/// The fields of a parsed storage command.
pub struct StorageFields {
    pub key: Vec<u8>,
    pub flags: i32,
    pub timeout: i64,
    pub noreply: bool,
    pub value: Vec<u8>,
    pub value_size: u32,
    pub cas_unique: u64,
}

impl StorageFields {
    pub open spec fn line(&self) -> StorageLine {
        StorageLine {
            key: self.key@,
            flags: self.flags,
            timeout: self.timeout,
            noreply: self.noreply,
            value: self.value@,
            value_size: self.value_size,
            cas_unique: self.cas_unique,
        }
    }
}

/// Reads what follows the command word of a storage command at `i`.
pub fn read_storage(s: &[u8], i: usize, signed: bool, with_cas: bool) -> (r: Option<
    (StorageFields, usize),
>)
    requires
        i <= s.len(),
    ensures
        r matches Some((f, e)) ==> storage_at(s@, i as int, signed, with_cas) == Some(
            (f.line(), e as int),
        ) && i < e <= s.len(),
        r is None ==> storage_at(s@, i as int, signed, with_cas) is None,
{
    let p1 = scan(s, i, ByteClass::Blank);
    let p2 = scan(s, p1, ByteClass::NotSpace);
    let p3 = scan(s, p2, ByteClass::Blank);
    if p1 == i || p2 == p1 || p3 == p2 {
        return None;
    }
    let (flags, p4) = match read_number(s, p3, 0x7fff_ffff) {
        None => return None,
        Some(x) => x,
    };
    let p5 = scan(s, p4, ByteClass::Blank);
    if p5 == p4 {
        return None;
    }
    let (timeout, p6) = if signed {
        match read_signed(s, p5) {
            None => return None,
            Some(x) => x,
        }
    } else {
        match read_number(s, p5, 0x7fff_ffff_ffff_ffff) {
            None => return None,
            Some((v, e)) => (v as i64, e),
        }
    };
    let p7 = scan(s, p6, ByteClass::Blank);
    if p7 == p6 {
        return None;
    }
    let (size, p8) = match read_number(s, p7, 0xffff_ffff) {
        None => return None,
        Some(x) => x,
    };
    let (cas, p9) = if !with_cas {
        (0u64, p8)
    } else {
        let q = scan(s, p8, ByteClass::Blank);
        if q == p8 {
            return None;
        }
        match read_number(s, q, 0xffff_ffff_ffff_ffff) {
            None => return None,
            Some(x) => x,
        }
    };
    let q9 = scan(s, p9, ByteClass::Blank);
    let (noreply, p10) = read_noreply(s, q9);
    let p11 = match line_end_at(s, p10) {
        None => return None,
        Some(x) => x,
    };
    let n = size as usize;
    if n > s.len() - p11 {
        return None;
    }
    let p12 = match line_end_at(s, p11 + n) {
        None => return None,
        Some(x) => x,
    };
    let key = copy_range(s, p1, p2);
    let value = copy_range(s, p11, p11 + n);
    Some(
        (
            StorageFields {
                key,
                flags: flags as i32,
                timeout,
                noreply,
                value,
                value_size: size as u32,
                cas_unique: cas,
            },
            p12,
        ),
    )
}

/// A storage command whose word is `word`, read with the given field rules.
pub open spec fn storage_command(s: Seq<u8>, word: Seq<u8>, signed: bool, with_cas: bool) -> Option<
    (StorageLine, int),
> {
    if tag_at(s, 0, word) {
        storage_at(s, word.len() as int, signed, with_cas)
    } else {
        None
    }
}

/// `set <key> <flags> <exptime> <bytes> [noreply]\r\n<data>\r\n`
pub open spec fn parse_set_spec(s: Seq<u8>) -> Option<(CommandView, int)> {
    match storage_command(s, text::tag_set(), false, false) {
        Some((f, e)) => Some(
            (
                CommandView::SetItem {
                    key: f.key,
                    flags: f.flags,
                    timeout: f.timeout,
                    noreply: f.noreply,
                    value: f.value,
                    value_size: f.value_size,
                },
                e,
            ),
        ),
        None => None,
    }
}

/// `add <key> <flags> <exptime> <bytes> [noreply]\r\n<data>\r\n`
pub open spec fn parse_add_spec(s: Seq<u8>) -> Option<(CommandView, int)> {
    match storage_command(s, text::tag_add(), true, false) {
        Some((f, e)) => Some(
            (
                CommandView::Add {
                    key: f.key,
                    flags: f.flags,
                    timeout: f.timeout,
                    noreply: f.noreply,
                    value: f.value,
                    value_size: f.value_size,
                },
                e,
            ),
        ),
        None => None,
    }
}

/// `replace <key> <flags> <exptime> <bytes> [noreply]\r\n<data>\r\n`
pub open spec fn parse_replace_spec(s: Seq<u8>) -> Option<(CommandView, int)> {
    match storage_command(s, text::tag_replace(), true, false) {
        Some((f, e)) => Some(
            (
                CommandView::Replace {
                    key: f.key,
                    flags: f.flags,
                    timeout: f.timeout,
                    noreply: f.noreply,
                    value: f.value,
                    value_size: f.value_size,
                },
                e,
            ),
        ),
        None => None,
    }
}

/// `append <key> <flags> <exptime> <bytes> [noreply]\r\n<data>\r\n`
pub open spec fn parse_append_spec(s: Seq<u8>) -> Option<(CommandView, int)> {
    match storage_command(s, text::tag_append(), true, false) {
        Some((f, e)) => Some(
            (
                CommandView::Append {
                    key: f.key,
                    flags: f.flags,
                    timeout: f.timeout,
                    noreply: f.noreply,
                    value: f.value,
                    value_size: f.value_size,
                },
                e,
            ),
        ),
        None => None,
    }
}

/// `prepend <key> <flags> <exptime> <bytes> [noreply]\r\n<data>\r\n`
pub open spec fn parse_prepend_spec(s: Seq<u8>) -> Option<(CommandView, int)> {
    match storage_command(s, text::tag_prepend(), true, false) {
        Some((f, e)) => Some(
            (
                CommandView::Prepend {
                    key: f.key,
                    flags: f.flags,
                    timeout: f.timeout,
                    noreply: f.noreply,
                    value: f.value,
                    value_size: f.value_size,
                },
                e,
            ),
        ),
        None => None,
    }
}

/// `cas <key> <flags> <exptime> <bytes> <cas unique> [noreply]\r\n<data>\r\n`
pub open spec fn parse_cas_spec(s: Seq<u8>) -> Option<(CommandView, int)> {
    match storage_command(s, text::tag_cas(), true, true) {
        Some((f, e)) => Some(
            (
                CommandView::Cas {
                    key: f.key,
                    flags: f.flags,
                    timeout: f.timeout,
                    noreply: f.noreply,
                    value: f.value,
                    value_size: f.value_size,
                    cas_unique: f.cas_unique,
                },
                e,
            ),
        ),
        None => None,
    }
}

/// Reads a storage command whose word is `word`.
fn read_storage_command(s: &[u8], word: &[u8], signed: bool, with_cas: bool) -> (r: Option<
    (StorageFields, usize),
>)
    requires
        word@.len() > 0,
    ensures
        r matches Some((f, e)) ==> storage_command(s@, word@, signed, with_cas) == Some(
            (f.line(), e as int),
        ) && 0 < e <= s.len(),
        r is None ==> storage_command(s@, word@, signed, with_cas) is None,
{
    if !starts_with(s, word) {
        return None;
    }
    read_storage(s, word.len(), signed, with_cas)
}

/// Parses a `set` command at the start of `s`.
pub fn parse_set(s: &[u8]) -> (r: Option<(Command, usize)>)
    ensures
        r matches Some((c, e)) ==> parse_set_spec(s@) == Some((c@, e as int)) && 0 < e <= s.len(),
        r is None ==> parse_set_spec(s@) is None,
{
    match read_storage_command(s, &text::tag_set_bytes(), false, false) {
        Some((f, e)) => Some(
            (
                Command::SetItem {
                    key: f.key,
                    flags: f.flags,
                    timeout: f.timeout,
                    noreply: f.noreply,
                    value: f.value,
                    value_size: f.value_size,
                },
                e,
            ),
        ),
        None => None,
    }
}

/// Parses an `add` command at the start of `s`.
pub fn parse_add(s: &[u8]) -> (r: Option<(Command, usize)>)
    ensures
        r matches Some((c, e)) ==> parse_add_spec(s@) == Some((c@, e as int)) && 0 < e <= s.len(),
        r is None ==> parse_add_spec(s@) is None,
{
    match read_storage_command(s, &text::tag_add_bytes(), true, false) {
        Some((f, e)) => Some(
            (
                Command::Add {
                    key: f.key,
                    flags: f.flags,
                    timeout: f.timeout,
                    noreply: f.noreply,
                    value: f.value,
                    value_size: f.value_size,
                },
                e,
            ),
        ),
        None => None,
    }
}

/// Parses a `replace` command at the start of `s`.
pub fn parse_replace(s: &[u8]) -> (r: Option<(Command, usize)>)
    ensures
        r matches Some((c, e)) ==> parse_replace_spec(s@) == Some((c@, e as int)) && 0 < e
            <= s.len(),
        r is None ==> parse_replace_spec(s@) is None,
{
    match read_storage_command(s, &text::tag_replace_bytes(), true, false) {
        Some((f, e)) => Some(
            (
                Command::Replace {
                    key: f.key,
                    flags: f.flags,
                    timeout: f.timeout,
                    noreply: f.noreply,
                    value: f.value,
                    value_size: f.value_size,
                },
                e,
            ),
        ),
        None => None,
    }
}

/// Parses an `append` command at the start of `s`.
pub fn parse_append(s: &[u8]) -> (r: Option<(Command, usize)>)
    ensures
        r matches Some((c, e)) ==> parse_append_spec(s@) == Some((c@, e as int)) && 0 < e
            <= s.len(),
        r is None ==> parse_append_spec(s@) is None,
{
    match read_storage_command(s, &text::tag_append_bytes(), true, false) {
        Some((f, e)) => Some(
            (
                Command::Append {
                    key: f.key,
                    flags: f.flags,
                    timeout: f.timeout,
                    noreply: f.noreply,
                    value: f.value,
                    value_size: f.value_size,
                },
                e,
            ),
        ),
        None => None,
    }
}

/// Parses a `prepend` command at the start of `s`.
pub fn parse_prepend(s: &[u8]) -> (r: Option<(Command, usize)>)
    ensures
        r matches Some((c, e)) ==> parse_prepend_spec(s@) == Some((c@, e as int)) && 0 < e
            <= s.len(),
        r is None ==> parse_prepend_spec(s@) is None,
{
    match read_storage_command(s, &text::tag_prepend_bytes(), true, false) {
        Some((f, e)) => Some(
            (
                Command::Prepend {
                    key: f.key,
                    flags: f.flags,
                    timeout: f.timeout,
                    noreply: f.noreply,
                    value: f.value,
                    value_size: f.value_size,
                },
                e,
            ),
        ),
        None => None,
    }
}

/// Parses a `cas` command at the start of `s`.
pub fn parse_cas(s: &[u8]) -> (r: Option<(Command, usize)>)
    ensures
        r matches Some((c, e)) ==> parse_cas_spec(s@) == Some((c@, e as int)) && 0 < e <= s.len(),
        r is None ==> parse_cas_spec(s@) is None,
{
    match read_storage_command(s, &text::tag_cas_bytes(), true, true) {
        Some((f, e)) => Some(
            (
                Command::Cas {
                    key: f.key,
                    flags: f.flags,
                    timeout: f.timeout,
                    noreply: f.noreply,
                    value: f.value,
                    value_size: f.value_size,
                    cas_unique: f.cas_unique,
                },
                e,
            ),
        ),
        None => None,
    }
}

// ---------------------------------------------------------------------------
// Commands on one key
// ---------------------------------------------------------------------------

/// `delete <key> [noreply]\r\n`
pub open spec fn parse_delete_spec(s: Seq<u8>) -> Option<(CommandView, int)> {
    let p1 = skip_blanks(s, 6);
    let p2 = p1 + span(s, p1, ByteClass::Word);
    let (noreply, p3) = noreply_at(s, skip_blanks(s, p2));
    if !tag_at(s, 0, text::tag_delete()) || p1 == 6 || p2 == p1 {
        None
    } else {
        match line_end(s, p3) {
            Some(e) => Some((CommandView::Delete { key: s.subrange(p1, p2), noreply }, e)),
            None => None,
        }
    }
}

/// Parses a `delete` command at the start of `s`.
pub fn parse_delete(s: &[u8]) -> (r: Option<(Command, usize)>)
    ensures
        r matches Some((c, e)) ==> parse_delete_spec(s@) == Some((c@, e as int)) && 0 < e
            <= s.len(),
        r is None ==> parse_delete_spec(s@) is None,
{
    if !starts_with(s, &text::tag_delete_bytes()) {
        return None;
    }
    let p1 = scan(s, 6, ByteClass::Blank);
    let p2 = scan(s, p1, ByteClass::Word);
    if p1 == 6 || p2 == p1 {
        return None;
    }
    let q = scan(s, p2, ByteClass::Blank);
    let (noreply, p3) = read_noreply(s, q);
    match line_end_at(s, p3) {
        Some(e) => Some((Command::Delete { key: copy_range(s, p1, p2), noreply }, e)),
        None => None,
    }
}

/// The fields of `incr` and `decr`: ` <key> <delta>[ noreply]\r\n` after the word.
pub open spec fn arith_at(s: Seq<u8>, i: int) -> Option<(Seq<u8>, u64, bool, int)> {
    let p1 = skip_blanks(s, i);
    let p2 = p1 + span(s, p1, ByteClass::Word);
    let p3 = skip_blanks(s, p2);
    if p1 == i || p2 == p1 || p3 == p2 {
        None
    } else {
        match number_at(s, p3, u64::MAX as nat) {
            None => None,
            Some((delta, p4)) => {
                let (noreply, p5) = noreply_at(s, skip_blanks(s, p4));
                match line_end(s, p5) {
                    Some(e) => Some((s.subrange(p1, p2), delta as u64, noreply, e)),
                    None => None,
                }
            },
        }
    }
}

/// Reads the fields of `incr` and `decr` after the word.
fn read_arith(s: &[u8], i: usize) -> (r: Option<(Vec<u8>, u64, bool, usize)>)
    requires
        i <= s.len(),
    ensures
        r matches Some((k, d, n, e)) ==> arith_at(s@, i as int) == Some((k@, d, n, e as int)) && i
            < e <= s.len(),
        r is None ==> arith_at(s@, i as int) is None,
{
    let p1 = scan(s, i, ByteClass::Blank);
    let p2 = scan(s, p1, ByteClass::Word);
    let p3 = scan(s, p2, ByteClass::Blank);
    if p1 == i || p2 == p1 || p3 == p2 {
        return None;
    }
    let (delta, p4) = match read_number(s, p3, 0xffff_ffff_ffff_ffff) {
        None => return None,
        Some(x) => x,
    };
    let q = scan(s, p4, ByteClass::Blank);
    let (noreply, p5) = read_noreply(s, q);
    match line_end_at(s, p5) {
        Some(e) => Some((copy_range(s, p1, p2), delta, noreply, e)),
        None => None,
    }
}

/// `incr <key> <delta> [noreply]\r\n`
pub open spec fn parse_incr_spec(s: Seq<u8>) -> Option<(CommandView, int)> {
    if !tag_at(s, 0, text::tag_incr()) {
        None
    } else {
        match arith_at(s, 4) {
            Some((key, delta, noreply, e)) => Some((CommandView::Incr { key, delta, noreply }, e)),
            None => None,
        }
    }
}

/// `decr <key> <delta> [noreply]\r\n`
pub open spec fn parse_decr_spec(s: Seq<u8>) -> Option<(CommandView, int)> {
    if !tag_at(s, 0, text::tag_decr()) {
        None
    } else {
        match arith_at(s, 4) {
            Some((key, delta, noreply, e)) => Some((CommandView::Decr { key, delta, noreply }, e)),
            None => None,
        }
    }
}

/// Parses an `incr` command at the start of `s`.
pub fn parse_incr(s: &[u8]) -> (r: Option<(Command, usize)>)
    ensures
        r matches Some((c, e)) ==> parse_incr_spec(s@) == Some((c@, e as int)) && 0 < e <= s.len(),
        r is None ==> parse_incr_spec(s@) is None,
{
    if !starts_with(s, &text::tag_incr_bytes()) {
        return None;
    }
    match read_arith(s, 4) {
        Some((key, delta, noreply, e)) => Some((Command::Incr { key, delta, noreply }, e)),
        None => None,
    }
}

/// Parses a `decr` command at the start of `s`.
pub fn parse_decr(s: &[u8]) -> (r: Option<(Command, usize)>)
    ensures
        r matches Some((c, e)) ==> parse_decr_spec(s@) == Some((c@, e as int)) && 0 < e <= s.len(),
        r is None ==> parse_decr_spec(s@) is None,
{
    if !starts_with(s, &text::tag_decr_bytes()) {
        return None;
    }
    match read_arith(s, 4) {
        Some((key, delta, noreply, e)) => Some((Command::Decr { key, delta, noreply }, e)),
        None => None,
    }
}

/// `touch <key> <exptime> [noreply]\r\n`
pub open spec fn parse_touch_spec(s: Seq<u8>) -> Option<(CommandView, int)> {
    let p1 = skip_blanks(s, 5);
    let p2 = p1 + span(s, p1, ByteClass::Word);
    let p3 = skip_blanks(s, p2);
    if !tag_at(s, 0, text::tag_touch()) || p1 == 5 || p2 == p1 || p3 == p2 {
        None
    } else {
        match signed_at(s, p3) {
            None => None,
            Some((timeout, p4)) => {
                let (noreply, p5) = noreply_at(s, skip_blanks(s, p4));
                match line_end(s, p5) {
                    Some(e) => Some(
                        (CommandView::Touch { key: s.subrange(p1, p2), timeout, noreply }, e),
                    ),
                    None => None,
                }
            },
        }
    }
}

/// Parses a `touch` command at the start of `s`.
pub fn parse_touch(s: &[u8]) -> (r: Option<(Command, usize)>)
    ensures
        r matches Some((c, e)) ==> parse_touch_spec(s@) == Some((c@, e as int)) && 0 < e
            <= s.len(),
        r is None ==> parse_touch_spec(s@) is None,
{
    if !starts_with(s, &text::tag_touch_bytes()) {
        return None;
    }
    let p1 = scan(s, 5, ByteClass::Blank);
    let p2 = scan(s, p1, ByteClass::Word);
    let p3 = scan(s, p2, ByteClass::Blank);
    if p1 == 5 || p2 == p1 || p3 == p2 {
        return None;
    }
    let (timeout, p4) = match read_signed(s, p3) {
        None => return None,
        Some(x) => x,
    };
    let q = scan(s, p4, ByteClass::Blank);
    let (noreply, p5) = read_noreply(s, q);
    match line_end_at(s, p5) {
        Some(e) => Some((Command::Touch { key: copy_range(s, p1, p2), timeout, noreply }, e)),
        None => None,
    }
}

/// `flush_all [delay] [noreply]\r\n`
pub open spec fn parse_flush_all_spec(s: Seq<u8>) -> Option<(CommandView, int)> {
    let p1 = skip_blanks(s, 9);
    let (delay, p2) = match number_at(s, p1, u64::MAX as nat) {
        Some((v, e)) => (v as u64, e),
        None => (0u64, p1),
    };
    let (noreply, p3) = noreply_at(s, skip_blanks(s, p2));
    if !tag_at(s, 0, text::tag_flush_all()) {
        None
    } else {
        match line_end(s, p3) {
            Some(e) => Some((CommandView::FlushAll { delay, noreply }, e)),
            None => None,
        }
    }
}

/// Parses a `flush_all` command at the start of `s`.
pub fn parse_flush_all(s: &[u8]) -> (r: Option<(Command, usize)>)
    ensures
        r matches Some((c, e)) ==> parse_flush_all_spec(s@) == Some((c@, e as int)) && 0 < e
            <= s.len(),
        r is None ==> parse_flush_all_spec(s@) is None,
{
    if !starts_with(s, &text::tag_flush_all_bytes()) {
        return None;
    }
    let p1 = scan(s, 9, ByteClass::Blank);
    let (delay, p2) = match read_number(s, p1, 0xffff_ffff_ffff_ffff) {
        Some(x) => x,
        None => (0u64, p1),
    };
    let q = scan(s, p2, ByteClass::Blank);
    let (noreply, p3) = read_noreply(s, q);
    match line_end_at(s, p3) {
        Some(e) => Some((Command::FlushAll { delay, noreply }, e)),
        None => None,
    }
}

/// `stats [argument]\r\n`
pub open spec fn parse_stats_spec(s: Seq<u8>) -> Option<(CommandView, int)> {
    let p1 = skip_blanks(s, 5);
    let p2 = p1 + span(s, p1, ByteClass::Word);
    let sub = if p2 > p1 {
        Some(s.subrange(p1, p2))
    } else {
        None
    };
    if !tag_at(s, 0, text::tag_stats()) {
        None
    } else {
        match line_end(s, p2) {
            Some(e) => Some((CommandView::Stats { sub }, e)),
            None => None,
        }
    }
}

/// Parses a `stats` command at the start of `s`.
pub fn parse_stats(s: &[u8]) -> (r: Option<(Command, usize)>)
    ensures
        r matches Some((c, e)) ==> parse_stats_spec(s@) == Some((c@, e as int)) && 0 < e
            <= s.len(),
        r is None ==> parse_stats_spec(s@) is None,
{
    if !starts_with(s, &text::tag_stats_bytes()) {
        return None;
    }
    let p1 = scan(s, 5, ByteClass::Blank);
    let p2 = scan(s, p1, ByteClass::Word);
    let sub = if p2 > p1 {
        Some(copy_range(s, p1, p2))
    } else {
        None
    };
    match line_end_at(s, p2) {
        Some(e) => Some((Command::Stats { sub }, e)),
        None => None,
    }
}

// ---------------------------------------------------------------------------
// Retrieval commands
// ---------------------------------------------------------------------------

/// The keys that follow a first key, each after a run of blanks; the list stops
/// before blanks that no key follows.
pub open spec fn more_keys(s: Seq<u8>, q: int) -> (Seq<Seq<u8>>, int)
    decreases s.len() - q,
{
    if !(0 <= q <= s.len()) {
        (Seq::empty(), q)
    } else {
        let a = span(s, q, ByteClass::Blank);
        let n = span(s, q + a, ByteClass::Token);
        if a == 0 || n == 0 {
            (Seq::empty(), q)
        } else {
            proof {
                lemma_span(s, q, ByteClass::Blank);
                lemma_span(s, q + a, ByteClass::Token);
            }
            let (rest, e) = more_keys(s, q + a + n);
            (seq![s.subrange(q + a, q + a + n)] + rest, e)
        }
    }
}

/// A non-empty list of keys separated by blanks, starting at `p`.
pub open spec fn key_list(s: Seq<u8>, p: int) -> Option<(Seq<Seq<u8>>, int)> {
    let n = span(s, p, ByteClass::Token);
    if n == 0 {
        None
    } else {
        let (rest, e) = more_keys(s, p + n);
        Some((seq![s.subrange(p, p + n)] + rest, e))
    }
}

/// Where the key list that [`more_keys`] reads ends.
proof fn lemma_more_keys_end(s: Seq<u8>, q: int)
    requires
        0 <= q <= s.len(),
    ensures
        q <= more_keys(s, q).1 <= s.len(),
    decreases s.len() - q,
{
    let a = span(s, q, ByteClass::Blank);
    lemma_span(s, q, ByteClass::Blank);
    lemma_span(s, q + a, ByteClass::Token);
    let n = span(s, q + a, ByteClass::Token);
    if a != 0 && n != 0 {
        lemma_more_keys_end(s, q + a + n);
    }
}

/// Reads a non-empty list of keys separated by blanks, starting at `p`.
pub fn read_keys(s: &[u8], p: usize) -> (r: Option<(Vec<Vec<u8>>, usize)>)
    requires
        p <= s.len(),
    ensures
        r matches Some((keys, e)) ==> key_list(s@, p as int) == Some(
            (keys_view(keys@), e as int),
        ) && p < e <= s.len(),
        r is None ==> key_list(s@, p as int) is None,
{
    let first_end = scan(s, p, ByteClass::Token);
    if first_end == p {
        return None;
    }
    let mut keys: Vec<Vec<u8>> = Vec::new();
    keys.push(copy_range(s, p, first_end));
    let mut q = first_end;
    proof {
        lemma_more_keys_end(s@, q as int);
    }
    loop
        invariant
            p < first_end <= q <= s.len(),
            first_end == p + span(s@, p as int, ByteClass::Token),
            keys_view(keys@) + more_keys(s@, q as int).0 == seq![
                s@.subrange(p as int, first_end as int),
            ] + more_keys(s@, first_end as int).0,
            more_keys(s@, q as int).1 == more_keys(s@, first_end as int).1,
        ensures
            p < first_end <= q <= s.len(),
            keys_view(keys@) + more_keys(s@, q as int).0 == seq![
                s@.subrange(p as int, first_end as int),
            ] + more_keys(s@, first_end as int).0,
            more_keys(s@, q as int).1 == more_keys(s@, first_end as int).1,
            more_keys(s@, q as int).0 == Seq::<Seq<u8>>::empty(),
            more_keys(s@, q as int).1 == q,
        decreases s.len() - q,
    {
        let k_start = scan(s, q, ByteClass::Blank);
        let k_end = scan(s, k_start, ByteClass::Token);
        if k_start == q || k_end == k_start {
            assert(more_keys(s@, q as int).0 =~= Seq::<Seq<u8>>::empty());
            break;
        }
        let ghost old_keys = keys_view(keys@);
        keys.push(copy_range(s, k_start, k_end));
        proof {
            let key = s@.subrange(k_start as int, k_end as int);
            assert(keys_view(keys@) =~= old_keys.push(key));
            assert(more_keys(s@, q as int).0 == seq![key] + more_keys(s@, k_end as int).0);
            assert(old_keys.push(key) + more_keys(s@, k_end as int).0 =~= old_keys + (seq![key]
                + more_keys(s@, k_end as int).0));
        }
        q = k_end;
    }
    proof {
        assert(keys_view(keys@) + more_keys(s@, q as int).0 =~= keys_view(keys@));
        lemma_more_keys_end(s@, first_end as int);
    }
    Some((keys, q))
}

/// `get <key>*\r\n` and `gets <key>*\r\n`: the word, blanks, keys and a line end.
pub open spec fn keys_command(s: Seq<u8>, word: Seq<u8>) -> Option<(Seq<Seq<u8>>, int)> {
    let p1 = skip_blanks(s, word.len() as int);
    if !tag_at(s, 0, word) || p1 == word.len() {
        None
    } else {
        match key_list(s, p1) {
            None => None,
            Some((keys, p2)) => match line_end(s, p2) {
                Some(e) => Some((keys, e)),
                None => None,
            },
        }
    }
}

/// `gat <exptime> <key>*\r\n` and `gats ...`: the word, a signed expiration and keys.
pub open spec fn touch_keys_command(s: Seq<u8>, word: Seq<u8>) -> Option<
    (i64, Seq<Seq<u8>>, int),
> {
    let p1 = skip_blanks(s, word.len() as int);
    if !tag_at(s, 0, word) || p1 == word.len() {
        None
    } else {
        match signed_at(s, p1) {
            None => None,
            Some((timeout, p2)) => {
                let p3 = skip_blanks(s, p2);
                if p3 == p2 {
                    None
                } else {
                    match key_list(s, p3) {
                        None => None,
                        Some((keys, p4)) => match line_end(s, p4) {
                            Some(e) => Some((timeout, keys, e)),
                            None => None,
                        },
                    }
                }
            },
        }
    }
}

fn read_keys_command(s: &[u8], word: &[u8]) -> (r: Option<(Vec<Vec<u8>>, usize)>)
    requires
        word@.len() > 0,
    ensures
        r matches Some((keys, e)) ==> keys_command(s@, word@) == Some((keys_view(keys@), e as int))
            && 0 < e <= s.len(),
        r is None ==> keys_command(s@, word@) is None,
{
    if !starts_with(s, word) {
        return None;
    }
    let p1 = scan(s, word.len(), ByteClass::Blank);
    if p1 == word.len() {
        return None;
    }
    let (keys, p2) = match read_keys(s, p1) {
        None => return None,
        Some(x) => x,
    };
    match line_end_at(s, p2) {
        Some(e) => Some((keys, e)),
        None => None,
    }
}

fn read_touch_keys_command(s: &[u8], word: &[u8]) -> (r: Option<(i64, Vec<Vec<u8>>, usize)>)
    requires
        word@.len() > 0,
    ensures
        r matches Some((t, keys, e)) ==> touch_keys_command(s@, word@) == Some(
            (t, keys_view(keys@), e as int),
        ) && 0 < e <= s.len(),
        r is None ==> touch_keys_command(s@, word@) is None,
{
    if !starts_with(s, word) {
        return None;
    }
    let p1 = scan(s, word.len(), ByteClass::Blank);
    if p1 == word.len() {
        return None;
    }
    let (timeout, p2) = match read_signed(s, p1) {
        None => return None,
        Some(x) => x,
    };
    let p3 = scan(s, p2, ByteClass::Blank);
    if p3 == p2 {
        return None;
    }
    let (keys, p4) = match read_keys(s, p3) {
        None => return None,
        Some(x) => x,
    };
    match line_end_at(s, p4) {
        Some(e) => Some((timeout, keys, e)),
        None => None,
    }
}

/// `get <key>*\r\n`
pub open spec fn parse_get_spec(s: Seq<u8>) -> Option<(CommandView, int)> {
    match keys_command(s, text::tag_get()) {
        Some((keys, e)) => Some((CommandView::Get { keys }, e)),
        None => None,
    }
}

/// `gets <key>*\r\n`
pub open spec fn parse_gets_spec(s: Seq<u8>) -> Option<(CommandView, int)> {
    match keys_command(s, text::tag_gets()) {
        Some((keys, e)) => Some((CommandView::Gets { keys }, e)),
        None => None,
    }
}

/// `gat <exptime> <key>*\r\n`
pub open spec fn parse_gat_spec(s: Seq<u8>) -> Option<(CommandView, int)> {
    match touch_keys_command(s, text::tag_gat()) {
        Some((timeout, keys, e)) => Some((CommandView::Gat { timeout, keys }, e)),
        None => None,
    }
}

/// `gats <exptime> <key>*\r\n`
pub open spec fn parse_gats_spec(s: Seq<u8>) -> Option<(CommandView, int)> {
    match touch_keys_command(s, text::tag_gats()) {
        Some((timeout, keys, e)) => Some((CommandView::Gats { timeout, keys }, e)),
        None => None,
    }
}

/// Parses a `get` command at the start of `s`.
pub fn parse_get(s: &[u8]) -> (r: Option<(Command, usize)>)
    ensures
        r matches Some((c, e)) ==> parse_get_spec(s@) == Some((c@, e as int)) && 0 < e <= s.len(),
        r is None ==> parse_get_spec(s@) is None,
{
    match read_keys_command(s, &text::tag_get_bytes()) {
        Some((keys, e)) => Some((Command::Get { keys }, e)),
        None => None,
    }
}

/// Parses a `gets` command at the start of `s`.
pub fn parse_gets(s: &[u8]) -> (r: Option<(Command, usize)>)
    ensures
        r matches Some((c, e)) ==> parse_gets_spec(s@) == Some((c@, e as int)) && 0 < e <= s.len(),
        r is None ==> parse_gets_spec(s@) is None,
{
    match read_keys_command(s, &text::tag_gets_bytes()) {
        Some((keys, e)) => Some((Command::Gets { keys }, e)),
        None => None,
    }
}

/// Parses a `gat` command at the start of `s`.
pub fn parse_gat(s: &[u8]) -> (r: Option<(Command, usize)>)
    ensures
        r matches Some((c, e)) ==> parse_gat_spec(s@) == Some((c@, e as int)) && 0 < e <= s.len(),
        r is None ==> parse_gat_spec(s@) is None,
{
    match read_touch_keys_command(s, &text::tag_gat_bytes()) {
        Some((timeout, keys, e)) => Some((Command::Gat { timeout, keys }, e)),
        None => None,
    }
}

/// Parses a `gats` command at the start of `s`.
pub fn parse_gats(s: &[u8]) -> (r: Option<(Command, usize)>)
    ensures
        r matches Some((c, e)) ==> parse_gats_spec(s@) == Some((c@, e as int)) && 0 < e <= s.len(),
        r is None ==> parse_gats_spec(s@) is None,
{
    match read_touch_keys_command(s, &text::tag_gats_bytes()) {
        Some((timeout, keys, e)) => Some((Command::Gats { timeout, keys }, e)),
        None => None,
    }
}

// ---------------------------------------------------------------------------
// Lines that are no well-formed command
// ---------------------------------------------------------------------------

/// Whether `s` starts with a command word (with its trailing space where the
/// command takes arguments).
#[verifier::opaque]
pub open spec fn keyword_prefixed(s: Seq<u8>) -> bool {
    tag_at(s, 0, text::kw_set()) ||
    tag_at(s, 0, text::kw_add()) ||
    tag_at(s, 0, text::kw_replace()) ||
    tag_at(s, 0, text::kw_append()) ||
    tag_at(s, 0, text::kw_prepend()) ||
    tag_at(s, 0, text::kw_cas()) ||
    tag_at(s, 0, text::kw_get()) ||
    tag_at(s, 0, text::kw_gets()) ||
    tag_at(s, 0, text::kw_gat()) ||
    tag_at(s, 0, text::kw_gats()) ||
    tag_at(s, 0, text::kw_delete()) ||
    tag_at(s, 0, text::kw_incr()) ||
    tag_at(s, 0, text::kw_decr()) ||
    tag_at(s, 0, text::kw_touch()) ||
    tag_at(s, 0, text::tag_flush_all()) ||
    tag_at(s, 0, text::tag_stats()) ||
    tag_at(s, 0, text::tag_version()) ||
    tag_at(s, 0, text::tag_quit())
}

/// Whether `buf` starts with a command word (with its trailing space where the
/// command takes arguments).
pub fn starts_with_command_keyword(buf: &[u8]) -> (r: bool)
    ensures
        r == keyword_prefixed(buf@),
{
    reveal(keyword_prefixed);
    starts_with(buf, &text::kw_set_bytes()) ||
    starts_with(buf, &text::kw_add_bytes()) ||
    starts_with(buf, &text::kw_replace_bytes()) ||
    starts_with(buf, &text::kw_append_bytes()) ||
    starts_with(buf, &text::kw_prepend_bytes()) ||
    starts_with(buf, &text::kw_cas_bytes()) ||
    starts_with(buf, &text::kw_get_bytes()) ||
    starts_with(buf, &text::kw_gets_bytes()) ||
    starts_with(buf, &text::kw_gat_bytes()) ||
    starts_with(buf, &text::kw_gats_bytes()) ||
    starts_with(buf, &text::kw_delete_bytes()) ||
    starts_with(buf, &text::kw_incr_bytes()) ||
    starts_with(buf, &text::kw_decr_bytes()) ||
    starts_with(buf, &text::kw_touch_bytes()) ||
    starts_with(buf, &text::tag_flush_all_bytes()) ||
    starts_with(buf, &text::tag_stats_bytes()) ||
    starts_with(buf, &text::tag_version_bytes()) ||
    starts_with(buf, &text::tag_quit_bytes())
}

/// How a byte string begins relative to a command word.
pub enum TagHit {
    /// It begins with the word, which is this long.
    Matched(int),
    /// It is a proper prefix of the word.
    Waiting,
    /// Neither.
    Missed,
}

/// Tries `t` at the start of `s`; when neither matching nor waiting, the answer is `otherwise`.
pub open spec fn tag_step(s: Seq<u8>, t: Seq<u8>, otherwise: TagHit) -> TagHit {
    if tag_at(s, 0, t) {
        TagHit::Matched(t.len() as int)
    } else if strict_prefix_of(s, t) {
        TagHit::Waiting
    } else {
        otherwise
    }
}

/// The first of the words that a malformed-command line may begin with that `s`
/// begins with or is waiting for.
pub open spec fn malformed_hit(s: Seq<u8>) -> TagHit {
    tag_step(s, text::tag_incr(), tag_step(s, text::tag_decr(), tag_step(s, text::tag_flush_all(), tag_step(s, text::tag_gats(), tag_step(s, text::tag_gat(), tag_step(s, text::tag_gets(), tag_step(s, text::tag_get(), tag_step(s, text::tag_touch(), tag_step(s, text::tag_delete(), tag_step(s, text::tag_stats(), tag_step(s, text::tag_quit(), tag_step(s, text::tag_version(), TagHit::Missed))))))))))))
}

/// How a byte string begins relative to a command word.
pub enum WordHit {
    Matched(usize),
    Waiting,
    Missed,
}

impl View for WordHit {
    type V = TagHit;

    open spec fn view(&self) -> TagHit {
        match self {
            WordHit::Matched(n) => TagHit::Matched(*n as int),
            WordHit::Waiting => TagHit::Waiting,
            WordHit::Missed => TagHit::Missed,
        }
    }
}

fn word_hit(s: &[u8], t: &[u8]) -> (r: WordHit)
    ensures
        r@ == tag_step(s@, t@, TagHit::Missed),
        r matches WordHit::Matched(n) ==> n == t@.len() && n <= s.len(),
{
    if starts_with(s, t) {
        WordHit::Matched(t.len())
    } else if is_strict_prefix(s, t) {
        WordHit::Waiting
    } else {
        WordHit::Missed
    }
}

fn malformed_word(s: &[u8]) -> (r: WordHit)
    ensures
        r@ == malformed_hit(s@),
        r matches WordHit::Matched(n) ==> 0 < n <= s.len(),
{
    let h = word_hit(s, &text::tag_incr_bytes());
    if !matches!(h, WordHit::Missed) {
        return h;
    }
    let h = word_hit(s, &text::tag_decr_bytes());
    if !matches!(h, WordHit::Missed) {
        return h;
    }
    let h = word_hit(s, &text::tag_flush_all_bytes());
    if !matches!(h, WordHit::Missed) {
        return h;
    }
    let h = word_hit(s, &text::tag_gats_bytes());
    if !matches!(h, WordHit::Missed) {
        return h;
    }
    let h = word_hit(s, &text::tag_gat_bytes());
    if !matches!(h, WordHit::Missed) {
        return h;
    }
    let h = word_hit(s, &text::tag_gets_bytes());
    if !matches!(h, WordHit::Missed) {
        return h;
    }
    let h = word_hit(s, &text::tag_get_bytes());
    if !matches!(h, WordHit::Missed) {
        return h;
    }
    let h = word_hit(s, &text::tag_touch_bytes());
    if !matches!(h, WordHit::Missed) {
        return h;
    }
    let h = word_hit(s, &text::tag_delete_bytes());
    if !matches!(h, WordHit::Missed) {
        return h;
    }
    let h = word_hit(s, &text::tag_stats_bytes());
    if !matches!(h, WordHit::Missed) {
        return h;
    }
    let h = word_hit(s, &text::tag_quit_bytes());
    if !matches!(h, WordHit::Missed) {
        return h;
    }
    let h = word_hit(s, &text::tag_version_bytes());
    if !matches!(h, WordHit::Missed) {
        return h;
    }
    WordHit::Missed
}

/// The outcome of reading one command from the start of a byte string.
pub enum ParseOutcome {
    /// A command that takes the first `end` bytes.
    Done { end: int, command: CommandView },
    /// More bytes could complete a command word; nothing can be decided yet.
    Incomplete,
    /// No command can be read here.
    Invalid,
}

/// A line that begins with a command word but is not that command: the word, then
/// the end of the input or a space or line break, then the rest of the line.
pub open spec fn parse_malformed_spec(s: Seq<u8>) -> ParseOutcome {
    match malformed_hit(s) {
        TagHit::Waiting => ParseOutcome::Incomplete,
        TagHit::Missed => ParseOutcome::Invalid,
        TagHit::Matched(m) => {
            if m < s.len() && s[m] != 32 && s[m] != 13 && s[m] != 10 {
                ParseOutcome::Invalid
            } else {
                match line_end(s, m + span(s, m, ByteClass::LineByte)) {
                    Some(e) => ParseOutcome::Done { end: e, command: CommandView::Malformed },
                    None => ParseOutcome::Invalid,
                }
            }
        },
    }
}

/// A line that begins with no command word: everything up to the first `\r\n`.
pub open spec fn parse_unknown_spec(s: Seq<u8>) -> Option<(CommandView, int)> {
    if keyword_prefixed(s) {
        None
    } else {
        match first_crlf(s) {
            Some(p) => Some((CommandView::CannotParse("Cannot Parse Input"@), p + 2)),
            None => None,
        }
    }
}

/// The first of two options that is present.
pub open spec fn first_some<A>(a: Option<A>, b: Option<A>) -> Option<A> {
    if a is Some {
        a
    } else {
        b
    }
}

/// The commands whose parsers never wait for more input, in the order they are tried.
pub open spec fn complete_alternatives(s: Seq<u8>) -> Option<(CommandView, int)> {
    first_some(parse_delete_spec(s), first_some(parse_add_spec(s), first_some(parse_append_spec(s), first_some(parse_prepend_spec(s), first_some(parse_incr_spec(s), first_some(parse_decr_spec(s), first_some(parse_flush_all_spec(s), first_some(parse_replace_spec(s), first_some(parse_set_spec(s), first_some(parse_cas_spec(s), first_some(parse_gats_spec(s), first_some(parse_gat_spec(s), first_some(parse_gets_spec(s), first_some(parse_get_spec(s), first_some(parse_touch_spec(s), first_some(parse_stats_spec(s), None))))))))))))))))
}

/// What the server reads at the start of `s`: `quit` and `version` first (each
/// waiting while `s` is a proper prefix of its word), then each command in turn,
/// then a malformed command line, then an unknown line.
#[verifier::opaque]
pub open spec fn parse_spec(s: Seq<u8>) -> ParseOutcome {
    if strict_prefix_of(s, text::tag_quit()) {
        ParseOutcome::Incomplete
    } else if tag_at(s, 0, text::tag_quit()) && line_end(s, 4) is Some {
        ParseOutcome::Done { end: line_end(s, 4)->0, command: CommandView::Quit }
    } else if strict_prefix_of(s, text::tag_version()) {
        ParseOutcome::Incomplete
    } else if tag_at(s, 0, text::tag_version()) && line_end(s, 7) is Some {
        ParseOutcome::Done { end: line_end(s, 7)->0, command: CommandView::Version }
    } else {
        match complete_alternatives(s) {
            Some((c, e)) => ParseOutcome::Done { end: e, command: c },
            None => match parse_malformed_spec(s) {
                ParseOutcome::Invalid => match parse_unknown_spec(s) {
                    Some((c, e)) => ParseOutcome::Done { end: e, command: c },
                    None => ParseOutcome::Invalid,
                },
                other => other,
            },
        }
    }
}

/// The outcome of reading one command from the start of a byte string.
pub enum Parsed {
    /// A command that takes this many bytes.
    Done(usize, Command),
    /// More bytes could complete a command word.
    Incomplete,
    /// No command can be read here.
    Invalid,
}

impl View for Parsed {
    type V = ParseOutcome;

    open spec fn view(&self) -> ParseOutcome {
        match self {
            Parsed::Done(e, c) => ParseOutcome::Done { end: *e as int, command: c@ },
            Parsed::Incomplete => ParseOutcome::Incomplete,
            Parsed::Invalid => ParseOutcome::Invalid,
        }
    }
}

fn parse_malformed(s: &[u8]) -> (r: Parsed)
    ensures
        r@ == parse_malformed_spec(s@),
        r matches Parsed::Done(e, _) ==> 0 < e <= s.len(),
{
    match malformed_word(s) {
        WordHit::Waiting => Parsed::Incomplete,
        WordHit::Missed => Parsed::Invalid,
        WordHit::Matched(m) => {
            if m < s.len() && s[m] != 32 && s[m] != 13 && s[m] != 10 {
                Parsed::Invalid
            } else {
                let q = scan(s, m, ByteClass::LineByte);
                match line_end_at(s, q) {
                    Some(e) => Parsed::Done(e, Command::Malformed),
                    None => Parsed::Invalid,
                }
            }
        },
    }
}

/// The description that an unknown line carries.
fn unknown_line_text() -> (r: String)
    ensures
        r@ == "Cannot Parse Input"@,
{
    "Cannot Parse Input".to_owned()
}

fn parse_unknown(s: &[u8]) -> (r: Option<(Command, usize)>)
    ensures
        r matches Some((c, e)) ==> parse_unknown_spec(s@) == Some((c@, e as int)) && 0 < e
            <= s.len(),
        r is None ==> parse_unknown_spec(s@) is None,
{
    if starts_with_command_keyword(s) {
        return None;
    }
    match find_crlf(s) {
        Some(p) => {
            let n = s.len();
            assert(crlf_at(s@, p as int));
            assert(p + 2 <= n);
            let text = unknown_line_text();
            Some((Command::CannotParse(text), p + 2))
        },
        None => None,
    }
}

/// Reads one command from the start of `s`, as [`parse_spec`] says.
pub fn parse_command(s: &[u8]) -> (r: Parsed)
    ensures
        r@ == parse_spec(s@),
        r matches Parsed::Done(e, _) ==> 0 < e <= s.len(),
{
    reveal(parse_spec);
    if is_strict_prefix(s, &text::tag_quit_bytes()) {
        return Parsed::Incomplete;
    }
    if starts_with(s, &text::tag_quit_bytes()) {
        if let Some(e) = line_end_at(s, 4) {
            return Parsed::Done(e, Command::Quit);
        }
    }
    if is_strict_prefix(s, &text::tag_version_bytes()) {
        return Parsed::Incomplete;
    }
    if starts_with(s, &text::tag_version_bytes()) {
        if let Some(e) = line_end_at(s, 7) {
            return Parsed::Done(e, Command::Version);
        }
    }
    if let Some((c, e)) = parse_delete(s) {
        return Parsed::Done(e, c);
    }
    if let Some((c, e)) = parse_add(s) {
        return Parsed::Done(e, c);
    }
    if let Some((c, e)) = parse_append(s) {
        return Parsed::Done(e, c);
    }
    if let Some((c, e)) = parse_prepend(s) {
        return Parsed::Done(e, c);
    }
    if let Some((c, e)) = parse_incr(s) {
        return Parsed::Done(e, c);
    }
    if let Some((c, e)) = parse_decr(s) {
        return Parsed::Done(e, c);
    }
    if let Some((c, e)) = parse_flush_all(s) {
        return Parsed::Done(e, c);
    }
    if let Some((c, e)) = parse_replace(s) {
        return Parsed::Done(e, c);
    }
    if let Some((c, e)) = parse_set(s) {
        return Parsed::Done(e, c);
    }
    if let Some((c, e)) = parse_cas(s) {
        return Parsed::Done(e, c);
    }
    if let Some((c, e)) = parse_gats(s) {
        return Parsed::Done(e, c);
    }
    if let Some((c, e)) = parse_gat(s) {
        return Parsed::Done(e, c);
    }
    if let Some((c, e)) = parse_gets(s) {
        return Parsed::Done(e, c);
    }
    if let Some((c, e)) = parse_get(s) {
        return Parsed::Done(e, c);
    }
    if let Some((c, e)) = parse_touch(s) {
        return Parsed::Done(e, c);
    }
    if let Some((c, e)) = parse_stats(s) {
        return Parsed::Done(e, c);
    }
    match parse_malformed(s) {
        Parsed::Invalid => match parse_unknown(s) {
            Some((c, e)) => Parsed::Done(e, c),
            None => Parsed::Invalid,
        },
        other => other,
    }
}

} // verus!
