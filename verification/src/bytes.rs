//! Byte-level building blocks of the text protocol: character classes and the
//! length of a run of them, decimal numbers in both directions, byte-string
//! comparison and search.

use vstd::prelude::*;

verus! {

/// The classes of bytes that the protocol's grammar scans over.
#[derive(Clone, Copy, Debug, PartialEq, Eq)]
pub enum ByteClass {
    /// `0` to `9`.
    Digit,
    /// A space or a horizontal tab.
    Blank,
    /// Any byte but a space.
    NotSpace,
    /// Any byte but a space, `\r` or `\n`.
    Word,
    /// Any byte but a space, a tab, `\r` or `\n`.
    Token,
    /// Any byte but `\r` or `\n`.
    LineByte,
}

pub open spec fn is_digit(b: u8) -> bool {
    48 <= b <= 57
}

pub open spec fn in_class(c: ByteClass, b: u8) -> bool {
    match c {
        ByteClass::Digit => is_digit(b),
        ByteClass::Blank => b == 32 || b == 9,
        ByteClass::NotSpace => b != 32,
        ByteClass::Word => b != 32 && b != 13 && b != 10,
        ByteClass::Token => b != 32 && b != 9 && b != 13 && b != 10,
        ByteClass::LineByte => b != 13 && b != 10,
    }
}

/// Whether `b` belongs to class `c`.
pub fn class_has(c: ByteClass, b: u8) -> (r: bool)
    ensures
        r == in_class(c, b),
{
    match c {
        ByteClass::Digit => 48 <= b && b <= 57,
        ByteClass::Blank => b == 32 || b == 9,
        ByteClass::NotSpace => b != 32,
        ByteClass::Word => b != 32 && b != 13 && b != 10,
        ByteClass::Token => b != 32 && b != 9 && b != 13 && b != 10,
        ByteClass::LineByte => b != 13 && b != 10,
    }
}

/// The length of the longest run of bytes of class `c` that starts at `i`.
pub open spec fn span(s: Seq<u8>, i: int, c: ByteClass) -> int
    decreases s.len() - i,
{
    if 0 <= i < s.len() && in_class(c, s[i]) {
        1 + span(s, i + 1, c)
    } else {
        0
    }
}

/// A run found by [`span`] stays inside the input, holds only bytes of its class,
/// and ends at the end of the input or before a byte outside the class.
pub proof fn lemma_span(s: Seq<u8>, i: int, c: ByteClass)
    requires
        0 <= i <= s.len(),
    ensures
        0 <= span(s, i, c) <= s.len() - i,
        forall|k: int| i <= k < i + span(s, i, c) ==> in_class(c, #[trigger] s[k]),
        i + span(s, i, c) == s.len() || !in_class(c, s[i + span(s, i, c)]),
    decreases s.len() - i,
{
    if i < s.len() && in_class(c, s[i]) {
        lemma_span(s, i + 1, c);
    }
}

/// The position just past the run of class `c` that starts at `i`.
pub fn scan(s: &[u8], i: usize, c: ByteClass) -> (r: usize)
    requires
        i <= s.len(),
    ensures
        r == i + span(s@, i as int, c),
        i <= r <= s.len(),
{
    let mut j = i;
    while j < s.len() && class_has(c, s[j])
        invariant
            i <= j <= s.len(),
            span(s@, i as int, c) == (j - i) + span(s@, j as int, c),
        decreases s.len() - j,
    {
        j = j + 1;
    }
    proof {
        lemma_span(s@, i as int, c);
    }
    j
}

/// Whether `t` occurs in `s` at position `i`.
pub open spec fn tag_at(s: Seq<u8>, i: int, t: Seq<u8>) -> bool {
    0 <= i && i + t.len() <= s.len() && s.subrange(i, i + t.len()) == t
}

/// Whether `s` is a proper prefix of `t` (what a streaming match of `t` waits on).
pub open spec fn strict_prefix_of(s: Seq<u8>, t: Seq<u8>) -> bool {
    s.len() < t.len() && t.subrange(0, s.len() as int) == s
}

/// Whether `t` occurs in `s` at position `i`.
pub fn matches_at(s: &[u8], i: usize, t: &[u8]) -> (r: bool)
    requires
        i <= s.len(),
    ensures
        r == tag_at(s@, i as int, t@),
{
    if t.len() > s.len() - i {
        return false;
    }
    let mut k: usize = 0;
    while k < t.len()
        invariant
            i + t.len() <= s.len(),
            k <= t.len(),
            forall|m: int| 0 <= m < k ==> s@[i + m] == t@[m],
        decreases t.len() - k,
    {
        if s[i + k] != t[k] {
            assert(s@.subrange(i as int, i + t.len())[k as int] != t@[k as int]);
            return false;
        }
        k = k + 1;
    }
    assert(s@.subrange(i as int, i + t.len()) =~= t@);
    true
}

/// Whether `s` is a proper prefix of `t`.
pub fn is_strict_prefix(s: &[u8], t: &[u8]) -> (r: bool)
    ensures
        r == strict_prefix_of(s@, t@),
{
    if s.len() >= t.len() {
        return false;
    }
    let b = matches_at(t, 0, s);
    assert(tag_at(t@, 0, s@) == (t@.subrange(0, s@.len() as int) == s@));
    b
}

/// Whether `s` begins with `prefix`.
pub fn starts_with(s: &[u8], prefix: &[u8]) -> (r: bool)
    ensures
        r == tag_at(s@, 0, prefix@),
{
    matches_at(s, 0, prefix)
}

/// Byte-wise equality of two byte strings.
pub fn bytes_eq(a: &[u8], b: &[u8]) -> (r: bool)
    ensures
        r == (a@ == b@),
{
    if a.len() != b.len() {
        return false;
    }
    let r = matches_at(a, 0, b);
    assert(a@.subrange(0, a@.len() as int) =~= a@);
    r
}

/// Whether `s` holds `\r\n` starting at `i`.
pub open spec fn crlf_at(s: Seq<u8>, i: int) -> bool {
    0 <= i && i + 1 < s.len() && s[i] == 13 && s[i + 1] == 10
}

/// The position of the first `\r\n` in `s` at or after `i`, if there is one.
pub open spec fn crlf_from(s: Seq<u8>, i: int) -> Option<int>
    decreases s.len() - i,
{
    if i < 0 || i + 1 >= s.len() {
        None
    } else if crlf_at(s, i) {
        Some(i)
    } else {
        crlf_from(s, i + 1)
    }
}

/// The position of the first `\r\n` in `s`, if there is one.
pub open spec fn first_crlf(s: Seq<u8>) -> Option<int> {
    crlf_from(s, 0)
}

/// A position that [`crlf_from`] finds holds `\r\n`, and none comes before it.
pub proof fn lemma_crlf_from(s: Seq<u8>, i: int)
    requires
        0 <= i,
    ensures
        crlf_from(s, i) matches Some(p) ==> i <= p && crlf_at(s, p) && forall|j: int|
            i <= j < p ==> !crlf_at(s, j),
        crlf_from(s, i) is None ==> forall|j: int| i <= j ==> !crlf_at(s, j),
    decreases s.len() - i,
{
    if i + 1 < s.len() && !crlf_at(s, i) {
        lemma_crlf_from(s, i + 1);
    }
}

/// The position of the first `\r\n` in `s`, if there is one.
pub fn find_crlf(s: &[u8]) -> (r: Option<usize>)
    ensures
        r matches Some(p) ==> first_crlf(s@) == Some(p as int) && crlf_at(s@, p as int),
        r is None ==> first_crlf(s@) is None,
{
    let mut i: usize = 0;
    while s.len() - i > 1
        invariant
            i <= s.len(),
            first_crlf(s@) == crlf_from(s@, i as int),
        decreases s.len() - i,
    {
        if s[i] == 13 && s[i + 1] == 10 {
            return Some(i);
        }
        i = i + 1;
    }
    None
}

/// Whether `b` is an ASCII control byte.
pub open spec fn is_control(b: u8) -> bool {
    b < 32 || b == 127
}

/// Whether some byte of `s` is an ASCII control byte.
pub open spec fn holds_control(s: Seq<u8>) -> bool {
    exists|i: int| 0 <= i < s.len() && is_control(s[i])
}

/// Whether some byte of `key` is an ASCII control byte.
pub fn has_control_chars(key: &[u8]) -> (r: bool)
    ensures
        r == holds_control(key@),
{
    let mut i: usize = 0;
    while i < key.len()
        invariant
            i <= key.len(),
            forall|j: int| 0 <= j < i ==> !is_control(key@[j]),
        decreases key.len() - i,
    {
        if key[i] < 32 || key[i] == 127 {
            return true;
        }
        i = i + 1;
    }
    false
}

/// The number that a string of decimal digits spells.
pub open spec fn digits_value(s: Seq<u8>) -> nat
    decreases s.len(),
{
    if s.len() == 0 {
        0
    } else {
        digits_value(s.drop_last()) * 10 + (s.last() - 48) as nat
    }
}

/// Whether every byte of `s` is a decimal digit.
pub open spec fn all_digits(s: Seq<u8>) -> bool {
    forall|i: int| 0 <= i < s.len() ==> is_digit(#[trigger] s[i])
}

/// Appending digits never makes a number smaller.
pub proof fn lemma_digits_value_prefix(s: Seq<u8>, n: int)
    requires
        all_digits(s),
        0 <= n <= s.len(),
    ensures
        digits_value(s.subrange(0, n)) <= digits_value(s),
    decreases s.len(),
{
    if n < s.len() {
        let t = s.drop_last();
        assert(all_digits(t));
        lemma_digits_value_prefix(t, n);
        assert(t.subrange(0, n) =~= s.subrange(0, n));
    } else {
        assert(s.subrange(0, n) =~= s);
    }
}

/// The decimal value of the digits `s[a..b]`, or `None` if it exceeds `u64::MAX`.
pub fn digits_to_u64(s: &[u8], a: usize, b: usize) -> (r: Option<u64>)
    requires
        a <= b <= s.len(),
        all_digits(s@.subrange(a as int, b as int)),
    ensures
        r matches Some(v) ==> v == digits_value(s@.subrange(a as int, b as int)),
        r is None <==> digits_value(s@.subrange(a as int, b as int)) > u64::MAX,
{
    let ghost whole = s@.subrange(a as int, b as int);
    let mut acc: u64 = 0;
    let mut j = a;
    while j < b
        invariant
            a <= j <= b <= s.len(),
            whole == s@.subrange(a as int, b as int),
            all_digits(whole),
            acc == digits_value(s@.subrange(a as int, j as int)),
        decreases b - j,
    {
        assert(is_digit(whole[j - a]));
        let d = s[j] - 48;
        assert(s@.subrange(a as int, j + 1).drop_last() =~= s@.subrange(a as int, j as int));
        assert(digits_value(s@.subrange(a as int, j + 1)) == acc * 10 + d);
        proof {
            assert(whole.subrange(0, j + 1 - a) =~= s@.subrange(a as int, j + 1));
            lemma_digits_value_prefix(whole, j + 1 - a);
        }
        match acc.checked_mul(10) {
            None => {
                return None;
            },
            Some(m) => match m.checked_add(d as u64) {
                None => {
                    return None;
                },
                Some(v) => {
                    acc = v;
                },
            },
        }
        j = j + 1;
    }
    Some(acc)
}

/// The decimal spelling of `n`, without leading zeros.
pub open spec fn decimal(n: nat) -> Seq<u8>
    decreases n,
{
    if n < 10 {
        seq![(48 + n) as u8]
    } else {
        decimal(n / 10).push((48 + n % 10) as u8)
    }
}

/// The decimal spelling of `v`, with a leading `-` when it is negative.
pub open spec fn signed_decimal(v: int) -> Seq<u8> {
    if v < 0 {
        seq![45u8] + decimal((-v) as nat)
    } else {
        decimal(v as nat)
    }
}

/// A decimal spelling is a non-empty string of digits that spells its number.
pub proof fn lemma_decimal_round_trip(n: nat)
    ensures
        all_digits(decimal(n)),
        decimal(n).len() >= 1,
        digits_value(decimal(n)) == n,
    decreases n,
{
    if n >= 10 {
        lemma_decimal_round_trip(n / 10);
        assert(decimal(n).drop_last() =~= decimal(n / 10));
        assert(decimal(n).last() == (48 + n % 10) as u8);
        assert(((48 + n % 10) as u8) - 48 == n % 10);
        assert(n == (n / 10) * 10 + n % 10);
        assert(digits_value(decimal(n)) == digits_value(decimal(n).drop_last()) * 10 + (decimal(n).last() - 48) as nat);
        assert(all_digits(decimal(n))) by {
            assert forall|i: int| 0 <= i < decimal(n).len() implies is_digit(#[trigger] decimal(n)[i]) by {
                if i < decimal(n).len() - 1 {
                    assert(decimal(n)[i] == decimal(n / 10)[i]);
                }
            }
        }
    } else {
        assert(decimal(n).drop_last() =~= Seq::<u8>::empty());
        assert(digits_value(Seq::<u8>::empty()) == 0);
        assert(((48 + n) as u8) - 48 == n);
        assert(digits_value(decimal(n)) == digits_value(decimal(n).drop_last()) * 10 + (decimal(n).last() - 48) as nat);
    }
}

/// Appends the decimal spelling of `n` to `out`.
pub fn append_decimal(out: &mut Vec<u8>, n: u128)
    ensures
        final(out)@ == old(out)@ + decimal(n as nat),
    decreases n,
{
    if n >= 10 {
        append_decimal(out, n / 10);
    }
    let d: u8 = (n % 10) as u8;
    out.push(48 + d);
    proof {
        if n >= 10 {
            assert(final(out)@ =~= old(out)@ + decimal(n as nat));
        } else {
            assert(final(out)@ =~= old(out)@ + decimal(n as nat));
        }
    }
}

/// Appends the decimal spelling of `v` to `out`, with a `-` when it is negative.
pub fn append_signed_decimal(out: &mut Vec<u8>, v: i64)
    ensures
        final(out)@ == old(out)@ + signed_decimal(v as int),
{
    if v < 0 {
        out.push(45);
        let m: u128 = (0i128 - v as i128) as u128;
        append_decimal(out, m);
        assert(final(out)@ =~= old(out)@ + signed_decimal(v as int));
    } else {
        append_decimal(out, v as u128);
    }
}

/// Appends all of `bytes` to `out`.
pub fn emit(out: &mut Vec<u8>, bytes: &[u8])
    ensures
        final(out)@ == old(out)@ + bytes@,
{
    out.extend_from_slice(bytes);
    assert(final(out)@ =~= old(out)@ + bytes@);
}

/// A copy of `s[a..b]`.
pub fn copy_range(s: &[u8], a: usize, b: usize) -> (r: Vec<u8>)
    requires
        a <= b <= s.len(),
    ensures
        r@ == s@.subrange(a as int, b as int),
{
    let mut r: Vec<u8> = Vec::new();
    let mut j = a;
    while j < b
        invariant
            a <= j <= b <= s.len(),
            r@ == s@.subrange(a as int, j as int),
        decreases b - j,
    {
        r.push(s[j]);
        assert(r@ =~= s@.subrange(a as int, j + 1));
        j = j + 1;
    }
    r
}

} // verus!
