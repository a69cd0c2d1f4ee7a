//! `incr` and `decr`: arithmetic on values that spell a decimal number.

use vstd::prelude::*;
use crate::bytes::{
    all_digits, append_decimal, decimal, digits_to_u64, digits_value, emit, in_class, lemma_span,
    scan, span, ByteClass,
};
use crate::clock::now_nanos;
use crate::command::{Command, CommandView};
use crate::handler::common::{emit_reply, reply};
use crate::state::{Data, ItemView, State, StateView};
use crate::text;

verus! {

/// The number that a stored value spells: an optional `+`, then one or more
/// digits, with a value that fits a `u64`.
pub open spec fn counter_value(v: Seq<u8>) -> Option<u64> {
    let d = if v.len() > 0 && v[0] == 43 {
        v.drop_first()
    } else {
        v
    };
    if d.len() > 0 && all_digits(d) && digits_value(d) <= u64::MAX {
        Some(digits_value(d) as u64)
    } else {
        None
    }
}

/// The number that a stored value spells, as [`counter_value`] says.
pub fn parse_counter(v: &[u8]) -> (r: Option<u64>)
    ensures
        r == counter_value(v@),
{
    let start: usize = if v.len() > 0 && v[0] == 43 {
        1
    } else {
        0
    };
    let ghost d = if v@.len() > 0 && v@[0] == 43 {
        v@.drop_first()
    } else {
        v@
    };
    assert(d =~= v@.subrange(start as int, v@.len() as int));
    let e = scan(v, start, ByteClass::Digit);
    proof {
        lemma_span(v@, start as int, ByteClass::Digit);
    }
    if e == start {
        proof {
            if d.len() > 0 {
                assert(!crate::bytes::is_digit(d[0]));
            }
        }
        return None;
    }
    if e != v.len() {
        assert(!is_digit_at(d, e - start));
        return None;
    }
    assert(all_digits(d)) by {
        assert forall|i: int| 0 <= i < d.len() implies crate::bytes::is_digit(#[trigger] d[i]) by {
            assert(in_class(ByteClass::Digit, v@[start + i]));
        }
    }
    digits_to_u64(v, start, v.len())
}

spec fn is_digit_at(d: Seq<u8>, i: int) -> bool {
    0 <= i < d.len() && crate::bytes::is_digit(d[i])
}

/// The result of `incr` (wrapping at 2^64) or `decr` (stopping at 0).
pub open spec fn arith_result(v: u64, delta: u64, incr: bool) -> u64 {
    if incr {
        ((v + delta) % 0x1_0000_0000_0000_0000) as u64
    } else if v >= delta {
        (v - delta) as u64
    } else {
        0
    }
}

/// `incr`/`decr`: a stored number becomes the result, written in decimal (flags and
/// expiration kept), and the reply is that number; a value that is no number gets
/// an error reply (whatever `noreply` says); an absent key gets `NOT_FOUND`.
pub open spec fn arith_effect(
    s: StateView,
    key: Seq<u8>,
    delta: u64,
    noreply: bool,
    now: u128,
    incr: bool,
) -> (StateView, Seq<u8>) {
    if !s.items.contains_key(key) {
        (s, reply(noreply, text::not_found_line()))
    } else {
        let old = s.items[key];
        match counter_value(old.value) {
            None => (s, text::non_numeric_line()),
            Some(v) => {
                let n = decimal(arith_result(v, delta, incr) as nat);
                (
                    s.with_item(
                        key,
                        ItemView {
                            value: n,
                            timeout: old.timeout,
                            flags: old.flags,
                            time: now,
                            cas: 0,
                        },
                    ),
                    reply(noreply, n + text::crlf()),
                )
            },
        }
    }
}

/// What `handle_incr_at` does with a command (anything but `incr` is ignored).
pub open spec fn incr_outcome(s: StateView, c: CommandView, now: u128) -> (StateView, Seq<u8>) {
    match c {
        CommandView::Incr { key, delta, noreply } => arith_effect(s, key, delta, noreply, now, true),
        _ => (s, Seq::empty()),
    }
}

/// What `handle_decr_at` does with a command (anything but `decr` is ignored).
pub open spec fn decr_outcome(s: StateView, c: CommandView, now: u128) -> (StateView, Seq<u8>) {
    match c {
        CommandView::Decr { key, delta, noreply } => arith_effect(s, key, delta, noreply, now, false),
        _ => (s, Seq::empty()),
    }
}

fn apply_arith(
    state: &mut State,
    key: Vec<u8>,
    delta: u64,
    noreply: bool,
    output: &mut Vec<u8>,
    now: u128,
    incr: bool,
)
    requires
        old(state).wf(),
    ensures
        final(state).wf(),
        final(state)@ == arith_effect(old(state)@, key@, delta, noreply, now, incr).0,
        final(output)@ == old(output)@ + arith_effect(old(state)@, key@, delta, noreply, now, incr).1,
{
    let step = match state.get_key(key.as_slice()) {
        None => None,
        Some(existing) => match parse_counter(existing.data.as_slice()) {
            None => Some(None),
            Some(current) => {
                let result: u64 = if incr {
                    current.wrapping_add(delta)
                } else {
                    current.saturating_sub(delta)
                };
                Some(Some((result, existing.timeout, existing.flags)))
            },
        },
    };
    match step {
        None => {
            emit_reply(output, noreply, &text::not_found_line_bytes());
        },
        Some(None) => {
            emit(output, &text::non_numeric_line_bytes());
        },
        Some(Some((result, timeout, flags))) => {
            let mut digits: Vec<u8> = Vec::new();
            append_decimal(&mut digits, result as u128);
            assert(digits@ =~= decimal(result as nat));
            let mut line: Vec<u8> = Vec::new();
            emit(&mut line, digits.as_slice());
            emit(&mut line, &text::crlf_bytes());
            let data = Data { data: digits, timeout, flags, time: now, cas_unique: 0 };
            state.set_key(key, data);
            emit_reply(output, noreply, line.as_slice());
        },
    }
}

/// Handles `incr` at time `now`, on a store whose delayed
/// flushes due at `now` have been applied.
pub(crate) fn serve_incr(state: &mut State, command: Command, output: &mut Vec<u8>, now: u128)
    requires
        old(state).wf(),
    ensures
        final(state).wf(),
        final(state)@ == incr_outcome(old(state)@, command@, now).0,
        final(output)@ == old(output)@ + incr_outcome(old(state)@, command@, now).1,
{
    match command {
        Command::Incr { key, delta, noreply } => apply_arith(state, key, delta, noreply, output, now, true),
        _ => {
            assert(old(output)@ + Seq::<u8>::empty() =~= old(output)@);
        },
    }
}

/// Handles `decr` at time `now`, on a store whose delayed
/// flushes due at `now` have been applied.
pub(crate) fn serve_decr(state: &mut State, command: Command, output: &mut Vec<u8>, now: u128)
    requires
        old(state).wf(),
    ensures
        final(state).wf(),
        final(state)@ == decr_outcome(old(state)@, command@, now).0,
        final(output)@ == old(output)@ + decr_outcome(old(state)@, command@, now).1,
{
    match command {
        Command::Decr { key, delta, noreply } => apply_arith(state, key, delta, noreply, output, now, false),
        _ => {
            assert(old(output)@ + Seq::<u8>::empty() =~= old(output)@);
        },
    }
}

/// Handles `incr` at time `now`: the delayed flushes due at `now` happen first.
pub fn handle_incr_at(state: &mut State, command: Command, output: &mut Vec<u8>, now: u128)
    requires
        old(state).wf(),
    ensures
        final(state).wf(),
        final(state)@ == incr_outcome(old(state)@.settled(now), command@, now).0,
        final(output)@ == old(output)@ + incr_outcome(old(state)@.settled(now), command@, now).1,
{
    state.settle(now);
    serve_incr(state, command, output, now);
}

/// Handles `incr` at the current time.
pub fn handle_incr(state: &mut State, command: Command, output: &mut Vec<u8>)
    requires
        old(state).wf(),
    ensures
        final(state).wf(),
        exists|now: u128|
            final(state)@ == #[trigger] incr_outcome(old(state)@.settled(now), command@, now).0 && final(output)@
                == old(output)@ + incr_outcome(old(state)@.settled(now), command@, now).1,
{
    let now = now_nanos();
    handle_incr_at(state, command, output, now);
}

/// Handles `decr` at time `now`: the delayed flushes due at `now` happen first.
pub fn handle_decr_at(state: &mut State, command: Command, output: &mut Vec<u8>, now: u128)
    requires
        old(state).wf(),
    ensures
        final(state).wf(),
        final(state)@ == decr_outcome(old(state)@.settled(now), command@, now).0,
        final(output)@ == old(output)@ + decr_outcome(old(state)@.settled(now), command@, now).1,
{
    state.settle(now);
    serve_decr(state, command, output, now);
}

/// Handles `decr` at the current time.
pub fn handle_decr(state: &mut State, command: Command, output: &mut Vec<u8>)
    requires
        old(state).wf(),
    ensures
        final(state).wf(),
        exists|now: u128|
            final(state)@ == #[trigger] decr_outcome(old(state)@.settled(now), command@, now).0 && final(output)@
                == old(output)@ + decr_outcome(old(state)@.settled(now), command@, now).1,
{
    let now = now_nanos();
    handle_decr_at(state, command, output, now);
}

} // verus!
