//! Serving a connection's bytes: reading commands one after another, handling
//! each, and collecting the replies.

use vstd::prelude::*;
use vstd::slice::slice_subrange;
use crate::bytes::{emit, find_crlf, first_crlf, lemma_crlf_from};
use crate::clock::now_nanos;
use crate::command::CommandView;
use crate::handler::dispatch::{command_outcome, handle_command_at};
use crate::parser::{keyword_prefixed, parse_command, parse_spec, starts_with_command_keyword, ParseOutcome, Parsed};
use crate::state::{State, StateView};
use crate::text;

verus! {

/// Whether every command in `input` can be read, up to its end or up to a `quit`.
pub open spec fn parses_through(input: Seq<u8>) -> bool
    decreases input.len(),
{
    if input.len() == 0 {
        true
    } else {
        match parse_spec(input) {
            ParseOutcome::Done { end, command } => 0 < end <= input.len() && (command is Quit
                || parses_through(input.skip(end))),
            _ => false,
        }
    }
}

/// Handling a whole input at `now`: each command in turn, until the input ends
/// (`true`) or a `quit` is read (`false`). Gives the state and the replies.
pub open spec fn run_spec(s: StateView, input: Seq<u8>, now: u128) -> (StateView, Seq<u8>, bool)
    decreases input.len(),
{
    if input.len() == 0 {
        (s, Seq::empty(), true)
    } else {
        match parse_spec(input) {
            ParseOutcome::Done { end, command } => {
                if !(0 < end <= input.len()) {
                    (s, Seq::empty(), true)
                } else if command is Quit {
                    (s, Seq::empty(), false)
                } else {
                    let (s1, o1) = command_outcome(s, command, now);
                    let (s2, o2, go_on) = run_spec(s1, input.skip(end), now);
                    (s2, o1 + o2, go_on)
                }
            },
            _ => (s, Seq::empty(), true),
        }
    }
}

/// Handling the bytes received so far at `now`: complete commands are handled and
/// taken out of the buffer; a `quit` stops (`false`) and stays in the buffer; a
/// command word still waiting for its line stays in the buffer; any other line
/// that cannot be read is dropped with an `ERROR` reply. Gives the state, what is
/// left in the buffer, the replies, and whether to go on.
pub open spec fn buffered_spec(s: StateView, buf: Seq<u8>, now: u128) -> (
    StateView,
    Seq<u8>,
    Seq<u8>,
    bool,
)
    decreases buf.len(),
{
    if buf.len() == 0 {
        (s, buf, Seq::empty(), true)
    } else {
        match parse_spec(buf) {
            ParseOutcome::Done { end, command } => {
                if !(0 < end <= buf.len()) {
                    (s, buf, Seq::empty(), true)
                } else if command is Quit {
                    (s, buf, Seq::empty(), false)
                } else {
                    let (s1, o1) = command_outcome(s, command, now);
                    let (s2, b2, o2, go_on) = buffered_spec(s1, buf.skip(end), now);
                    (s2, b2, o1 + o2, go_on)
                }
            },
            ParseOutcome::Incomplete => (s, buf, Seq::empty(), true),
            ParseOutcome::Invalid => {
                if keyword_prefixed(buf) && first_crlf(buf) is None {
                    (s, buf, Seq::empty(), true)
                } else {
                    match first_crlf(buf) {
                        Some(p) => {
                            if 0 <= p && p + 2 <= buf.len() {
                                let (s2, b2, o2, go_on) = buffered_spec(s, buf.skip(p + 2), now);
                                (s2, b2, text::error_line() + o2, go_on)
                            } else {
                                (s, Seq::empty(), text::error_line(), true)
                            }
                        },
                        None => (s, Seq::empty(), text::error_line(), true),
                    }
                }
            },
        }
    }
}

/// Handles every command of `input` at time `now`, appending the replies to
/// `output`; `false` when a `quit` was read. Every command must be readable.
pub fn process_input_at(state: &mut State, input: &[u8], output: &mut Vec<u8>, now: u128) -> (r:
    bool)
    requires
        old(state).wf(),
        parses_through(input@),
    ensures
        final(state).wf(),
        (final(state)@, final(output)@, r) == (
            run_spec(old(state)@, input@, now).0,
            old(output)@ + run_spec(old(state)@, input@, now).1,
            run_spec(old(state)@, input@, now).2,
        ),
{
    let ghost s0 = state@;
    let ghost i0 = input@;
    let mut pos: usize = 0;
    let mut result = true;
    proof {
        assert(i0.skip(0) =~= i0);
    }
    loop
        invariant_except_break
            result,
            pos <= input@.len(),
            parses_through(i0.skip(pos as int)),
            run_spec(s0, i0, now).0 == run_spec(state@, i0.skip(pos as int), now).0,
            old(output)@ + run_spec(s0, i0, now).1 == output@ + run_spec(
                state@,
                i0.skip(pos as int),
                now,
            ).1,
            run_spec(s0, i0, now).2 == run_spec(state@, i0.skip(pos as int), now).2,
        invariant
            state.wf(),
            i0 == input@,
        ensures
            run_spec(s0, i0, now).0 == state@,
            old(output)@ + run_spec(s0, i0, now).1 == output@,
            run_spec(s0, i0, now).2 == result,
        decreases input@.len() - pos,
    {
        if pos >= input.len() {
            assert(i0.skip(pos as int) =~= Seq::<u8>::empty());
            assert(output@ + Seq::<u8>::empty() =~= output@);
            break;
        }
        let rest = slice_subrange(input, pos, input.len());
        assert(rest@ =~= i0.skip(pos as int));
        match parse_command(rest) {
            Parsed::Done(n, command) => {
                if command.is_quit() {
                    assert(output@ + Seq::<u8>::empty() =~= output@);
                    assert(run_spec(state@, i0.skip(pos as int), now) == (
                        state@,
                        Seq::<u8>::empty(),
                        false,
                    ));
                    result = false;
                    break;
                }
                let ghost sb = state@;
                let ghost ob = output@;
                let ghost c = command@;
                handle_command_at(state, command, output, now);
                proof {
                    assert(i0.skip(pos as int).skip(n as int) =~= i0.skip(pos + n));
                    let (s1, o1) = command_outcome(sb, c, now);
                    assert(ob + (o1 + run_spec(s1, i0.skip(pos + n), now).1) =~= output@ + run_spec(
                        state@,
                        i0.skip(pos + n),
                        now,
                    ).1);
                }
                pos = pos + n;
            },
            _ => {
                assert(false);
                break;
            },
        }
    }
    result
}

/// Handles every command of `input` at the current time, appending the replies to
/// `output`; `false` when a `quit` was read. Every command must be readable.
pub fn process_input(state: &mut State, input: &[u8], output: &mut Vec<u8>) -> (r: bool)
    requires
        old(state).wf(),
        parses_through(input@),
    ensures
        final(state).wf(),
        exists|now: u128|
            (final(state)@, final(output)@, r) == (
                #[trigger] run_spec(old(state)@, input@, now).0,
                old(output)@ + run_spec(old(state)@, input@, now).1,
                run_spec(old(state)@, input@, now).2,
            ),
{
    let now = now_nanos();
    process_input_at(state, input, output, now)
}

/// Keeps only `buf[pos..]`.
fn drop_front(buf: &mut Vec<u8>, pos: usize)
    requires
        pos <= old(buf)@.len(),
    ensures
        final(buf)@ == old(buf)@.skip(pos as int),
{
    let tail = buf.split_off(pos);
    *buf = tail;
    assert(buf@ =~= old(buf)@.skip(pos as int));
}

/// Handles the commands received so far in `buf` at time `now`, as
/// [`buffered_spec`] says: what is handled or dropped leaves the buffer, and the
/// replies are appended to `output`; `false` when a `quit` was read.
pub fn process_input_buffered_at(state: &mut State, buf: &mut Vec<u8>, output: &mut Vec<u8>, now: u128) -> (r:
    bool)
    requires
        old(state).wf(),
    ensures
        final(state).wf(),
        final(state)@ == buffered_spec(old(state)@, old(buf)@, now).0,
        final(buf)@ == buffered_spec(old(state)@, old(buf)@, now).1,
        final(output)@ == old(output)@ + buffered_spec(old(state)@, old(buf)@, now).2,
        r == buffered_spec(old(state)@, old(buf)@, now).3,
{
    let ghost s0 = state@;
    let ghost b0 = buf@;
    let mut pos: usize = 0;
    let mut result = true;
    proof {
        assert(b0.skip(0) =~= b0);
    }
    loop
        invariant_except_break
            result,
            b0 == buf@,
            pos <= b0.len(),
            buffered_spec(s0, b0, now).0 == buffered_spec(state@, b0.skip(pos as int), now).0,
            buffered_spec(s0, b0, now).1 == buffered_spec(state@, b0.skip(pos as int), now).1,
            old(output)@ + buffered_spec(s0, b0, now).2 == output@ + buffered_spec(
                state@,
                b0.skip(pos as int),
                now,
            ).2,
            buffered_spec(s0, b0, now).3 == buffered_spec(state@, b0.skip(pos as int), now).3,
        invariant
            state.wf(),
        ensures
            buffered_spec(s0, b0, now).0 == state@,
            buffered_spec(s0, b0, now).1 == buf@,
            old(output)@ + buffered_spec(s0, b0, now).2 == output@,
            buffered_spec(s0, b0, now).3 == result,
        decreases b0.len() - pos,
    {
        if pos == buf.len() {
            assert(b0.skip(pos as int) =~= Seq::<u8>::empty());
            assert(output@ + Seq::<u8>::empty() =~= output@);
            assert(buffered_spec(state@, b0.skip(pos as int), now) == (
                state@,
                b0.skip(pos as int),
                Seq::<u8>::empty(),
                true,
            ));
            drop_front(buf, pos);
            break;
        }
        let ghost rest_view = b0.skip(pos as int);
        let parsed = {
            let rest = slice_subrange(buf.as_slice(), pos, buf.len());
            assert(rest@ =~= rest_view);
            match parse_command(rest) {
                Parsed::Done(n, command) => Ok((n, command)),
                Parsed::Incomplete => Err(None),
                Parsed::Invalid => {
                    let waiting = starts_with_command_keyword(rest);
                    let line_end = find_crlf(rest);
                    Err(Some((waiting, line_end)))
                },
            }
        };
        match parsed {
            Ok((n, command)) => {
                if command.is_quit() {
                    assert(output@ + Seq::<u8>::empty() =~= output@);
                    assert(buffered_spec(state@, rest_view, now) == (
                        state@,
                        rest_view,
                        Seq::<u8>::empty(),
                        false,
                    ));
                    drop_front(buf, pos);
                    result = false;
                    break;
                }
                let ghost sb = state@;
                let ghost ob = output@;
                let ghost c = command@;
                handle_command_at(state, command, output, now);
                proof {
                    assert(rest_view.skip(n as int) =~= b0.skip(pos + n));
                    let (s1, o1) = command_outcome(sb, c, now);
                    assert(ob + (o1 + buffered_spec(s1, b0.skip(pos + n), now).2) =~= output@
                        + buffered_spec(state@, b0.skip(pos + n), now).2);
                }
                pos = pos + n;
            },
            Err(None) => {
                assert(output@ + Seq::<u8>::empty() =~= output@);
                drop_front(buf, pos);
                break;
            },
            Err(Some((waiting, line_end))) => {
                if waiting && line_end.is_none() {
                    assert(output@ + Seq::<u8>::empty() =~= output@);
                    drop_front(buf, pos);
                    break;
                }
                let ghost ob = output@;
                emit(output, &text::error_line_bytes());
                match line_end {
                    Some(p) => {
                        proof {
                            lemma_crlf_from(rest_view, 0);
                            assert(rest_view.skip(p + 2) =~= b0.skip(pos + p + 2));
                            assert(ob + (text::error_line() + buffered_spec(
                                state@,
                                b0.skip(pos + p + 2),
                                now,
                            ).2) =~= output@ + buffered_spec(state@, b0.skip(pos + p + 2), now).2);
                        }
                        pos = pos + p + 2;
                    },
                    None => {
                        proof {
                            assert(b0.skip(b0.len() as int) =~= Seq::<u8>::empty());
                            assert(ob + text::error_line() =~= output@ + Seq::<u8>::empty());
                        }
                        pos = buf.len();
                    },
                }
            },
        }
    }
    result
}

/// Handles the commands received so far in `buf` at the current time, as
/// [`buffered_spec`] says; `false` when a `quit` was read.
pub fn process_input_buffered(state: &mut State, buf: &mut Vec<u8>, output: &mut Vec<u8>) -> (r:
    bool)
    requires
        old(state).wf(),
    ensures
        final(state).wf(),
        exists|now: u128|
            (final(state)@, final(buf)@, final(output)@, r) == (
                #[trigger] buffered_spec(old(state)@, old(buf)@, now).0,
                buffered_spec(old(state)@, old(buf)@, now).1,
                old(output)@ + buffered_spec(old(state)@, old(buf)@, now).2,
                buffered_spec(old(state)@, old(buf)@, now).3,
            ),
{
    let now = now_nanos();
    process_input_buffered_at(state, buf, output, now)
}

} // verus!
