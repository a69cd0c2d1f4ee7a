//! `touch` and `delete`: commands on one key that store no new value.

use vstd::prelude::*;
use crate::bytes::{copy_range, emit};
use crate::clock::now_nanos;
use crate::command::{Command, CommandView};
use crate::handler::common::{
    emit_reply, is_valid_key, normalize_timeout_at, normalized_timeout, reply, valid_key,
};
use crate::state::{Data, ItemView, State, StateView};
use crate::text;

verus! {

/// `touch`: an item under the key gets the new expiration (and a fresh token and
/// time), keeping its value and flags.
pub open spec fn touch_effect(s: StateView, key: Seq<u8>, timeout: i64, noreply: bool, now: u128) -> (
    StateView,
    Seq<u8>,
) {
    if !valid_key(key) {
        (s, text::bad_format_line())
    } else if s.items.contains_key(key) {
        let old = s.items[key];
        (
            s.with_item(
                key,
                ItemView {
                    value: old.value,
                    timeout: normalized_timeout(timeout, now),
                    flags: old.flags,
                    time: now,
                    cas: 0,
                },
            ),
            reply(noreply, text::touched_line()),
        )
    } else {
        (s, reply(noreply, text::not_found_line()))
    }
}

/// `delete`: removes the item under the key.
pub open spec fn delete_effect(s: StateView, key: Seq<u8>, noreply: bool) -> (StateView, Seq<u8>) {
    if !valid_key(key) {
        (s, text::bad_format_line())
    } else if s.items.contains_key(key) {
        (StateView { items: s.items.remove(key), ..s }, reply(noreply, text::deleted_line()))
    } else {
        (s, reply(noreply, text::not_found_line()))
    }
}

/// What `handle_touch_at` does with a command (anything but `touch` is ignored).
pub open spec fn touch_outcome(s: StateView, c: CommandView, now: u128) -> (StateView, Seq<u8>) {
    match c {
        CommandView::Touch { key, timeout, noreply } => touch_effect(s, key, timeout, noreply, now),
        _ => (s, Seq::empty()),
    }
}

/// What `handle_delete` does with a command (anything but `delete` is ignored).
pub open spec fn delete_outcome(s: StateView, c: CommandView) -> (StateView, Seq<u8>) {
    match c {
        CommandView::Delete { key, noreply } => delete_effect(s, key, noreply),
        _ => (s, Seq::empty()),
    }
}

/// Handles `touch` at time `now`, on a store whose delayed
/// flushes due at `now` have been applied.
pub(crate) fn serve_touch(state: &mut State, command: Command, output: &mut Vec<u8>, now: u128)
    requires
        old(state).wf(),
    ensures
        final(state).wf(),
        final(state)@ == touch_outcome(old(state)@, command@, now).0,
        final(output)@ == old(output)@ + touch_outcome(old(state)@, command@, now).1,
{
    match command {
        Command::Touch { key, timeout, noreply } => {
            if !is_valid_key(key.as_slice()) {
                emit(output, &text::bad_format_line_bytes());
                return ;
            }
            let found = match state.get_key(key.as_slice()) {
                Some(existing) => {
                    let value = copy_range(existing.data.as_slice(), 0, existing.data.len());
                    Some(
                        Data {
                            data: value,
                            timeout: normalize_timeout_at(timeout, now),
                            flags: existing.flags,
                            time: now,
                            cas_unique: 0,
                        },
                    )
                },
                None => None,
            };
            match found {
                Some(data) => {
                    proof {
                        let v = old(state)@.items[key@].value;
                        assert(v.subrange(0, v.len() as int) =~= v);
                    }
                    state.set_key(key, data);
                    emit_reply(output, noreply, &text::touched_line_bytes());
                },
                None => {
                    emit_reply(output, noreply, &text::not_found_line_bytes());
                },
            }
        },
        _ => {
            assert(old(output)@ + Seq::<u8>::empty() =~= old(output)@);
        },
    }
}

/// Handles `touch` at time `now`: the delayed flushes due at `now` happen first.
pub fn handle_touch_at(state: &mut State, command: Command, output: &mut Vec<u8>, now: u128)
    requires
        old(state).wf(),
    ensures
        final(state).wf(),
        final(state)@ == touch_outcome(old(state)@.settled(now), command@, now).0,
        final(output)@ == old(output)@ + touch_outcome(old(state)@.settled(now), command@, now).1,
{
    state.settle(now);
    serve_touch(state, command, output, now);
}

/// Handles `touch` at the current time.
pub fn handle_touch(state: &mut State, command: Command, output: &mut Vec<u8>)
    requires
        old(state).wf(),
    ensures
        final(state).wf(),
        exists|now: u128|
            final(state)@ == #[trigger] touch_outcome(old(state)@.settled(now), command@, now).0 && final(output)@
                == old(output)@ + touch_outcome(old(state)@.settled(now), command@, now).1,
{
    let now = now_nanos();
    handle_touch_at(state, command, output, now);
}

/// Handles `delete` on a store whose delayed flushes have been applied.
pub(crate) fn serve_delete(state: &mut State, command: Command, output: &mut Vec<u8>)
    requires
        old(state).wf(),
    ensures
        final(state).wf(),
        final(state)@ == delete_outcome(old(state)@, command@).0,
        final(output)@ == old(output)@ + delete_outcome(old(state)@, command@).1,
{
    match command {
        Command::Delete { key, noreply } => {
            if !is_valid_key(key.as_slice()) {
                emit(output, &text::bad_format_line_bytes());
                return ;
            }
            if state.delete_key(key.as_slice()) {
                emit_reply(output, noreply, &text::deleted_line_bytes());
            } else {
                assert(old(state)@.items.remove(key@) =~= old(state)@.items);
                emit_reply(output, noreply, &text::not_found_line_bytes());
            }
        },
        _ => {
            assert(old(output)@ + Seq::<u8>::empty() =~= old(output)@);
        },
    }
}

/// Handles `delete` at time `now`: the delayed flushes due at `now` happen first.
pub fn handle_delete_at(state: &mut State, command: Command, output: &mut Vec<u8>, now: u128)
    requires
        old(state).wf(),
    ensures
        final(state).wf(),
        final(state)@ == delete_outcome(old(state)@.settled(now), command@).0,
        final(output)@ == old(output)@ + delete_outcome(old(state)@.settled(now), command@).1,
{
    state.settle(now);
    serve_delete(state, command, output);
}

/// Handles `delete` at the current time.
pub fn handle_delete(state: &mut State, command: Command, output: &mut Vec<u8>)
    requires
        old(state).wf(),
    ensures
        final(state).wf(),
        exists|now: u128|
            final(state)@ == #[trigger] delete_outcome(old(state)@.settled(now), command@).0
                && final(output)@ == old(output)@ + delete_outcome(old(state)@.settled(now), command@).1,
{
    let now = now_nanos();
    handle_delete_at(state, command, output, now);
}

} // verus!
