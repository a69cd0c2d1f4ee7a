//! The storage commands: `set`, `add`, `replace`, `append`, `prepend` and `cas`.

use vstd::prelude::*;
use crate::bytes::{copy_range, emit};
use crate::clock::now_nanos;
use crate::command::{Command, CommandView};
use crate::handler::common::{
    emit_reply, is_valid_key, normalize_timeout_at, normalized_timeout, reply, valid_key,
};
use crate::state::{lemma_settled_fresh, lemma_with_item_fresh, Data, ItemView, State, StateView};
use crate::text;

verus! {

/// The item that a storage command writes.
pub open spec fn new_item(value: Seq<u8>, timeout: i64, flags: i32, now: u128) -> ItemView {
    ItemView { value, timeout, flags, time: now, cas: 0 }
}

/// `set`: stores the value (with its expiration normalized) and counts the item.
pub open spec fn set_effect(
    s: StateView,
    key: Seq<u8>,
    flags: i32,
    timeout: i64,
    noreply: bool,
    value: Seq<u8>,
    now: u128,
) -> (StateView, Seq<u8>) {
    if !valid_key(key) {
        (s, text::bad_format_line())
    } else {
        (
            s.with_item(key, new_item(value, normalized_timeout(timeout, now), flags, now)).counted(),
            reply(noreply, text::stored_line()),
        )
    }
}

/// `add`: like `set`, but only when the key holds no item (alive or not).
pub open spec fn add_effect(
    s: StateView,
    key: Seq<u8>,
    flags: i32,
    timeout: i64,
    noreply: bool,
    value: Seq<u8>,
    now: u128,
) -> (StateView, Seq<u8>) {
    if !valid_key(key) {
        (s, text::bad_format_line())
    } else if s.items.contains_key(key) {
        (s, reply(noreply, text::not_stored_line()))
    } else {
        set_effect(s, key, flags, timeout, noreply, value, now)
    }
}

/// `replace`: stores the value only when the key holds an item; not counted.
pub open spec fn replace_effect(
    s: StateView,
    key: Seq<u8>,
    flags: i32,
    timeout: i64,
    noreply: bool,
    value: Seq<u8>,
    now: u128,
) -> (StateView, Seq<u8>) {
    if !valid_key(key) {
        (s, text::bad_format_line())
    } else if !s.items.contains_key(key) {
        (s, reply(noreply, text::not_stored_line()))
    } else {
        (
            s.with_item(key, new_item(value, normalized_timeout(timeout, now), flags, now)),
            reply(noreply, text::stored_line()),
        )
    }
}

/// `append`: adds the value after the stored one, keeping its flags and expiration.
/// Only the key's length is checked.
pub open spec fn append_effect(s: StateView, key: Seq<u8>, noreply: bool, value: Seq<u8>, now: u128) -> (
    StateView,
    Seq<u8>,
) {
    if key.len() > 250 {
        (s, text::bad_format_line())
    } else if s.items.contains_key(key) {
        let old = s.items[key];
        (
            s.with_item(key, new_item(old.value + value, old.timeout, old.flags, now)),
            reply(noreply, text::stored_line()),
        )
    } else {
        (s, reply(noreply, text::not_stored_line()))
    }
}

/// `prepend`: adds the value before the stored one, keeping its flags and
/// expiration, and counts the item.
pub open spec fn prepend_effect(s: StateView, key: Seq<u8>, noreply: bool, value: Seq<u8>, now: u128) -> (
    StateView,
    Seq<u8>,
) {
    if !valid_key(key) {
        (s, text::bad_format_line())
    } else if s.items.contains_key(key) {
        let old = s.items[key];
        (
            s.with_item(key, new_item(value + old.value, old.timeout, old.flags, now)).counted(),
            reply(noreply, text::stored_line()),
        )
    } else {
        (s, reply(noreply, text::not_stored_line()))
    }
}

/// `cas`: stores the value only when the key holds an item whose token is
/// `cas_unique`; `EXISTS` when the token differs, `NOT_FOUND` when there is no item.
pub open spec fn cas_effect(
    s: StateView,
    key: Seq<u8>,
    flags: i32,
    timeout: i64,
    noreply: bool,
    value: Seq<u8>,
    cas_unique: u64,
    now: u128,
) -> (StateView, Seq<u8>) {
    if !valid_key(key) {
        (s, text::bad_format_line())
    } else if !s.items.contains_key(key) {
        (s, reply(noreply, text::not_found_line()))
    } else if s.items[key].cas != cas_unique {
        (s, reply(noreply, text::exists_line()))
    } else {
        set_effect(s, key, flags, timeout, noreply, value, now)
    }
}

/// What `handle_set_at` does with a command (anything but `set` is ignored).
pub open spec fn set_outcome(s: StateView, c: CommandView, now: u128) -> (StateView, Seq<u8>) {
    match c {
        CommandView::SetItem { key, flags, timeout, noreply, value, .. } => set_effect(
            s,
            key,
            flags,
            timeout,
            noreply,
            value,
            now,
        ),
        _ => (s, Seq::empty()),
    }
}

/// What `handle_add_at` does with a command (anything but `add` is ignored).
pub open spec fn add_outcome(s: StateView, c: CommandView, now: u128) -> (StateView, Seq<u8>) {
    match c {
        CommandView::Add { key, flags, timeout, noreply, value, .. } => add_effect(
            s,
            key,
            flags,
            timeout,
            noreply,
            value,
            now,
        ),
        _ => (s, Seq::empty()),
    }
}

/// What `handle_replace_at` does with a command (anything but `replace` is ignored).
pub open spec fn replace_outcome(s: StateView, c: CommandView, now: u128) -> (StateView, Seq<u8>) {
    match c {
        CommandView::Replace { key, flags, timeout, noreply, value, .. } => replace_effect(
            s,
            key,
            flags,
            timeout,
            noreply,
            value,
            now,
        ),
        _ => (s, Seq::empty()),
    }
}

/// What `handle_append_at` does with a command (anything but `append` is ignored).
pub open spec fn append_outcome(s: StateView, c: CommandView, now: u128) -> (StateView, Seq<u8>) {
    match c {
        CommandView::Append { key, noreply, value, .. } => append_effect(s, key, noreply, value, now),
        _ => (s, Seq::empty()),
    }
}

/// What `handle_prepend_at` does with a command (anything but `prepend` is ignored).
pub open spec fn prepend_outcome(s: StateView, c: CommandView, now: u128) -> (StateView, Seq<u8>) {
    match c {
        CommandView::Prepend { key, noreply, value, .. } => prepend_effect(
            s,
            key,
            noreply,
            value,
            now,
        ),
        _ => (s, Seq::empty()),
    }
}

/// What `handle_cas_at` does with a command (anything but `cas` is ignored).
pub open spec fn cas_outcome(s: StateView, c: CommandView, now: u128) -> (StateView, Seq<u8>) {
    match c {
        CommandView::Cas { key, flags, timeout, noreply, value, cas_unique, .. } => cas_effect(
            s,
            key,
            flags,
            timeout,
            noreply,
            value,
            cas_unique,
            now,
        ),
        _ => (s, Seq::empty()),
    }
}

/// Stores a new item and counts it.
fn store_counted(
    state: &mut State,
    key: Vec<u8>,
    flags: i32,
    timeout: i64,
    noreply: bool,
    value: Vec<u8>,
    now: u128,
    output: &mut Vec<u8>,
)
    requires
        old(state).wf(),
        valid_key(key@),
    ensures
        final(state).wf(),
        (final(state)@, final(output)@) == (
            set_effect(old(state)@, key@, flags, timeout, noreply, value@, now).0,
            old(output)@ + set_effect(old(state)@, key@, flags, timeout, noreply, value@, now).1,
        ),
{
    let data = Data {
        data: value,
        timeout: normalize_timeout_at(timeout, now),
        flags,
        time: now,
        cas_unique: 0,
    };
    state.set_key(key, data);
    state.increment_total_items();
    emit_reply(output, noreply, &text::stored_line_bytes());
}

/// Handles `set` at time `now`, on a store whose delayed
/// flushes due at `now` have been applied.
pub(crate) fn serve_set(state: &mut State, command: Command, output: &mut Vec<u8>, now: u128)
    requires
        old(state).wf(),
    ensures
        final(state).wf(),
        final(state)@ == set_outcome(old(state)@, command@, now).0,
        final(output)@ == old(output)@ + set_outcome(old(state)@, command@, now).1,
        old(state)@.tokens_fresh() && old(state)@.next_cas < u64::MAX ==> final(state)@.tokens_fresh(),
        command@ matches CommandView::SetItem { key, .. } ==> valid_key(key)
            && old(state)@.tokens_fresh() && old(state)@.next_cas < u64::MAX ==> forall|k: Seq<u8>|
            #[trigger] old(state)@.items.contains_key(k) ==> old(state)@.items[k].cas
                < final(state)@.items[key].cas,
{
    proof {
        if old(state)@.tokens_fresh() && old(state)@.next_cas < u64::MAX {
            if let CommandView::SetItem { key, flags, timeout, value, .. } = command@ {
                lemma_with_item_fresh(
                    old(state)@,
                    key,
                    new_item(value, normalized_timeout(timeout, now), flags, now),
                );
            }
        }
    }
    match command {
        Command::SetItem { key, flags, timeout, noreply, value, value_size: _ } => {
            if !is_valid_key(key.as_slice()) {
                emit(output, &text::bad_format_line_bytes());
                return ;
            }
            store_counted(state, key, flags, timeout, noreply, value, now, output);
        },
        _ => {
            assert(old(output)@ + Seq::<u8>::empty() =~= old(output)@);
        },
    }
}

/// Handles `add` at time `now`, on a store whose delayed
/// flushes due at `now` have been applied.
pub(crate) fn serve_add(state: &mut State, command: Command, output: &mut Vec<u8>, now: u128)
    requires
        old(state).wf(),
    ensures
        final(state).wf(),
        final(state)@ == add_outcome(old(state)@, command@, now).0,
        final(output)@ == old(output)@ + add_outcome(old(state)@, command@, now).1,
{
    match command {
        Command::Add { key, flags, timeout, noreply, value, value_size: _ } => {
            if !is_valid_key(key.as_slice()) {
                emit(output, &text::bad_format_line_bytes());
                return ;
            }
            if state.get_key(key.as_slice()).is_some() {
                emit_reply(output, noreply, &text::not_stored_line_bytes());
            } else {
                store_counted(state, key, flags, timeout, noreply, value, now, output);
            }
        },
        _ => {
            assert(old(output)@ + Seq::<u8>::empty() =~= old(output)@);
        },
    }
}

/// Handles `replace` at time `now`, on a store whose delayed
/// flushes due at `now` have been applied.
pub(crate) fn serve_replace(state: &mut State, command: Command, output: &mut Vec<u8>, now: u128)
    requires
        old(state).wf(),
    ensures
        final(state).wf(),
        final(state)@ == replace_outcome(old(state)@, command@, now).0,
        final(output)@ == old(output)@ + replace_outcome(old(state)@, command@, now).1,
{
    match command {
        Command::Replace { key, flags, timeout, noreply, value, value_size: _ } => {
            if !is_valid_key(key.as_slice()) {
                emit(output, &text::bad_format_line_bytes());
                return ;
            }
            if state.get_key(key.as_slice()).is_none() {
                emit_reply(output, noreply, &text::not_stored_line_bytes());
            } else {
                let data = Data {
                    data: value,
                    timeout: normalize_timeout_at(timeout, now),
                    flags,
                    time: now,
                    cas_unique: 0,
                };
                state.set_key(key, data);
                emit_reply(output, noreply, &text::stored_line_bytes());
            }
        },
        _ => {
            assert(old(output)@ + Seq::<u8>::empty() =~= old(output)@);
        },
    }
}

/// Handles `append` at time `now`, on a store whose delayed
/// flushes due at `now` have been applied.
pub(crate) fn serve_append(state: &mut State, command: Command, output: &mut Vec<u8>, now: u128)
    requires
        old(state).wf(),
    ensures
        final(state).wf(),
        final(state)@ == append_outcome(old(state)@, command@, now).0,
        final(output)@ == old(output)@ + append_outcome(old(state)@, command@, now).1,
{
    match command {
        Command::Append { key, noreply, value, .. } => {
            if key.len() > 250 {
                emit(output, &text::bad_format_line_bytes());
                return ;
            }
            let found = match state.get_key(key.as_slice()) {
                Some(existing) => {
                    let mut new_data = copy_range(existing.data.as_slice(), 0, existing.data.len());
                    emit(&mut new_data, value.as_slice());
                    Some(
                        Data {
                            data: new_data,
                            timeout: existing.timeout,
                            flags: existing.flags,
                            time: now,
                            cas_unique: 0,
                        },
                    )
                },
                None => None,
            };
            match found {
                Some(data) => {
                    proof {
                        assert(old(state)@.items[key@].value.subrange(
                            0,
                            old(state)@.items[key@].value.len() as int,
                        ) =~= old(state)@.items[key@].value);
                    }
                    state.set_key(key, data);
                    emit_reply(output, noreply, &text::stored_line_bytes());
                },
                None => {
                    emit_reply(output, noreply, &text::not_stored_line_bytes());
                },
            }
        },
        _ => {
            assert(old(output)@ + Seq::<u8>::empty() =~= old(output)@);
        },
    }
}

/// Handles `prepend` at time `now`, on a store whose delayed
/// flushes due at `now` have been applied.
pub(crate) fn serve_prepend(state: &mut State, command: Command, output: &mut Vec<u8>, now: u128)
    requires
        old(state).wf(),
    ensures
        final(state).wf(),
        final(state)@ == prepend_outcome(old(state)@, command@, now).0,
        final(output)@ == old(output)@ + prepend_outcome(old(state)@, command@, now).1,
{
    match command {
        Command::Prepend { key, noreply, value, .. } => {
            if !is_valid_key(key.as_slice()) {
                emit(output, &text::bad_format_line_bytes());
                return ;
            }
            let found = match state.get_key(key.as_slice()) {
                Some(existing) => {
                    let mut new_data = value;
                    emit(&mut new_data, existing.data.as_slice());
                    Some(
                        Data {
                            data: new_data,
                            timeout: existing.timeout,
                            flags: existing.flags,
                            time: now,
                            cas_unique: 0,
                        },
                    )
                },
                None => None,
            };
            match found {
                Some(data) => {
                    state.set_key(key, data);
                    state.increment_total_items();
                    emit_reply(output, noreply, &text::stored_line_bytes());
                },
                None => {
                    emit_reply(output, noreply, &text::not_stored_line_bytes());
                },
            }
        },
        _ => {
            assert(old(output)@ + Seq::<u8>::empty() =~= old(output)@);
        },
    }
}

/// Handles `cas` at time `now`, on a store whose delayed
/// flushes due at `now` have been applied.
pub(crate) fn serve_cas(state: &mut State, command: Command, output: &mut Vec<u8>, now: u128)
    requires
        old(state).wf(),
    ensures
        final(state).wf(),
        final(state)@ == cas_outcome(old(state)@, command@, now).0,
        final(output)@ == old(output)@ + cas_outcome(old(state)@, command@, now).1,
{
    match command {
        Command::Cas { key, flags, timeout, noreply, value, value_size: _, cas_unique } => {
            if !is_valid_key(key.as_slice()) {
                emit(output, &text::bad_format_line_bytes());
                return ;
            }
            match state.get_cas(key.as_slice()) {
                None => {
                    emit_reply(output, noreply, &text::not_found_line_bytes());
                },
                Some(current) => {
                    if current != cas_unique {
                        emit_reply(output, noreply, &text::exists_line_bytes());
                    } else {
                        store_counted(state, key, flags, timeout, noreply, value, now, output);
                    }
                },
            }
        },
        _ => {
            assert(old(output)@ + Seq::<u8>::empty() =~= old(output)@);
        },
    }
}

/// Handles `set` at time `now`: the delayed flushes due at `now` happen first.
pub fn handle_set_at(state: &mut State, command: Command, output: &mut Vec<u8>, now: u128)
    requires
        old(state).wf(),
    ensures
        final(state).wf(),
        final(state)@ == set_outcome(old(state)@.settled(now), command@, now).0,
        final(output)@ == old(output)@ + set_outcome(old(state)@.settled(now), command@, now).1,
        old(state)@.tokens_fresh() && old(state)@.next_cas < u64::MAX ==> final(state)@.tokens_fresh(),
        command@ matches CommandView::SetItem { key, .. } ==> valid_key(key)
            && old(state)@.tokens_fresh() && old(state)@.next_cas < u64::MAX ==> forall|k: Seq<u8>|
            #[trigger] old(state)@.items.contains_key(k) ==> old(state)@.items[k].cas
                < final(state)@.items[key].cas,
{
    proof {
        if old(state)@.tokens_fresh() {
            lemma_settled_fresh(old(state)@, now);
        }
    }
    state.settle(now);
    serve_set(state, command, output, now);
}

/// Handles `set` at the current time.
pub fn handle_set(state: &mut State, command: Command, output: &mut Vec<u8>)
    requires
        old(state).wf(),
    ensures
        final(state).wf(),
        exists|now: u128|
            final(state)@ == #[trigger] set_outcome(old(state)@.settled(now), command@, now).0 && final(output)@
                == old(output)@ + set_outcome(old(state)@.settled(now), command@, now).1,
        old(state)@.tokens_fresh() && old(state)@.next_cas < u64::MAX ==> final(state)@.tokens_fresh(),
        command@ matches CommandView::SetItem { key, .. } ==> valid_key(key)
            && old(state)@.tokens_fresh() && old(state)@.next_cas < u64::MAX ==> forall|k: Seq<u8>|
            #[trigger] old(state)@.items.contains_key(k) ==> old(state)@.items[k].cas
                < final(state)@.items[key].cas,
{
    let now = now_nanos();
    handle_set_at(state, command, output, now);
}

/// Handles `add` at time `now`: the delayed flushes due at `now` happen first.
pub fn handle_add_at(state: &mut State, command: Command, output: &mut Vec<u8>, now: u128)
    requires
        old(state).wf(),
    ensures
        final(state).wf(),
        final(state)@ == add_outcome(old(state)@.settled(now), command@, now).0,
        final(output)@ == old(output)@ + add_outcome(old(state)@.settled(now), command@, now).1,
{
    state.settle(now);
    serve_add(state, command, output, now);
}

/// Handles `add` at the current time.
pub fn handle_add(state: &mut State, command: Command, output: &mut Vec<u8>)
    requires
        old(state).wf(),
    ensures
        final(state).wf(),
        exists|now: u128|
            final(state)@ == #[trigger] add_outcome(old(state)@.settled(now), command@, now).0 && final(output)@
                == old(output)@ + add_outcome(old(state)@.settled(now), command@, now).1,
{
    let now = now_nanos();
    handle_add_at(state, command, output, now);
}

/// Handles `replace` at time `now`: the delayed flushes due at `now` happen first.
pub fn handle_replace_at(state: &mut State, command: Command, output: &mut Vec<u8>, now: u128)
    requires
        old(state).wf(),
    ensures
        final(state).wf(),
        final(state)@ == replace_outcome(old(state)@.settled(now), command@, now).0,
        final(output)@ == old(output)@ + replace_outcome(old(state)@.settled(now), command@, now).1,
{
    state.settle(now);
    serve_replace(state, command, output, now);
}

/// Handles `replace` at the current time.
pub fn handle_replace(state: &mut State, command: Command, output: &mut Vec<u8>)
    requires
        old(state).wf(),
    ensures
        final(state).wf(),
        exists|now: u128|
            final(state)@ == #[trigger] replace_outcome(old(state)@.settled(now), command@, now).0
                && final(output)@ == old(output)@ + replace_outcome(old(state)@.settled(now), command@, now).1,
{
    let now = now_nanos();
    handle_replace_at(state, command, output, now);
}

/// Handles `append` at time `now`: the delayed flushes due at `now` happen first.
pub fn handle_append_at(state: &mut State, command: Command, output: &mut Vec<u8>, now: u128)
    requires
        old(state).wf(),
    ensures
        final(state).wf(),
        final(state)@ == append_outcome(old(state)@.settled(now), command@, now).0,
        final(output)@ == old(output)@ + append_outcome(old(state)@.settled(now), command@, now).1,
{
    state.settle(now);
    serve_append(state, command, output, now);
}

/// Handles `append` at the current time.
pub fn handle_append(state: &mut State, command: Command, output: &mut Vec<u8>)
    requires
        old(state).wf(),
    ensures
        final(state).wf(),
        exists|now: u128|
            final(state)@ == #[trigger] append_outcome(old(state)@.settled(now), command@, now).0
                && final(output)@ == old(output)@ + append_outcome(old(state)@.settled(now), command@, now).1,
{
    let now = now_nanos();
    handle_append_at(state, command, output, now);
}

/// Handles `prepend` at time `now`: the delayed flushes due at `now` happen first.
pub fn handle_prepend_at(state: &mut State, command: Command, output: &mut Vec<u8>, now: u128)
    requires
        old(state).wf(),
    ensures
        final(state).wf(),
        final(state)@ == prepend_outcome(old(state)@.settled(now), command@, now).0,
        final(output)@ == old(output)@ + prepend_outcome(old(state)@.settled(now), command@, now).1,
{
    state.settle(now);
    serve_prepend(state, command, output, now);
}

/// Handles `prepend` at the current time.
pub fn handle_prepend(state: &mut State, command: Command, output: &mut Vec<u8>)
    requires
        old(state).wf(),
    ensures
        final(state).wf(),
        exists|now: u128|
            final(state)@ == #[trigger] prepend_outcome(old(state)@.settled(now), command@, now).0
                && final(output)@ == old(output)@ + prepend_outcome(old(state)@.settled(now), command@, now).1,
{
    let now = now_nanos();
    handle_prepend_at(state, command, output, now);
}

/// Handles `cas` at time `now`: the delayed flushes due at `now` happen first.
pub fn handle_cas_at(state: &mut State, command: Command, output: &mut Vec<u8>, now: u128)
    requires
        old(state).wf(),
    ensures
        final(state).wf(),
        final(state)@ == cas_outcome(old(state)@.settled(now), command@, now).0,
        final(output)@ == old(output)@ + cas_outcome(old(state)@.settled(now), command@, now).1,
{
    state.settle(now);
    serve_cas(state, command, output, now);
}

/// Handles `cas` at the current time.
pub fn handle_cas(state: &mut State, command: Command, output: &mut Vec<u8>)
    requires
        old(state).wf(),
    ensures
        final(state).wf(),
        exists|now: u128|
            final(state)@ == #[trigger] cas_outcome(old(state)@.settled(now), command@, now).0 && final(output)@
                == old(output)@ + cas_outcome(old(state)@.settled(now), command@, now).1,
{
    let now = now_nanos();
    handle_cas_at(state, command, output, now);
}

} // verus!
