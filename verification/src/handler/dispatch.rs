//! Routing a command to its handler.

use vstd::prelude::*;
use crate::bytes::emit;
use crate::clock::now_nanos;
use crate::command::{Command, CommandView};
use crate::handler::admin::{
    flush_all_outcome, handle_version, serve_flush_all, serve_stats, stats_outcome,
};
use crate::handler::arith::{decr_outcome, incr_outcome, serve_decr, serve_incr};
use crate::handler::keyed::{delete_outcome, serve_delete, serve_touch, touch_outcome};
use crate::handler::retrieval::{
    gat_outcome, gats_outcome, get_outcome, gets_outcome, serve_gat, serve_gats, serve_get,
    serve_gets,
};
use crate::handler::storage::{
    add_outcome, append_outcome, cas_outcome, prepend_outcome, replace_outcome, serve_add,
    serve_append, serve_cas, serve_prepend, serve_replace, serve_set, set_outcome,
};
use crate::state::{State, StateView};
use crate::text;

verus! {

/// The state and reply of each command; `ERROR` for anything that is no command
/// the server serves (malformed and unknown lines, and `quit` when it gets here).
#[verifier::opaque]
pub open spec fn dispatch(s: StateView, c: CommandView, now: u128) -> (StateView, Seq<u8>) {
    match c {
        CommandView::Version => (s, text::version_line()),
        CommandView::SetItem { .. } => set_outcome(s, c, now),
        CommandView::Add { .. } => add_outcome(s, c, now),
        CommandView::Replace { .. } => replace_outcome(s, c, now),
        CommandView::Append { .. } => append_outcome(s, c, now),
        CommandView::Prepend { .. } => prepend_outcome(s, c, now),
        CommandView::Cas { .. } => cas_outcome(s, c, now),
        CommandView::Get { .. } => get_outcome(s, c, now),
        CommandView::Gets { .. } => gets_outcome(s, c, now),
        CommandView::Gat { .. } => gat_outcome(s, c, now),
        CommandView::Gats { .. } => gats_outcome(s, c, now),
        CommandView::Incr { .. } => incr_outcome(s, c, now),
        CommandView::Decr { .. } => decr_outcome(s, c, now),
        CommandView::Touch { .. } => touch_outcome(s, c, now),
        CommandView::Delete { .. } => delete_outcome(s, c),
        CommandView::FlushAll { .. } => flush_all_outcome(s, c, now),
        CommandView::Stats { .. } => (s, stats_outcome(s, c, now)),
        _ => (s, text::error_line()),
    }
}

/// What one command does at `now`: the delayed flushes that are due happen first.
pub open spec fn command_outcome(s: StateView, c: CommandView, now: u128) -> (StateView, Seq<u8>) {
    dispatch(s.settled(now), c, now)
}

/// Handles one command at time `now`.
pub fn handle_command_at(state: &mut State, command: Command, output: &mut Vec<u8>, now: u128)
    requires
        old(state).wf(),
    ensures
        final(state).wf(),
        final(state)@ == command_outcome(old(state)@, command@, now).0,
        final(output)@ == old(output)@ + command_outcome(old(state)@, command@, now).1,
{
    reveal(dispatch);
    state.settle(now);
    match command {
        Command::Version => handle_version(output),
        Command::SetItem { .. } => serve_set(state, command, output, now),
        Command::Add { .. } => serve_add(state, command, output, now),
        Command::Replace { .. } => serve_replace(state, command, output, now),
        Command::Append { .. } => serve_append(state, command, output, now),
        Command::Prepend { .. } => serve_prepend(state, command, output, now),
        Command::Cas { .. } => serve_cas(state, command, output, now),
        Command::Get { .. } => serve_get(state, command, output, now),
        Command::Gets { .. } => serve_gets(state, command, output, now),
        Command::Gat { .. } => serve_gat(state, command, output, now),
        Command::Gats { .. } => serve_gats(state, command, output, now),
        Command::Incr { .. } => serve_incr(state, command, output, now),
        Command::Decr { .. } => serve_decr(state, command, output, now),
        Command::Touch { .. } => serve_touch(state, command, output, now),
        Command::Delete { .. } => serve_delete(state, command, output),
        Command::FlushAll { .. } => serve_flush_all(state, command, output, now),
        Command::Stats { .. } => serve_stats(state, command, output, now),
        _ => emit(output, &text::error_line_bytes()),
    }
}

/// Handles one command at the current time.
pub fn handle_command(state: &mut State, command: Command, output: &mut Vec<u8>)
    requires
        old(state).wf(),
    ensures
        final(state).wf(),
        exists|now: u128|
            final(state)@ == #[trigger] command_outcome(old(state)@, command@, now).0
                && final(output)@ == old(output)@ + command_outcome(old(state)@, command@, now).1,
{
    let now = now_nanos();
    handle_command_at(state, command, output, now);
}

} // verus!
