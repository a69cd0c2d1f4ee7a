//! `flush_all`, `stats` and `version`.

use vstd::prelude::*;
use crate::bytes::{append_decimal, decimal, emit};
use crate::clock::now_nanos;
use crate::command::{Command, CommandView};
use crate::handler::common::{elapsed_secs, emit_reply, reply};
use crate::state::{stored_bytes, State, StateView};
use crate::text;

verus! {

/// When a flush delayed by `delay` seconds from `now` is due (saturating).
pub open spec fn flush_deadline(now: u128, delay: u64) -> u128 {
    if now + delay * 1_000_000_000 > u128::MAX {
        u128::MAX
    } else {
        (now + delay * 1_000_000_000) as u128
    }
}

/// `flush_all`: with no delay every item goes at once; with a delay the flush is
/// recorded to happen when it is due.
pub open spec fn flush_all_effect(s: StateView, delay: u64, noreply: bool, now: u128) -> (
    StateView,
    Seq<u8>,
) {
    let s2 = if delay > 0 {
        StateView { flush_deadlines: s.flush_deadlines.push(flush_deadline(now, delay)), ..s }
    } else {
        s.emptied()
    };
    (s2, reply(noreply, text::ok_line()))
}

/// What `handle_flush_all_at` does with a command (anything but `flush_all` is ignored).
pub open spec fn flush_all_outcome(s: StateView, c: CommandView, now: u128) -> (StateView, Seq<u8>) {
    match c {
        CommandView::FlushAll { delay, noreply } => flush_all_effect(s, delay, noreply, now),
        _ => (s, Seq::empty()),
    }
}

/// Handles `flush_all` at time `now`, on a store whose delayed
/// flushes due at `now` have been applied.
pub(crate) fn serve_flush_all(state: &mut State, command: Command, output: &mut Vec<u8>, now: u128)
    requires
        old(state).wf(),
    ensures
        final(state).wf(),
        final(state)@ == flush_all_outcome(old(state)@, command@, now).0,
        final(output)@ == old(output)@ + flush_all_outcome(old(state)@, command@, now).1,
{
    match command {
        Command::FlushAll { delay, noreply } => {
            if delay > 0 {
                let wait: u128 = delay as u128 * 1_000_000_000;
                let deadline = now.saturating_add(wait);
                state.schedule_flush(deadline);
            } else {
                state.clear();
            }
            emit_reply(output, noreply, &text::ok_line_bytes());
        },
        _ => {
            assert(old(output)@ + Seq::<u8>::empty() =~= old(output)@);
        },
    }
}

/// Handles `flush_all` at time `now`: the delayed flushes due at `now` happen first.
pub fn handle_flush_all_at(state: &mut State, command: Command, output: &mut Vec<u8>, now: u128)
    requires
        old(state).wf(),
    ensures
        final(state).wf(),
        final(state)@ == flush_all_outcome(old(state)@.settled(now), command@, now).0,
        final(output)@ == old(output)@ + flush_all_outcome(old(state)@.settled(now), command@, now).1,
{
    state.settle(now);
    serve_flush_all(state, command, output, now);
}

/// Handles `flush_all` at the current time.
pub fn handle_flush_all(state: &mut State, command: Command, output: &mut Vec<u8>)
    requires
        old(state).wf(),
    ensures
        final(state).wf(),
        exists|now: u128|
            final(state)@ == #[trigger] flush_all_outcome(old(state)@.settled(now), command@, now).0
                && final(output)@ == old(output)@ + flush_all_outcome(old(state)@.settled(now), command@, now).1,
{
    let now = now_nanos();
    handle_flush_all_at(state, command, output, now);
}

/// `STAT <name> <value>\r\n`
pub open spec fn stat_line(name: Seq<u8>, value: Seq<u8>) -> Seq<u8> {
    text::stat_prefix() + name + text::space() + value + text::crlf()
}

/// Appends one statistics line.
pub fn write_stat(output: &mut Vec<u8>, key: &[u8], value: &[u8])
    ensures
        final(output)@ == old(output)@ + stat_line(key@, value@),
{
    emit(output, &text::stat_prefix_bytes());
    emit(output, key);
    emit(output, &text::space_bytes());
    emit(output, value);
    emit(output, &text::crlf_bytes());
    assert(final(output)@ =~= old(output)@ + stat_line(key@, value@));
}

/// Appends one statistics line whose value is a number.
fn write_stat_number(output: &mut Vec<u8>, key: &[u8], n: u128)
    ensures
        final(output)@ == old(output)@ + stat_line(key@, decimal(n as nat)),
{
    let mut digits: Vec<u8> = Vec::new();
    append_decimal(&mut digits, n);
    assert(digits@ =~= decimal(n as nat));
    write_stat(output, key, digits.as_slice());
}

/// The value bytes held, as a `usize` reports them (`usize::MAX` if they do not fit).
pub open spec fn reported_bytes(s: StateView) -> nat {
    if stored_bytes(s.items) <= usize::MAX {
        stored_bytes(s.items)
    } else {
        usize::MAX as nat
    }
}

/// The first lines of the statistics report: process, times, version, word size.
pub open spec fn stats_head(s: StateView, now: u128) -> Seq<u8> {
    stat_line(text::stat_pid(), decimal(s.process_id as nat)) + stat_line(
        text::stat_uptime(),
        decimal(elapsed_secs(now, s.start_time) as nat),
    ) + stat_line(text::stat_time(), decimal((now / 1_000_000_000) as nat)) + stat_line(
        text::tag_version(),
        text::server_version(),
    ) + stat_line(text::stat_pointer_size(), decimal(usize::BITS as nat))
}

/// The middle lines of the statistics report: items, bytes and connections.
pub open spec fn stats_items(s: StateView) -> Seq<u8> {
    stat_line(text::stat_curr_items(), decimal(s.items.len())) + stat_line(
        text::stat_total_items(),
        decimal(s.total_items as nat),
    ) + stat_line(text::stat_bytes(), decimal(reported_bytes(s))) + stat_line(
        text::stat_curr_connections(),
        text::zero(),
    ) + stat_line(text::stat_total_connections(), text::zero()) + stat_line(
        text::stat_connection_structures(),
        text::zero(),
    )
}

/// The last lines of the statistics report: command counters, then `END`.
pub open spec fn stats_tail(s: StateView) -> Seq<u8> {
    stat_line(text::stat_cmd_get(), decimal(s.cmd_get as nat)) + stat_line(
        text::stat_cmd_set(),
        decimal(s.cmd_set as nat),
    ) + stat_line(text::stat_get_hits(), decimal(s.get_hits as nat)) + stat_line(
        text::stat_get_misses(),
        decimal(s.get_misses as nat),
    ) + stat_line(text::stat_evictions(), text::zero()) + stat_line(
        text::stat_bytes_read(),
        text::zero(),
    ) + stat_line(text::stat_bytes_written(), text::zero()) + stat_line(
        text::stat_limit_maxbytes(),
        text::zero(),
    ) + text::end_line()
}

/// The general statistics report at `now`, ending with `END`.
pub open spec fn stats_report(s: StateView, now: u128) -> Seq<u8> {
    stats_head(s, now) + stats_items(s) + stats_tail(s)
}

fn write_stats_head(state: &State, output: &mut Vec<u8>, now: u128)
    requires
        state.wf(),
    ensures
        final(output)@ == old(output)@ + stats_head(state@, now),
{
    let uptime: u128 = if now >= state.start_time() {
        (now - state.start_time()) / 1_000_000_000
    } else {
        0
    };
    let ghost o0 = output@;
    write_stat_number(output, &text::stat_pid_bytes(), state.process_id() as u128);
    let ghost o1 = output@;
    write_stat_number(output, &text::stat_uptime_bytes(), uptime);
    let ghost o2 = output@;
    write_stat_number(output, &text::stat_time_bytes(), now / 1_000_000_000);
    let ghost o3 = output@;
    write_stat(output, &text::tag_version_bytes(), &text::server_version_bytes());
    let ghost o4 = output@;
    write_stat_number(output, &text::stat_pointer_size_bytes(), usize::BITS as u128);
    assert(output@ =~= o0 + stats_head(state@, now));
}

fn write_stats_items(state: &State, output: &mut Vec<u8>)
    requires
        state.wf(),
    ensures
        final(output)@ == old(output)@ + stats_items(state@),
{
    let ghost o0 = output@;
    write_stat_number(output, &text::stat_curr_items_bytes(), state.len() as u128);
    write_stat_number(output, &text::stat_total_items_bytes(), state.total_items() as u128);
    write_stat_number(output, &text::stat_bytes_bytes(), state.total_bytes() as u128);
    write_stat(output, &text::stat_curr_connections_bytes(), &text::zero_bytes());
    write_stat(output, &text::stat_total_connections_bytes(), &text::zero_bytes());
    write_stat(output, &text::stat_connection_structures_bytes(), &text::zero_bytes());
    assert(output@ =~= o0 + stats_items(state@));
}

fn write_stats_tail(state: &State, output: &mut Vec<u8>)
    requires
        state.wf(),
    ensures
        final(output)@ == old(output)@ + stats_tail(state@),
{
    let ghost o0 = output@;
    write_stat_number(output, &text::stat_cmd_get_bytes(), state.cmd_get() as u128);
    write_stat_number(output, &text::stat_cmd_set_bytes(), state.cmd_set() as u128);
    write_stat_number(output, &text::stat_get_hits_bytes(), state.get_hits() as u128);
    write_stat_number(output, &text::stat_get_misses_bytes(), state.get_misses() as u128);
    write_stat(output, &text::stat_evictions_bytes(), &text::zero_bytes());
    write_stat(output, &text::stat_bytes_read_bytes(), &text::zero_bytes());
    write_stat(output, &text::stat_bytes_written_bytes(), &text::zero_bytes());
    write_stat(output, &text::stat_limit_maxbytes_bytes(), &text::zero_bytes());
    emit(output, &text::end_line_bytes());
    assert(output@ =~= o0 + stats_tail(state@));
}

/// `stats`: with an argument just `END`; without, the general report.
pub open spec fn stats_effect(s: StateView, sub: Option<Seq<u8>>, now: u128) -> Seq<u8> {
    match sub {
        Some(_) => text::end_line(),
        None => stats_report(s, now),
    }
}

/// What `handle_stats_at` writes for a command (anything but `stats` is ignored).
pub open spec fn stats_outcome(s: StateView, c: CommandView, now: u128) -> Seq<u8> {
    match c {
        CommandView::Stats { sub } => stats_effect(s, sub, now),
        _ => Seq::empty(),
    }
}

/// Handles `stats` at time `now` on a store whose delayed flushes have been
/// applied; the state is left as it was.
pub(crate) fn serve_stats(state: &State, command: Command, output: &mut Vec<u8>, now: u128)
    requires
        state.wf(),
    ensures
        final(output)@ == old(output)@ + stats_outcome(state@, command@, now),
{
    match command {
        Command::Stats { sub } => {
            if sub.is_some() {
                emit(output, &text::end_line_bytes());
                return ;
            }
            let ghost start = old(output)@;
            write_stats_head(state, output, now);
            write_stats_items(state, output);
            write_stats_tail(state, output);
            assert(output@ =~= start + stats_report(state@, now));
        },
        _ => {
            assert(old(output)@ + Seq::<u8>::empty() =~= old(output)@);
        },
    }
}

/// Handles `stats` at time `now`: the delayed flushes due at `now` happen first,
/// and nothing else changes.
pub fn handle_stats_at(state: &mut State, command: Command, output: &mut Vec<u8>, now: u128)
    requires
        old(state).wf(),
    ensures
        final(state).wf(),
        final(state)@ == old(state)@.settled(now),
        final(output)@ == old(output)@ + stats_outcome(old(state)@.settled(now), command@, now),
{
    state.settle(now);
    serve_stats(state, command, output, now);
}

/// Handles `stats` at the current time.
pub fn handle_stats(state: &mut State, command: Command, output: &mut Vec<u8>)
    requires
        old(state).wf(),
    ensures
        final(state).wf(),
        exists|now: u128|
            final(state)@ == #[trigger] old(state)@.settled(now) && final(output)@ == old(output)@
                + stats_outcome(old(state)@.settled(now), command@, now),
{
    let now = now_nanos();
    handle_stats_at(state, command, output, now);
}

/// Writes the `version` reply.
pub fn handle_version(output: &mut Vec<u8>)
    ensures
        final(output)@ == old(output)@ + text::version_line(),
{
    emit(output, &text::version_line_bytes());
}

} // verus!
