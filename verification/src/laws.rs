//! Properties of the protocol as a whole, over what the command handlers do
//! (`command_outcome`) and what a connection's bytes do (`run_spec`).

use vstd::prelude::*;
use crate::bytes::{all_digits, crlf_at, decimal, first_crlf, lemma_decimal_round_trip, strict_prefix_of};
use crate::command::CommandView;
use crate::handler::admin::flush_deadline;
use crate::handler::arith::counter_value;
use crate::handler::common::{elapsed_secs, normalized_timeout, reply, valid_key, value_line};
use crate::handler::dispatch::{command_outcome, dispatch};
use crate::handler::common::is_live;
use crate::handler::retrieval::{
    any_live, gat_effect, item_line, lemma_touch_run, read_lines, touch_run, touch_step,
};
use crate::parser::{keyword_prefixed, parse_spec, ParseOutcome};
use crate::session::{buffered_spec, parses_through, run_spec};
use crate::state::{later_deadlines, lemma_with_item_fresh, some_due, ItemView, StateView};
use crate::text;

verus! {

/// Nothing is due at `t1` when nothing is due at a later `t2`.
proof fn lemma_not_due_earlier(d: Seq<u128>, t1: u128, t2: u128)
    requires
        t1 <= t2,
        !some_due(d, t2),
    ensures
        !some_due(d, t1),
{
    if some_due(d, t1) {
        let i = choose|i: int| 0 <= i < d.len() && d[i] <= t1;
        assert(d[i] <= t2);
    }
}

/// The reply of a `get` of a single key.
proof fn lemma_single_read(s: StateView, key: Seq<u8>, now: u128, with_cas: bool)
    ensures
        read_lines(s, seq![key], now, with_cas) == if s.items.contains_key(key)
            && crate::handler::common::is_live(s.items[key], now) {
            (item_line(key, s.items[key], with_cas), true)
        } else {
            (Seq::<u8>::empty(), false)
        },
{
    assert(seq![key].drop_last() =~= Seq::<Seq<u8>>::empty());
    assert(seq![key].last() == key);
    assert(read_lines(s, Seq::<Seq<u8>>::empty(), now, with_cas) == (Seq::<u8>::empty(), false));
    assert(Seq::<u8>::empty() + item_line(key, s.items[key], with_cas) =~= item_line(
        key,
        s.items[key],
        with_cas,
    ));
}

/// A value that `set` stores is what a later `get` of its key returns, as long as
/// its expiration (0 for never, or a relative number of seconds) has not passed
/// and no delayed flush has come due.
pub proof fn law_get_after_set(
    s: StateView,
    key: Seq<u8>,
    flags: i32,
    timeout: i64,
    noreply: bool,
    value: Seq<u8>,
    value_size: u32,
    t1: u128,
    t2: u128,
)
    requires
        valid_key(key),
        0 <= timeout <= 2_592_000,
        timeout == 0 || elapsed_secs(t2, t1) < timeout,
        t1 <= t2,
        !some_due(s.flush_deadlines, t2),
    ensures
        ({
            let s1 = command_outcome(
                s,
                CommandView::SetItem { key, flags, timeout, noreply, value, value_size },
                t1,
            ).0;
            command_outcome(s1, CommandView::Get { keys: seq![key] }, t2).1 == value_line(
                key,
                flags,
                value,
            ) + text::end_line()
        }),
{
    reveal(dispatch);
    lemma_not_due_earlier(s.flush_deadlines, t1, t2);
    let s1 = command_outcome(
        s,
        CommandView::SetItem { key, flags, timeout, noreply, value, value_size },
        t1,
    ).0;
    assert(s1.items.contains_key(key));
    lemma_single_read(s1, key, t2, false);
}

/// A value stored with a relative expiration is gone once that many seconds have
/// passed: a `get` of its key then finds nothing.
pub proof fn law_get_after_expiry(
    s: StateView,
    key: Seq<u8>,
    flags: i32,
    timeout: i64,
    noreply: bool,
    value: Seq<u8>,
    value_size: u32,
    t1: u128,
    t2: u128,
)
    requires
        valid_key(key),
        0 < timeout <= 2_592_000,
        elapsed_secs(t2, t1) >= timeout,
        !some_due(s.flush_deadlines, t2),
    ensures
        ({
            let s1 = command_outcome(
                s,
                CommandView::SetItem { key, flags, timeout, noreply, value, value_size },
                t1,
            ).0;
            command_outcome(s1, CommandView::Get { keys: seq![key] }, t2).1 == text::end_line()
        }),
{
    reveal(dispatch);
    let s0 = s.settled(t1);
    let s1 = command_outcome(
        s,
        CommandView::SetItem { key, flags, timeout, noreply, value, value_size },
        t1,
    ).0;
    assert(!some_due(s1.flush_deadlines, t2)) by {
        if some_due(s.flush_deadlines, t1) {
            lemma_later_deadlines_not_due(s.flush_deadlines, t1, t2);
        }
    }
    lemma_single_read(s1, key, t2, false);
    assert(Seq::<u8>::empty() + text::end_line() =~= text::end_line());
}

/// The deadlines kept after a settlement hold no new due ones beyond those of the list.
proof fn lemma_later_deadlines_not_due(d: Seq<u128>, t1: u128, t2: u128)
    requires
        !some_due(d, t2),
    ensures
        !some_due(later_deadlines(d, t1), t2),
    decreases d.len(),
{
    if d.len() > 0 {
        let init = d.drop_last();
        assert(!some_due(init, t2)) by {
            if some_due(init, t2) {
                let i = choose|i: int| 0 <= i < init.len() && init[i] <= t2;
                assert(d[i] == init[i]);
            }
        }
        lemma_later_deadlines_not_due(init, t1, t2);
        assert(d[d.len() - 1] == d.last());
        if d.last() > t1 {
            let l = later_deadlines(init, t1).push(d.last());
            if some_due(l, t2) {
                let i = choose|i: int| 0 <= i < l.len() && l[i] <= t2;
                if i < l.len() - 1 {
                    assert(l[i] == later_deadlines(init, t1)[i]);
                }
            }
        }
    }
}

/// Storing an item twice gives it two different `cas` tokens, so a token read
/// before an update no longer matches after it.
pub proof fn law_store_changes_token(
    s: StateView,
    key: Seq<u8>,
    flags: i32,
    timeout: i64,
    noreply: bool,
    first: Seq<u8>,
    second: Seq<u8>,
    n1: u32,
    n2: u32,
    t1: u128,
    t2: u128,
)
    requires
        valid_key(key),
    ensures
        ({
            let s1 = command_outcome(
                s,
                CommandView::SetItem { key, flags, timeout, noreply, value: first, value_size: n1 },
                t1,
            ).0;
            let s2 = command_outcome(
                s1,
                CommandView::SetItem { key, flags, timeout, noreply, value: second, value_size: n2 },
                t2,
            ).0;
            s1.items.contains_key(key) && s2.items.contains_key(key) && s1.items[key].cas
                != s2.items[key].cas
        }),
{
    reveal(dispatch);
}

/// `cas` with the token the item carries replaces its value and answers `STORED`
/// (nothing under `noreply`).
pub proof fn law_cas_with_current_token(
    s: StateView,
    key: Seq<u8>,
    flags: i32,
    timeout: i64,
    noreply: bool,
    value: Seq<u8>,
    value_size: u32,
    now: u128,
)
    requires
        valid_key(key),
        s.settled(now).items.contains_key(key),
    ensures
        ({
            let token = s.settled(now).items[key].cas;
            let (s1, out) = command_outcome(
                s,
                CommandView::Cas { key, flags, timeout, noreply, value, value_size, cas_unique: token },
                now,
            );
            &&& s1.items.contains_key(key)
            &&& s1.items[key].value == value
            &&& s1.items[key].flags == flags
            &&& s1.items[key].timeout == normalized_timeout(timeout, now)
            &&& s1.items[key].time == now
            &&& out == reply(noreply, text::stored_line())
        }),
{
    reveal(dispatch);
}

/// `cas` with any other token changes nothing and answers `EXISTS` (nothing under
/// `noreply`); on an absent key it changes nothing and answers `NOT_FOUND`.
pub proof fn law_cas_refused(
    s: StateView,
    key: Seq<u8>,
    flags: i32,
    timeout: i64,
    noreply: bool,
    value: Seq<u8>,
    value_size: u32,
    cas_unique: u64,
    now: u128,
)
    requires
        valid_key(key),
        s.settled(now).items.contains_key(key) ==> s.settled(now).items[key].cas != cas_unique,
    ensures
        ({
            let (s1, out) = command_outcome(
                s,
                CommandView::Cas { key, flags, timeout, noreply, value, value_size, cas_unique },
                now,
            );
            &&& s1 == s.settled(now)
            &&& out == if s.settled(now).items.contains_key(key) {
                reply(noreply, text::exists_line())
            } else {
                reply(noreply, text::not_found_line())
            }
        }),
{
    reveal(dispatch);
}

/// `get` and `gets` change no item and no token; the token that `gets` reports for
/// an alive item is the one the item carries.
pub proof fn law_gets_reports_token(s: StateView, key: Seq<u8>, now: u128)
    requires
        s.settled(now).items.contains_key(key),
        crate::handler::common::is_live(s.settled(now).items[key], now),
    ensures
        ({
            let (s1, out) = command_outcome(s, CommandView::Gets { keys: seq![key] }, now);
            let it = s.settled(now).items[key];
            &&& s1.items == s.settled(now).items
            &&& s1.next_cas == s.next_cas
            &&& out == crate::handler::common::value_line_with_cas(key, it.flags, it.value, it.cas)
                + text::end_line()
        }),
{
    reveal(dispatch);
    lemma_single_read(s.settled(now), key, now, true);
}

/// `flush_all` without a delay removes every item.
pub proof fn law_flush_all_empties(s: StateView, noreply: bool, now: u128)
    ensures
        command_outcome(s, CommandView::FlushAll { delay: 0, noreply }, now).0.items == Map::<
            Seq<u8>,
            ItemView,
        >::empty(),
{
    reveal(dispatch);
}

/// A delayed `flush_all` leaves the items alone until it is due, and removes every
/// item once it is.
pub proof fn law_delayed_flush(s: StateView, delay: u64, noreply: bool, now: u128, later: u128)
    requires
        delay > 0,
    ensures
        ({
            let s1 = command_outcome(s, CommandView::FlushAll { delay, noreply }, now).0;
            &&& later >= flush_deadline(now, delay) ==> s1.settled(later).items == Map::<
                Seq<u8>,
                ItemView,
            >::empty()
            &&& (later < flush_deadline(now, delay) && !some_due(s1.flush_deadlines.drop_last(), later))
                ==> s1.settled(later).items == s.settled(now).items
        }),
{
    reveal(dispatch);
    let s1 = command_outcome(s, CommandView::FlushAll { delay, noreply }, now).0;
    let d = s1.flush_deadlines;
    assert(d.last() == flush_deadline(now, delay));
    if later >= flush_deadline(now, delay) {
        assert(d[d.len() - 1] <= later);
    }
    if later < flush_deadline(now, delay) && !some_due(d.drop_last(), later) {
        assert(!some_due(d, later)) by {
            if some_due(d, later) {
                let i = choose|i: int| 0 <= i < d.len() && d[i] <= later;
                if i < d.len() - 1 {
                    assert(d.drop_last()[i] == d[i]);
                }
            }
        }
    }
}

/// After `delete` of a key, the key holds no item, and the other items are as they
/// were.
pub proof fn law_delete_removes(s: StateView, key: Seq<u8>, noreply: bool, now: u128)
    requires
        valid_key(key),
    ensures
        ({
            let (s1, out) = command_outcome(s, CommandView::Delete { key, noreply }, now);
            &&& s1.items == s.settled(now).items.remove(key)
            &&& out == if s.settled(now).items.contains_key(key) {
                reply(noreply, text::deleted_line())
            } else {
                reply(noreply, text::not_found_line())
            }
        }),
{
    reveal(dispatch);
    if !s.settled(now).items.contains_key(key) {
        assert(s.settled(now).items.remove(key) =~= s.settled(now).items);
    }
}

/// `add` never overwrites: on a key that holds an item it changes nothing.
pub proof fn law_add_keeps_existing(
    s: StateView,
    key: Seq<u8>,
    flags: i32,
    timeout: i64,
    noreply: bool,
    value: Seq<u8>,
    value_size: u32,
    now: u128,
)
    requires
        valid_key(key),
        s.settled(now).items.contains_key(key),
    ensures
        command_outcome(
            s,
            CommandView::Add { key, flags, timeout, noreply, value, value_size },
            now,
        ) == (s.settled(now), reply(noreply, text::not_stored_line())),
{
    reveal(dispatch);
}

/// `replace` never creates: on a key that holds no item it changes nothing.
pub proof fn law_replace_needs_existing(
    s: StateView,
    key: Seq<u8>,
    flags: i32,
    timeout: i64,
    noreply: bool,
    value: Seq<u8>,
    value_size: u32,
    now: u128,
)
    requires
        valid_key(key),
        !s.settled(now).items.contains_key(key),
    ensures
        command_outcome(
            s,
            CommandView::Replace { key, flags, timeout, noreply, value, value_size },
            now,
        ) == (s.settled(now), reply(noreply, text::not_stored_line())),
{
    reveal(dispatch);
}

/// `touch` keeps an item's value and flags.
pub proof fn law_touch_keeps_value(s: StateView, key: Seq<u8>, timeout: i64, noreply: bool, now: u128)
    requires
        valid_key(key),
        s.settled(now).items.contains_key(key),
    ensures
        ({
            let (s1, out) = command_outcome(s, CommandView::Touch { key, timeout, noreply }, now);
            let it = s.settled(now).items[key];
            &&& s1.items.contains_key(key)
            &&& s1.items[key].value == it.value
            &&& s1.items[key].flags == it.flags
            &&& out == reply(noreply, text::touched_line())
        }),
{
    reveal(dispatch);
}

/// `append` and `prepend` put the new bytes after, or before, the stored ones and
/// keep the flags and the expiration.
pub proof fn law_append_prepend(
    s: StateView,
    key: Seq<u8>,
    flags: i32,
    timeout: i64,
    noreply: bool,
    value: Seq<u8>,
    value_size: u32,
    now: u128,
)
    requires
        valid_key(key),
        s.settled(now).items.contains_key(key),
    ensures
        ({
            let it = s.settled(now).items[key];
            let a = command_outcome(
                s,
                CommandView::Append { key, flags, timeout, noreply, value, value_size },
                now,
            ).0;
            let p = command_outcome(
                s,
                CommandView::Prepend { key, flags, timeout, noreply, value, value_size },
                now,
            ).0;
            &&& a.items[key].value == it.value + value
            &&& a.items[key].flags == it.flags
            &&& a.items[key].timeout == it.timeout
            &&& p.items[key].value == value + it.value
            &&& p.items[key].flags == it.flags
            &&& p.items[key].timeout == it.timeout
        }),
{
    reveal(dispatch);
}

/// A number written by `incr` or `decr` is read back as that number.
pub proof fn law_counter_round_trip(n: u64)
    ensures
        counter_value(decimal(n as nat)) == Some(n),
{
    lemma_decimal_round_trip(n as nat);
    let d = decimal(n as nat);
    assert(d[0] != 43) by {
        assert(all_digits(d));
    }
}

/// `incr` on a stored number stores and answers the sum (wrapping at 2^64);
/// `decr` the difference, never below 0.
pub proof fn law_incr_decr(s: StateView, key: Seq<u8>, delta: u64, now: u128)
    requires
        s.settled(now).items.contains_key(key),
        counter_value(s.settled(now).items[key].value) is Some,
    ensures
        ({
            let v = counter_value(s.settled(now).items[key].value)->0;
            let (si, oi) = command_outcome(s, CommandView::Incr { key, delta, noreply: false }, now);
            let (sd, od) = command_outcome(s, CommandView::Decr { key, delta, noreply: false }, now);
            let up = ((v + delta) % 0x1_0000_0000_0000_0000) as u64;
            let down = if v >= delta {
                (v - delta) as u64
            } else {
                0u64
            };
            &&& counter_value(si.items[key].value) == Some(up)
            &&& oi == decimal(up as nat) + text::crlf()
            &&& counter_value(sd.items[key].value) == Some(down)
            &&& od == decimal(down as nat) + text::crlf()
        }),
{
    reveal(dispatch);
    let v = counter_value(s.settled(now).items[key].value)->0;
    law_counter_round_trip(((v + delta) % 0x1_0000_0000_0000_0000) as u64);
    law_counter_round_trip(
        if v >= delta {
            (v - delta) as u64
        } else {
            0u64
        },
    );
}

/// A command whose key is longer than 250 bytes is refused with
/// `CLIENT_ERROR bad command line format` and changes nothing (`incr` and `decr`,
/// which do not check their key, aside).
pub proof fn law_long_key_refused(s: StateView, c: CommandView, now: u128)
    requires
        match c {
            CommandView::SetItem { key, .. } => key.len() > 250,
            CommandView::Add { key, .. } => key.len() > 250,
            CommandView::Replace { key, .. } => key.len() > 250,
            CommandView::Append { key, .. } => key.len() > 250,
            CommandView::Prepend { key, .. } => key.len() > 250,
            CommandView::Cas { key, .. } => key.len() > 250,
            CommandView::Touch { key, .. } => key.len() > 250,
            CommandView::Delete { key, .. } => key.len() > 250,
            _ => false,
        },
    ensures
        command_outcome(s, c, now) == (s.settled(now), text::bad_format_line()),
{
    reveal(dispatch);
}

/// Under `noreply`, a storage, `touch`, `delete` or `flush_all` command with an
/// acceptable key writes nothing at all.
pub proof fn law_noreply_is_silent(s: StateView, c: CommandView, now: u128)
    requires
        match c {
            CommandView::SetItem { key, noreply, .. } => noreply && valid_key(key),
            CommandView::Add { key, noreply, .. } => noreply && valid_key(key),
            CommandView::Replace { key, noreply, .. } => noreply && valid_key(key),
            CommandView::Append { key, noreply, .. } => noreply && valid_key(key),
            CommandView::Prepend { key, noreply, .. } => noreply && valid_key(key),
            CommandView::Cas { key, noreply, .. } => noreply && valid_key(key),
            CommandView::Touch { key, noreply, .. } => noreply && valid_key(key),
            CommandView::Delete { key, noreply } => noreply && valid_key(key),
            CommandView::FlushAll { noreply, .. } => noreply,
            _ => false,
        },
    ensures
        command_outcome(s, c, now).1 == Seq::<u8>::empty(),
{
    reveal(dispatch);
}

/// On input whose every command can be read, serving it from a buffer does what
/// serving it whole does: the same state, replies and verdict, and an empty buffer
/// unless a `quit` stopped it.
pub proof fn law_buffered_agrees(s: StateView, input: Seq<u8>, now: u128)
    requires
        parses_through(input),
    ensures
        ({
            let (s1, rest, out, go_on) = buffered_spec(s, input, now);
            let (s2, out2, go_on2) = run_spec(s, input, now);
            &&& s1 == s2
            &&& out == out2
            &&& go_on == go_on2
            &&& go_on ==> rest.len() == 0
        }),
    decreases input.len(),
{
    if input.len() > 0 {
        match parse_spec(input) {
            ParseOutcome::Done { end, command } => {
                if !(command is Quit) {
                    let (s1, o1) = command_outcome(s, command, now);
                    law_buffered_agrees(s1, input.skip(end), now);
                }
            },
            _ => {},
        }
    }
}

/// Whatever `quit` is followed by, a connection's bytes that begin with
/// `quit\r\n` stop it at once, with no reply and no change.
pub proof fn law_quit_stops(s: StateView, rest: Seq<u8>, now: u128)
    ensures
        run_spec(s, text::tag_quit() + text::crlf() + rest, now) == (s, Seq::<u8>::empty(), false),
        buffered_spec(s, text::tag_quit() + text::crlf() + rest, now) == (
            s,
            text::tag_quit() + text::crlf() + rest,
            Seq::<u8>::empty(),
            false,
        ),
{
    let input = text::tag_quit() + text::crlf() + rest;
    reveal(parse_spec);
    assert(input.subrange(0, 4) =~= text::tag_quit());
    assert(!strict_prefix_of(input, text::tag_quit()));
    assert(crlf_at(input, 4));
    assert(parse_spec(input) == ParseOutcome::Done { end: 6, command: CommandView::Quit });
}

/// Serving from a buffer only ever leaves a tail of what was received.
pub proof fn law_buffer_keeps_suffix(s: StateView, buf: Seq<u8>, now: u128)
    ensures
        ({
            let rest = buffered_spec(s, buf, now).1;
            rest.len() <= buf.len() && rest == buf.skip(buf.len() - rest.len())
        }),
    decreases buf.len(),
{
    if buf.len() == 0 {
        assert(buf.skip(0) =~= buf);
    } else {
        match parse_spec(buf) {
            ParseOutcome::Done { end, command } => {
                if 0 < end <= buf.len() && !(command is Quit) {
                    let (s1, o1) = command_outcome(s, command, now);
                    law_buffer_keeps_suffix(s1, buf.skip(end), now);
                    let rest = buffered_spec(s1, buf.skip(end), now).1;
                    assert(buf.skip(end).skip(buf.skip(end).len() - rest.len()) =~= buf.skip(
                        buf.len() - rest.len(),
                    ));
                } else {
                    assert(buf.skip(0) =~= buf);
                }
            },
            ParseOutcome::Incomplete => {
                assert(buf.skip(0) =~= buf);
            },
            ParseOutcome::Invalid => {
                if keyword_prefixed(buf) && first_crlf(buf) is None {
                    assert(buf.skip(0) =~= buf);
                } else {
                    match first_crlf(buf) {
                        Some(p) => {
                            if 0 <= p && p + 2 <= buf.len() {
                                law_buffer_keeps_suffix(s, buf.skip(p + 2), now);
                                let rest = buffered_spec(s, buf.skip(p + 2), now).1;
                                assert(buf.skip(p + 2).skip(buf.skip(p + 2).len() - rest.len())
                                    =~= buf.skip(buf.len() - rest.len()));
                            } else {
                                assert(buf.skip(buf.len() as int) =~= Seq::<u8>::empty());
                            }
                        },
                        None => {
                            assert(buf.skip(buf.len() as int) =~= Seq::<u8>::empty());
                        },
                    }
                }
            },
        }
    }
}

/// `gat` of an alive item answers with the item as it was and gives it the new
/// expiration, keeping its value and flags.
pub proof fn law_gat_touches(s: StateView, key: Seq<u8>, timeout: i64, now: u128)
    requires
        valid_key(key),
        s.settled(now).items.contains_key(key),
        crate::handler::common::is_live(s.settled(now).items[key], now),
    ensures
        ({
            let it = s.settled(now).items[key];
            let (s1, out) = command_outcome(s, CommandView::Gat { timeout, keys: seq![key] }, now);
            &&& out == value_line(key, it.flags, it.value) + text::end_line()
            &&& s1.items.contains_key(key)
            &&& s1.items[key].value == it.value
            &&& s1.items[key].flags == it.flags
            &&& s1.items[key].timeout == normalized_timeout(timeout, now)
        }),
{
    reveal(dispatch);
    let keys = seq![key];
    assert(keys.drop_last() =~= Seq::<Seq<u8>>::empty());
    assert(keys.last() == key);
    assert(keys[0] == key);
    let s0 = s.settled(now);
    let t = normalized_timeout(timeout, now);
    assert(touch_run(s0, Seq::<Seq<u8>>::empty(), t, now, false) == (s0, Seq::<u8>::empty(), false));
    assert(Seq::<u8>::empty() + item_line(key, s0.items[key], false) =~= item_line(
        key,
        s0.items[key],
        false,
    ));
}


/// For pairwise different keys, `gat`/`gats` write exactly what `get`/`gets` of
/// the same keys would write, from the items as they were before, and every alive
/// item among them takes the new expiration and the time `now`.
proof fn lemma_touch_run_distinct(s: StateView, keys: Seq<Seq<u8>>, t: i64, now: u128, with_cas: bool)
    requires
        keys.no_duplicates(),
    ensures
        ({
            let (s1, o, f) = touch_run(s, keys, t, now, with_cas);
            &&& o == read_lines(s, keys, now, with_cas).0
            &&& f == read_lines(s, keys, now, with_cas).1
            &&& forall|k: Seq<u8>|
                #![trigger s1.items[k]]
                keys.contains(k) && s.items.contains_key(k) && is_live(s.items[k], now) ==> {
                    &&& s1.items[k].value == s.items[k].value
                    &&& s1.items[k].flags == s.items[k].flags
                    &&& s1.items[k].timeout == t
                    &&& s1.items[k].time == now
                }
        }),
    decreases keys.len(),
{
    if keys.len() > 0 {
        let init = keys.drop_last();
        let k = keys.last();
        assert(init.no_duplicates()) by {
            assert forall|i: int, j: int| 0 <= i < init.len() && 0 <= j < init.len() && i != j implies init[i]
                != init[j] by {
                assert(init[i] == keys[i] && init[j] == keys[j]);
            }
        }
        lemma_touch_run(s, init, t, now, with_cas);
        lemma_touch_run_distinct(s, init, t, now, with_cas);
        let (s1, o1, f1) = touch_run(s, init, t, now, with_cas);
        assert(keys[keys.len() - 1] == k);
        assert(!init.contains(k)) by {
            if init.contains(k) {
                let j = choose|j: int| 0 <= j < init.len() && init[j] == k;
                assert(keys[j] == init[j]);
            }
        }
        assert(s1.items.contains_key(k) == s.items.contains_key(k));
        if s1.items.contains_key(k) {
            assert(s1.items[k] == s.items[k]);
        }
        let (s2, o2, f2) = touch_step(s1, k, t, now, with_cas);
        assert forall|x: Seq<u8>|
            #![trigger s2.items[x]]
            keys.contains(x) && s.items.contains_key(x) && is_live(s.items[x], now) implies {
            &&& s2.items[x].value == s.items[x].value
            &&& s2.items[x].flags == s.items[x].flags
            &&& s2.items[x].timeout == t
            &&& s2.items[x].time == now
        } by {
            if x != k {
                let j = choose|j: int| 0 <= j < keys.len() && keys[j] == x;
                assert(j < keys.len() - 1);
                assert(init[j] == x);
                assert(init.contains(x));
                assert(s2.items[x] == s1.items[x]);
            }
        }
    }
}

/// `gat` and `gats` with any unacceptable key among theirs answer
/// `CLIENT_ERROR bad command line format` and change nothing, whatever keys come
/// before it.
pub proof fn law_gat_bad_key(
    s: StateView,
    timeout: i64,
    keys: Seq<Seq<u8>>,
    now: u128,
    with_cas: bool,
    i: int,
)
    requires
        0 <= i < keys.len(),
        !valid_key(keys[i]),
    ensures
        gat_effect(s, timeout, keys, now, with_cas) == (s, text::bad_format_line()),
{
}

/// `gat` and `gats` of acceptable, pairwise different keys answer, in their order,
/// the line of each key whose item is alive (carrying, for `gats`, the token the
/// item held before), then `END`. Each such item keeps its value and flags and
/// takes the new expiration (normalized) and the time `now`; every other item is
/// as it was, and no key gains or loses an item.
pub proof fn law_gat_replies(s: StateView, timeout: i64, keys: Seq<Seq<u8>>, now: u128, with_cas: bool)
    requires
        forall|i: int| 0 <= i < keys.len() ==> valid_key(#[trigger] keys[i]),
        keys.no_duplicates(),
    ensures
        ({
            let (s1, out) = gat_effect(s, timeout, keys, now, with_cas);
            &&& out == read_lines(s, keys, now, with_cas).0 + text::end_line()
            &&& forall|k: Seq<u8>| #[trigger] s1.items.contains_key(k) == s.items.contains_key(k)
            &&& forall|k: Seq<u8>|
                #![trigger s1.items[k]]
                keys.contains(k) && s.items.contains_key(k) && is_live(s.items[k], now) ==> {
                    &&& s1.items[k].value == s.items[k].value
                    &&& s1.items[k].flags == s.items[k].flags
                    &&& s1.items[k].timeout == normalized_timeout(timeout, now)
                    &&& s1.items[k].time == now
                }
            &&& forall|k: Seq<u8>|
                #![trigger s1.items[k]]
                s.items.contains_key(k) && !(keys.contains(k) && is_live(s.items[k], now))
                    ==> s1.items[k] == s.items[k]
        }),
{
    let t = normalized_timeout(timeout, now);
    lemma_touch_run(s, keys, t, now, with_cas);
    lemma_touch_run_distinct(s, keys, t, now, with_cas);
}

/// `gat` and `gats` with acceptable keys count once per command, however many
/// keys it has: one hit when some key held an alive item, else one miss.
pub proof fn law_gat_counts(s: StateView, timeout: i64, keys: Seq<Seq<u8>>, now: u128, with_cas: bool)
    requires
        forall|i: int| 0 <= i < keys.len() ==> valid_key(#[trigger] keys[i]),
    ensures
        ({
            let s1 = gat_effect(s, timeout, keys, now, with_cas).0;
            &&& any_live(s, keys, now) ==> s1.get_hits == crate::state::wrapping_next(s.get_hits)
                && s1.get_misses == s.get_misses
            &&& !any_live(s, keys, now) ==> s1.get_misses == crate::state::wrapping_next(
                s.get_misses,
            ) && s1.get_hits == s.get_hits
        }),
{
    lemma_touch_run(s, keys, normalized_timeout(timeout, now), now, with_cas);
}


/// A stored item's `cas` token is above every token held before the command, and
/// the tokens stay below the next one, as long as they were and the token counter
/// is not about to wrap around.
pub proof fn law_set_token_is_fresh(
    s: StateView,
    key: Seq<u8>,
    flags: i32,
    timeout: i64,
    noreply: bool,
    value: Seq<u8>,
    value_size: u32,
    now: u128,
)
    requires
        valid_key(key),
        s.tokens_fresh(),
        s.next_cas < u64::MAX,
    ensures
        ({
            let s1 = command_outcome(
                s,
                CommandView::SetItem { key, flags, timeout, noreply, value, value_size },
                now,
            ).0;
            &&& s1.tokens_fresh()
            &&& forall|k: Seq<u8>| #[trigger]
                s.items.contains_key(k) ==> s.items[k].cas < s1.items[key].cas
        }),
{
    reveal(dispatch);
    let s0 = s.settled(now);
    assert(s0.tokens_fresh()) by {
        assert forall|k: Seq<u8>| #[trigger] s0.items.contains_key(k) implies s0.items[k].cas
            < s0.next_cas by {
            assert(s.items.contains_key(k));
        }
    }
    let item = crate::handler::storage::new_item(value, normalized_timeout(timeout, now), flags, now);
    lemma_with_item_fresh(s0, key, item);
}

/// `flush_all` does not reset the `cas` tokens: an item stored after it gets a
/// token above every token held before it, so a stale token never matches.
pub proof fn law_flush_keeps_tokens(
    s: StateView,
    flush_noreply: bool,
    key: Seq<u8>,
    flags: i32,
    timeout: i64,
    noreply: bool,
    value: Seq<u8>,
    value_size: u32,
    t1: u128,
    t2: u128,
)
    requires
        valid_key(key),
        s.tokens_fresh(),
        s.next_cas < u64::MAX,
    ensures
        ({
            let s1 = command_outcome(s, CommandView::FlushAll { delay: 0, noreply: flush_noreply }, t1).0;
            let s2 = command_outcome(
                s1,
                CommandView::SetItem { key, flags, timeout, noreply, value, value_size },
                t2,
            ).0;
            forall|k: Seq<u8>| #[trigger] s.items.contains_key(k) ==> s.items[k].cas < s2.items[key].cas
        }),
{
    reveal(dispatch);
    let s1 = command_outcome(s, CommandView::FlushAll { delay: 0, noreply: flush_noreply }, t1).0;
    assert(s1.items =~= Map::<Seq<u8>, ItemView>::empty());
    assert(s1.next_cas == s.next_cas);
    law_set_token_is_fresh(s1, key, flags, timeout, noreply, value, value_size, t2);
}

/// Whether each command read from `a` is read the same when `b` follows it: the
/// commands of `a` end inside `a`, so that `a` ends where a command does. None of
/// them is `quit`.
pub open spec fn reads_alike(a: Seq<u8>, b: Seq<u8>) -> bool
    decreases a.len(),
{
    if a.len() == 0 {
        true
    } else {
        match parse_spec(a) {
            ParseOutcome::Done { end, command } => 0 < end <= a.len() && !(command is Quit)
                && parse_spec(a + b) == parse_spec(a) && reads_alike(a.skip(end), b),
            _ => false,
        }
    }
}

/// Cutting a connection's bytes where a command ends changes nothing: serving
/// `a` and then `b` gives the state, the replies (one after the other) and the
/// verdict that serving `a + b` at once gives, and serving `a` goes on. With
/// `process_input_at`'s contract, two calls on `a` and on `b` at one time leave the
/// state and output that one call on `a + b` leaves.
pub proof fn law_split_stream(s: StateView, a: Seq<u8>, b: Seq<u8>, now: u128)
    requires
        reads_alike(a, b),
    ensures
        ({
            let (s1, o1, go1) = run_spec(s, a, now);
            let (s2, o2, go2) = run_spec(s1, b, now);
            &&& go1
            &&& run_spec(s, a + b, now) == (s2, o1 + o2, go2)
        }),
    decreases a.len(),
{
    if a.len() == 0 {
        assert(a + b =~= b);
        assert(Seq::<u8>::empty() + run_spec(s, b, now).1 =~= run_spec(s, b, now).1);
    } else {
        match parse_spec(a) {
            ParseOutcome::Done { end, command } => {
                let (s1, o1) = command_outcome(s, command, now);
                law_split_stream(s1, a.skip(end), b, now);
                assert((a + b).skip(end) =~= a.skip(end) + b);
                assert((a + b).len() > 0);
                let (t1, p1, g1) = run_spec(s1, a.skip(end), now);
                let (t2, p2, g2) = run_spec(t1, b, now);
                assert(o1 + (p1 + p2) =~= (o1 + p1) + p2);
            },
            _ => {},
        }
    }
}


/// How many items a command can store: one per key for `gat`/`gats`, else one.
pub open spec fn stores_at_most(c: CommandView) -> nat {
    match c {
        CommandView::Gat { keys, .. } => keys.len(),
        CommandView::Gats { keys, .. } => keys.len(),
        _ => 1,
    }
}

/// Touching keys in turn keeps the tokens fresh and hands out at most one token
/// per key, while the counter does not wrap around.
proof fn lemma_touch_run_fresh(s: StateView, keys: Seq<Seq<u8>>, t: i64, now: u128, with_cas: bool)
    requires
        s.tokens_fresh(),
        s.next_cas + keys.len() <= u64::MAX,
    ensures
        ({
            let s1 = touch_run(s, keys, t, now, with_cas).0;
            &&& s1.tokens_fresh()
            &&& s.next_cas <= s1.next_cas <= s.next_cas + keys.len()
        }),
    decreases keys.len(),
{
    if keys.len() > 0 {
        let init = keys.drop_last();
        lemma_touch_run_fresh(s, init, t, now, with_cas);
        let s1 = touch_run(s, init, t, now, with_cas).0;
        let k = keys.last();
        if s1.items.contains_key(k) && is_live(s1.items[k], now) {
            let it = s1.items[k];
            lemma_with_item_fresh(
                s1,
                k,
                ItemView { value: it.value, timeout: t, flags: it.flags, time: now, cas: 0 },
            );
        }
    }
}

/// Every command keeps each held `cas` token below the token the next stored item
/// gets, and never moves that counter back, as long as the counter has room for
/// the items the command can store: tokens handed out later never repeat a held one.
pub proof fn law_commands_keep_tokens_fresh(s: StateView, c: CommandView, now: u128)
    requires
        s.tokens_fresh(),
        s.next_cas + stores_at_most(c) <= u64::MAX,
    ensures
        ({
            let s1 = command_outcome(s, c, now).0;
            &&& s1.tokens_fresh()
            &&& s.next_cas <= s1.next_cas <= s.next_cas + stores_at_most(c)
        }),
{
    reveal(dispatch);
    let s0 = s.settled(now);
    assert(s0.tokens_fresh()) by {
        assert forall|k: Seq<u8>| #[trigger] s0.items.contains_key(k) implies s0.items[k].cas
            < s0.next_cas by {
            assert(s.items.contains_key(k));
        }
    }
    match c {
        CommandView::SetItem { key, flags, timeout, value, .. } => {
            lemma_with_item_fresh(
                s0,
                key,
                crate::handler::storage::new_item(value, normalized_timeout(timeout, now), flags, now),
            );
        },
        CommandView::Add { key, flags, timeout, value, .. } => {
            lemma_with_item_fresh(
                s0,
                key,
                crate::handler::storage::new_item(value, normalized_timeout(timeout, now), flags, now),
            );
        },
        CommandView::Replace { key, flags, timeout, value, .. } => {
            lemma_with_item_fresh(
                s0,
                key,
                crate::handler::storage::new_item(value, normalized_timeout(timeout, now), flags, now),
            );
        },
        CommandView::Cas { key, flags, timeout, value, .. } => {
            lemma_with_item_fresh(
                s0,
                key,
                crate::handler::storage::new_item(value, normalized_timeout(timeout, now), flags, now),
            );
        },
        CommandView::Append { key, value, .. } => {
            if s0.items.contains_key(key) {
                let o = s0.items[key];
                lemma_with_item_fresh(
                    s0,
                    key,
                    crate::handler::storage::new_item(o.value + value, o.timeout, o.flags, now),
                );
            }
        },
        CommandView::Prepend { key, value, .. } => {
            if s0.items.contains_key(key) {
                let o = s0.items[key];
                lemma_with_item_fresh(
                    s0,
                    key,
                    crate::handler::storage::new_item(value + o.value, o.timeout, o.flags, now),
                );
            }
        },
        CommandView::Touch { key, timeout, .. } => {
            if s0.items.contains_key(key) {
                let o = s0.items[key];
                lemma_with_item_fresh(
                    s0,
                    key,
                    ItemView {
                        value: o.value,
                        timeout: normalized_timeout(timeout, now),
                        flags: o.flags,
                        time: now,
                        cas: 0,
                    },
                );
            }
        },
        CommandView::Incr { key, delta, .. } => {
            if s0.items.contains_key(key) {
                let o = s0.items[key];
                if let Some(v) = counter_value(o.value) {
                    lemma_with_item_fresh(
                        s0,
                        key,
                        ItemView {
                            value: decimal(crate::handler::arith::arith_result(v, delta, true) as nat),
                            timeout: o.timeout,
                            flags: o.flags,
                            time: now,
                            cas: 0,
                        },
                    );
                }
            }
        },
        CommandView::Decr { key, delta, .. } => {
            if s0.items.contains_key(key) {
                let o = s0.items[key];
                if let Some(v) = counter_value(o.value) {
                    lemma_with_item_fresh(
                        s0,
                        key,
                        ItemView {
                            value: decimal(crate::handler::arith::arith_result(v, delta, false) as nat),
                            timeout: o.timeout,
                            flags: o.flags,
                            time: now,
                            cas: 0,
                        },
                    );
                }
            }
        },
        CommandView::Gat { timeout, keys } => {
            lemma_touch_run_fresh(s0, keys, normalized_timeout(timeout, now), now, false);
        },
        CommandView::Gats { timeout, keys } => {
            lemma_touch_run_fresh(s0, keys, normalized_timeout(timeout, now), now, true);
        },
        CommandView::Delete { key, .. } => {
            let r = s0.items.remove(key);
            assert forall|k: Seq<u8>| #[trigger] r.contains_key(k) implies r[k].cas < s0.next_cas by {
                assert(s0.items.contains_key(k));
            }
        },
        _ => {},
    }
}


/// The same holds of serving from a buffer: bytes received in two pieces cut where
/// a command ends are served as the whole would be, and nothing of the first piece
/// is left in the buffer.
pub proof fn law_split_buffered(s: StateView, a: Seq<u8>, b: Seq<u8>, now: u128)
    requires
        reads_alike(a, b),
    ensures
        ({
            let (s1, r1, o1, go1) = buffered_spec(s, a, now);
            let (s2, r2, o2, go2) = buffered_spec(s1, b, now);
            &&& go1
            &&& r1.len() == 0
            &&& buffered_spec(s, a + b, now) == (s2, r2, o1 + o2, go2)
        }),
    decreases a.len(),
{
    if a.len() == 0 {
        assert(a + b =~= b);
        assert(Seq::<u8>::empty() + buffered_spec(s, b, now).2 =~= buffered_spec(s, b, now).2);
    } else {
        match parse_spec(a) {
            ParseOutcome::Done { end, command } => {
                let (s1, o1) = command_outcome(s, command, now);
                law_split_buffered(s1, a.skip(end), b, now);
                assert((a + b).skip(end) =~= a.skip(end) + b);
                assert((a + b).len() > 0);
                let (t1, q1, p1, g1) = buffered_spec(s1, a.skip(end), now);
                let (t2, q2, p2, g2) = buffered_spec(t1, b, now);
                assert(o1 + (p1 + p2) =~= (o1 + p1) + p2);
            },
            _ => {},
        }
    }
}


/// What a `get` of one key answers at `t`, when no delayed flush is due then: the
/// item's line if it is alive at `t`, and `END` either way.
proof fn lemma_get_one(s: StateView, key: Seq<u8>, t: u128)
    requires
        !some_due(s.flush_deadlines, t),
    ensures
        command_outcome(s, CommandView::Get { keys: seq![key] }, t).1 == if s.items.contains_key(key)
            && is_live(s.items[key], t) {
            value_line(key, s.items[key].flags, s.items[key].value) + text::end_line()
        } else {
            text::end_line()
        },
{
    reveal(dispatch);
    lemma_single_read(s, key, t, false);
    assert(Seq::<u8>::empty() + text::end_line() =~= text::end_line());
}

/// A storage, `touch` or `incr` command brings no delayed flush due at a later
/// time that was not due before.
proof fn lemma_no_new_flush(s: StateView, c: CommandView, now: u128, later: u128)
    requires
        !some_due(s.flush_deadlines, later),
        c is Touch || c is Replace || c is Add || c is Incr || c is Append || c is Prepend,
    ensures
        !some_due(command_outcome(s, c, now).0.flush_deadlines, later),
{
    reveal(dispatch);
    if some_due(s.flush_deadlines, now) {
        lemma_later_deadlines_not_due(s.flush_deadlines, now, later);
    }
}

/// `touch` of a key that holds an item gives that item the command's expiration,
/// counted from `now`: its value and flags stay, its timeout becomes the command's
/// (normalized: a number of seconds, or an absolute time turned into one) and its
/// time becomes `now`. The answer is `TOUCHED`.
pub proof fn law_touch_sets_expiration(s: StateView, key: Seq<u8>, timeout: i64, noreply: bool, now: u128)
    requires
        valid_key(key),
        s.settled(now).items.contains_key(key),
    ensures
        ({
            let (s1, out) = command_outcome(s, CommandView::Touch { key, timeout, noreply }, now);
            let it = s.settled(now).items[key];
            &&& s1.items.contains_key(key)
            &&& s1.items[key].value == it.value
            &&& s1.items[key].flags == it.flags
            &&& s1.items[key].timeout == normalized_timeout(timeout, now)
            &&& s1.items[key].time == now
            &&& out == reply(noreply, text::touched_line())
        }),
{
    reveal(dispatch);
}

/// After `touch` with a relative timeout, a `get` within that many seconds finds
/// the value, whatever expiration the item had before.
pub proof fn law_get_after_touch(
    s: StateView,
    key: Seq<u8>,
    timeout: i64,
    noreply: bool,
    now: u128,
    later: u128,
)
    requires
        valid_key(key),
        s.settled(now).items.contains_key(key),
        0 < timeout <= 2_592_000,
        now <= later,
        elapsed_secs(later, now) < timeout,
        !some_due(s.flush_deadlines, later),
    ensures
        ({
            let it = s.settled(now).items[key];
            let s1 = command_outcome(s, CommandView::Touch { key, timeout, noreply }, now).0;
            command_outcome(s1, CommandView::Get { keys: seq![key] }, later).1 == value_line(
                key,
                it.flags,
                it.value,
            ) + text::end_line()
        }),
{
    law_touch_sets_expiration(s, key, timeout, noreply, now);
    let s1 = command_outcome(s, CommandView::Touch { key, timeout, noreply }, now).0;
    lemma_no_new_flush(s, CommandView::Touch { key, timeout, noreply }, now, later);
    lemma_get_one(s1, key, later);
}

/// `replace` of a key that holds an item stores what `set` would: the new value
/// and flags, the command's expiration (normalized) and the time `now`, and
/// answers `STORED`.
pub proof fn law_replace_stores(
    s: StateView,
    key: Seq<u8>,
    flags: i32,
    timeout: i64,
    noreply: bool,
    value: Seq<u8>,
    value_size: u32,
    now: u128,
)
    requires
        valid_key(key),
        s.settled(now).items.contains_key(key),
    ensures
        ({
            let (s1, out) = command_outcome(
                s,
                CommandView::Replace { key, flags, timeout, noreply, value, value_size },
                now,
            );
            let (s2, out2) = command_outcome(
                s,
                CommandView::SetItem { key, flags, timeout, noreply, value, value_size },
                now,
            );
            &&& s1.items.contains_key(key)
            &&& s1.items[key].value == value
            &&& s1.items[key].flags == flags
            &&& s1.items[key].timeout == normalized_timeout(timeout, now)
            &&& s1.items[key].time == now
            &&& s1.items == s2.items
            &&& out == reply(noreply, text::stored_line())
            &&& out == out2
        }),
{
    reveal(dispatch);
}

/// After `replace` with a relative timeout, a `get` finds the new value until that
/// many seconds have passed, and nothing from then on.
pub proof fn law_get_after_replace(
    s: StateView,
    key: Seq<u8>,
    flags: i32,
    timeout: i64,
    noreply: bool,
    value: Seq<u8>,
    value_size: u32,
    now: u128,
    later: u128,
)
    requires
        valid_key(key),
        s.settled(now).items.contains_key(key),
        0 < timeout <= 2_592_000,
        now <= later,
        !some_due(s.flush_deadlines, later),
    ensures
        ({
            let s1 = command_outcome(
                s,
                CommandView::Replace { key, flags, timeout, noreply, value, value_size },
                now,
            ).0;
            let out = command_outcome(s1, CommandView::Get { keys: seq![key] }, later).1;
            &&& elapsed_secs(later, now) < timeout ==> out == value_line(key, flags, value)
                + text::end_line()
            &&& elapsed_secs(later, now) >= timeout ==> out == text::end_line()
        }),
{
    let c = CommandView::Replace { key, flags, timeout, noreply, value, value_size };
    law_replace_stores(s, key, flags, timeout, noreply, value, value_size, now);
    lemma_no_new_flush(s, c, now, later);
    lemma_get_one(command_outcome(s, c, now).0, key, later);
}

/// `add` of a key that holds no item stores what `set` would: the value and flags,
/// the command's expiration (normalized) and the time `now`, and answers `STORED`.
pub proof fn law_add_stores(
    s: StateView,
    key: Seq<u8>,
    flags: i32,
    timeout: i64,
    noreply: bool,
    value: Seq<u8>,
    value_size: u32,
    now: u128,
)
    requires
        valid_key(key),
        !s.settled(now).items.contains_key(key),
    ensures
        ({
            let (s1, out) = command_outcome(
                s,
                CommandView::Add { key, flags, timeout, noreply, value, value_size },
                now,
            );
            &&& s1 == command_outcome(
                s,
                CommandView::SetItem { key, flags, timeout, noreply, value, value_size },
                now,
            ).0
            &&& s1.items.contains_key(key)
            &&& s1.items[key].value == value
            &&& s1.items[key].flags == flags
            &&& s1.items[key].timeout == normalized_timeout(timeout, now)
            &&& s1.items[key].time == now
            &&& out == reply(noreply, text::stored_line())
        }),
{
    reveal(dispatch);
}

/// A value that `add` stores is what a later `get` of its key returns, until its
/// relative expiration (0 for never) has passed.
pub proof fn law_get_after_add(
    s: StateView,
    key: Seq<u8>,
    flags: i32,
    timeout: i64,
    noreply: bool,
    value: Seq<u8>,
    value_size: u32,
    now: u128,
    later: u128,
)
    requires
        valid_key(key),
        !s.settled(now).items.contains_key(key),
        0 <= timeout <= 2_592_000,
        timeout == 0 || elapsed_secs(later, now) < timeout,
        now <= later,
        !some_due(s.flush_deadlines, later),
    ensures
        ({
            let s1 = command_outcome(
                s,
                CommandView::Add { key, flags, timeout, noreply, value, value_size },
                now,
            ).0;
            command_outcome(s1, CommandView::Get { keys: seq![key] }, later).1 == value_line(
                key,
                flags,
                value,
            ) + text::end_line()
        }),
{
    let c = CommandView::Add { key, flags, timeout, noreply, value, value_size };
    law_add_stores(s, key, flags, timeout, noreply, value, value_size, now);
    lemma_no_new_flush(s, c, now, later);
    lemma_get_one(command_outcome(s, c, now).0, key, later);
}

/// `incr` and `decr` of a stored number keep the item's flags and expiration
/// length: the timeout it held stays, and its time becomes `now`.
pub proof fn law_incr_decr_keep_expiration(s: StateView, key: Seq<u8>, delta: u64, noreply: bool, now: u128)
    requires
        s.settled(now).items.contains_key(key),
        counter_value(s.settled(now).items[key].value) is Some,
    ensures
        ({
            let it = s.settled(now).items[key];
            let si = command_outcome(s, CommandView::Incr { key, delta, noreply }, now).0;
            let sd = command_outcome(s, CommandView::Decr { key, delta, noreply }, now).0;
            &&& si.items.contains_key(key) && sd.items.contains_key(key)
            &&& si.items[key].timeout == it.timeout && sd.items[key].timeout == it.timeout
            &&& si.items[key].flags == it.flags && sd.items[key].flags == it.flags
            &&& si.items[key].time == now && sd.items[key].time == now
        }),
{
    reveal(dispatch);
}

/// A counter with a relative expiration is gone that many seconds after `incr`:
/// `incr` does not make it live forever.
pub proof fn law_get_after_incr_expiry(
    s: StateView,
    key: Seq<u8>,
    delta: u64,
    noreply: bool,
    now: u128,
    later: u128,
)
    requires
        s.settled(now).items.contains_key(key),
        counter_value(s.settled(now).items[key].value) is Some,
        s.settled(now).items[key].timeout > 0,
        elapsed_secs(later, now) >= s.settled(now).items[key].timeout,
        !some_due(s.flush_deadlines, later),
    ensures
        ({
            let s1 = command_outcome(s, CommandView::Incr { key, delta, noreply }, now).0;
            command_outcome(s1, CommandView::Get { keys: seq![key] }, later).1 == text::end_line()
        }),
{
    let c = CommandView::Incr { key, delta, noreply };
    law_incr_decr_keep_expiration(s, key, delta, noreply, now);
    lemma_no_new_flush(s, c, now, later);
    lemma_get_one(command_outcome(s, c, now).0, key, later);
}

/// `append` and `prepend` stamp the item with the time `now`, so an item alive
/// before stays alive: a `get` right after finds the joined value.
pub proof fn law_get_after_append_prepend(
    s: StateView,
    key: Seq<u8>,
    flags: i32,
    timeout: i64,
    noreply: bool,
    value: Seq<u8>,
    value_size: u32,
    now: u128,
)
    requires
        valid_key(key),
        s.settled(now).items.contains_key(key),
        is_live(s.settled(now).items[key], now),
        !some_due(s.flush_deadlines, now),
    ensures
        ({
            let it = s.settled(now).items[key];
            let a = command_outcome(
                s,
                CommandView::Append { key, flags, timeout, noreply, value, value_size },
                now,
            ).0;
            let p = command_outcome(
                s,
                CommandView::Prepend { key, flags, timeout, noreply, value, value_size },
                now,
            ).0;
            &&& a.items[key].time == now
            &&& p.items[key].time == now
            &&& command_outcome(a, CommandView::Get { keys: seq![key] }, now).1 == value_line(
                key,
                it.flags,
                it.value + value,
            ) + text::end_line()
            &&& command_outcome(p, CommandView::Get { keys: seq![key] }, now).1 == value_line(
                key,
                it.flags,
                value + it.value,
            ) + text::end_line()
        }),
{
    reveal(dispatch);
    let ca = CommandView::Append { key, flags, timeout, noreply, value, value_size };
    let cp = CommandView::Prepend { key, flags, timeout, noreply, value, value_size };
    lemma_no_new_flush(s, ca, now, now);
    lemma_no_new_flush(s, cp, now, now);
    lemma_get_one(command_outcome(s, ca, now).0, key, now);
    lemma_get_one(command_outcome(s, cp, now).0, key, now);
}


/// `set` of an acceptable key stores the value and flags with the command's
/// expiration (normalized) counted from `now`, counts one more item, and answers
/// `STORED`, whether or not the key held an item.
pub proof fn law_set_stores(
    s: StateView,
    key: Seq<u8>,
    flags: i32,
    timeout: i64,
    noreply: bool,
    value: Seq<u8>,
    value_size: u32,
    now: u128,
)
    requires
        valid_key(key),
    ensures
        ({
            let (s1, out) = command_outcome(
                s,
                CommandView::SetItem { key, flags, timeout, noreply, value, value_size },
                now,
            );
            &&& s1.items.contains_key(key)
            &&& s1.items[key].value == value
            &&& s1.items[key].flags == flags
            &&& s1.items[key].timeout == normalized_timeout(timeout, now)
            &&& s1.items[key].time == now
            &&& forall|k: Seq<u8>| k != key ==> #[trigger] s1.items.contains_key(k)
                == s.settled(now).items.contains_key(k)
            &&& forall|k: Seq<u8>| k != key && s1.items.contains_key(k) ==> #[trigger] s1.items[k]
                == s.settled(now).items[k]
            &&& s1.total_items == crate::state::wrapping_next(s.total_items)
            &&& out == reply(noreply, text::stored_line())
        }),
{
    reveal(dispatch);
}

} // verus!
