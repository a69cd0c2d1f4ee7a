//! The retrieval commands: `get` and `gets` read items; `gat` and `gats` read
//! them and give them a new expiration.

use vstd::prelude::*;
use crate::bytes::{copy_range, emit};
use crate::clock::now_nanos;
use crate::command::{keys_view, Command, CommandView};
use crate::handler::common::{
    append_value, append_value_with_cas, data_is_live, is_live, is_valid_key, normalize_timeout_at,
    normalized_timeout, valid_key, value_line, value_line_with_cas,
};
use crate::state::{wrapping_next, Data, ItemView, State, StateView};
use crate::text;

verus! {

/// The reply line of the item under `key`, with or without its token.
pub open spec fn item_line(key: Seq<u8>, item: ItemView, with_cas: bool) -> Seq<u8> {
    if with_cas {
        value_line_with_cas(key, item.flags, item.value, item.cas)
    } else {
        value_line(key, item.flags, item.value)
    }
}

/// The lines that `get` (or, with tokens, `gets`) writes for `keys`, in order, one
/// per key that holds an item alive at `now`; and whether there was any.
pub open spec fn read_lines(s: StateView, keys: Seq<Seq<u8>>, now: u128, with_cas: bool) -> (
    Seq<u8>,
    bool,
)
    decreases keys.len(),
{
    if keys.len() == 0 {
        (Seq::empty(), false)
    } else {
        let (lines, found) = read_lines(s, keys.drop_last(), now, with_cas);
        let k = keys.last();
        if s.items.contains_key(k) && is_live(s.items[k], now) {
            (lines + item_line(k, s.items[k], with_cas), true)
        } else {
            (lines, found)
        }
    }
}

/// Counts a retrieval as a hit when it found something, as a miss otherwise.
pub open spec fn tallied(s: StateView, found: bool) -> StateView {
    if found {
        StateView { get_hits: wrapping_next(s.get_hits), ..s }
    } else {
        StateView { get_misses: wrapping_next(s.get_misses), ..s }
    }
}

/// `get`/`gets`: the lines of the alive items, then `END`; nothing changes.
pub open spec fn get_effect(s: StateView, keys: Seq<Seq<u8>>, now: u128, with_cas: bool) -> (
    StateView,
    Seq<u8>,
) {
    (s, read_lines(s, keys, now, with_cas).0 + text::end_line())
}

/// One key of `gat`/`gats`: an alive item is written out as it was, then stored
/// again with the new expiration (a fresh token and time).
pub open spec fn touch_step(s: StateView, k: Seq<u8>, timeout: i64, now: u128, with_cas: bool) -> (
    StateView,
    Seq<u8>,
    bool,
) {
    if s.items.contains_key(k) && is_live(s.items[k], now) {
        let it = s.items[k];
        (
            s.with_item(
                k,
                ItemView { value: it.value, timeout, flags: it.flags, time: now, cas: 0 },
            ),
            item_line(k, it, with_cas),
            true,
        )
    } else {
        (s, Seq::empty(), false)
    }
}

/// The keys of `gat`/`gats` one after another, each seeing what the ones before did.
pub open spec fn touch_run(
    s: StateView,
    keys: Seq<Seq<u8>>,
    timeout: i64,
    now: u128,
    with_cas: bool,
) -> (StateView, Seq<u8>, bool)
    decreases keys.len(),
{
    if keys.len() == 0 {
        (s, Seq::empty(), false)
    } else {
        let (s1, o1, f1) = touch_run(s, keys.drop_last(), timeout, now, with_cas);
        let (s2, o2, f2) = touch_step(s1, keys.last(), timeout, now, with_cas);
        (s2, o1 + o2, f1 || f2)
    }
}

/// `gat`/`gats`: refused as a whole if any key is unacceptable; otherwise each key
/// in turn, then `END`; counted as a hit or miss.
pub open spec fn gat_effect(s: StateView, timeout: i64, keys: Seq<Seq<u8>>, now: u128, with_cas: bool) -> (
    StateView,
    Seq<u8>,
) {
    if exists|i: int| 0 <= i < keys.len() && !valid_key(#[trigger] keys[i]) {
        (s, text::bad_format_line())
    } else {
        let (s1, lines, found) = touch_run(
            s,
            keys,
            normalized_timeout(timeout, now),
            now,
            with_cas,
        );
        (tallied(s1, found), lines + text::end_line())
    }
}

/// Whether some key of `keys` holds an item alive at `now`.
pub open spec fn any_live(s: StateView, keys: Seq<Seq<u8>>, now: u128) -> bool {
    exists|i: int|
        0 <= i < keys.len() && s.items.contains_key(#[trigger] keys[i]) && is_live(
            s.items[keys[i]],
            now,
        )
}

/// One retrieval counted from `before` to `after`: a hit when some key of `keys`
/// held an alive item, else a miss.
pub open spec fn counted_once(before: StateView, after: StateView, keys: Seq<Seq<u8>>, now: u128) -> bool {
    if any_live(before, keys, now) {
        after.get_hits == wrapping_next(before.get_hits) && after.get_misses == before.get_misses
    } else {
        after.get_misses == wrapping_next(before.get_misses) && after.get_hits == before.get_hits
    }
}

/// What `gat`/`gats` keys in turn leave behind, for any keys: the counters are
/// kept, no key gains or loses an item, an item changes only if its key is among
/// `keys` and it was alive, and something was found exactly when some key held an
/// alive item.
pub proof fn lemma_touch_run(s: StateView, keys: Seq<Seq<u8>>, t: i64, now: u128, with_cas: bool)
    ensures
        ({
            let (s1, o, f) = touch_run(s, keys, t, now, with_cas);
            &&& s1.get_hits == s.get_hits
            &&& s1.get_misses == s.get_misses
            &&& forall|k: Seq<u8>| #[trigger] s1.items.contains_key(k) == s.items.contains_key(k)
            &&& forall|k: Seq<u8>|
                #![trigger s1.items[k]]
                s1.items.contains_key(k) && s1.items[k] != s.items[k] ==> keys.contains(k)
                    && is_live(s.items[k], now)
            &&& f == exists|i: int|
                0 <= i < keys.len() && s.items.contains_key(#[trigger] keys[i]) && is_live(
                    s.items[keys[i]],
                    now,
                )
        }),
    decreases keys.len(),
{
    if keys.len() > 0 {
        let init = keys.drop_last();
        let k = keys.last();
        lemma_touch_run(s, init, t, now, with_cas);
        let (s1, o1, f1) = touch_run(s, init, t, now, with_cas);
        let (s2, o2, f2) = touch_step(s1, k, t, now, with_cas);
        assert(keys[keys.len() - 1] == k);
        assert forall|x: Seq<u8>| init.contains(x) implies keys.contains(x) by {
            let j = choose|j: int| 0 <= j < init.len() && init[j] == x;
            assert(keys[j] == init[j]);
        }
        assert forall|x: Seq<u8>| #[trigger] s2.items.contains_key(x) == s.items.contains_key(x) by {
            assert(s1.items.contains_key(x) == s.items.contains_key(x));
        }
        assert forall|x: Seq<u8>|
            #![trigger s2.items[x]]
            s2.items.contains_key(x) && s2.items[x] != s.items[x] implies keys.contains(x)
                && is_live(s.items[x], now) by {
            assert(s1.items.contains_key(x) == s.items.contains_key(x));
            if x != k || !f2 {
                assert(s2.items[x] == s1.items[x]);
                assert(init.contains(x));
            } else {
                if s1.items[k] != s.items[k] {
                    assert(init.contains(k));
                }
            }
        }
        let e_init = exists|i: int|
            0 <= i < init.len() && s.items.contains_key(#[trigger] init[i]) && is_live(
                s.items[init[i]],
                now,
            );
        let e_all = exists|i: int|
            0 <= i < keys.len() && s.items.contains_key(#[trigger] keys[i]) && is_live(
                s.items[keys[i]],
                now,
            );
        assert(e_init ==> e_all) by {
            if e_init {
                let i = choose|i: int|
                    0 <= i < init.len() && s.items.contains_key(#[trigger] init[i]) && is_live(
                        s.items[init[i]],
                        now,
                    );
                assert(keys[i] == init[i]);
            }
        }
        assert(e_all ==> e_init || (s.items.contains_key(k) && is_live(s.items[k], now))) by {
            if e_all {
                let i = choose|i: int|
                    0 <= i < keys.len() && s.items.contains_key(#[trigger] keys[i]) && is_live(
                        s.items[keys[i]],
                        now,
                    );
                if i < keys.len() - 1 {
                    assert(init[i] == keys[i]);
                }
            }
        }
        if s1.items.contains_key(k) && s1.items[k] != s.items[k] {
            let j = choose|j: int| 0 <= j < init.len() && init[j] == k;
            assert(s.items.contains_key(init[j]));
        }
    }
}

/// What `handle_get_at` does with a command (anything but `get` is ignored).
pub open spec fn get_outcome(s: StateView, c: CommandView, now: u128) -> (StateView, Seq<u8>) {
    match c {
        CommandView::Get { keys } => get_effect(s, keys, now, false),
        _ => (s, Seq::empty()),
    }
}

/// What `handle_gets_at` does with a command (anything but `gets` is ignored).
pub open spec fn gets_outcome(s: StateView, c: CommandView, now: u128) -> (StateView, Seq<u8>) {
    match c {
        CommandView::Gets { keys } => get_effect(s, keys, now, true),
        _ => (s, Seq::empty()),
    }
}

/// What `handle_gat_or_gats` does with a command: `gat` and `gats` alike are
/// answered with or without tokens as `with_cas` says; anything else is ignored.
pub open spec fn gat_or_gats_outcome(s: StateView, c: CommandView, now: u128, with_cas: bool) -> (
    StateView,
    Seq<u8>,
) {
    match c {
        CommandView::Gat { timeout, keys } => gat_effect(s, timeout, keys, now, with_cas),
        CommandView::Gats { timeout, keys } => gat_effect(s, timeout, keys, now, with_cas),
        _ => (s, Seq::empty()),
    }
}

/// What `handle_gat_at` does with a command (`gat` or `gats`, without tokens).
pub open spec fn gat_outcome(s: StateView, c: CommandView, now: u128) -> (StateView, Seq<u8>) {
    gat_or_gats_outcome(s, c, now, false)
}

/// What `handle_gats_at` does with a command (`gat` or `gats`, with tokens).
pub open spec fn gats_outcome(s: StateView, c: CommandView, now: u128) -> (StateView, Seq<u8>) {
    gat_or_gats_outcome(s, c, now, true)
}

fn count_lookup(state: &mut State, found: bool)
    requires
        old(state).wf(),
    ensures
        final(state).wf(),
        final(state)@ == tallied(old(state)@, found),
{
    if found {
        state.count_hit();
    } else {
        state.count_miss();
    }
}

/// Writes the lines of `get` (`with_cas` false) or `gets` (`with_cas` true).
fn read_keys_into(state: &mut State, keys: &Vec<Vec<u8>>, output: &mut Vec<u8>, now: u128, with_cas: bool)
    requires
        old(state).wf(),
    ensures
        final(state).wf(),
        final(state)@ == get_effect(old(state)@, keys_view(keys@), now, with_cas).0,
        final(output)@ == old(output)@ + get_effect(old(state)@, keys_view(keys@), now, with_cas).1,
{
    let ghost ks = keys_view(keys@);
    let mut found = false;
    let mut i: usize = 0;
    while i < keys.len()
        invariant
            state.wf(),
            ks == keys_view(keys@),
            i <= keys@.len(),
            (output@, found) == (
                old(output)@ + read_lines(state@, ks.take(i as int), now, with_cas).0,
                read_lines(state@, ks.take(i as int), now, with_cas).1,
            ),
            state@ == old(state)@,
        decreases keys@.len() - i,
    {
        let key = &keys[i];
        proof {
            assert(ks.take(i + 1).drop_last() =~= ks.take(i as int));
            assert(ks.take(i + 1).last() == key@);
        }
        let ghost before = output@;
        match state.get_key(key.as_slice()) {
            Some(d) => {
                if data_is_live(d, now) {
                    if with_cas {
                        append_value_with_cas(output, key.as_slice(), d.flags, d.data.as_slice(), d.cas_unique);
                    } else {
                        append_value(output, key.as_slice(), d.flags, d.data.as_slice());
                    }
                    found = true;
                    assert(output@ =~= old(output)@ + read_lines(state@, ks.take(i + 1), now, with_cas).0);
                }
            },
            None => {},
        }
        i = i + 1;
    }
    proof {
        assert(ks.take(keys@.len() as int) =~= ks);
    }
    emit(output, &text::end_line_bytes());
    assert(output@ =~= old(output)@ + get_effect(old(state)@, ks, now, with_cas).1);
}

/// Whether some key of `keys` is unacceptable.
fn any_invalid_key(keys: &Vec<Vec<u8>>) -> (r: bool)
    ensures
        r == exists|i: int| 0 <= i < keys@.len() && !valid_key(#[trigger] keys_view(keys@)[i]),
{
    let mut i: usize = 0;
    while i < keys.len()
        invariant
            i <= keys@.len(),
            forall|j: int| 0 <= j < i ==> valid_key(#[trigger] keys_view(keys@)[j]),
        decreases keys@.len() - i,
    {
        if !is_valid_key(keys[i].as_slice()) {
            assert(!valid_key(keys_view(keys@)[i as int]));
            return true;
        }
        i = i + 1;
    }
    false
}

/// Writes the lines of `gat` (`with_cas` false) or `gats` (`with_cas` true).
fn touch_keys(
    state: &mut State,
    timeout: i64,
    keys: &Vec<Vec<u8>>,
    output: &mut Vec<u8>,
    now: u128,
    with_cas: bool,
)
    requires
        old(state).wf(),
    ensures
        final(state).wf(),
        final(state)@ == gat_effect(old(state)@, timeout, keys_view(keys@), now, with_cas).0,
        final(output)@ == old(output)@ + gat_effect(
            old(state)@,
            timeout,
            keys_view(keys@),
            now,
            with_cas,
        ).1,
{
    let ghost ks = keys_view(keys@);
    if any_invalid_key(keys) {
        emit(output, &text::bad_format_line_bytes());
        return ;
    }
    let new_timeout = normalize_timeout_at(timeout, now);
    let mut found = false;
    let mut i: usize = 0;
    while i < keys.len()
        invariant
            state.wf(),
            ks == keys_view(keys@),
            i <= keys@.len(),
            new_timeout == normalized_timeout(timeout, now),
            (state@, output@, found) == (
                touch_run(old(state)@, ks.take(i as int), new_timeout, now, with_cas).0,
                old(output)@ + touch_run(old(state)@, ks.take(i as int), new_timeout, now, with_cas).1,
                touch_run(old(state)@, ks.take(i as int), new_timeout, now, with_cas).2,
            ),
        decreases keys@.len() - i,
    {
        let key = &keys[i];
        proof {
            assert(ks.take(i + 1).drop_last() =~= ks.take(i as int));
            assert(ks.take(i + 1).last() == key@);
        }
        let ghost s_before = state@;
        let ghost out_before = output@;
        let hit = match state.get_key(key.as_slice()) {
            Some(d) => {
                if data_is_live(d, now) {
                    if with_cas {
                        append_value_with_cas(output, key.as_slice(), d.flags, d.data.as_slice(), d.cas_unique);
                    } else {
                        append_value(output, key.as_slice(), d.flags, d.data.as_slice());
                    }
                    let value = copy_range(d.data.as_slice(), 0, d.data.len());
                    proof {
                        assert(d.data@.subrange(0, d.data@.len() as int) =~= d.data@);
                    }
                    Some(
                        Data {
                            data: value,
                            timeout: new_timeout,
                            flags: d.flags,
                            time: now,
                            cas_unique: 0,
                        },
                    )
                } else {
                    None
                }
            },
            None => None,
        };
        match hit {
            Some(data) => {
                let k = copy_range(key.as_slice(), 0, key.len());
                proof {
                    assert(key@.subrange(0, key@.len() as int) =~= key@);
                }
                state.set_key(k, data);
                found = true;
                assert(output@ =~= out_before + touch_step(s_before, key@, new_timeout, now, with_cas).1);
            },
            None => {
                assert(output@ =~= out_before + touch_step(s_before, key@, new_timeout, now, with_cas).1);
            },
        }
        assert(output@ =~= old(output)@ + touch_run(old(state)@, ks.take(i + 1), new_timeout, now, with_cas).1);
        i = i + 1;
    }
    proof {
        assert(ks.take(keys@.len() as int) =~= ks);
    }
    count_lookup(state, found);
    emit(output, &text::end_line_bytes());
    assert(output@ =~= old(output)@ + gat_effect(old(state)@, timeout, ks, now, with_cas).1);
}

/// Handles `get` at time `now`, on a store whose delayed
/// flushes due at `now` have been applied.
pub(crate) fn serve_get(state: &mut State, command: Command, output: &mut Vec<u8>, now: u128)
    requires
        old(state).wf(),
    ensures
        final(state).wf(),
        final(state)@ == get_outcome(old(state)@, command@, now).0,
        final(output)@ == old(output)@ + get_outcome(old(state)@, command@, now).1,
{
    match command {
        Command::Get { keys } => read_keys_into(state, &keys, output, now, false),
        _ => {
            assert(old(output)@ + Seq::<u8>::empty() =~= old(output)@);
        },
    }
}

/// Handles `gets` at time `now`, on a store whose delayed
/// flushes due at `now` have been applied.
pub(crate) fn serve_gets(state: &mut State, command: Command, output: &mut Vec<u8>, now: u128)
    requires
        old(state).wf(),
    ensures
        final(state).wf(),
        final(state)@ == gets_outcome(old(state)@, command@, now).0,
        final(output)@ == old(output)@ + gets_outcome(old(state)@, command@, now).1,
{
    match command {
        Command::Gets { keys } => read_keys_into(state, &keys, output, now, true),
        _ => {
            assert(old(output)@ + Seq::<u8>::empty() =~= old(output)@);
        },
    }
}

/// Handles `gat` or `gats` at time `now`, with tokens when `with_cas` is set.
fn handle_gat_or_gats(state: &mut State, command: Command, output: &mut Vec<u8>, now: u128, with_cas: bool)
    requires
        old(state).wf(),
    ensures
        final(state).wf(),
        final(state)@ == gat_or_gats_outcome(old(state)@, command@, now, with_cas).0,
        final(output)@ == old(output)@ + gat_or_gats_outcome(old(state)@, command@, now, with_cas).1,
{
    match command {
        Command::Gat { timeout, keys } => touch_keys(state, timeout, &keys, output, now, with_cas),
        Command::Gats { timeout, keys } => touch_keys(state, timeout, &keys, output, now, with_cas),
        _ => {
            assert(old(output)@ + Seq::<u8>::empty() =~= old(output)@);
        },
    }
}

/// Handles `gat` at time `now`, on a store whose delayed
/// flushes due at `now` have been applied.
pub(crate) fn serve_gat(state: &mut State, command: Command, output: &mut Vec<u8>, now: u128)
    requires
        old(state).wf(),
    ensures
        final(state).wf(),
        final(state)@ == gat_outcome(old(state)@, command@, now).0,
        final(output)@ == old(output)@ + gat_outcome(old(state)@, command@, now).1,
{
    handle_gat_or_gats(state, command, output, now, false)
}

/// Handles `gats` at time `now`, on a store whose delayed
/// flushes due at `now` have been applied.
pub(crate) fn serve_gats(state: &mut State, command: Command, output: &mut Vec<u8>, now: u128)
    requires
        old(state).wf(),
    ensures
        final(state).wf(),
        final(state)@ == gats_outcome(old(state)@, command@, now).0,
        final(output)@ == old(output)@ + gats_outcome(old(state)@, command@, now).1,
{
    handle_gat_or_gats(state, command, output, now, true)
}

/// Handles `get` at time `now`: the delayed flushes due at `now` happen first.
pub fn handle_get_at(state: &mut State, command: Command, output: &mut Vec<u8>, now: u128)
    requires
        old(state).wf(),
    ensures
        final(state).wf(),
        final(state)@ == get_outcome(old(state)@.settled(now), command@, now).0,
        final(output)@ == old(output)@ + get_outcome(old(state)@.settled(now), command@, now).1,
{
    state.settle(now);
    serve_get(state, command, output, now);
}

/// Handles `get` at the current time.
pub fn handle_get(state: &mut State, command: Command, output: &mut Vec<u8>)
    requires
        old(state).wf(),
    ensures
        final(state).wf(),
        exists|now: u128|
            final(state)@ == #[trigger] get_outcome(old(state)@.settled(now), command@, now).0 && final(output)@
                == old(output)@ + get_outcome(old(state)@.settled(now), command@, now).1,
{
    let now = now_nanos();
    handle_get_at(state, command, output, now);
}

/// Handles `gets` at time `now`: the delayed flushes due at `now` happen first.
pub fn handle_gets_at(state: &mut State, command: Command, output: &mut Vec<u8>, now: u128)
    requires
        old(state).wf(),
    ensures
        final(state).wf(),
        final(state)@ == gets_outcome(old(state)@.settled(now), command@, now).0,
        final(output)@ == old(output)@ + gets_outcome(old(state)@.settled(now), command@, now).1,
{
    state.settle(now);
    serve_gets(state, command, output, now);
}

/// Handles `gets` at the current time.
pub fn handle_gets(state: &mut State, command: Command, output: &mut Vec<u8>)
    requires
        old(state).wf(),
    ensures
        final(state).wf(),
        exists|now: u128|
            final(state)@ == #[trigger] gets_outcome(old(state)@.settled(now), command@, now).0 && final(output)@
                == old(output)@ + gets_outcome(old(state)@.settled(now), command@, now).1,
{
    let now = now_nanos();
    handle_gets_at(state, command, output, now);
}

/// Handles `gat` at time `now`: the delayed flushes due at `now` happen first.
pub fn handle_gat_at(state: &mut State, command: Command, output: &mut Vec<u8>, now: u128)
    requires
        old(state).wf(),
    ensures
        final(state).wf(),
        final(state)@ == gat_outcome(old(state)@.settled(now), command@, now).0,
        final(output)@ == old(output)@ + gat_outcome(old(state)@.settled(now), command@, now).1,
        command@ matches CommandView::Gat { keys, .. } ==> (forall|i: int|
            0 <= i < keys.len() ==> valid_key(#[trigger] keys[i])) ==> counted_once(
            old(state)@.settled(now),
            final(state)@,
            keys,
            now,
        ),
        command@ matches CommandView::Gats { keys, .. } ==> (forall|i: int|
            0 <= i < keys.len() ==> valid_key(#[trigger] keys[i])) ==> counted_once(
            old(state)@.settled(now),
            final(state)@,
            keys,
            now,
        ),
{
    proof {
        match command@ {
            CommandView::Gat { timeout, keys } => {
                lemma_touch_run(
                    old(state)@.settled(now),
                    keys,
                    normalized_timeout(timeout, now),
                    now,
                    false,
                );
            },
            CommandView::Gats { timeout, keys } => {
                lemma_touch_run(
                    old(state)@.settled(now),
                    keys,
                    normalized_timeout(timeout, now),
                    now,
                    false,
                );
            },
            _ => {},
        }
    }
    state.settle(now);
    serve_gat(state, command, output, now);
}

/// Handles `gat` at the current time.
pub fn handle_gat(state: &mut State, command: Command, output: &mut Vec<u8>)
    requires
        old(state).wf(),
    ensures
        final(state).wf(),
        exists|now: u128|
            final(state)@ == #[trigger] gat_outcome(old(state)@.settled(now), command@, now).0 && final(output)@
                == old(output)@ + gat_outcome(old(state)@.settled(now), command@, now).1,
{
    let now = now_nanos();
    handle_gat_at(state, command, output, now);
}

/// Handles `gats` at time `now`: the delayed flushes due at `now` happen first.
pub fn handle_gats_at(state: &mut State, command: Command, output: &mut Vec<u8>, now: u128)
    requires
        old(state).wf(),
    ensures
        final(state).wf(),
        final(state)@ == gats_outcome(old(state)@.settled(now), command@, now).0,
        final(output)@ == old(output)@ + gats_outcome(old(state)@.settled(now), command@, now).1,
        command@ matches CommandView::Gat { keys, .. } ==> (forall|i: int|
            0 <= i < keys.len() ==> valid_key(#[trigger] keys[i])) ==> counted_once(
            old(state)@.settled(now),
            final(state)@,
            keys,
            now,
        ),
        command@ matches CommandView::Gats { keys, .. } ==> (forall|i: int|
            0 <= i < keys.len() ==> valid_key(#[trigger] keys[i])) ==> counted_once(
            old(state)@.settled(now),
            final(state)@,
            keys,
            now,
        ),
{
    proof {
        match command@ {
            CommandView::Gat { timeout, keys } => {
                lemma_touch_run(
                    old(state)@.settled(now),
                    keys,
                    normalized_timeout(timeout, now),
                    now,
                    true,
                );
            },
            CommandView::Gats { timeout, keys } => {
                lemma_touch_run(
                    old(state)@.settled(now),
                    keys,
                    normalized_timeout(timeout, now),
                    now,
                    true,
                );
            },
            _ => {},
        }
    }
    state.settle(now);
    serve_gats(state, command, output, now);
}

/// Handles `gats` at the current time.
pub fn handle_gats(state: &mut State, command: Command, output: &mut Vec<u8>)
    requires
        old(state).wf(),
    ensures
        final(state).wf(),
        exists|now: u128|
            final(state)@ == #[trigger] gats_outcome(old(state)@.settled(now), command@, now).0 && final(output)@
                == old(output)@ + gats_outcome(old(state)@.settled(now), command@, now).1,
{
    let now = now_nanos();
    handle_gats_at(state, command, output, now);
}

} // verus!
