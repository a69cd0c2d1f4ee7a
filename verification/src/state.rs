//! The item store: a map from keys to items, the counters that `stats` reports,
//! and the pending delayed flushes.

use vstd::prelude::*;
use crate::bytes::bytes_eq;
use crate::clock::now_nanos;

verus! {

/// An item as mathematical values.
pub struct ItemView {
    pub value: Seq<u8>,
    pub timeout: i64,
    pub flags: i32,
    /// When the item was stored, in nanoseconds since the Unix epoch.
    pub time: u128,
    pub cas: u64,
}

/// A stored item.
#[derive(Debug)]
pub struct Data {
    pub data: Vec<u8>,
    /// Seconds the item lives after `time`; 0 means forever, a negative value means
    /// it is already expired.
    pub timeout: i64,
    pub flags: i32,
    /// When the item was stored, in nanoseconds since the Unix epoch.
    pub time: u128,
    pub cas_unique: u64,
}

impl View for Data {
    type V = ItemView;

    open spec fn view(&self) -> ItemView {
        ItemView {
            value: self.data@,
            timeout: self.timeout,
            flags: self.flags,
            time: self.time,
            cas: self.cas_unique,
        }
    }
}

/// The whole state of the server as mathematical values.
pub struct StateView {
    pub items: Map<Seq<u8>, ItemView>,
    /// The `cas` token that the next stored item gets.
    pub next_cas: u64,
    pub start_time: u128,
    pub cmd_get: u64,
    pub cmd_set: u64,
    pub total_items: u64,
    pub get_hits: u64,
    pub get_misses: u64,
    /// The instants (nanoseconds since the Unix epoch) at which delayed flushes are due.
    pub flush_deadlines: Seq<u128>,
    pub process_id: u32,
}

/// The successor of a counter that wraps around at `u64::MAX`.
pub open spec fn wrapping_next(n: u64) -> u64 {
    if n == u64::MAX {
        0
    } else {
        (n + 1) as u64
    }
}

/// The number of value bytes held by the items of `m`.
pub open spec fn stored_bytes(m: Map<Seq<u8>, ItemView>) -> nat
    decreases m.dom().len(),
    when m.dom().finite()
{
    if m.dom().len() == 0 {
        0
    } else {
        let k = m.dom().choose();
        m[k].value.len() + stored_bytes(m.remove(k))
    }
}

/// Any one item can be taken out first when counting value bytes.
pub proof fn lemma_stored_bytes_remove(m: Map<Seq<u8>, ItemView>, k: Seq<u8>)
    requires
        m.dom().finite(),
        m.contains_key(k),
    ensures
        stored_bytes(m) == m[k].value.len() + stored_bytes(m.remove(k)),
    decreases m.dom().len(),
{
    let c = m.dom().choose();
    if c != k {
        let mc = m.remove(c);
        let mk = m.remove(k);
        lemma_stored_bytes_remove(mc, k);
        lemma_stored_bytes_remove(mk, c);
        assert(mc.remove(k) =~= mk.remove(c));
    }
}

/// Storing an item keeps the tokens fresh and gives it a token above every held
/// one, as long as the counter does not wrap.
pub proof fn lemma_with_item_fresh(s: StateView, key: Seq<u8>, item: ItemView)
    requires
        s.tokens_fresh(),
        s.next_cas < u64::MAX,
    ensures
        s.with_item(key, item).tokens_fresh(),
        forall|k: Seq<u8>| #[trigger]
            s.items.contains_key(k) ==> s.items[k].cas < s.with_item(key, item).items[key].cas,
{
    let t = s.with_item(key, item);
    assert forall|k: Seq<u8>| #[trigger] t.items.contains_key(k) implies t.items[k].cas
        < t.next_cas by {
        if k != key {
            assert(s.items.contains_key(k));
        }
    }
}

/// Applying the due flushes keeps the tokens fresh and the token counter as it was.
pub proof fn lemma_settled_fresh(s: StateView, now: u128)
    requires
        s.tokens_fresh(),
    ensures
        s.settled(now).tokens_fresh(),
        s.settled(now).next_cas == s.next_cas,
{
    let t = s.settled(now);
    assert forall|k: Seq<u8>| #[trigger] t.items.contains_key(k) implies t.items[k].cas
        < t.next_cas by {
        assert(s.items.contains_key(k));
    }
}

/// The deadlines of `d` that lie after `now`, in their order.
pub open spec fn later_deadlines(d: Seq<u128>, now: u128) -> Seq<u128>
    decreases d.len(),
{
    if d.len() == 0 {
        Seq::empty()
    } else if d.last() > now {
        later_deadlines(d.drop_last(), now).push(d.last())
    } else {
        later_deadlines(d.drop_last(), now)
    }
}

/// Whether some deadline of `d` has come at `now`.
pub open spec fn some_due(d: Seq<u128>, now: u128) -> bool {
    exists|i: int| 0 <= i < d.len() && d[i] <= now
}

impl StateView {
    /// The state right after start-up at `now`.
    pub open spec fn initial(now: u128) -> StateView {
        StateView {
            items: Map::empty(),
            next_cas: 1,
            start_time: now,
            cmd_get: 0,
            cmd_set: 0,
            total_items: 0,
            get_hits: 0,
            get_misses: 0,
            flush_deadlines: Seq::empty(),
            process_id: 0,
        }
    }

    /// Stores `item` under `key`, giving it the next `cas` token.
    pub open spec fn with_item(self, key: Seq<u8>, item: ItemView) -> StateView {
        StateView {
            items: self.items.insert(key, ItemView { cas: self.next_cas, ..item }),
            next_cas: wrapping_next(self.next_cas),
            ..self
        }
    }

    /// Counts one more stored item.
    pub open spec fn counted(self) -> StateView {
        StateView { total_items: wrapping_next(self.total_items), ..self }
    }

    /// Whether every held item's `cas` token lies below the token the next stored
    /// item gets, so that a token handed out later differs from every one held.
    /// The token counter wraps around at `u64::MAX`, and after that this can fail.
    pub open spec fn tokens_fresh(self) -> bool {
        forall|k: Seq<u8>| #[trigger] self.items.contains_key(k) ==> self.items[k].cas < self.next_cas
    }

    /// Removes every item.
    pub open spec fn emptied(self) -> StateView {
        StateView { items: Map::empty(), ..self }
    }

    /// Applies the delayed flushes that are due at `now`: if any is, every item goes
    /// and the due deadlines are dropped.
    pub open spec fn settled(self, now: u128) -> StateView {
        if some_due(self.flush_deadlines, now) {
            StateView {
                items: Map::empty(),
                flush_deadlines: later_deadlines(self.flush_deadlines, now),
                ..self
            }
        } else {
            self
        }
    }
}

#[derive(Debug)]
struct Entry {
    key: Vec<u8>,
    data: Data,
}

/// Whether the keys of `es` are pairwise different.
spec fn distinct_keys(es: Seq<Entry>) -> bool {
    forall|i: int, j: int|
        0 <= i < es.len() && 0 <= j < es.len() && i != j ==> es[i].key@ != es[j].key@
}

/// Whether some entry of `es` has key `k`.
spec fn has_key(es: Seq<Entry>, k: Seq<u8>) -> bool {
    exists|i: int| 0 <= i < es.len() && es[i].key@ == k
}

/// The position of the entry with key `k`.
spec fn index_of(es: Seq<Entry>, k: Seq<u8>) -> int {
    choose|i: int| 0 <= i < es.len() && es[i].key@ == k
}

/// The map that a list of entries stands for.
spec fn items_of(es: Seq<Entry>) -> Map<Seq<u8>, ItemView> {
    Map::new(|k: Seq<u8>| has_key(es, k), |k: Seq<u8>| es[index_of(es, k)].data@)
}

proof fn lemma_index_of(es: Seq<Entry>, i: int)
    requires
        distinct_keys(es),
        0 <= i < es.len(),
    ensures
        index_of(es, es[i].key@) == i,
        items_of(es).contains_key(es[i].key@),
        items_of(es)[es[i].key@] == es[i].data@,
{
    let k = es[i].key@;
    assert(has_key(es, k));
    let j = index_of(es, k);
    assert(es[j].key@ == k);
}

proof fn lemma_items_finite(es: Seq<Entry>)
    ensures
        items_of(es).dom().finite(),
    decreases es.len(),
{
    if es.len() == 0 {
        assert(items_of(es).dom() =~= Set::<Seq<u8>>::empty());
    } else {
        let init = es.drop_last();
        lemma_items_finite(init);
        assert(items_of(es).dom() =~= items_of(init).dom().insert(es.last().key@)) by {
            assert forall|k: Seq<u8>| #[trigger] has_key(es, k) implies has_key(init, k) || k
                == es.last().key@ by {
                let i = choose|i: int| 0 <= i < es.len() && es[i].key@ == k;
                if i < es.len() - 1 {
                    assert(init[i] == es[i]);
                }
            }
            assert forall|k: Seq<u8>| has_key(init, k) implies #[trigger] has_key(es, k) by {
                let i = choose|i: int| 0 <= i < init.len() && init[i].key@ == k;
                assert(es[i] == init[i]);
            }
            assert(has_key(es, es.last().key@)) by {
                assert(es[es.len() - 1].key@ == es.last().key@);
            }
        }
    }
}

proof fn lemma_push(es: Seq<Entry>, e: Entry)
    requires
        distinct_keys(es),
        !has_key(es, e.key@),
    ensures
        distinct_keys(es.push(e)),
        items_of(es.push(e)) =~= items_of(es).insert(e.key@, e.data@),
{
    let es2 = es.push(e);
    assert forall|i: int, j: int|
        0 <= i < es2.len() && 0 <= j < es2.len() && i != j implies es2[i].key@ != es2[j].key@ by {
        if i < es.len() && j < es.len() {
            assert(es2[i] == es[i] && es2[j] == es[j]);
        } else if i < es.len() {
            assert(es2[i] == es[i]);
        } else if j < es.len() {
            assert(es2[j] == es[j]);
        }
    }
    assert forall|k: Seq<u8>| #[trigger] has_key(es2, k) == (has_key(es, k) || k == e.key@) by {
        if has_key(es, k) {
            let i = choose|i: int| 0 <= i < es.len() && es[i].key@ == k;
            assert(es2[i] == es[i]);
        }
        if k == e.key@ {
            assert(es2[es.len() as int] == e);
        }
        if has_key(es2, k) {
            let i = choose|i: int| 0 <= i < es2.len() && es2[i].key@ == k;
            if i < es.len() {
                assert(es2[i] == es[i]);
            }
        }
    }
    assert forall|k: Seq<u8>| has_key(es2, k) implies items_of(es2)[k] == items_of(es).insert(
        e.key@,
        e.data@,
    )[k] by {
        if k == e.key@ {
            lemma_index_of(es2, es.len() as int);
        } else {
            let i = index_of(es, k);
            assert(es2[i] == es[i]);
            lemma_index_of(es, i);
            lemma_index_of(es2, i);
        }
    }
}

proof fn lemma_swap_remove(es: Seq<Entry>, i: int)
    requires
        distinct_keys(es),
        0 <= i < es.len(),
    ensures
        distinct_keys(es.update(i, es.last()).drop_last()),
        items_of(es.update(i, es.last()).drop_last()) =~= items_of(es).remove(es[i].key@),
{
    let es2 = es.update(i, es.last()).drop_last();
    let n = es.len() - 1;
    // Where each entry of the new list came from.
    assert forall|j: int| 0 <= j < es2.len() implies #[trigger] es2[j] == es[if j == i {
        n
    } else {
        j
    }] by {}
    assert forall|a: int, b: int|
        0 <= a < es2.len() && 0 <= b < es2.len() && a != b implies es2[a].key@ != es2[b].key@ by {
        assert(es2[a] == es[if a == i {
            n
        } else {
            a
        }]);
        assert(es2[b] == es[if b == i {
            n
        } else {
            b
        }]);
    }
    let k0 = es[i].key@;
    assert forall|k: Seq<u8>| #[trigger] has_key(es2, k) == (has_key(es, k) && k != k0) by {
        if has_key(es2, k) {
            let j = choose|j: int| 0 <= j < es2.len() && es2[j].key@ == k;
            let src = if j == i {
                n
            } else {
                j
            };
            assert(es2[j] == es[src]);
            assert(src != i);
        }
        if has_key(es, k) && k != k0 {
            let j = choose|j: int| 0 <= j < es.len() && es[j].key@ == k;
            assert(j != i);
            if j == n {
                assert(es2[i] == es[n]);
            } else {
                assert(es2[j] == es[j]);
            }
        }
    }
    assert forall|k: Seq<u8>| has_key(es2, k) implies items_of(es2)[k] == items_of(es)[k] by {
        let j = index_of(es2, k);
        let src = if j == i {
            n
        } else {
            j
        };
        assert(es2[j] == es[src]);
        lemma_index_of(es2, j);
        lemma_index_of(es, src);
    }
}

/// The item store and the server's counters.
///
/// The items are kept as a list of entries with pairwise different keys. vstd
/// specifies std's `HashMap` only for keys whose hashing it models (integers,
/// `bool`, and boxes of them); a map keyed by byte vectors would carry no
/// contract, so the store is a list whose invariant the operations prove.
#[derive(Debug)]
pub struct State {
    entries: Vec<Entry>,
    next_cas: u64,
    flush_deadlines: Vec<u128>,
    start_time: u128,
    cmd_get: u64,
    cmd_set: u64,
    total_items: u64,
    get_hits: u64,
    get_misses: u64,
    process_id: u32,
}

impl View for State {
    type V = StateView;

    closed spec fn view(&self) -> StateView {
        StateView {
            items: items_of(self.entries@),
            next_cas: self.next_cas,
            start_time: self.start_time,
            cmd_get: self.cmd_get,
            cmd_set: self.cmd_set,
            total_items: self.total_items,
            get_hits: self.get_hits,
            get_misses: self.get_misses,
            flush_deadlines: self.flush_deadlines@,
            process_id: self.process_id,
        }
    }
}

impl State {
    /// The store's invariant: no key is held twice.
    pub closed spec fn wf(&self) -> bool {
        distinct_keys(self.entries@)
    }

    /// An empty store started at `now`.
    pub fn new_at(now: u128) -> (r: State)
        ensures
            r.wf(),
            r@ == StateView::initial(now),
    {
        let r = State {
            entries: Vec::new(),
            next_cas: 1,
            flush_deadlines: Vec::new(),
            start_time: now,
            cmd_get: 0,
            cmd_set: 0,
            total_items: 0,
            get_hits: 0,
            get_misses: 0,
            process_id: 0,
        };
        assert(r@.items =~= Map::<Seq<u8>, ItemView>::empty());
        assert(r@.flush_deadlines =~= Seq::<u128>::empty());
        r
    }

    /// An empty store started now. Its `stats` report process id 0 until
    /// [`State::set_process_id`] records the real one; [`State::with_process_id`]
    /// takes it at once.
    pub fn new() -> (r: State)
        ensures
            r.wf(),
            r@.tokens_fresh(),
            exists|now: u128| r@ == StateView::initial(now),
    {
        State::new_at(now_nanos())
    }

    /// An empty store started now, whose `stats` report the process id `pid`.
    pub fn with_process_id(pid: u32) -> (r: State)
        ensures
            r.wf(),
            r@.tokens_fresh(),
            exists|now: u128| r@ == (StateView { process_id: pid, ..#[trigger] StateView::initial(now) }),
    {
        let mut r = State::new();
        r.set_process_id(pid);
        r
    }

    /// A well-formed store holds finitely many items.
    pub proof fn lemma_finite(&self)
        requires
            self.wf(),
        ensures
            self@.items.dom().finite(),
    {
        lemma_items_finite(self.entries@);
    }

    /// Records the operating-system process id that `stats` reports.
    pub fn set_process_id(&mut self, pid: u32)
        requires
            old(self).wf(),
        ensures
            final(self).wf(),
            final(self)@ == (StateView { process_id: pid, ..old(self)@ }),
    {
        self.process_id = pid;
    }

    fn find(&self, key: &[u8]) -> (r: Option<usize>)
        requires
            self.wf(),
        ensures
            r matches Some(i) ==> i < self.entries@.len() && self.entries@[i as int].key@ == key@,
            r is None ==> !has_key(self.entries@, key@),
    {
        let mut i: usize = 0;
        while i < self.entries.len()
            invariant
                i <= self.entries@.len(),
                forall|j: int| 0 <= j < i ==> self.entries@[j].key@ != key@,
            decreases self.entries@.len() - i,
        {
            if bytes_eq(self.entries[i].key.as_slice(), key) {
                return Some(i);
            }
            i = i + 1;
        }
        None
    }

    /// Stores `data` under `key` with the next `cas` token, and gives back the item
    /// it replaces.
    pub fn set_key(&mut self, key: Vec<u8>, data: Data) -> (r: Option<Data>)
        requires
            old(self).wf(),
        ensures
            final(self).wf(),
            final(self)@ == old(self)@.with_item(key@, data@),
            r matches Some(d) ==> old(self)@.items.contains_key(key@) && d@ == old(self)@.items[key@],
            r is None ==> !old(self)@.items.contains_key(key@),
            old(self)@.tokens_fresh() && old(self)@.next_cas < u64::MAX ==> final(self)@.tokens_fresh()
                && forall|k: Seq<u8>| #[trigger]
                    old(self)@.items.contains_key(k) ==> old(self)@.items[k].cas
                        < final(self)@.items[key@].cas,
    {
        proof {
            if old(self)@.tokens_fresh() && old(self)@.next_cas < u64::MAX {
                lemma_with_item_fresh(old(self)@, key@, data@);
            }
        }
        let mut data = data;
        data.cas_unique = self.next_cas;
        self.next_cas = if self.next_cas == u64::MAX {
            0
        } else {
            self.next_cas + 1
        };
        let ghost es0 = self.entries@;
        let found = self.find(key.as_slice());
        let ghost k = key@;
        let ghost d = data@;
        match found {
            Some(i) => {
                proof {
                    lemma_index_of(es0, i as int);
                }
                let old_entry = self.entries.swap_remove(i);
                proof {
                    lemma_swap_remove(es0, i as int);
                    assert(!has_key(self.entries@, k));
                }
                let ghost es1 = self.entries@;
                self.entries.push(Entry { key, data });
                proof {
                    lemma_push(es1, self.entries@.last());
                    assert(self.entries@ == es1.push(self.entries@.last()));
                    assert(items_of(self.entries@) =~= items_of(es0).insert(k, d));
                }
                Some(old_entry.data)
            },
            None => {
                self.entries.push(Entry { key, data });
                proof {
                    lemma_push(es0, self.entries@.last());
                    assert(self.entries@ == es0.push(self.entries@.last()));
                }
                None
            },
        }
    }

    /// The item stored under `key`, if any.
    pub fn get_key(&self, key: &[u8]) -> (r: Option<&Data>)
        requires
            self.wf(),
        ensures
            r matches Some(d) ==> self@.items.contains_key(key@) && d@ == self@.items[key@],
            r is None ==> !self@.items.contains_key(key@),
    {
        match self.find(key) {
            Some(i) => {
                proof {
                    lemma_index_of(self.entries@, i as int);
                }
                Some(&self.entries[i].data)
            },
            None => None,
        }
    }

    /// The `cas` token of the item stored under `key`, if any.
    pub fn get_cas(&self, key: &[u8]) -> (r: Option<u64>)
        requires
            self.wf(),
        ensures
            r matches Some(c) ==> self@.items.contains_key(key@) && c == self@.items[key@].cas,
            r is None ==> !self@.items.contains_key(key@),
    {
        match self.get_key(key) {
            Some(d) => Some(d.cas_unique),
            None => None,
        }
    }

    /// Removes the item stored under `key`; says whether there was one.
    pub fn delete_key(&mut self, key: &[u8]) -> (r: bool)
        requires
            old(self).wf(),
        ensures
            final(self).wf(),
            final(self)@ == (StateView { items: old(self)@.items.remove(key@), ..old(self)@ }),
            r == old(self)@.items.contains_key(key@),
            final(self)@.items.dom().finite(),
            final(self)@.items.len() == old(self)@.items.len() - (if r {
                1int
            } else {
                0int
            }),
            old(self)@.tokens_fresh() ==> final(self)@.tokens_fresh(),
    {
        proof {
            lemma_items_finite(self.entries@);
            let o = old(self)@;
            let r = o.items.remove(key@);
            if o.tokens_fresh() {
                assert forall|k: Seq<u8>| #[trigger] r.contains_key(k) implies r[k].cas
                    < o.next_cas by {
                    assert(o.items.contains_key(k));
                }
            }
        }
        let ghost es0 = self.entries@;
        match self.find(key) {
            Some(i) => {
                proof {
                    lemma_index_of(es0, i as int);
                    lemma_swap_remove(es0, i as int);
                }
                self.entries.swap_remove(i);
                true
            },
            None => {
                assert(items_of(es0).remove(key@) =~= items_of(es0));
                false
            },
        }
    }

    /// Removes every item.
    pub fn clear(&mut self)
        requires
            old(self).wf(),
        ensures
            final(self).wf(),
            final(self)@ == old(self)@.emptied(),
            final(self)@.tokens_fresh(),
            old(self)@.tokens_fresh() ==> forall|k: Seq<u8>| #[trigger]
                old(self)@.items.contains_key(k) ==> old(self)@.items[k].cas < final(self)@.next_cas,
    {
        self.entries.clear();
        assert(items_of(self.entries@) =~= Map::<Seq<u8>, ItemView>::empty());
    }

    /// The number of items.
    pub fn len(&self) -> (r: usize)
        requires
            self.wf(),
        ensures
            r == self@.items.len(),
    {
        proof {
            self.lemma_len();
        }
        self.entries.len()
    }

    proof fn lemma_len(&self)
        requires
            self.wf(),
        ensures
            self@.items.len() == self.entries@.len(),
    {
        lemma_len_of(self.entries@);
    }

    /// Whether there is no item.
    pub fn is_empty(&self) -> (r: bool)
        requires
            self.wf(),
        ensures
            r == (self@.items.len() == 0),
    {
        proof {
            self.lemma_len();
        }
        self.entries.len() == 0
    }

    /// The number of value bytes held, or `usize::MAX` if that does not fit.
    pub fn total_bytes(&self) -> (r: usize)
        requires
            self.wf(),
        ensures
            r == if stored_bytes(self@.items) <= usize::MAX {
                stored_bytes(self@.items)
            } else {
                usize::MAX as nat
            },
    {
        let mut total: usize = 0;
        let mut i: usize = 0;
        let ghost es = self.entries@;
        proof {
            assert(es.subrange(0, 0) =~= Seq::<Entry>::empty());
            assert(items_of(es.subrange(0, 0)) =~= Map::<Seq<u8>, ItemView>::empty());
            assert(items_of(es.subrange(0, 0)).dom() =~= Set::<Seq<u8>>::empty());
        }
        while i < self.entries.len()
            invariant
                es == self.entries@,
                distinct_keys(es),
                i <= es.len(),
                total == if stored_bytes(items_of(es.subrange(0, i as int))) <= usize::MAX {
                    stored_bytes(items_of(es.subrange(0, i as int)))
                } else {
                    usize::MAX as nat
                },
            decreases es.len() - i,
        {
            let n = self.entries[i].data.data.len();
            proof {
                let pre = es.subrange(0, i as int);
                let post = es.subrange(0, i + 1);
                assert(post == pre.push(es[i as int]));
                assert(distinct_keys(pre));
                assert(!has_key(pre, es[i as int].key@)) by {
                    if has_key(pre, es[i as int].key@) {
                        let j = choose|j: int| 0 <= j < pre.len() && pre[j].key@ == es[i as int].key@;
                        assert(pre[j] == es[j]);
                    }
                }
                lemma_push(pre, es[i as int]);
                lemma_items_finite(post);
                lemma_stored_bytes_remove(items_of(post), es[i as int].key@);
                assert(items_of(post).remove(es[i as int].key@) =~= items_of(pre));
            }
            total = total.saturating_add(n);
            i = i + 1;
        }
        proof {
            assert(es.subrange(0, es.len() as int) =~= es);
        }
        total
    }

    /// Counts one more stored item.
    pub fn increment_total_items(&mut self)
        requires
            old(self).wf(),
        ensures
            final(self).wf(),
            final(self)@ == old(self)@.counted(),
    {
        self.total_items = self.total_items.wrapping_add(1);
    }

    /// The `start_time` that the view shows.
    pub fn start_time(&self) -> (r: u128)
        ensures
            r == self@.start_time,
    {
        self.start_time
    }

    /// The `cmd_get` that the view shows.
    pub fn cmd_get(&self) -> (r: u64)
        ensures
            r == self@.cmd_get,
    {
        self.cmd_get
    }

    /// The `cmd_set` that the view shows.
    pub fn cmd_set(&self) -> (r: u64)
        ensures
            r == self@.cmd_set,
    {
        self.cmd_set
    }

    /// The `total_items` that the view shows.
    pub fn total_items(&self) -> (r: u64)
        ensures
            r == self@.total_items,
    {
        self.total_items
    }

    /// The `get_hits` that the view shows.
    pub fn get_hits(&self) -> (r: u64)
        ensures
            r == self@.get_hits,
    {
        self.get_hits
    }

    /// The `get_misses` that the view shows.
    pub fn get_misses(&self) -> (r: u64)
        ensures
            r == self@.get_misses,
    {
        self.get_misses
    }

    /// The `process_id` that the view shows.
    pub fn process_id(&self) -> (r: u32)
        ensures
            r == self@.process_id,
    {
        self.process_id
    }

    /// Counts a retrieval that found an item.
    pub fn count_hit(&mut self)
        requires
            old(self).wf(),
        ensures
            final(self).wf(),
            final(self)@ == (StateView { get_hits: wrapping_next(old(self)@.get_hits), ..old(self)@ }),
    {
        self.get_hits = self.get_hits.wrapping_add(1);
    }

    /// Counts a retrieval that found nothing.
    pub fn count_miss(&mut self)
        requires
            old(self).wf(),
        ensures
            final(self).wf(),
            final(self)@ == (StateView {
                get_misses: wrapping_next(old(self)@.get_misses),
                ..old(self)@
            }),
    {
        self.get_misses = self.get_misses.wrapping_add(1);
    }

    /// Records a flush that becomes due at `deadline`.
    pub fn schedule_flush(&mut self, deadline: u128)
        requires
            old(self).wf(),
        ensures
            final(self).wf(),
            final(self)@ == (StateView {
                flush_deadlines: old(self)@.flush_deadlines.push(deadline),
                ..old(self)@
            }),
    {
        self.flush_deadlines.push(deadline);
    }

    /// Applies the delayed flushes that are due at `now`.
    pub fn settle(&mut self, now: u128)
        requires
            old(self).wf(),
        ensures
            final(self).wf(),
            final(self)@ == old(self)@.settled(now),
    {
        let mut due = false;
        let mut later: Vec<u128> = Vec::new();
        let mut i: usize = 0;
        let ghost d = self.flush_deadlines@;
        while i < self.flush_deadlines.len()
            invariant
                d == self.flush_deadlines@,
                i <= d.len(),
                later@ == later_deadlines(d.subrange(0, i as int), now),
                due == some_due(d.subrange(0, i as int), now),
            decreases d.len() - i,
        {
            let t = self.flush_deadlines[i];
            proof {
                let pre = d.subrange(0, i as int);
                let post = d.subrange(0, i + 1);
                assert(post.drop_last() =~= pre);
                assert(post.last() == t);
                if some_due(post, now) {
                    let j = choose|j: int| 0 <= j < i + 1 && #[trigger] post[j] <= now;
                    if j < i {
                        assert(pre[j] == d[j]);
                    }
                }
                if some_due(pre, now) {
                    let j = choose|j: int| 0 <= j < i && #[trigger] pre[j] <= now;
                    assert(post[j] == d[j]);
                }
                if t <= now {
                    assert(post[i as int] == t);
                }
            }
            if t > now {
                later.push(t);
            } else {
                due = true;
            }
            i = i + 1;
        }
        proof {
            assert(d.subrange(0, d.len() as int) =~= d);
        }
        if due {
            self.entries.clear();
            self.flush_deadlines = later;
            assert(items_of(self.entries@) =~= Map::<Seq<u8>, ItemView>::empty());
        }
    }
}

proof fn lemma_len_of(es: Seq<Entry>)
    requires
        distinct_keys(es),
    ensures
        items_of(es).len() == es.len(),
    decreases es.len(),
{
    lemma_items_finite(es);
    if es.len() == 0 {
        assert(items_of(es).dom() =~= Set::<Seq<u8>>::empty());
    } else {
        let init = es.drop_last();
        assert(distinct_keys(init));
        assert(!has_key(init, es.last().key@)) by {
            if has_key(init, es.last().key@) {
                let j = choose|j: int| 0 <= j < init.len() && init[j].key@ == es.last().key@;
                assert(init[j] == es[j]);
                assert(es[es.len() - 1] == es.last());
            }
        }
        lemma_push(init, es.last());
        assert(init.push(es.last()) =~= es);
        lemma_len_of(init);
        lemma_items_finite(init);
    }
}

} // verus!
