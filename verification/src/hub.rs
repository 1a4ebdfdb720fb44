//! The broadcast hub: a registry from subscriber identity to that
//! subscriber's pending delivery queue.
//!
//! Overflow policy (drop-newest): a publish to a subscriber whose queue is
//! already at capacity leaves that queue unchanged — the newest event is
//! dropped for that subscriber, the subscriber stays registered, and no
//! publisher or other subscriber is ever blocked or affected.

use vstd::prelude::*;

verus! {

/// One registered subscriber: its identity and its pending delivery queue,
/// oldest event first.
pub struct SubEntry {
    pub id: u64,
    pub queue: Vec<String>,
}

/// The broadcast hub. Its abstract state (the view) is a map from subscriber
/// id to that subscriber's queue of pending events, each event a sequence of
/// characters, oldest first.
pub struct Hub {
    pub entries: Vec<SubEntry>,
    pub next_id: u64,
    pub capacity: usize,
}

/// The queue of one entry, as a sequence of events.
pub open spec fn queue_view(e: SubEntry) -> Seq<Seq<char>> {
    e.queue@.map_values(|s: String| s@)
}

/// Whether some entry in `s` carries identity `id`.
pub open spec fn has_id(s: Seq<SubEntry>, id: u64) -> bool {
    exists|i: int| 0 <= i < s.len() && s[i].id == id
}

/// The index of the entry carrying `id` (unique when ids are distinct).
pub open spec fn index_of(s: Seq<SubEntry>, id: u64) -> int {
    choose|i: int| 0 <= i < s.len() && s[i].id == id
}

/// The registry a sequence of entries denotes: id -> pending queue.
pub open spec fn entries_map(s: Seq<SubEntry>) -> Map<u64, Seq<Seq<char>>> {
    Map::new(|id: u64| has_id(s, id), |id: u64| queue_view(s[index_of(s, id)]))
}

impl View for Hub {
    type V = Map<u64, Seq<Seq<char>>>;

    open spec fn view(&self) -> Map<u64, Seq<Seq<char>>> {
        entries_map(self.entries@)
    }
}

/// What one publish does to the registry: every subscriber with room left
/// gets the event appended to its queue; a subscriber whose queue is full
/// keeps its queue unchanged (drop-newest); no subscriber joins or leaves.
pub open spec fn publish_one(
    m: Map<u64, Seq<Seq<char>>>,
    cap: nat,
    ev: Seq<char>,
) -> Map<u64, Seq<Seq<char>>> {
    Map::new(
        |id: u64| m.contains_key(id),
        |id: u64|
            if m[id].len() < cap {
                m[id].push(ev)
            } else {
                m[id]
            },
    )
}

/// What a whole sequence of publishes, first event first, does to the
/// registry: each event is applied by `publish_one` in turn.
pub open spec fn publish_all(
    m: Map<u64, Seq<Seq<char>>>,
    cap: nat,
    evs: Seq<Seq<char>>,
) -> Map<u64, Seq<Seq<char>>>
    decreases evs.len(),
{
    if evs.len() == 0 {
        m
    } else {
        publish_one(publish_all(m, cap, evs.drop_last()), cap, evs.last())
    }
}

/// Publishing changes no subscriber's registration: the registered ids
/// after any sequence of publishes are exactly those before.
pub proof fn lemma_publish_keeps_registrations(
    m: Map<u64, Seq<Seq<char>>>,
    cap: nat,
    evs: Seq<Seq<char>>,
)
    ensures
        publish_all(m, cap, evs).dom() == m.dom(),
    decreases evs.len(),
{
    if evs.len() > 0 {
        lemma_publish_keeps_registrations(m, cap, evs.drop_last());
        assert(publish_all(m, cap, evs).dom() =~= m.dom());
    }
}

/// Ordered, loss-free delivery: a subscriber registered before a sequence
/// of publishes and throughout it, whose queue never reaches capacity,
/// holds afterwards exactly its old queue followed by every published
/// event, in publish order.
pub proof fn lemma_ordered_delivery(
    m: Map<u64, Seq<Seq<char>>>,
    cap: nat,
    evs: Seq<Seq<char>>,
    id: u64,
)
    requires
        m.contains_key(id),
        m[id].len() + evs.len() <= cap,
    ensures
        publish_all(m, cap, evs).contains_key(id),
        publish_all(m, cap, evs)[id] == m[id] + evs,
    decreases evs.len(),
{
    if evs.len() == 0 {
        assert(m[id] + evs =~= m[id]);
    } else {
        lemma_ordered_delivery(m, cap, evs.drop_last(), id);
        assert(m[id] + evs =~= (m[id] + evs.drop_last()).push(evs.last()));
    }
}

/// Publishing with zero registered subscribers is a no-op: the registry
/// stays empty, and `publish` itself neither fails nor demands anything of
/// its caller.
pub proof fn lemma_publish_no_subscribers(cap: nat, evs: Seq<Seq<char>>)
    ensures
        publish_all(Map::<u64, Seq<Seq<char>>>::empty(), cap, evs) == Map::<
            u64,
            Seq<Seq<char>>,
        >::empty(),
    decreases evs.len(),
{
    if evs.len() > 0 {
        lemma_publish_no_subscribers(cap, evs.drop_last());
        assert(publish_all(Map::<u64, Seq<Seq<char>>>::empty(), cap, evs) =~= Map::<
            u64,
            Seq<Seq<char>>,
        >::empty());
    }
}

/// A subscriber that has unsubscribed receives nothing from any number of
/// later publishes.
pub proof fn lemma_unsubscribed_receives_nothing(
    m: Map<u64, Seq<Seq<char>>>,
    cap: nat,
    evs: Seq<Seq<char>>,
    id: u64,
)
    ensures
        !publish_all(m.remove(id), cap, evs).contains_key(id),
{
    lemma_publish_keeps_registrations(m.remove(id), cap, evs);
}

/// Unsubscribing twice, or unsubscribing an id never registered, is the
/// same as unsubscribing once: removal is idempotent.
pub proof fn lemma_unsubscribe_idempotent(m: Map<u64, Seq<Seq<char>>>, id: u64)
    ensures
        m.remove(id).remove(id) == m.remove(id),
{
    assert(m.remove(id).remove(id) =~= m.remove(id));
}

/// Independence: each of two distinct subscribers with room in its queue
/// receives the full published sequence appended to its own queue — one
/// subscriber's backlog neither delays nor truncates the other's stream.
pub proof fn lemma_independent_delivery(
    m: Map<u64, Seq<Seq<char>>>,
    cap: nat,
    evs: Seq<Seq<char>>,
    id1: u64,
    id2: u64,
)
    requires
        id1 != id2,
        m.contains_key(id1),
        m.contains_key(id2),
        m[id1].len() + evs.len() <= cap,
        m[id2].len() + evs.len() <= cap,
    ensures
        publish_all(m, cap, evs)[id1] == m[id1] + evs,
        publish_all(m, cap, evs)[id2] == m[id2] + evs,
{
    lemma_ordered_delivery(m, cap, evs, id1);
    lemma_ordered_delivery(m, cap, evs, id2);
}

/// Overflow (drop-newest): once a subscriber's queue is at capacity, any
/// number of further publishes leaves that queue unchanged — the publisher
/// is never blocked, and the subscriber stays registered.
pub proof fn lemma_overflow_drops_newest(
    m: Map<u64, Seq<Seq<char>>>,
    cap: nat,
    evs: Seq<Seq<char>>,
    id: u64,
)
    requires
        m.contains_key(id),
        m[id].len() >= cap,
    ensures
        publish_all(m, cap, evs).contains_key(id),
        publish_all(m, cap, evs)[id] == m[id],
    decreases evs.len(),
{
    if evs.len() > 0 {
        lemma_overflow_drops_newest(m, cap, evs.drop_last(), id);
    }
}

/// One publish, as the on-demand producer makes it: a subscriber registered
/// throughout, with room in its queue, observes exactly one new event — the
/// published payload, appended — while an identity registered only after
/// the publish receives nothing from it and, on registering, starts with an
/// empty queue.
pub proof fn lemma_publish_once_delivery(
    m: Map<u64, Seq<Seq<char>>>,
    cap: nat,
    ev: Seq<char>,
    a: u64,
    b: u64,
)
    requires
        m.contains_key(a),
        m[a].len() < cap,
        !m.contains_key(b),
    ensures
        publish_one(m, cap, ev).contains_key(a),
        publish_one(m, cap, ev)[a] == m[a].push(ev),
        !publish_one(m, cap, ev).contains_key(b),
        publish_one(m, cap, ev).insert(b, Seq::<Seq<char>>::empty())[b] == Seq::<
            Seq<char>,
        >::empty(),
{
}

/// Identities in `s` are pairwise distinct.
pub open spec fn distinct_ids(s: Seq<SubEntry>) -> bool {
    forall|i: int, j: int| 0 <= i < j < s.len() ==> s[i].id != s[j].id
}

/// With distinct identities, the registry map reads each entry off at its
/// own index.
proof fn lemma_entries_map_index(s: Seq<SubEntry>, i: int)
    requires
        distinct_ids(s),
        0 <= i < s.len(),
    ensures
        entries_map(s).contains_key(s[i].id),
        entries_map(s)[s[i].id] == queue_view(s[i]),
{
    assert(has_id(s, s[i].id));
    let j = index_of(s, s[i].id);
    assert(0 <= j < s.len() && s[j].id == s[i].id);
    if i < j {
        assert(s[i].id != s[j].id);
    } else if j < i {
        assert(s[j].id != s[i].id);
    }
}

/// Appending an entry with a fresh identity inserts its queue into the
/// registry map.
proof fn lemma_entries_map_push(s: Seq<SubEntry>, e: SubEntry)
    requires
        distinct_ids(s),
        forall|i: int| 0 <= i < s.len() ==> (#[trigger] s[i].id) != e.id,
    ensures
        entries_map(s.push(e)) == entries_map(s).insert(e.id, queue_view(e)),
{
    let t = s.push(e);
    assert(distinct_ids(t));
    assert forall|k: u64| has_id(t, k) <==> (has_id(s, k) || k == e.id) by {
        if has_id(t, k) {
            let i = choose|i: int| 0 <= i < t.len() && t[i].id == k;
            if i < s.len() {
                assert(s[i].id == k);
                assert(has_id(s, k));
            } else {
                assert(t[i] == e);
            }
        }
        if has_id(s, k) {
            let i = choose|i: int| 0 <= i < s.len() && s[i].id == k;
            assert(t[i].id == k);
            assert(has_id(t, k));
        }
        if k == e.id {
            assert(t[s.len() as int].id == k);
            assert(has_id(t, k));
        }
    }
    assert forall|k: u64| #[trigger]
        entries_map(t).contains_key(k) implies entries_map(t)[k] == entries_map(s).insert(
        e.id,
        queue_view(e),
    )[k] by {
        if k == e.id {
            lemma_entries_map_index(t, s.len() as int);
        } else {
            let i = choose|i: int| 0 <= i < s.len() && s[i].id == k;
            lemma_entries_map_index(s, i);
            lemma_entries_map_index(t, i);
        }
    }
    assert(entries_map(t) =~= entries_map(s).insert(e.id, queue_view(e)));
}

/// Removing the entry at index `i` removes exactly its identity from the
/// registry map.
proof fn lemma_entries_map_remove(s: Seq<SubEntry>, i: int)
    requires
        distinct_ids(s),
        0 <= i < s.len(),
    ensures
        entries_map(s.remove(i)) == entries_map(s).remove(s[i].id),
{
    let t = s.remove(i);
    assert forall|a: int, b: int| 0 <= a < b < t.len() implies t[a].id != t[b].id by {
        let a2 = if a < i { a } else { a + 1 };
        let b2 = if b < i { b } else { b + 1 };
        assert(t[a] == s[a2]);
        assert(t[b] == s[b2]);
    }
    assert forall|k: u64| has_id(t, k) <==> (has_id(s, k) && k != s[i].id) by {
        if has_id(t, k) {
            let j = choose|j: int| 0 <= j < t.len() && t[j].id == k;
            let j2 = if j < i { j } else { j + 1 };
            assert(t[j] == s[j2]);
            assert(has_id(s, k));
            if k == s[i].id {
                if j2 < i {
                    assert(s[j2].id != s[i as int].id);
                } else {
                    assert(s[i as int].id != s[j2].id);
                }
            }
        }
        if has_id(s, k) && k != s[i].id {
            let j = choose|j: int| 0 <= j < s.len() && s[j].id == k;
            let j2 = if j < i { j } else { j - 1 };
            assert(t[j2] == s[j]);
            assert(has_id(t, k));
        }
    }
    assert forall|k: u64| #[trigger] entries_map(t).contains_key(k) implies entries_map(t)[k]
        == entries_map(s)[k] by {
        let j = choose|j: int| 0 <= j < t.len() && t[j].id == k;
        let j2 = if j < i { j } else { j + 1 };
        assert(t[j] == s[j2]);
        lemma_entries_map_index(t, j);
        lemma_entries_map_index(s, j2);
    }
    assert(entries_map(t) =~= entries_map(s).remove(s[i].id));
}

/// Replacing the entry at index `i` by one with the same identity updates
/// exactly that identity's queue in the registry map.
proof fn lemma_entries_map_update(s: Seq<SubEntry>, i: int, e: SubEntry)
    requires
        distinct_ids(s),
        0 <= i < s.len(),
        e.id == s[i].id,
    ensures
        entries_map(s.update(i, e)) == entries_map(s).insert(e.id, queue_view(e)),
{
    let t = s.update(i, e);
    assert forall|a: int, b: int| 0 <= a < b < t.len() implies t[a].id != t[b].id by {
        assert(t[a].id == s[a].id);
        assert(t[b].id == s[b].id);
    }
    assert forall|k: u64| has_id(t, k) <==> has_id(s, k) by {
        if has_id(t, k) {
            let j = choose|j: int| 0 <= j < t.len() && t[j].id == k;
            assert(s[j].id == k);
        }
        if has_id(s, k) {
            let j = choose|j: int| 0 <= j < s.len() && s[j].id == k;
            assert(t[j].id == k);
        }
    }
    assert forall|k: u64| #[trigger] entries_map(t).contains_key(k) implies entries_map(t)[k]
        == entries_map(s).insert(e.id, queue_view(e))[k] by {
        let j = choose|j: int| 0 <= j < s.len() && s[j].id == k;
        lemma_entries_map_index(t, j);
        if k == e.id {
            if j < i {
                assert(s[j].id != s[i].id);
            } else if i < j {
                assert(s[i].id != s[j].id);
            }
            assert(j == i);
        } else {
            assert(j != i);
            lemma_entries_map_index(s, j);
        }
    }
    assert(entries_map(t) =~= entries_map(s).insert(e.id, queue_view(e)));
}

impl Hub {
    /// Well-formedness: identities are distinct and below the allocator
    /// counter, and every queue respects the capacity bound.
    pub open spec fn wf(&self) -> bool {
        &&& forall|i: int, j: int|
            0 <= i < j < self.entries@.len() ==> self.entries@[i].id != self.entries@[j].id
        &&& forall|i: int|
            0 <= i < self.entries@.len() ==> #[trigger] self.entries@[i].id < self.next_id
        &&& forall|i: int|
            0 <= i < self.entries@.len() ==> #[trigger] self.entries@[i].queue@.len()
                <= self.capacity
        &&& self.capacity >= 1
    }

    /// A fresh hub with the given per-subscriber queue capacity and no
    /// subscribers.
    pub fn new(capacity: usize) -> (h: Hub)
        requires
            capacity >= 1,
        ensures
            h.wf(),
            h@ == Map::<u64, Seq<Seq<char>>>::empty(),
            h.capacity == capacity,
            h.next_id == 0,
    {
        let h = Hub { entries: Vec::new(), next_id: 0, capacity };
        proof {
            assert(h@ =~= Map::<u64, Seq<Seq<char>>>::empty());
        }
        h
    }

    /// Register a new subscriber. Always succeeds; the new subscriber's
    /// queue starts empty, and no existing queue changes.
    pub fn subscribe(&mut self) -> (id: u64)
        requires
            old(self).wf(),
            old(self).next_id < u64::MAX,
        ensures
            final(self).wf(),
            id == old(self).next_id,
            !old(self)@.contains_key(id),
            final(self)@ == old(self)@.insert(id, Seq::<Seq<char>>::empty()),
            final(self).capacity == old(self).capacity,
            final(self).next_id == old(self).next_id + 1,
    {
        let id = self.next_id;
        self.next_id = self.next_id + 1;
        let entry = SubEntry { id, queue: Vec::new() };
        proof {
            assert(queue_view(entry) =~= Seq::<Seq<char>>::empty());
            lemma_entries_map_push(self.entries@, entry);
            if old(self)@.contains_key(id) {
                let i = index_of(self.entries@, id);
                assert(self.entries@[i].id < id);
            }
        }
        self.entries.push(entry);
        id
    }

    /// Deliver `event` to every currently registered subscriber: appended to
    /// each queue with room left, dropped for each queue already at
    /// capacity. Never fails, never blocks, and is a no-op on a hub with no
    /// subscribers.
    pub fn publish(&mut self, event: &String)
        requires
            old(self).wf(),
        ensures
            final(self).wf(),
            final(self)@ == publish_one(old(self)@, old(self).capacity as nat, event@),
            final(self).capacity == old(self).capacity,
            final(self).next_id == old(self).next_id,
    {
        let ghost s0 = self.entries@;
        let cap = self.capacity;
        let n = self.entries.len();
        let mut i: usize = 0;
        while i < n
            invariant
                old(self).wf(),
                s0 == old(self).entries@,
                cap == old(self).capacity,
                i <= n,
                n == s0.len(),
                self.entries@.len() == n,
                cap == self.capacity,
                self.capacity == old(self).capacity,
                self.next_id == old(self).next_id,
                forall|j: int| i <= j < n ==> self.entries@[j] == s0[j],
                forall|j: int|
                    0 <= j < i ==> (#[trigger] self.entries@[j]).id == s0[j].id
                        && queue_view(self.entries@[j]) == (if queue_view(s0[j]).len() < cap {
                        queue_view(s0[j]).push(event@)
                    } else {
                        queue_view(s0[j])
                    }) && self.entries@[j].queue@.len() <= cap,
            decreases n - i,
        {
            let ghost before = self.entries@;
            let mut e = self.entries.remove(i);
            proof {
                assert(e == s0[i as int]);
                assert(queue_view(e).len() == e.queue@.len());
            }
            if e.queue.len() < cap {
                let ghost q0 = e.queue@;
                e.queue.push(event.clone());
                proof {
                    assert(e.queue@ == q0.push(*event));
                    assert(queue_view(e) =~= queue_view(s0[i as int]).push(event@));
                    assert(e.id == s0[i as int].id);
                }
            } else {
                proof {
                    assert(old(self).entries@[i as int].queue@.len() <= old(self).capacity);
                    assert(e.queue@.len() <= cap);
                }
            }
            self.entries.insert(i, e);
            proof {
                assert(self.entries@ =~= before.update(i as int, e));
                assert(self.entries@[i as int] == e);
                assert(self.entries@[i as int].id == s0[i as int].id);
                assert(self.entries@[i as int].queue@.len() <= cap);
                assert(queue_view(self.entries@[i as int]) == (if queue_view(
                    s0[i as int],
                ).len() < cap {
                    queue_view(s0[i as int]).push(event@)
                } else {
                    queue_view(s0[i as int])
                }));
            }
            i = i + 1;
        }
        proof {
            assert forall|ii: int, jj: int|
                0 <= ii < jj < n implies self.entries@[ii].id != self.entries@[jj].id by {
                assert(self.entries@[ii].id == s0[ii].id);
                assert(self.entries@[jj].id == s0[jj].id);
            }
            assert forall|j: int| 0 <= j < n implies #[trigger] self.entries@[j].id
                < self.next_id by {
                assert(self.entries@[j].id == s0[j].id);
            }
            lemma_pointwise_queues(s0, self.entries@, old(self)@, self@, cap as nat, event@);
        }
    }

    /// Remove subscriber `id` from the registry; its queue becomes
    /// unreachable for future publishes. Idempotent: removing an absent id
    /// is a no-op, not an error.
    pub fn unsubscribe(&mut self, id: u64)
        requires
            old(self).wf(),
        ensures
            final(self).wf(),
            final(self)@ == old(self)@.remove(id),
            final(self).capacity == old(self).capacity,
            final(self).next_id == old(self).next_id,
    {
        let n = self.entries.len();
        let mut i: usize = 0;
        while i < n
            invariant
                old(self).wf(),
                *self == *old(self),
                n == self.entries@.len(),
                i <= n,
                forall|j: int| 0 <= j < i ==> (#[trigger] self.entries@[j]).id != id,
            decreases n - i,
        {
            if self.entries[i].id == id {
                proof {
                    lemma_entries_map_remove(self.entries@, i as int);
                    let ghost t = self.entries@.remove(i as int);
                    assert forall|j: int| 0 <= j < t.len() implies {
                        &&& (#[trigger] t[j]).id < self.next_id
                        &&& t[j].queue@.len() <= self.capacity
                        &&& forall|j2: int| j < j2 < t.len() ==> t[j].id != t[j2].id
                    } by {
                        let j2 = if j < i { j } else { j + 1 };
                        assert(t[j] == self.entries@[j2]);
                        assert forall|j3: int| j < j3 < t.len() implies t[j as int].id
                            != t[j3].id by {
                            let j4 = if j3 < i { j3 } else { j3 + 1 };
                            assert(t[j3] == self.entries@[j4]);
                        }
                    }
                }
                self.entries.remove(i);
                return ;
            }
            i = i + 1;
        }
        proof {
            if old(self)@.contains_key(id) {
                let j = choose|j: int|
                    0 <= j < old(self).entries@.len() && old(self).entries@[j].id == id;
                assert(self.entries@[j].id != id);
            }
            assert(self@ =~= old(self)@.remove(id));
        }
    }

    /// Hand out the oldest pending event for subscriber `id`, removing it
    /// from that subscriber's queue. Returns nothing when the subscriber is
    /// unknown or its queue is empty; no other subscriber's queue changes.
    pub fn next_event(&mut self, id: u64) -> (r: Option<String>)
        requires
            old(self).wf(),
        ensures
            final(self).wf(),
            final(self).capacity == old(self).capacity,
            final(self).next_id == old(self).next_id,
            old(self)@.contains_key(id) && old(self)@[id].len() > 0 ==> {
                &&& r matches Some(ev) && ev@ == old(self)@[id][0]
                &&& final(self)@ == old(self)@.insert(id, old(self)@[id].drop_first())
            },
            !(old(self)@.contains_key(id) && old(self)@[id].len() > 0) ==> r is None
                && final(self)@ == old(self)@,
    {
        let n = self.entries.len();
        let mut i: usize = 0;
        while i < n
            invariant
                old(self).wf(),
                *self == *old(self),
                n == self.entries@.len(),
                i <= n,
                forall|j: int| 0 <= j < i ==> (#[trigger] self.entries@[j]).id != id,
            decreases n - i,
        {
            if self.entries[i].id == id {
                proof {
                    lemma_entries_map_index(self.entries@, i as int);
                }
                if self.entries[i].queue.len() > 0 {
                    let ghost before = self.entries@;
                    let mut e = self.entries.remove(i);
                    let ev = e.queue.remove(0);
                    proof {
                        assert(queue_view(e) =~= queue_view(before[i as int]).drop_first());
                    }
                    self.entries.insert(i, e);
                    proof {
                        assert(self.entries@ =~= before.update(i as int, e));
                        lemma_entries_map_update(before, i as int, e);
                        assert forall|j: int| 0 <= j < n implies {
                            &&& (#[trigger] self.entries@[j]).id == before[j].id
                            &&& self.entries@[j].queue@.len() <= self.capacity
                        } by {
                            assert(before[j].queue@.len() <= self.capacity);
                        }
                        assert(self.wf());
                    }
                    return Some(ev);
                } else {
                    return None;
                }
            }
            i = i + 1;
        }
        proof {
            if old(self)@.contains_key(id) {
                let j = choose|j: int|
                    0 <= j < old(self).entries@.len() && old(self).entries@[j].id == id;
                assert(self.entries@[j].id != id);
            }
        }
        None
    }

    /// Whether subscriber `id` is currently registered.
    pub fn is_subscribed(&self, id: u64) -> (r: bool)
        requires
            self.wf(),
        ensures
            r == self@.contains_key(id),
    {
        let n = self.entries.len();
        let mut i: usize = 0;
        while i < n
            invariant
                n == self.entries@.len(),
                i <= n,
                forall|j: int| 0 <= j < i ==> (#[trigger] self.entries@[j]).id != id,
            decreases n - i,
        {
            if self.entries[i].id == id {
                return true;
            }
            i = i + 1;
        }
        proof {
            if self@.contains_key(id) {
                let j = choose|j: int| 0 <= j < self.entries@.len() && self.entries@[j].id == id;
                assert(self.entries@[j].id != id);
            }
        }
        false
    }

    /// How many events are pending for subscriber `id` (zero when the
    /// subscriber is unknown).
    pub fn queue_len(&self, id: u64) -> (r: usize)
        requires
            self.wf(),
        ensures
            self@.contains_key(id) ==> r == self@[id].len(),
            !self@.contains_key(id) ==> r == 0,
    {
        let n = self.entries.len();
        let mut i: usize = 0;
        while i < n
            invariant
                self.wf(),
                n == self.entries@.len(),
                i <= n,
                forall|j: int| 0 <= j < i ==> (#[trigger] self.entries@[j]).id != id,
            decreases n - i,
        {
            if self.entries[i].id == id {
                proof {
                    lemma_entries_map_index(self.entries@, i as int);
                }
                return self.entries[i].queue.len();
            }
            i = i + 1;
        }
        proof {
            if self@.contains_key(id) {
                let j = choose|j: int| 0 <= j < self.entries@.len() && self.entries@[j].id == id;
                assert(self.entries@[j].id != id);
            }
        }
        0
    }

    /// How many subscribers are currently registered.
    pub fn subscriber_count(&self) -> (r: usize)
        ensures
            r == self.entries@.len(),
    {
        self.entries.len()
    }
}

/// When two entry sequences agree pointwise on identities, and the second's
/// queues are the first's transformed by one publish, the registry maps are
/// related by `publish_one`.
proof fn lemma_pointwise_queues(
    s0: Seq<SubEntry>,
    s1: Seq<SubEntry>,
    m0: Map<u64, Seq<Seq<char>>>,
    m1: Map<u64, Seq<Seq<char>>>,
    cap: nat,
    ev: Seq<char>,
)
    requires
        distinct_ids(s0),
        s0.len() == s1.len(),
        m0 == entries_map(s0),
        m1 == entries_map(s1),
        forall|j: int|
            0 <= j < s0.len() ==> (#[trigger] s1[j]).id == s0[j].id && queue_view(s1[j]) == (if
            queue_view(s0[j]).len() < cap {
                queue_view(s0[j]).push(ev)
            } else {
                queue_view(s0[j])
            }),
    ensures
        m1 == publish_one(m0, cap, ev),
{
    assert(distinct_ids(s1));
    assert forall|k: u64| has_id(s1, k) <==> has_id(s0, k) by {
        if has_id(s1, k) {
            let i = choose|i: int| 0 <= i < s1.len() && s1[i].id == k;
            assert(s0[i].id == k);
        }
        if has_id(s0, k) {
            let i = choose|i: int| 0 <= i < s0.len() && s0[i].id == k;
            assert(s1[i].id == k);
        }
    }
    assert forall|k: u64| #[trigger] m1.contains_key(k) implies m1[k] == publish_one(
        m0,
        cap,
        ev,
    )[k] by {
        let i = choose|i: int| 0 <= i < s0.len() && s0[i].id == k;
        lemma_entries_map_index(s0, i);
        lemma_entries_map_index(s1, i);
    }
    assert(m1 =~= publish_one(m0, cap, ev));
}

} // verus!
