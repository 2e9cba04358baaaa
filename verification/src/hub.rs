//! The broadcast hub: a registry of live sessions, fan-out of published
//! events to every session's bounded outbound queue, and the heartbeat
//! protocol that evicts unresponsive sessions.  The hub owns the registry
//! exclusively; the transport loops around it only call into it.

use vstd::prelude::*;
use crate::assoc::{
    has_key, lemma_found_at_some_index, lemma_lookup_absent, lemma_lookup_at_index,
    lemma_remove_absent_is_identity, lemma_remove_found_is_remove, lemma_remove_preserves_unique,
    lemma_unique_drop_first, lemma_unique_first_absent, lookup, remove_key, unique_keys,
};
use crate::protocol::{FontInfo, MessageV, WebSocketMessage};

verus! {

/// How often a heartbeat probe is sent to each session, in seconds.
pub const HEARTBEAT_INTERVAL_SECS: u64 = 30;

/// How long a session may stay silent before its own connection loop gives
/// it up, in seconds.
pub const HEARTBEAT_TIMEOUT_SECS: u64 = 120;

/// The backstop: how long a session may stay silent before the periodic
/// reaper removes it even if its connection loop is stuck, in seconds.
pub const REAPER_TIMEOUT_SECS: u64 = 180;

/// What the registry tracks per session besides its id: the time of the
/// last liveness signal, the outbound queue, and how many events were
/// dropped on it as a slow consumer.
pub type SessionMeta = (u64, Seq<MessageV>, u64);

/// One live session.
pub struct Session {
    pub id: u64,
    pub last_seen: u64,
    pub queue: Vec<WebSocketMessage>,
    pub lagged: u64,
}

impl View for Session {
    type V = (u64, SessionMeta);

    open spec fn view(&self) -> (u64, SessionMeta) {
        (self.id, (self.last_seen, self.queue@.map_values(|m: WebSocketMessage| m@), self.lagged))
    }
}

/// A session's queue after one event is fanned out to it: the event is
/// appended, and a full queue first drops its oldest undelivered event.
pub open spec fn queue_after(q: Seq<MessageV>, m: MessageV, cap: nat) -> Seq<MessageV> {
    if q.len() < cap {
        q.push(m)
    } else {
        q.drop_first().push(m)
    }
}

/// A session's lag counter after one fan-out: bumped (saturating) exactly
/// when the full queue dropped an event.
pub open spec fn lag_after(q: Seq<MessageV>, lagged: u64, cap: nat) -> u64 {
    if q.len() < cap {
        lagged
    } else if lagged < u64::MAX {
        (lagged + 1) as u64
    } else {
        lagged
    }
}

/// The whole registry after one event is fanned out to every session.
pub open spec fn hub_after_publish(
    s: Seq<(u64, SessionMeta)>,
    m: MessageV,
    cap: nat,
) -> Seq<(u64, SessionMeta)> {
    s.map_values(
        |e: (u64, SessionMeta)|
            (e.0, (e.1.0, queue_after(e.1.1, m, cap), lag_after(e.1.1, e.1.2, cap))),
    )
}

/// The registry after a liveness signal from `id`.
pub open spec fn hub_after_heartbeat(
    s: Seq<(u64, SessionMeta)>,
    id: u64,
    now: u64,
) -> Seq<(u64, SessionMeta)> {
    s.map_values(
        |e: (u64, SessionMeta)|
            if e.0 == id {
                (e.0, (now, e.1.1, e.1.2))
            } else {
                e
            },
    )
}

/// The registry after the outbound queue of `id` is handed to its transport.
pub open spec fn hub_after_drain(s: Seq<(u64, SessionMeta)>, id: u64) -> Seq<(u64, SessionMeta)> {
    s.map_values(
        |e: (u64, SessionMeta)|
            if e.0 == id {
                (e.0, (e.1.0, Seq::<MessageV>::empty(), e.1.2))
            } else {
                e
            },
    )
}

/// A session is stale when no liveness signal arrived for longer than the
/// timeout.
pub open spec fn is_stale(e: (u64, SessionMeta), now: u64, timeout: u64) -> bool {
    e.1.0 + timeout < now
}

/// The sessions that survive a sweep, in order.
pub open spec fn keep_live(
    s: Seq<(u64, SessionMeta)>,
    now: u64,
    timeout: u64,
) -> Seq<(u64, SessionMeta)>
    decreases s.len(),
{
    if s.len() == 0 {
        Seq::<(u64, SessionMeta)>::empty()
    } else if is_stale(s.first(), now, timeout) {
        keep_live(s.drop_first(), now, timeout)
    } else {
        seq![s.first()] + keep_live(s.drop_first(), now, timeout)
    }
}

/// The ids a sweep evicts, in order.
pub open spec fn stale_ids(s: Seq<(u64, SessionMeta)>, now: u64, timeout: u64) -> Seq<u64>
    decreases s.len(),
{
    if s.len() == 0 {
        Seq::<u64>::empty()
    } else if is_stale(s.first(), now, timeout) {
        seq![s.first().0] + stale_ids(s.drop_first(), now, timeout)
    } else {
        stale_ids(s.drop_first(), now, timeout)
    }
}

/// A surviving id was live before the sweep.
pub proof fn lemma_keep_live_has_key(s: Seq<(u64, SessionMeta)>, now: u64, timeout: u64, id: u64)
    requires
        has_key(keep_live(s, now, timeout), id),
    ensures
        has_key(s, id),
    decreases s.len(),
{
    if s.len() == 0 {
    } else {
        let k = keep_live(s, now, timeout);
        if is_stale(s.first(), now, timeout) {
            lemma_keep_live_has_key(s.drop_first(), now, timeout, id);
        } else {
            assert(k.first() == s.first());
            assert(k.drop_first() =~= keep_live(s.drop_first(), now, timeout));
            if s.first().0 != id {
                lemma_keep_live_has_key(s.drop_first(), now, timeout, id);
            }
        }
    }
}

/// Every survivor of a sweep was in the registry before it.
pub proof fn lemma_keep_live_member(s: Seq<(u64, SessionMeta)>, now: u64, timeout: u64)
    ensures
        forall|i: int|
            0 <= i < keep_live(s, now, timeout).len() ==> s.contains(
                #[trigger] keep_live(s, now, timeout)[i],
            ),
    decreases s.len(),
{
    if s.len() == 0 {
    } else {
        let k = keep_live(s, now, timeout);
        let kr = keep_live(s.drop_first(), now, timeout);
        lemma_keep_live_member(s.drop_first(), now, timeout);
        assert(forall|j: int|
            0 <= j < s.drop_first().len() ==> s.drop_first()[j] == s[j + 1]);
        assert(forall|i: int| 0 <= i < kr.len() ==> s.contains(#[trigger] kr[i])) by {
            assert(forall|i: int|
                0 <= i < kr.len() ==> s.drop_first().contains(#[trigger] kr[i]));
            assert(forall|e: (u64, SessionMeta)| s.drop_first().contains(e) ==> s.contains(e)) by {
                assert(forall|j: int|
                    0 <= j < s.drop_first().len() ==> s.drop_first()[j] == s[j + 1]);
            }
        }
        if is_stale(s.first(), now, timeout) {
            assert(k == kr);
        } else {
            assert(k.first() == s.first());
            assert(s.contains(s.first())) by {
                assert(s[0] == s.first());
            }
            assert(k.drop_first() =~= kr);
            assert(forall|i: int| 1 <= i < k.len() ==> k[i] == kr[i - 1]);
        }
    }
}

/// A sweep keeps session ids pairwise distinct.
pub proof fn lemma_keep_live_unique(s: Seq<(u64, SessionMeta)>, now: u64, timeout: u64)
    requires
        unique_keys(s),
    ensures
        unique_keys(keep_live(s, now, timeout)),
    decreases s.len(),
{
    if s.len() == 0 {
    } else {
        lemma_unique_drop_first(s);
        lemma_keep_live_unique(s.drop_first(), now, timeout);
        let k = keep_live(s, now, timeout);
        let kr = keep_live(s.drop_first(), now, timeout);
        if is_stale(s.first(), now, timeout) {
        } else {
            lemma_unique_first_absent(s);
            if has_key(kr, s.first().0) {
                lemma_keep_live_has_key(s.drop_first(), now, timeout, s.first().0);
            }
            lemma_found_at_some_index(kr, s.first().0);
            assert(k.first() == s.first());
            assert(forall|i: int| 1 <= i < k.len() ==> k[i] == kr[i - 1]);
            assert(forall|i: int, j: int| 0 <= i < j < k.len() ==> k[i].0 != k[j].0);
        }
    }
}

/// A session whose last liveness signal is within the timeout survives a
/// sweep: it stands, unchanged, in the surviving registry.
pub proof fn lemma_responsive_session_survives(
    s: Seq<(u64, SessionMeta)>,
    now: u64,
    timeout: u64,
    j: int,
)
    requires
        0 <= j < s.len(),
        !is_stale(s[j], now, timeout),
    ensures
        keep_live(s, now, timeout).contains(s[j]),
    decreases s.len(),
{
    let k = keep_live(s, now, timeout);
    let kr = keep_live(s.drop_first(), now, timeout);
    if j == 0 {
        assert(s.first() == s[0]);
        assert(k.first() == s[0]);
        assert(k[0] == s[0]);
    } else {
        assert(s.drop_first()[j - 1] == s[j]);
        lemma_responsive_session_survives(s.drop_first(), now, timeout, j - 1);
        let i = choose|i: int| 0 <= i < kr.len() && kr[i] == s[j];
        if is_stale(s.first(), now, timeout) {
            assert(k == kr);
        } else {
            assert(forall|t: int| 1 <= t < k.len() ==> k[t] == kr[t - 1]);
            assert(k[i + 1] == s[j]);
        }
    }
}

/// A stale session does not survive a sweep: with distinct ids, its id is
/// gone from the surviving registry, so later publishes cannot reach it.
pub proof fn lemma_stale_session_evicted(
    s: Seq<(u64, SessionMeta)>,
    now: u64,
    timeout: u64,
    j: int,
)
    requires
        unique_keys(s),
        0 <= j < s.len(),
        is_stale(s[j], now, timeout),
    ensures
        !has_key(keep_live(s, now, timeout), s[j].0),
    decreases s.len(),
{
    let k = keep_live(s, now, timeout);
    let kr = keep_live(s.drop_first(), now, timeout);
    lemma_unique_drop_first(s);
    if j == 0 {
        assert(s.first() == s[0]);
        lemma_unique_first_absent(s);
        if has_key(kr, s[0].0) {
            lemma_keep_live_has_key(s.drop_first(), now, timeout, s[0].0);
        }
    } else {
        assert(s.drop_first()[j - 1] == s[j]);
        lemma_stale_session_evicted(s.drop_first(), now, timeout, j - 1);
        if is_stale(s.first(), now, timeout) {
        } else {
            assert(k.first() == s.first());
            assert(k.drop_first() =~= kr);
            assert(s.first() == s[0]);
            assert(s[0].0 != s[j].0);
        }
    }
}

/// A liveness signal resets the clock: right after any received message
/// refreshes session `id` at time `now`, that session is not stale at any
/// instant within the following timeout window — so a session that answers
/// every probe is never evicted, by either the per-connection check or the
/// reaper, no matter how long it stays connected.
pub proof fn lemma_heartbeat_resets_staleness(
    s: Seq<(u64, SessionMeta)>,
    id: u64,
    now: u64,
    j: int,
    later: u64,
    timeout: u64,
)
    requires
        0 <= j < s.len(),
        s[j].0 == id,
        later <= now + timeout,
    ensures
        !is_stale(hub_after_heartbeat(s, id, now)[j], later, timeout),
{
    assert(hub_after_heartbeat(s, id, now)[j] == (id, (now, s[j].1.1, s[j].1.2)));
}

/// A session gone from the registry receives no further published events:
/// a publish only touches the sessions present, so an evicted id stays
/// absent and accumulates nothing.
pub proof fn lemma_absent_session_receives_nothing(
    s: Seq<(u64, SessionMeta)>,
    m: MessageV,
    cap: nat,
    id: u64,
)
    requires
        !has_key(s, id),
    ensures
        !has_key(hub_after_publish(s, m, cap), id),
{
    let p = hub_after_publish(s, m, cap);
    lemma_found_at_some_index(s, id);
    assert(forall|i: int| 0 <= i < p.len() ==> (#[trigger] p[i]).0 == s[i].0);
    lemma_lookup_absent(p, id);
}

/// The session registry with its fan-out queues.  Writers take the hub
/// exclusively; the registry is never shared out as raw state.
pub struct BroadcastHub {
    sessions: Vec<Session>,
    next_id: u64,
    capacity: usize,
}

impl View for BroadcastHub {
    type V = Seq<(u64, SessionMeta)>;

    closed spec fn view(&self) -> Seq<(u64, SessionMeta)> {
        self.sessions@.map_values(|s: Session| s@)
    }
}

impl BroadcastHub {
    /// The bound every outbound queue respects.
    pub closed spec fn spec_capacity(&self) -> nat {
        self.capacity as nat
    }

    /// The id the next connection will receive.
    pub closed spec fn spec_next_id(&self) -> u64 {
        self.next_id
    }

    /// Well-formed: distinct ids below the next one to be handed out, and
    /// every queue within the bound.
    pub open spec fn wf(&self) -> bool {
        &&& unique_keys(self@)
        &&& self.spec_capacity() >= 1
        &&& forall|i: int|
            0 <= i < self@.len() ==> (#[trigger] self@[i]).1.1.len() <= self.spec_capacity()
        &&& forall|i: int| 0 <= i < self@.len() ==> (#[trigger] self@[i]).0 < self.spec_next_id()
    }

    /// An empty registry whose queues will hold at most `capacity` events.
    pub fn new(capacity: usize) -> (r: BroadcastHub)
        requires
            capacity >= 1,
        ensures
            r@ == Seq::<(u64, SessionMeta)>::empty(),
            r.wf(),
            r.spec_capacity() == capacity,
            r.spec_next_id() == 0,
    {
        let r = BroadcastHub { sessions: Vec::new(), next_id: 0, capacity };
        proof {
            assert(r@ =~= Seq::<(u64, SessionMeta)>::empty());
        }
        r
    }

    pub fn get_connected_clients(&self) -> (n: usize)
        ensures
            n == self@.len(),
    {
        self.sessions.len()
    }

    /// The index at which session `id` stands, if it is connected.
    fn find(&self, id: u64) -> (r: Option<usize>)
        ensures
            match r {
                Some(j) => j < self@.len() && self@[j as int].0 == id && forall|i: int|
                    0 <= i < j ==> (#[trigger] self@[i]).0 != id,
                None => !has_key(self@, id),
            },
    {
        let n = self.sessions.len();
        let mut i: usize = 0;
        while i < n
            invariant
                i <= n,
                n == self@.len(),
                forall|j: int| 0 <= j < i ==> (#[trigger] self@[j]).0 != id,
            decreases n - i,
        {
            if self.sessions[i].id == id {
                return Some(i);
            }
            i = i + 1;
        }
        proof {
            lemma_lookup_absent(self@, id);
        }
        None
    }

    /// A read-only view of session `id`.
    pub fn lookup_session(&self, id: u64) -> (r: Option<&Session>)
        ensures
            match r {
                Some(s) => lookup(self@, id) == Some(s@.1) && s.id == id,
                None => !has_key(self@, id),
            },
    {
        match self.find(id) {
            Some(j) => {
                proof {
                    lemma_lookup_at_index(self@, j as int);
                }
                Some(&self.sessions[j])
            },
            None => None,
        }
    }

    /// Registers a new session and returns its fresh id.  `now` is the
    /// current time; the session starts live, with an empty queue.
    pub fn connect(&mut self, now: u64) -> (id: u64)
        requires
            old(self).wf(),
            old(self).spec_next_id() < u64::MAX,
        ensures
            final(self).wf(),
            id == old(self).spec_next_id(),
            final(self)@ == old(self)@.push((id, (now, Seq::<MessageV>::empty(), 0u64))),
            final(self).spec_capacity() == old(self).spec_capacity(),
            final(self).spec_next_id() == old(self).spec_next_id() + 1,
    {
        let id = self.next_id;
        let s = Session { id, last_seen: now, queue: Vec::new(), lagged: 0 };
        proof {
            assert(s@ == (id, (now, Seq::<MessageV>::empty(), 0u64)));
        }
        self.sessions.push(s);
        self.next_id = self.next_id + 1;
        proof {
            assert(self@ =~= old(self)@.push((id, (now, Seq::<MessageV>::empty(), 0u64))));
            assert(forall|i: int|
                0 <= i < old(self)@.len() ==> self@[i] == old(self)@[i]);
            assert(unique_keys(self@)) by {
                assert(forall|i: int| 0 <= i < old(self)@.len() ==> (#[trigger] self@[i]).0 < id);
            }
        }
        id
    }

    /// Removes session `id` from the registry; it receives nothing after
    /// this.  Returns whether it was connected.
    pub fn disconnect(&mut self, id: u64) -> (found: bool)
        requires
            old(self).wf(),
        ensures
            final(self).wf(),
            found == has_key(old(self)@, id),
            final(self)@ == remove_key(old(self)@, id),
            final(self).spec_capacity() == old(self).spec_capacity(),
            final(self).spec_next_id() == old(self).spec_next_id(),
    {
        match self.find(id) {
            Some(j) => {
                proof {
                    lemma_lookup_at_index(self@, j as int);
                    lemma_remove_found_is_remove(self@, id, j as int);
                    lemma_remove_preserves_unique(self@, j as int);
                }
                self.sessions.remove(j);
                proof {
                    assert(self@ =~= remove_key(old(self)@, id));
                    assert(forall|i: int|
                        0 <= i < self@.len() ==> self@[i] == old(self)@.remove(j as int)[i]);
                }
                true
            },
            None => {
                proof {
                    lemma_remove_absent_is_identity(self@, id);
                }
                false
            },
        }
    }

    /// Notes a liveness signal from session `id` at time `now`.  Returns
    /// whether the session is connected.
    pub fn record_heartbeat(&mut self, id: u64, now: u64) -> (found: bool)
        requires
            old(self).wf(),
        ensures
            final(self).wf(),
            found == has_key(old(self)@, id),
            final(self)@ == hub_after_heartbeat(old(self)@, id, now),
            final(self).spec_capacity() == old(self).spec_capacity(),
            final(self).spec_next_id() == old(self).spec_next_id(),
    {
        match self.find(id) {
            Some(j) => {
                proof {
                    lemma_lookup_at_index(self@, j as int);
                }
                let s = self.sessions.remove(j);
                let ns = Session { id: s.id, last_seen: now, queue: s.queue, lagged: s.lagged };
                self.sessions.insert(j, ns);
                proof {
                    assert(self@ =~= old(self)@.update(j as int, ns@));
                    assert(self@ =~= hub_after_heartbeat(old(self)@, id, now)) by {
                        assert(forall|i: int|
                            0 <= i < old(self)@.len() && i != j ==> (#[trigger] old(
                                self,
                            )@[i]).0 != id);
                    }
                }
                true
            },
            None => {
                proof {
                    assert(self@ =~= hub_after_heartbeat(old(self)@, id, now)) by {
                        lemma_found_at_some_index(old(self)@, id);
                    }
                }
                false
            },
        }
    }

    /// Fans one event out to every connected session's queue.  A full queue
    /// drops its oldest undelivered event and counts the lag; no session
    /// blocks another, and memory stays bounded.
    pub fn publish(&mut self, msg: &WebSocketMessage)
        requires
            old(self).wf(),
        ensures
            final(self).wf(),
            final(self)@ == hub_after_publish(old(self)@, msg@, old(self).spec_capacity()),
            final(self).spec_capacity() == old(self).spec_capacity(),
            final(self).spec_next_id() == old(self).spec_next_id(),
    {
        let ghost cap = old(self).spec_capacity();
        let ghost target = hub_after_publish(old(self)@, msg@, cap);
        let n = self.sessions.len();
        let mut i: usize = 0;
        while i < n
            invariant
                i <= n,
                n == self@.len(),
                n == old(self)@.len(),
                n == target.len(),
                old(self).wf(),
                cap == old(self).spec_capacity(),
                target == hub_after_publish(old(self)@, msg@, cap),
                self.spec_capacity() == old(self).spec_capacity(),
                self.spec_next_id() == old(self).spec_next_id(),
                forall|k: int| 0 <= k < i ==> #[trigger] self@[k] == target[k],
                forall|k: int| i <= k < n ==> #[trigger] self@[k] == old(self)@[k],
            decreases n - i,
        {
            let ghost pre = self@;
            proof {
                assert(self@[i as int] == self.sessions@[i as int]@);
                assert(pre[i as int] == old(self)@[i as int]);
            }
            let mut s = self.sessions.remove(i);
            let ghost sv = s@;
            proof {
                assert(sv == old(self)@[i as int]);
            }
            if s.queue.len() < self.capacity {
                s.queue.push(msg.duplicate());
                proof {
                    assert(s.queue@.map_values(|m: WebSocketMessage| m@) =~= queue_after(
                        sv.1.1,
                        msg@,
                        cap,
                    ));
                }
            } else {
                proof {
                    assert(old(self)@[i as int].1.1.len() <= cap);
                }
                s.queue.remove(0);
                s.queue.push(msg.duplicate());
                s.lagged = if s.lagged < u64::MAX {
                    s.lagged + 1
                } else {
                    s.lagged
                };
                proof {
                    assert(s.queue@.map_values(|m: WebSocketMessage| m@) =~= queue_after(
                        sv.1.1,
                        msg@,
                        cap,
                    ));
                    assert(s.lagged == lag_after(sv.1.1, sv.1.2, cap));
                }
            }
            self.sessions.insert(i, s);
            proof {
                assert(self@ =~= pre.remove(i as int).insert(i as int, (sv.0, (sv.1.0, queue_after(
                    sv.1.1,
                    msg@,
                    cap,
                ), lag_after(sv.1.1, sv.1.2, cap)))));
                assert(self@[i as int] == target[i as int]);
                assert(forall|k: int| 0 <= k < i ==> #[trigger] self@[k] == pre[k]);
                assert(forall|k: int| i < k < n ==> #[trigger] self@[k] == pre[k]);
            }
            i = i + 1;
        }
        proof {
            assert(self@ =~= target);
            assert(final(self).wf()) by {
                assert(forall|k: int| 0 <= k < target.len() ==> (#[trigger] target[k]).0 == old(
                    self,
                )@[k].0);
                assert(forall|k: int|
                    0 <= k < target.len() ==> (#[trigger] target[k]).1.1.len() <= cap);
            }
        }
    }

    /// Hands session `id`'s queued events to its transport, leaving the
    /// queue empty.  Events for the same stream come out in publish order.
    pub fn drain_queue(&mut self, id: u64) -> (r: Option<Vec<WebSocketMessage>>)
        requires
            old(self).wf(),
        ensures
            final(self).wf(),
            final(self)@ == hub_after_drain(old(self)@, id),
            final(self).spec_capacity() == old(self).spec_capacity(),
            final(self).spec_next_id() == old(self).spec_next_id(),
            match r {
                Some(msgs) => has_key(old(self)@, id) && (lookup(old(self)@, id) matches Some(m)
                    && msgs@.map_values(|x: WebSocketMessage| x@) == m.1),
                None => !has_key(old(self)@, id),
            },
    {
        match self.find(id) {
            Some(j) => {
                proof {
                    lemma_lookup_at_index(self@, j as int);
                }
                let s = self.sessions.remove(j);
                let ns = Session {
                    id: s.id,
                    last_seen: s.last_seen,
                    queue: Vec::new(),
                    lagged: s.lagged,
                };
                self.sessions.insert(j, ns);
                proof {
                    assert(ns.queue@.map_values(|m: WebSocketMessage| m@) =~= Seq::<
                        MessageV,
                    >::empty());
                    assert(self@ =~= old(self)@.update(j as int, ns@));
                    assert(self@ =~= hub_after_drain(old(self)@, id)) by {
                        assert(forall|i: int|
                            0 <= i < old(self)@.len() && i != j ==> (#[trigger] old(
                                self,
                            )@[i]).0 != id);
                    }
                }
                Some(s.queue)
            },
            None => {
                proof {
                    assert(self@ =~= hub_after_drain(old(self)@, id)) by {
                        lemma_found_at_some_index(old(self)@, id);
                    }
                }
                None
            },
        }
    }

    /// The periodic reaper: removes every session whose last liveness
    /// signal is older than `timeout` seconds, and returns their ids.  A
    /// session within the timeout survives untouched.
    pub fn evict_expired(&mut self, now: u64, timeout: u64) -> (removed: Vec<u64>)
        requires
            old(self).wf(),
        ensures
            final(self).wf(),
            final(self)@ == keep_live(old(self)@, now, timeout),
            removed@ == stale_ids(old(self)@, now, timeout),
            final(self).spec_capacity() == old(self).spec_capacity(),
            final(self).spec_next_id() == old(self).spec_next_id(),
    {
        let ghost orig = self@;
        let mut removed: Vec<u64> = Vec::new();
        let mut kept: Vec<Session> = Vec::new();
        let n = self.sessions.len();
        let mut i: usize = 0;
        proof {
            assert(orig.take(0) =~= Seq::<(u64, SessionMeta)>::empty());
            assert(keep_live(orig.take(0), now, timeout) =~= Seq::<(u64, SessionMeta)>::empty());
            assert(stale_ids(orig.take(0), now, timeout) =~= Seq::<u64>::empty());
            assert(kept@.map_values(|s: Session| s@) =~= Seq::<(u64, SessionMeta)>::empty());
            assert(self@.skip(0) =~= orig);
        }
        while i < n
            invariant
                i <= n,
                n == orig.len(),
                orig == old(self)@,
                self@ == orig.skip(i as int),
                self.spec_capacity() == old(self).spec_capacity(),
                self.spec_next_id() == old(self).spec_next_id(),
                kept@.map_values(|s: Session| s@) == keep_live(orig.take(i as int), now, timeout),
                removed@ == stale_ids(orig.take(i as int), now, timeout),
            decreases n - i,
        {
            let ghost pre = self@;
            let ghost pre_sessions = self.sessions@;
            proof {
                assert(self.sessions@.len() == self@.len());
                assert(self@[0] == self.sessions@[0]@);
            }
            let s = self.sessions.remove(0);
            proof {
                assert(pre[0] == orig[i as int]);
                assert(s@ == orig[i as int]);
                assert(self.sessions@ == pre_sessions.remove(0));
                assert(self@ =~= orig.skip(i + 1)) by {
                    assert(forall|k: int|
                        0 <= k < self.sessions@.len() ==> self.sessions@[k] == pre_sessions[k + 1]);
                    assert(forall|k: int|
                        0 <= k < self@.len() ==> #[trigger] self@[k] == self.sessions@[k]@);
                    assert(forall|k: int|
                        1 <= k < pre.len() ==> #[trigger] pre[k] == pre_sessions[k]@);
                    assert(forall|k: int|
                        0 <= k < orig.skip(i + 1).len() ==> #[trigger] orig.skip(i + 1)[k]
                            == orig.skip(i as int)[k + 1]);
                }
                assert(orig.take(i + 1) =~= orig.take(i as int).push(orig[i as int]));
                lemma_keep_live_snoc(orig.take(i as int), orig[i as int], now, timeout);
                lemma_stale_ids_snoc(orig.take(i as int), orig[i as int], now, timeout);
            }
            let stale = now > timeout && s.last_seen < now - timeout;
            proof {
                assert(stale == is_stale(orig[i as int], now, timeout));
            }
            if stale {
                removed.push(s.id);
                proof {
                    assert(removed@ =~= stale_ids(orig.take(i + 1), now, timeout));
                    assert(kept@.map_values(|s: Session| s@) =~= keep_live(
                        orig.take(i + 1),
                        now,
                        timeout,
                    ));
                }
            } else {
                kept.push(s);
                proof {
                    assert(kept@.map_values(|s: Session| s@) =~= keep_live(
                        orig.take(i + 1),
                        now,
                        timeout,
                    ));
                    assert(removed@ =~= stale_ids(orig.take(i + 1), now, timeout));
                }
            }
            i = i + 1;
        }
        proof {
            assert(orig.take(n as int) == orig);
        }
        self.sessions = kept;
        proof {
            assert(self@ == keep_live(orig, now, timeout));
            assert(final(self).wf()) by {
                lemma_keep_live_unique(orig, now, timeout);
                lemma_keep_live_member(orig, now, timeout);
                assert(forall|k: int|
                    0 <= k < self@.len() ==> (#[trigger] self@[k]).1.1.len()
                        <= self.spec_capacity() && self@[k].0 < self.spec_next_id()) by {
                    assert(forall|k: int|
                        0 <= k < keep_live(orig, now, timeout).len() ==> orig.contains(
                            #[trigger] keep_live(orig, now, timeout)[k],
                        ));
                }
            }
        }
        removed
    }
}

/// One wakeup of a session's connection loop: an inbound frame, a fanned-
/// out event to forward, or the heartbeat timer.
pub enum SessionEvent {
    /// An inbound text frame that parsed as a protocol message.
    TextMessage(WebSocketMessage),
    /// An inbound text frame with an unknown tag or invalid body; ignored.
    InvalidText,
    BinaryFrame,
    PingFrame,
    PongFrame,
    /// The peer asked to close.
    Closed,
    /// The transport stream ended.
    StreamEnded,
    /// The transport reported an error.
    TransportError,
    /// A fanned-out event taken from this session's queue.
    BroadcastMessage(WebSocketMessage),
    /// The fan-out dropped this many events on this slow session.
    BroadcastLagged(u64),
    /// The periodic heartbeat timer fired.
    HeartbeatTick,
}

/// What the transport loop must do after one `session_event` step.
pub enum SessionDirective {
    /// Send this message to this session's peer.
    Reply(WebSocketMessage),
    /// Send this message, then close the connection.
    ReplyAndDisconnect(WebSocketMessage),
    /// Close the connection.
    Disconnect,
    Nothing,
}

impl BroadcastHub {
    /// Drives one step of a session's select loop: takes the wakeup that
    /// occurred, updates the registry, and says what the transport must do.
    /// `fonts` is the current font list, served on a list request.
    ///
    /// Every inbound frame — an explicit heartbeat reply or any other
    /// received message, well formed or not — is a liveness signal and
    /// refreshes the session's clock.  Inbound font and sync-completion
    /// notices are then fanned out to every session; a close, an end of
    /// stream or a transport error removes the session; a heartbeat tick
    /// sends a probe and gives the session up if it has been silent longer
    /// than the timeout.  A lagged fan-out is only logged: the session
    /// stays unless it also times out.
    pub fn session_event(
        &mut self,
        id: u64,
        event: SessionEvent,
        now: u64,
        fonts: Vec<FontInfo>,
    ) -> (d: SessionDirective)
        requires
            old(self).wf(),
        ensures
            final(self).wf(),
            final(self).spec_capacity() == old(self).spec_capacity(),
            final(self).spec_next_id() == old(self).spec_next_id(),
            match event {
                SessionEvent::TextMessage(m) => match m {
                    WebSocketMessage::FontListRequest => final(self)@ == hub_after_heartbeat(
                        old(self)@,
                        id,
                        now,
                    ) && (d matches SessionDirective::Reply(r) && r@ == (
                    MessageV::FontListResponse { fonts: fonts@.map_values(|f: FontInfo| f@) })),
                    WebSocketMessage::Heartbeat => final(self)@ == hub_after_heartbeat(
                        old(self)@,
                        id,
                        now,
                    ) && d matches SessionDirective::Nothing,
                    WebSocketMessage::SyncRequest { client_id } => final(self)@
                        == hub_after_heartbeat(old(self)@, id, now) && (
                    d matches SessionDirective::Reply(r) && r@ == (MessageV::SyncComplete {
                        client_id: client_id@,
                        success: true,
                        message: "Sync started"@,
                    })),
                    _ => final(self)@ == hub_after_publish(
                        hub_after_heartbeat(old(self)@, id, now),
                        m@,
                        old(self).spec_capacity(),
                    ) && d matches SessionDirective::Nothing,
                },
                SessionEvent::InvalidText
                | SessionEvent::BinaryFrame
                | SessionEvent::PingFrame
                | SessionEvent::PongFrame => final(self)@ == hub_after_heartbeat(
                    old(self)@,
                    id,
                    now,
                ) && d matches SessionDirective::Nothing,
                SessionEvent::Closed | SessionEvent::StreamEnded | SessionEvent::TransportError => {
                    final(self)@ == remove_key(old(self)@, id)
                        && d matches SessionDirective::Disconnect
                },
                SessionEvent::BroadcastMessage(m) => final(self)@ == old(self)@ && (
                d matches SessionDirective::Reply(r) && r@ == m@),
                SessionEvent::HeartbeatTick => match lookup(old(self)@, id) {
                    Some(meta) => if meta.0 + HEARTBEAT_TIMEOUT_SECS < now {
                        final(self)@ == remove_key(old(self)@, id) && (
                        d matches SessionDirective::ReplyAndDisconnect(r) && r@
                            == MessageV::Heartbeat)
                    } else {
                        final(self)@ == old(self)@ && (d matches SessionDirective::Reply(r) && r@
                            == MessageV::Heartbeat)
                    },
                    None => final(self)@ == old(self)@ && (d matches SessionDirective::Reply(r)
                        && r@ == MessageV::Heartbeat),
                },
                _ => final(self)@ == old(self)@ && d matches SessionDirective::Nothing,
            },
    {
        match event {
            SessionEvent::TextMessage(m) => {
                self.record_heartbeat(id, now);
                match m {
                    WebSocketMessage::FontListRequest => SessionDirective::Reply(
                        WebSocketMessage::FontListResponse { fonts },
                    ),
                    WebSocketMessage::Heartbeat => SessionDirective::Nothing,
                    WebSocketMessage::SyncRequest { client_id } => SessionDirective::Reply(
                        WebSocketMessage::SyncComplete {
                            client_id,
                            success: true,
                            message: String::from_str("Sync started"),
                        },
                    ),
                    other => {
                        self.publish(&other);
                        SessionDirective::Nothing
                    },
                }
            },
            SessionEvent::InvalidText
            | SessionEvent::BinaryFrame
            | SessionEvent::PingFrame
            | SessionEvent::PongFrame => {
                self.record_heartbeat(id, now);
                SessionDirective::Nothing
            },
            SessionEvent::Closed | SessionEvent::StreamEnded | SessionEvent::TransportError => {
                self.disconnect(id);
                SessionDirective::Disconnect
            },
            SessionEvent::BroadcastMessage(m) => SessionDirective::Reply(m),
            SessionEvent::HeartbeatTick => {
                let timed_out = match self.lookup_session(id) {
                    Some(s) => now > HEARTBEAT_TIMEOUT_SECS && s.last_seen < now
                        - HEARTBEAT_TIMEOUT_SECS,
                    None => false,
                };
                if timed_out {
                    self.disconnect(id);
                    SessionDirective::ReplyAndDisconnect(WebSocketMessage::Heartbeat)
                } else {
                    SessionDirective::Reply(WebSocketMessage::Heartbeat)
                }
            },
            _ => SessionDirective::Nothing,
        }
    }
}

proof fn lemma_keep_live_snoc(
    s: Seq<(u64, SessionMeta)>,
    e: (u64, SessionMeta),
    now: u64,
    timeout: u64,
)
    ensures
        keep_live(s.push(e), now, timeout) == keep_live(s, now, timeout) + (if is_stale(
            e,
            now,
            timeout,
        ) {
            Seq::<(u64, SessionMeta)>::empty()
        } else {
            seq![e]
        }),
    decreases s.len(),
{
    if s.len() == 0 {
        assert(s.push(e).first() == e);
        assert(s.push(e).drop_first() =~= s);
        assert(keep_live(s, now, timeout) == Seq::<(u64, SessionMeta)>::empty());
        if is_stale(e, now, timeout) {
            assert(keep_live(s.push(e), now, timeout) =~= keep_live(s, now, timeout));
        } else {
            assert(keep_live(s.push(e), now, timeout) =~= keep_live(s, now, timeout) + seq![e]);
        }
    } else {
        assert(s.push(e).first() == s.first());
        assert(s.push(e).drop_first() =~= s.drop_first().push(e));
        lemma_keep_live_snoc(s.drop_first(), e, now, timeout);
        if is_stale(e, now, timeout) {
            assert(keep_live(s.push(e), now, timeout) =~= keep_live(s, now, timeout));
        } else {
            assert(keep_live(s.push(e), now, timeout) =~= keep_live(s, now, timeout) + seq![e]);
        }
    }
}

proof fn lemma_stale_ids_snoc(
    s: Seq<(u64, SessionMeta)>,
    e: (u64, SessionMeta),
    now: u64,
    timeout: u64,
)
    ensures
        stale_ids(s.push(e), now, timeout) == stale_ids(s, now, timeout) + (if is_stale(
            e,
            now,
            timeout,
        ) {
            seq![e.0]
        } else {
            Seq::<u64>::empty()
        }),
    decreases s.len(),
{
    if s.len() == 0 {
        assert(s.push(e).first() == e);
        assert(s.push(e).drop_first() =~= s);
        assert(stale_ids(s, now, timeout) == Seq::<u64>::empty());
        if is_stale(e, now, timeout) {
            assert(stale_ids(s.push(e), now, timeout) =~= stale_ids(s, now, timeout) + seq![e.0]);
        } else {
            assert(stale_ids(s.push(e), now, timeout) =~= stale_ids(s, now, timeout));
        }
    } else {
        assert(s.push(e).first() == s.first());
        assert(s.push(e).drop_first() =~= s.drop_first().push(e));
        lemma_stale_ids_snoc(s.drop_first(), e, now, timeout);
        if is_stale(e, now, timeout) {
            assert(stale_ids(s.push(e), now, timeout) =~= stale_ids(s, now, timeout) + seq![e.0]);
        } else {
            assert(stale_ids(s.push(e), now, timeout) =~= stale_ids(s, now, timeout));
        }
    }
}

} // verus!
