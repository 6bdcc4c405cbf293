//! The object tracker: guarantees in-order dispatch and at-most-one-in-flight
//! semantics for fetching objects from peers, matches possibly late responses,
//! and evicts timed-out, canceled or disconnected-peer requests.
//!
//! The tracker is a sequential state machine: every public operation is a
//! step from one state to the next, specified exactly by a spec-level
//! transition function. The surrounding runtime (timers, channels, network
//! sends, listener wakeups) drives these steps and performs the actions they
//! return.
use vstd::prelude::*;

use crate::cache::CacheEntry;
use crate::cache::ExpirableCache;
use crate::cache::cache_contains;
use crate::cache::spec_cache_insert;
use crate::queue::Request;
use crate::queue::RequestQueue;
use crate::queue::evict_cond;
use crate::queue::queue_contains;
use crate::queue::queue_index_of;
use crate::queue::unique_identities;

verus! {

/// Default capacity of the dispatch channel: how many accepted requests
/// may wait for dispatch before callers feel backpressure.
pub const REQUESTER_CHANNEL_BUFFER: usize = 8;

/// How a fetch call was accepted.
#[derive(Clone, Copy, Debug, PartialEq, Eq, Structural)]
pub enum RequestStatus {
    /// A request for this identity already existed; the caller attaches as
    /// one more listener and no new network traffic is caused.
    Attached,
    /// A new request was queued and its identity was placed on the dispatch
    /// channel.
    Queued,
    /// The dispatch channel is full: the caller must wait for capacity and
    /// retry (the backpressure mechanism); the state is unchanged.
    ChannelFull,
}

/// A failure of the tracker's public API.
#[derive(Clone, Copy, Debug, PartialEq, Eq, Structural)]
pub enum TrackerError {
    /// The tracker is shutting down; the triggering call fails, nothing else.
    ChannelClosed,
}

/// The terminal outcome delivered to the listeners of an evicted request,
/// telling "will never be fulfilled" apart by its reason.
#[derive(Clone, Copy, Debug, PartialEq, Eq, Structural)]
pub enum ListenerOutcome {
    /// The request was sent and no response arrived within the timeout.
    Timeout,
    /// The request was evicted before fulfilment: group cancel, peer failure
    /// or disconnect, or shutdown.
    Canceled,
}

/// What the requester loop must do after pulling one identity from the
/// dispatch channel.
#[derive(Clone, Copy, Debug)]
pub enum DispatchAction {
    /// The request is still queued and unsent: its send time was stamped and
    /// the frame must now be transmitted to the peer.
    Transmit { identity: crate::hash::Hash, peer: u64, group: Option<u64> },
    /// The request was concurrently evicted between enqueue and dispatch, or
    /// was already sent: nothing is transmitted.
    Skip { identity: crate::hash::Hash },
    /// The dispatch channel is empty.
    Idle,
}

/// An evicted request together with the outcome its listeners are woken with.
#[derive(Clone, Copy, Debug)]
pub struct Evicted {
    pub request: Request,
    pub outcome: ListenerOutcome,
}

/// Filtering keeps a sequence whole when the predicate holds of every
/// element.
proof fn lemma_filter_retains_all<A>(s: Seq<A>, pred: spec_fn(A) -> bool)
    requires
        forall|i: int| 0 <= i < s.len() ==> pred(#[trigger] s[i]),
    ensures
        s.filter(pred) == s,
    decreases s.len(),
{
    reveal(Seq::filter);
    if s.len() == 0 {
        assert(s.filter(pred) =~= s);
    } else {
        lemma_filter_retains_all(s.drop_last(), pred);
        assert(pred(s.last()));
        assert(s.drop_last().push(s.last()) =~= s);
    }
}

/// The outcome reported for an entry evicted at time `now`.
pub open spec fn spec_outcome(r: Request, timeout: u64, now: u64) -> ListenerOutcome {
    if r.sent_at matches Some(t) && now > t + timeout {
        ListenerOutcome::Timeout
    } else {
        ListenerOutcome::Canceled
    }
}

/// The mathematical state of a tracker.
pub struct TrackerView {
    /// Insertion-ordered queue of in-flight requests, one per identity.
    pub queue: Seq<Request>,
    /// FIFO dispatch channel of identities accepted but not yet dispatched;
    /// index 0 is dispatched first.
    pub channel: Seq<Seq<u8>>,
    /// The dedupe cache of recently evicted identities.
    pub cache: Seq<CacheEntry>,
    /// The next group id to allocate.
    pub next_group: u64,
    /// Capacity of the dispatch channel.
    pub capacity: nat,
    /// Response timeout, also the cache retention window, in milliseconds.
    pub timeout: u64,
    /// Whether the tracker is shutting down.
    pub closed: bool,
}

/// Well-formedness, established by `new` and preserved by every operation:
/// identities in the queue are unique, the channel respects its capacity,
/// and every queued-but-unsent request has its identity on the channel, so
/// no accepted request can be forgotten without a terminal event.
pub open spec fn wf(v: TrackerView) -> bool {
    &&& unique_identities(v.queue)
    &&& v.channel.len() <= v.capacity
    &&& v.capacity >= 1
    &&& forall|i: int|
        0 <= i < v.queue.len() && v.queue[i].sent_at is None
            ==> v.channel.contains(#[trigger] v.queue[i].identity@)
}

/// Transition of `request_object_from_peer_with_or_get_notified`.
pub open spec fn spec_request_object(
    v: TrackerView,
    identity: crate::hash::Hash,
    peer: u64,
    group: Option<u64>,
) -> (TrackerView, Result<RequestStatus, TrackerError>) {
    if v.closed {
        (v, Err(TrackerError::ChannelClosed))
    } else if queue_contains(v.queue, identity@) {
        (v, Ok(RequestStatus::Attached))
    } else if v.channel.len() >= v.capacity {
        (v, Ok(RequestStatus::ChannelFull))
    } else {
        (
            TrackerView {
                queue: v.queue.push(Request { identity, peer, group, sent_at: None }),
                channel: v.channel.push(identity@),
                ..v
            },
            Ok(RequestStatus::Queued),
        )
    }
}

/// Transition of `dispatch_next`: the head of the channel is consumed; if
/// its request is still queued and unsent, the send time is stamped.
pub open spec fn spec_dispatch_next(v: TrackerView, now: u64) -> TrackerView {
    if v.channel.len() == 0 {
        v
    } else {
        let id = v.channel[0];
        let rest = v.channel.drop_first();
        if queue_contains(v.queue, id) {
            let i = queue_index_of(v.queue, id);
            if v.queue[i].sent_at is None {
                TrackerView {
                    queue: v.queue.update(i, Request { sent_at: Some(now), ..v.queue[i] }),
                    channel: rest,
                    ..v
                }
            } else {
                TrackerView { channel: rest, ..v }
            }
        } else {
            TrackerView { channel: rest, ..v }
        }
    }
}

/// Transition of `handle_object_response`: the identity leaves the queue if
/// present, else it leaves the dedupe cache if remembered there.
pub open spec fn spec_handle_response(v: TrackerView, id: Seq<u8>) -> (TrackerView, bool) {
    if queue_contains(v.queue, id) {
        (TrackerView { queue: v.queue.remove(queue_index_of(v.queue, id)), ..v }, true)
    } else if cache_contains(v.cache, id) {
        (
            TrackerView { cache: v.cache.filter(|x: CacheEntry| x.identity@ != id), ..v },
            true,
        )
    } else {
        (v, false)
    }
}

/// The cache after remembering, in order, the identity of every evicted
/// request at time `now`.
pub open spec fn spec_cache_insert_all(c: Seq<CacheEntry>, gone: Seq<Request>, now: u64) -> Seq<
    CacheEntry,
>
    decreases gone.len(),
{
    if gone.len() == 0 {
        c
    } else {
        spec_cache_insert(
            spec_cache_insert_all(c, gone.drop_last(), now),
            CacheEntry { identity: gone.last().identity, inserted_at: now },
        )
    }
}

/// Transition of `clean_queue`, the eviction routine: every queued entry
/// matching the eviction condition is removed, in order, and its identity is
/// remembered in the dedupe cache; the remaining entries keep their order.
pub open spec fn spec_clean_queue(
    v: TrackerView,
    peer: Option<u64>,
    group: Option<u64>,
    closed_peers: Seq<u64>,
    now: u64,
) -> (TrackerView, Seq<Request>) {
    let gone = v.queue.filter(
        |r: Request| evict_cond(r, peer, group, closed_peers, v.timeout, now),
    );
    (
        TrackerView {
            queue: v.queue.filter(
                |r: Request| !evict_cond(r, peer, group, closed_peers, v.timeout, now),
            ),
            cache: spec_cache_insert_all(v.cache, gone, now),
            ..v
        },
        gone,
    )
}

/// Transition of `sweep_timed_out`: if the oldest entry was sent and its age
/// exceeds the timeout, the eviction routine runs for its peer and group;
/// otherwise nothing changes. One pass suffices: the eviction condition
/// itself removes every sent-and-expired entry, so afterwards no head can be
/// expired.
pub open spec fn spec_sweep(v: TrackerView, closed_peers: Seq<u64>, now: u64) -> (
    TrackerView,
    Seq<Request>,
) {
    if v.queue.len() > 0 && (v.queue[0].sent_at matches Some(t) && now > t + v.timeout) {
        spec_clean_queue(v, Some(v.queue[0].peer), v.queue[0].group, closed_peers, now)
    } else {
        (v, Seq::empty())
    }
}

/// Transition of `clean_cache`: entries older than the retention window are
/// dropped.
pub open spec fn spec_clean_cache(v: TrackerView, now: u64) -> TrackerView {
    TrackerView {
        cache: v.cache.filter(|x: CacheEntry| now < x.inserted_at + v.timeout),
        ..v
    }
}

/// Transition of `shutdown`: the tracker closes, the queue is drained and
/// the channel is cleared; every still-queued request is reported back so
/// its listeners can be woken with `Canceled`.
pub open spec fn spec_shutdown(v: TrackerView) -> (TrackerView, Seq<Request>) {
    (
        TrackerView {
            queue: Seq::empty(),
            channel: Seq::empty(),
            closed: true,
            ..v
        },
        v.queue,
    )
}

/// The object tracker. It owns the ordered request queue, the dedupe cache,
/// the monotonic group-id counter and the bounded dispatch channel, and
/// exposes one function per step of the orchestration.
pub struct ObjectTracker {
    queue: RequestQueue,
    channel: Vec<crate::hash::Hash>,
    capacity: usize,
    cache: ExpirableCache,
    group_id: u64,
    timeout: u64,
    closed: bool,
}

impl View for ObjectTracker {
    type V = TrackerView;

    closed spec fn view(&self) -> TrackerView {
        TrackerView {
            queue: self.queue@,
            channel: self.channel@.map_values(|h: crate::hash::Hash| h@),
            cache: self.cache@,
            next_group: self.group_id,
            capacity: self.capacity as nat,
            timeout: self.timeout,
            closed: self.closed,
        }
    }
}

impl ObjectTracker {
    /// A fresh tracker with the given dispatch-channel capacity and response
    /// timeout (the timeout is also the dedupe-cache retention window).
    pub fn new(capacity: usize, timeout: u64) -> (r: ObjectTracker)
        requires
            capacity >= 1,
        ensures
            wf(r@),
            r@.queue =~= Seq::<Request>::empty(),
            r@.channel =~= Seq::<Seq<u8>>::empty(),
            r@.cache =~= Seq::<CacheEntry>::empty(),
            r@.next_group == 0,
            r@.capacity == capacity,
            r@.timeout == timeout,
            !r@.closed,
    {
        let r = ObjectTracker {
            queue: RequestQueue::new(),
            channel: Vec::new(),
            capacity,
            cache: ExpirableCache::new(),
            group_id: 0,
            timeout,
            closed: false,
        };
        proof {
            assert(r@.channel =~= Seq::<Seq<u8>>::empty());
        }
        r
    }

    /// How many requests are queued.
    pub fn queue_len(&self) -> (r: usize)
        ensures
            r == self@.queue.len(),
    {
        self.queue.len()
    }

    /// How many identities the dedupe cache remembers.
    pub fn cache_len(&self) -> (r: usize)
        ensures
            r == self@.cache.len(),
    {
        self.cache.len()
    }

    /// Allocates the next group id: a wait-free monotonic counter with no
    /// other effect.
    pub fn next_group_id(&mut self) -> (r: u64)
        requires
            old(self)@.next_group < u64::MAX,
        ensures
            r == old(self)@.next_group,
            final(self)@ == (TrackerView { next_group: (old(self)@.next_group + 1) as u64, ..old(self)@ }),
    {
        let r = self.group_id;
        self.group_id = self.group_id + 1;
        r
    }

    /// Asks to fetch `identity` from `peer`, optionally tagged with `group`.
    /// If a request for the identity already exists the caller merely
    /// attaches to it — several independent callers wanting the same object
    /// cause exactly one transmission. Otherwise the request is queued with
    /// its send time unset and the identity is placed on the dispatch
    /// channel; with the channel full the caller is told to wait and retry,
    /// and with the tracker shutting down the call fails.
    pub fn request_object_from_peer_with_or_get_notified(
        &mut self,
        identity: crate::hash::Hash,
        peer: u64,
        group: Option<u64>,
    ) -> (r: Result<RequestStatus, TrackerError>)
        requires
            wf(old(self)@),
        ensures
            wf(final(self)@),
            final(self)@ == spec_request_object(old(self)@, identity, peer, group).0,
            r == spec_request_object(old(self)@, identity, peer, group).1,
    {
        if self.closed {
            return Err(TrackerError::ChannelClosed);
        }
        if self.queue.contains(&identity) {
            return Ok(RequestStatus::Attached);
        }
        if self.channel.len() >= self.capacity {
            return Ok(RequestStatus::ChannelFull);
        }
        self.queue.push(Request::new(identity, peer, group));
        self.channel.push(identity);
        proof {
            let v0 = old(self)@;
            let v1 = self@;
            assert(v1.channel =~= v0.channel.push(identity@));
            assert(v1 == spec_request_object(v0, identity, peer, group).0);
            assert forall|i: int|
                0 <= i < v1.queue.len() && v1.queue[i].sent_at is None
                    implies v1.channel.contains(#[trigger] v1.queue[i].identity@) by {
                if i < v0.queue.len() {
                    let id = v0.queue[i].identity@;
                    let k = choose|k: int| 0 <= k < v0.channel.len() && v0.channel[k] == id;
                    assert(v1.channel[k] == id);
                } else {
                    assert(v1.channel[v0.channel.len() as int] == identity@);
                }
            }
            assert forall|i: int, j: int|
                0 <= i < j < v1.queue.len()
                    implies v1.queue[i].identity@ != v1.queue[j].identity@ by {
                if j == v1.queue.len() - 1 {
                    assert(!queue_contains(v0.queue, identity@));
                    assert(v0.queue[i].identity@ != identity@);
                }
            }
        }
        Ok(RequestStatus::Queued)
    }

    /// One step of the requester loop: pulls the oldest identity from the
    /// dispatch channel. If its request is still queued and not yet sent,
    /// the send time is stamped `now` — exactly once — and the caller must
    /// transmit; a request evicted between enqueue and dispatch is silently
    /// skipped.
    pub fn dispatch_next(&mut self, now: u64) -> (r: DispatchAction)
        requires
            wf(old(self)@),
        ensures
            wf(final(self)@),
            final(self)@ == spec_dispatch_next(old(self)@, now),
            r is Idle <==> old(self)@.channel.len() == 0,
            r matches DispatchAction::Transmit { identity, peer, group } ==> {
                &&& identity@ == old(self)@.channel[0]
                &&& queue_contains(old(self)@.queue, identity@)
                &&& old(self)@.queue[queue_index_of(old(self)@.queue, identity@)].sent_at is None
                &&& peer == old(self)@.queue[queue_index_of(old(self)@.queue, identity@)].peer
                &&& group == old(self)@.queue[queue_index_of(old(self)@.queue, identity@)].group
            },
            r matches DispatchAction::Skip { identity } ==> {
                &&& identity@ == old(self)@.channel[0]
                &&& (!queue_contains(old(self)@.queue, identity@)
                    || old(self)@.queue[queue_index_of(old(self)@.queue, identity@)].sent_at is Some)
            },
    {
        if self.channel.len() == 0 {
            return DispatchAction::Idle;
        }
        let id = self.channel.remove(0);
        proof {
            let v0 = old(self)@;
            assert(id@ == v0.channel[0]);
            assert(self@.channel =~= v0.channel.drop_first());
        }
        let looked_up: Option<(Option<u64>, u64, Option<u64>)> = match self.queue.get(&id) {
            Some(req) => Some((req.sent_at, req.peer, req.group)),
            None => None,
        };
        match looked_up {
            None => {
                proof {
                    self.lemma_unsent_still_on_channel(old(self)@, id@);
                }
                DispatchAction::Skip { identity: id }
            },
            Some((Some(_t), _p, _g)) => {
                proof {
                    self.lemma_unsent_still_on_channel(old(self)@, id@);
                }
                DispatchAction::Skip { identity: id }
            },
            Some((None, peer, group)) => {
                let _found = self.queue.mark_sent(&id, now);
                proof {
                    let v0 = old(self)@;
                    let v1 = self@;
                    let i = queue_index_of(v0.queue, id@);
                    assert forall|k: int|
                        0 <= k < v1.queue.len() && v1.queue[k].sent_at is None
                            implies v1.channel.contains(#[trigger] v1.queue[k].identity@) by {
                        assert(k != i);
                        assert(v1.queue[k] == v0.queue[k]);
                        assert(v0.channel.contains(v0.queue[k].identity@));
                        let c = choose|c: int|
                            0 <= c < v0.channel.len() && v0.channel[c] == v0.queue[k].identity@;
                        assert(v0.queue[k].identity@ != id@);
                        assert(c != 0);
                        assert(v1.channel[c - 1] == v0.queue[k].identity@);
                    }
                    assert forall|a: int, b: int|
                        0 <= a < b < v1.queue.len()
                            implies v1.queue[a].identity@ != v1.queue[b].identity@ by {
                        assert(v1.queue[a].identity@ == v0.queue[a].identity@);
                        assert(v1.queue[b].identity@ == v0.queue[b].identity@);
                    }
                }
                DispatchAction::Transmit { identity: id, peer, group }
            },
        }
    }

    /// After popping `id` off the channel without stamping anything, every
    /// still-unsent queued request keeps an occurrence of its identity on
    /// the remaining channel.
    proof fn lemma_unsent_still_on_channel(&self, v0: TrackerView, id: Seq<u8>)
        requires
            wf(v0),
            v0.channel.len() > 0,
            v0.channel[0] == id,
            self@.queue == v0.queue,
            self@.channel == v0.channel.drop_first(),
            queue_contains(v0.queue, id)
                ==> v0.queue[queue_index_of(v0.queue, id)].sent_at is Some,
        ensures
            forall|i: int|
                0 <= i < self@.queue.len() && self@.queue[i].sent_at is None
                    ==> self@.channel.contains(#[trigger] self@.queue[i].identity@),
    {
        let v1 = self@;
        assert forall|i: int|
            0 <= i < v1.queue.len() && v1.queue[i].sent_at is None
                implies v1.channel.contains(#[trigger] v1.queue[i].identity@) by {
            let eid = v1.queue[i].identity@;
            assert(v0.channel.contains(eid));
            if eid == id {
                assert(queue_contains(v0.queue, id));
                let j = queue_index_of(v0.queue, id);
                assert(v0.queue[j].sent_at is Some);
                assert(v0.queue[j].identity@ == v0.queue[i].identity@);
                if i < j {
                    assert(v0.queue[i].identity@ != v0.queue[j].identity@);
                } else if j < i {
                    assert(v0.queue[j].identity@ != v0.queue[i].identity@);
                }
                assert(false);
            }
            let c = choose|c: int| 0 <= c < v0.channel.len() && v0.channel[c] == eid;
            assert(c != 0);
            assert(v1.channel[c - 1] == eid);
        }
    }

    /// Handles a response from the wire for `identity`. The request leaves
    /// the queue if still present (true); else a recently evicted identity
    /// is absorbed from the dedupe cache (true); else the response is
    /// unsolicited (false) and the caller may treat it as a possible
    /// protocol violation.
    pub fn handle_object_response(&mut self, identity: &crate::hash::Hash) -> (r: bool)
        requires
            wf(old(self)@),
        ensures
            wf(final(self)@),
            final(self)@ == spec_handle_response(old(self)@, identity@).0,
            r == spec_handle_response(old(self)@, identity@).1,
    {
        match self.queue.remove(identity) {
            Some(_req) => {
                proof {
                    let v0 = old(self)@;
                    let v1 = self@;
                    let i = queue_index_of(v0.queue, identity@);
                    assert(v1.queue == v0.queue.remove(i));
                    assert forall|a: int, b: int|
                        0 <= a < b < v1.queue.len()
                            implies v1.queue[a].identity@ != v1.queue[b].identity@ by {
                        let a0 = if a < i { a } else { a + 1 };
                        let b0 = if b < i { b } else { b + 1 };
                        assert(v1.queue[a] == v0.queue[a0]);
                        assert(v1.queue[b] == v0.queue[b0]);
                    }
                    assert forall|k: int|
                        0 <= k < v1.queue.len() && v1.queue[k].sent_at is None
                            implies v1.channel.contains(#[trigger] v1.queue[k].identity@) by {
                        let k0 = if k < i { k } else { k + 1 };
                        assert(v1.queue[k] == v0.queue[k0]);
                        assert(v0.channel.contains(v0.queue[k0].identity@));
                    }
                }
                true
            },
            None => {
                let r = self.cache.remove(identity);
                proof {
                    if !cache_contains(old(self)@.cache, identity@) {
                        lemma_filter_retains_all(
                            old(self)@.cache,
                            |x: CacheEntry| x.identity@ != identity@,
                        );
                    }
                }
                r
            },
        }
    }

    /// The eviction routine: removes every queued entry whose group matches,
    /// or whose target peer matches, or whose target peer's connection is
    /// observed closed (the caller passes the peer ids it observed closed),
    /// or whose send time is set and expired — all four evaluated together
    /// per entry, so one failing peer's whole backlog is flushed at once.
    /// Each removed identity enters the dedupe cache; the caller wakes each
    /// removed request's listeners with the returned outcome.
    pub fn clean_queue(
        &mut self,
        peer: Option<u64>,
        group: Option<u64>,
        closed_peers: &Vec<u64>,
        now: u64,
    ) -> (evicted: Vec<Evicted>)
        requires
            wf(old(self)@),
        ensures
            wf(final(self)@),
            final(self)@ == spec_clean_queue(old(self)@, peer, group, closed_peers@, now).0,
            evicted@.map_values(|e: Evicted| e.request)
                == spec_clean_queue(old(self)@, peer, group, closed_peers@, now).1,
            forall|i: int|
                0 <= i < evicted@.len()
                    ==> #[trigger] evicted@[i].outcome
                        == spec_outcome(evicted@[i].request, old(self)@.timeout, now),
    {
        let timeout = self.timeout;
        let ghost v0 = self@;
        let ghost keep_pred = |r: Request| !evict_cond(r, peer, group, closed_peers@, v0.timeout, now);
        let ghost gone_pred = |r: Request| evict_cond(r, peer, group, closed_peers@, v0.timeout, now);
        let gone = self.queue.extract_matching(peer, group, closed_peers, timeout, now);
        proof {
            crate::queue::lemma_filter_unique(v0.queue, keep_pred);
            crate::queue::lemma_filter_members(v0.queue, keep_pred);
            assert forall|k: int|
                0 <= k < self@.queue.len() && self@.queue[k].sent_at is None
                    implies self@.channel.contains(#[trigger] self@.queue[k].identity@) by {
                assert(v0.queue.contains(self@.queue[k]));
                let j = choose|j: int| 0 <= j < v0.queue.len() && v0.queue[j] == self@.queue[k];
                assert(v0.channel.contains(v0.queue[j].identity@));
            }
        }
        let ghost vq = self@;
        let mut evicted: Vec<Evicted> = Vec::new();
        let mut i: usize = 0;
        proof {
            assert(gone@.subrange(0, 0) =~= Seq::<Request>::empty());
            assert(evicted@.map_values(|e: Evicted| e.request) =~= Seq::<Request>::empty());
        }
        while i < gone.len()
            invariant
                i <= gone@.len(),
                self@.queue == vq.queue,
                self@.channel == vq.channel,
                self@.next_group == vq.next_group,
                self@.capacity == vq.capacity,
                self@.timeout == vq.timeout,
                self@.closed == vq.closed,
                self@.cache == spec_cache_insert_all(v0.cache, gone@.subrange(0, i as int), now),
                evicted@.map_values(|e: Evicted| e.request) == gone@.subrange(0, i as int),
                forall|k: int|
                    0 <= k < evicted@.len()
                        ==> #[trigger] evicted@[k].outcome
                            == spec_outcome(evicted@[k].request, v0.timeout, now),
            decreases gone@.len() - i,
        {
            let r = gone[i];
            self.cache.insert(r.identity, now);
            let expired = match r.sent_at {
                Some(t) => t <= now && now - t > timeout,
                None => false,
            };
            let outcome = if expired {
                ListenerOutcome::Timeout
            } else {
                ListenerOutcome::Canceled
            };
            evicted.push(Evicted { request: r, outcome });
            proof {
                assert(gone@.subrange(0, i + 1).drop_last() =~= gone@.subrange(0, i as int));
                assert(gone@.subrange(0, i + 1).last() == gone@[i as int]);
                assert(evicted@.map_values(|e: Evicted| e.request)
                    =~= gone@.subrange(0, i as int).push(gone@[i as int]));
                assert(gone@.subrange(0, i + 1)
                    =~= gone@.subrange(0, i as int).push(gone@[i as int]));
            }
            i += 1;
        }
        proof {
            assert(gone@.subrange(0, gone@.len() as int) =~= gone@);
        }
        evicted
    }

    /// Evicts every queued request tagged with the given group, independent
    /// of send state (together with the rest of the eviction condition),
    /// moving each into the dedupe cache; listeners are woken with the
    /// returned outcomes.
    pub fn mark_group_as_fail(
        &mut self,
        group_id: u64,
        closed_peers: &Vec<u64>,
        now: u64,
    ) -> (evicted: Vec<Evicted>)
        requires
            wf(old(self)@),
        ensures
            wf(final(self)@),
            final(self)@ == spec_clean_queue(old(self)@, None, Some(group_id), closed_peers@, now).0,
            evicted@.map_values(|e: Evicted| e.request)
                == spec_clean_queue(old(self)@, None, Some(group_id), closed_peers@, now).1,
            forall|i: int|
                0 <= i < evicted@.len()
                    ==> #[trigger] evicted@[i].outcome
                        == spec_outcome(evicted@[i].request, old(self)@.timeout, now),
    {
        self.clean_queue(None, Some(group_id), closed_peers, now)
    }

    /// One tick of the timeout sweep: scans from the queue's head. If the
    /// oldest entry is not yet sent, or sent but not yet expired, nothing
    /// after it can safely be judged timed out (dispatch and timeout both
    /// occur in queue order) and nothing changes. If it is sent and expired,
    /// the eviction routine runs for its peer and group, which also flushes
    /// every other expired, closed-peer or same-group entry.
    pub fn sweep_timed_out(&mut self, closed_peers: &Vec<u64>, now: u64) -> (evicted: Vec<Evicted>)
        requires
            wf(old(self)@),
        ensures
            wf(final(self)@),
            final(self)@ == spec_sweep(old(self)@, closed_peers@, now).0,
            evicted@.map_values(|e: Evicted| e.request)
                == spec_sweep(old(self)@, closed_peers@, now).1,
            forall|i: int|
                0 <= i < evicted@.len()
                    ==> #[trigger] evicted@[i].outcome
                        == spec_outcome(evicted@[i].request, old(self)@.timeout, now),
    {
        let timeout = self.timeout;
        let trigger: Option<(u64, Option<u64>)> = match self.queue.head() {
            Some(req) => match req.sent_at {
                Some(t) => if t <= now && now - t > timeout {
                    Some((req.peer, req.group))
                } else {
                    None
                },
                None => None,
            },
            None => None,
        };
        match trigger {
            Some((peer, group)) => self.clean_queue(Some(peer), group, closed_peers, now),
            None => {
                let evicted: Vec<Evicted> = Vec::new();
                proof {
                    assert(evicted@.map_values(|e: Evicted| e.request)
                        =~= Seq::<Request>::empty());
                }
                evicted
            },
        }
    }

    /// One tick of the cache sweep: drops dedupe entries older than the
    /// retention window (the response timeout).
    pub fn clean_cache(&mut self, now: u64)
        requires
            wf(old(self)@),
        ensures
            wf(final(self)@),
            final(self)@ == spec_clean_cache(old(self)@, now),
    {
        let timeout = self.timeout;
        self.cache.clean(timeout, now);
    }

    /// Shuts the tracker down: later fetch calls fail with `ChannelClosed`,
    /// the channel is cleared, and the queue is drained; every still-queued
    /// request is returned so its listeners can be woken with `Canceled`.
    pub fn shutdown(&mut self) -> (evicted: Vec<Evicted>)
        requires
            wf(old(self)@),
        ensures
            wf(final(self)@),
            final(self)@ == spec_shutdown(old(self)@).0,
            evicted@.map_values(|e: Evicted| e.request) == spec_shutdown(old(self)@).1,
            forall|i: int|
                0 <= i < evicted@.len()
                    ==> #[trigger] evicted@[i].outcome == ListenerOutcome::Canceled,
    {
        self.closed = true;
        self.channel = Vec::new();
        let gone = self.queue.drain_all();
        let ghost vq = self@;
        let mut evicted: Vec<Evicted> = Vec::new();
        let mut i: usize = 0;
        proof {
            assert(self@.channel =~= Seq::<Seq<u8>>::empty());
            assert(evicted@.map_values(|e: Evicted| e.request) =~= gone@.subrange(0, 0));
        }
        while i < gone.len()
            invariant
                i <= gone@.len(),
                self@ == vq,
                evicted@.map_values(|e: Evicted| e.request) == gone@.subrange(0, i as int),
                forall|k: int|
                    0 <= k < evicted@.len()
                        ==> #[trigger] evicted@[k].outcome == ListenerOutcome::Canceled,
            decreases gone@.len() - i,
        {
            let r = gone[i];
            evicted.push(Evicted { request: r, outcome: ListenerOutcome::Canceled });
            proof {
                assert(evicted@.map_values(|e: Evicted| e.request)
                    =~= gone@.subrange(0, i as int).push(gone@[i as int]));
                assert(gone@.subrange(0, i + 1)
                    =~= gone@.subrange(0, i as int).push(gone@[i as int]));
            }
            i += 1;
        }
        proof {
            assert(gone@.subrange(0, gone@.len() as int) =~= gone@);
        }
        evicted
    }
}

} // verus!
