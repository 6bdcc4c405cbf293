//! The guarantees of the object tracker, stated and proved over the spec
//! transitions of `tracker`: identity uniqueness, conservation of requests
//! through eviction, FIFO dispatch, late-response tolerance, group-local
//! cancellation and disconnected-peer flushing.
use vstd::prelude::*;

use crate::cache::CacheEntry;
use crate::cache::cache_contains;
use crate::cache::spec_cache_insert;
use crate::queue::Request;
use crate::queue::evict_cond;
use crate::queue::lemma_filter_equiv;
use crate::queue::lemma_filter_members;
use crate::queue::lemma_filter_partition;
use crate::queue::queue_contains;
use crate::tracker::RequestStatus;
use crate::tracker::TrackerView;
use crate::tracker::spec_cache_insert_all;
use crate::tracker::spec_clean_cache;
use crate::tracker::spec_clean_queue;
use crate::tracker::spec_dispatch_next;
use crate::tracker::spec_handle_response;
use crate::tracker::spec_request_object;
use crate::tracker::spec_sweep;
use crate::tracker::wf;

verus! {

/// At most one request exists per identity at any time: in a well-formed
/// tracker, two queue positions holding the same identity are the same
/// position.
pub proof fn lemma_at_most_one_request_per_identity(v: TrackerView, i: int, j: int)
    requires
        wf(v),
        0 <= i < v.queue.len(),
        0 <= j < v.queue.len(),
        v.queue[i].identity@ == v.queue[j].identity@,
    ensures
        i == j,
{
    if i < j {
        assert(v.queue[i].identity@ != v.queue[j].identity@);
    }
    if j < i {
        assert(v.queue[j].identity@ != v.queue[i].identity@);
    }
}

/// A duplicate fetch call attaches to the already-queued request and changes
/// nothing; in particular the dispatch channel is untouched, so concurrent
/// duplicate fetches never cause a second wire transmission.
pub proof fn lemma_duplicate_fetch_causes_no_transmission(
    v: TrackerView,
    identity: crate::hash::Hash,
    peer: u64,
    group: Option<u64>,
)
    requires
        wf(v),
        !v.closed,
        queue_contains(v.queue, identity@),
    ensures
        spec_request_object(v, identity, peer, group).0 == v,
        spec_request_object(v, identity, peer, group).1 == Ok::<RequestStatus, crate::tracker::TrackerError>(
            RequestStatus::Attached,
        ),
{
}

/// Inserting an identity into the dedupe cache never makes it forget
/// another identity it remembers.
proof fn lemma_cache_insert_preserves(c: Seq<CacheEntry>, e: CacheEntry, id: Seq<u8>)
    requires
        cache_contains(c, id),
    ensures
        cache_contains(spec_cache_insert(c, e), id),
{
    if id == e.identity@ {
        let out = spec_cache_insert(c, e);
        assert(out[out.len() - 1].identity@ == id);
    } else {
        let pred = |x: CacheEntry| x.identity@ != e.identity@;
        let i = choose|i: int| 0 <= i < c.len() && c[i].identity@ == id;
        c.lemma_filter_contains(pred, i);
        let k = choose|k: int| 0 <= k < c.filter(pred).len() && c.filter(pred)[k] == c[i];
        assert(spec_cache_insert(c, e)[k].identity@ == id);
    }
}

/// After the eviction routine's batch insert, the cache remembers the
/// identity of every evicted request.
proof fn lemma_cache_insert_all_contains(c: Seq<CacheEntry>, gone: Seq<Request>, now: u64, k: int)
    requires
        0 <= k < gone.len(),
    ensures
        cache_contains(spec_cache_insert_all(c, gone, now), gone[k].identity@),
    decreases gone.len(),
{
    let rest = gone.drop_last();
    let c1 = spec_cache_insert_all(c, rest, now);
    let e = CacheEntry { identity: gone.last().identity, inserted_at: now };
    if k == gone.len() - 1 {
        let out = spec_cache_insert(c1, e);
        assert(out[out.len() - 1].identity@ == gone[k].identity@);
    } else {
        lemma_cache_insert_all_contains(c, rest, now, k);
        assert(rest[k] == gone[k]);
        lemma_cache_insert_preserves(c1, e, gone[k].identity@);
    }
}

/// Every cache entry for an identity inserted by the eviction batch carries
/// the eviction time: the batch replaces whatever the cache held before.
proof fn lemma_cache_insert_all_stamps(c: Seq<CacheEntry>, gone: Seq<Request>, now: u64, id: Seq<u8>)
    requires
        exists|k: int| 0 <= k < gone.len() && gone[k].identity@ == id,
    ensures
        forall|j: int|
            0 <= j < spec_cache_insert_all(c, gone, now).len()
                && #[trigger] spec_cache_insert_all(c, gone, now)[j].identity@ == id
                ==> spec_cache_insert_all(c, gone, now)[j].inserted_at == now,
    decreases gone.len(),
{
    let rest = gone.drop_last();
    let c1 = spec_cache_insert_all(c, rest, now);
    let e = CacheEntry { identity: gone.last().identity, inserted_at: now };
    let pred = |x: CacheEntry| x.identity@ != e.identity@;
    let out = spec_cache_insert(c1, e);
    assert(out == c1.filter(pred).push(e));
    let k = choose|k: int| 0 <= k < gone.len() && gone[k].identity@ == id;
    if id == e.identity@ {
        assert forall|j: int|
            0 <= j < out.len() && #[trigger] out[j].identity@ == id
                implies out[j].inserted_at == now by {
            if j < out.len() - 1 {
                c1.lemma_filter_pred(pred, j);
                assert(false);
            }
        }
    } else {
        assert(k < gone.len() - 1);
        assert(rest[k] == gone[k]);
        lemma_cache_insert_all_stamps(c, rest, now, id);
        lemma_filter_members(c1, pred);
        assert forall|j: int|
            0 <= j < out.len() && #[trigger] out[j].identity@ == id
                implies out[j].inserted_at == now by {
            assert(j < out.len() - 1);
            assert(out[j] == c1.filter(pred)[j]);
            assert(c1.contains(c1.filter(pred)[j]));
            let m = choose|m: int| 0 <= m < c1.len() && c1[m] == out[j];
            assert(c1[m].identity@ == id);
        }
    }
}

/// Conservation through eviction: every queued request either stays or is
/// evicted — exactly one of the two — and every evicted identity is
/// remembered in the dedupe cache. Requests are never leaked and never
/// double-removed by a sweep.
pub proof fn lemma_eviction_partitions_queue(
    v: TrackerView,
    peer: Option<u64>,
    group: Option<u64>,
    closed_peers: Seq<u64>,
    now: u64,
)
    requires
        wf(v),
    ensures
        ({
            let (v2, gone) = spec_clean_queue(v, peer, group, closed_peers, now);
            &&& v2.queue.len() + gone.len() == v.queue.len()
            &&& forall|i: int|
                0 <= i < v.queue.len()
                    ==> (queue_contains(v2.queue, #[trigger] v.queue[i].identity@)
                        <==> !evict_cond(v.queue[i], peer, group, closed_peers, v.timeout, now))
            &&& forall|i: int|
                0 <= i < v.queue.len()
                    ==> (queue_contains(gone, #[trigger] v.queue[i].identity@)
                        <==> evict_cond(v.queue[i], peer, group, closed_peers, v.timeout, now))
            &&& forall|k: int|
                0 <= k < gone.len()
                    ==> cache_contains(v2.cache, #[trigger] gone[k].identity@)
        }),
{
    let gone_pred = |r: Request| evict_cond(r, peer, group, closed_peers, v.timeout, now);
    let keep_pred = |r: Request| !evict_cond(r, peer, group, closed_peers, v.timeout, now);
    let (v2, gone) = spec_clean_queue(v, peer, group, closed_peers, now);
    lemma_filter_partition(v.queue, gone_pred, keep_pred);
    lemma_filter_members(v.queue, keep_pred);
    lemma_filter_members(v.queue, gone_pred);
    assert forall|i: int| 0 <= i < v.queue.len() implies (queue_contains(
        v2.queue,
        #[trigger] v.queue[i].identity@,
    ) <==> !evict_cond(v.queue[i], peer, group, closed_peers, v.timeout, now)) by {
        let id = v.queue[i].identity@;
        if queue_contains(v2.queue, id) {
            let k = choose|k: int| 0 <= k < v2.queue.len() && v2.queue[k].identity@ == id;
            v.queue.lemma_filter_pred(keep_pred, k);
            assert(v.queue.contains(v2.queue[k]));
            let j = choose|j: int| 0 <= j < v.queue.len() && v.queue[j] == v2.queue[k];
            lemma_at_most_one_request_per_identity(v, i, j);
            assert(keep_pred(v.queue[i]));
        }
        if keep_pred(v.queue[i]) {
            v.queue.lemma_filter_contains(keep_pred, i);
            let k = choose|k: int|
                0 <= k < v2.queue.len() && v2.queue[k] == v.queue[i];
            assert(v2.queue[k].identity@ == id);
        }
    }
    assert forall|i: int| 0 <= i < v.queue.len() implies (queue_contains(
        gone,
        #[trigger] v.queue[i].identity@,
    ) <==> evict_cond(v.queue[i], peer, group, closed_peers, v.timeout, now)) by {
        let id = v.queue[i].identity@;
        if queue_contains(gone, id) {
            let k = choose|k: int| 0 <= k < gone.len() && gone[k].identity@ == id;
            v.queue.lemma_filter_pred(gone_pred, k);
            assert(v.queue.contains(gone[k]));
            let j = choose|j: int| 0 <= j < v.queue.len() && v.queue[j] == gone[k];
            lemma_at_most_one_request_per_identity(v, i, j);
            assert(gone_pred(v.queue[i]));
        }
        if gone_pred(v.queue[i]) {
            v.queue.lemma_filter_contains(gone_pred, i);
            let k = choose|k: int| 0 <= k < gone.len() && gone[k] == v.queue[i];
            assert(gone[k].identity@ == id);
        }
    }
    assert forall|k: int| 0 <= k < gone.len() implies cache_contains(
        v2.cache,
        #[trigger] gone[k].identity@,
    ) by {
        lemma_cache_insert_all_contains(v.cache, gone, now, k);
    }
}

/// FIFO acceptance: accepting two fresh requests in order puts their
/// identities on the dispatch channel in that order, the first strictly
/// before the second.
pub proof fn lemma_fifo_acceptance_order(
    v: TrackerView,
    id1: crate::hash::Hash,
    peer1: u64,
    group1: Option<u64>,
    id2: crate::hash::Hash,
    peer2: u64,
    group2: Option<u64>,
)
    requires
        wf(v),
        spec_request_object(v, id1, peer1, group1).1 == Ok::<RequestStatus, crate::tracker::TrackerError>(
            RequestStatus::Queued,
        ),
        spec_request_object(
            spec_request_object(v, id1, peer1, group1).0,
            id2,
            peer2,
            group2,
        ).1 == Ok::<RequestStatus, crate::tracker::TrackerError>(RequestStatus::Queued),
    ensures
        ({
            let v1 = spec_request_object(v, id1, peer1, group1).0;
            let v2 = spec_request_object(v1, id2, peer2, group2).0;
            v2.channel =~= v.channel + seq![id1@, id2@]
        }),
{
    let v1 = spec_request_object(v, id1, peer1, group1).0;
    let v2 = spec_request_object(v1, id2, peer2, group2).0;
    assert(v1.channel == v.channel.push(id1@));
    assert(v2.channel == v.channel.push(id1@).push(id2@));
}

/// FIFO dispatch: one step of the requester loop consumes exactly the head
/// of the dispatch channel, so identities reach the wire in acceptance
/// order.
pub proof fn lemma_dispatch_consumes_head(v: TrackerView, now: u64)
    requires
        wf(v),
        v.channel.len() > 0,
    ensures
        spec_dispatch_next(v, now).channel == v.channel.drop_first(),
{
}

/// Late-response tolerance. A request evicted at time `t0` leaves its
/// identity in the dedupe cache: a response arriving before any cache sweep
/// past the retention window is absorbed silently (true), and once a cache
/// sweep runs at or after `t0 + timeout` the same response is reported
/// unsolicited (false).
pub proof fn lemma_late_response_tolerance(
    v: TrackerView,
    peer: Option<u64>,
    group: Option<u64>,
    closed_peers: Seq<u64>,
    t0: u64,
    t1: u64,
    i: int,
)
    requires
        wf(v),
        0 <= i < v.queue.len(),
        evict_cond(v.queue[i], peer, group, closed_peers, v.timeout, t0),
    ensures
        ({
            let v2 = spec_clean_queue(v, peer, group, closed_peers, t0).0;
            &&& spec_handle_response(v2, v.queue[i].identity@).1 == true
            &&& t1 >= t0 + v.timeout ==> spec_handle_response(
                spec_clean_cache(v2, t1),
                v.queue[i].identity@,
            ).1 == false
        }),
{
    let id = v.queue[i].identity@;
    let (v2, gone) = spec_clean_queue(v, peer, group, closed_peers, t0);
    lemma_eviction_partitions_queue(v, peer, group, closed_peers, t0);
    assert(queue_contains(gone, id));
    let k = choose|k: int| 0 <= k < gone.len() && gone[k].identity@ == id;
    assert(cache_contains(v2.cache, id));
    assert(!queue_contains(v2.queue, id));
    assert(spec_handle_response(v2, id).1 == true);
    if t1 >= t0 + v.timeout {
        lemma_cache_insert_all_stamps(v.cache, gone, t0, id);
        let v3 = spec_clean_cache(v2, t1);
        let fresh_pred = |x: CacheEntry| t1 < x.inserted_at + v2.timeout;
        assert(!cache_contains(v3.cache, id)) by {
            if cache_contains(v3.cache, id) {
                let m = choose|m: int| 0 <= m < v3.cache.len() && v3.cache[m].identity@ == id;
                v2.cache.lemma_filter_pred(fresh_pred, m);
                lemma_filter_members(v2.cache, fresh_pred);
                assert(v2.cache.contains(v3.cache[m]));
                let n = choose|n: int| 0 <= n < v2.cache.len() && v2.cache[n] == v3.cache[m];
                assert(v2.cache[n].inserted_at == t0);
                assert(false);
            }
        }
        assert(!queue_contains(v3.queue, id));
        assert(spec_handle_response(v3, id).1 == false);
    }
}

/// Group cancellation touches only requests tagged with that group: with no
/// peer observed closed and no entry past its timeout, canceling group `g`
/// evicts exactly the entries tagged `g` and keeps all others, in order.
pub proof fn lemma_group_cancel_touches_only_group(
    v: TrackerView,
    g: u64,
    closed_peers: Seq<u64>,
    now: u64,
)
    requires
        wf(v),
        closed_peers.len() == 0,
        forall|i: int|
            0 <= i < v.queue.len()
                ==> !(#[trigger] v.queue[i].sent_at matches Some(t) && now > t + v.timeout),
    ensures
        ({
            let (v2, gone) = spec_clean_queue(v, None, Some(g), closed_peers, now);
            &&& gone == v.queue.filter(|r: Request| r.group == Some(g))
            &&& v2.queue == v.queue.filter(|r: Request| r.group != Some(g))
        }),
{
    let gone_pred = |r: Request| evict_cond(r, None, Some(g), closed_peers, v.timeout, now);
    let keep_pred = |r: Request| !evict_cond(r, None, Some(g), closed_peers, v.timeout, now);
    assert forall|i: int| 0 <= i < v.queue.len() implies (gone_pred(#[trigger] v.queue[i])
        <==> v.queue[i].group == Some(g)) by {
        assert(!closed_peers.contains(v.queue[i].peer));
    }
    lemma_filter_equiv(v.queue, gone_pred, |r: Request| r.group == Some(g));
    lemma_filter_equiv(v.queue, keep_pred, |r: Request| r.group != Some(g));
}

/// A disconnected peer's backlog is flushed whole by the eviction routine,
/// independent of each entry's own timeout state: once the routine runs
/// with that peer observed closed, no entry of that peer survives.
pub proof fn lemma_disconnected_peer_fully_evicted(
    v: TrackerView,
    peer: Option<u64>,
    group: Option<u64>,
    closed_peers: Seq<u64>,
    now: u64,
    p: u64,
)
    requires
        wf(v),
        closed_peers.contains(p),
    ensures
        ({
            let v2 = spec_clean_queue(v, peer, group, closed_peers, now).0;
            forall|i: int| 0 <= i < v2.queue.len() ==> (#[trigger] v2.queue[i]).peer != p
        }),
{
    let keep_pred = |r: Request| !evict_cond(r, peer, group, closed_peers, v.timeout, now);
    let v2 = spec_clean_queue(v, peer, group, closed_peers, now).0;
    assert forall|i: int| 0 <= i < v2.queue.len() implies (#[trigger] v2.queue[i]).peer != p by {
        v.queue.lemma_filter_pred(keep_pred, i);
    }
}

/// Once a sweep actually evicts (its head is sent and expired), no
/// sent-and-expired entry survives anywhere in the queue: one pass settles
/// every timeout due at that tick, which keeps sweeps O(1) amortized.
pub proof fn lemma_sweep_leaves_no_expired(v: TrackerView, closed_peers: Seq<u64>, now: u64)
    requires
        wf(v),
        v.queue.len() > 0,
        v.queue[0].sent_at matches Some(t) && now > t + v.timeout,
    ensures
        ({
            let v2 = spec_sweep(v, closed_peers, now).0;
            forall|i: int|
                0 <= i < v2.queue.len()
                    ==> !(#[trigger] v2.queue[i].sent_at matches Some(t) && now > t + v.timeout)
        }),
{
    let peer = Some(v.queue[0].peer);
    let group = v.queue[0].group;
    let keep_pred = |r: Request| !evict_cond(r, peer, group, closed_peers, v.timeout, now);
    let v2 = spec_sweep(v, closed_peers, now).0;
    assert forall|i: int|
        0 <= i < v2.queue.len()
            implies !(#[trigger] v2.queue[i].sent_at matches Some(t) && now > t + v.timeout) by {
        v.queue.lemma_filter_pred(keep_pred, i);
    }
}

/// The sweep flushes a disconnected peer's queued requests on the tick
/// whose head entry is sent and expired, whatever the timeout state of the
/// peer's own entries.
pub proof fn lemma_sweep_evicts_disconnected(
    v: TrackerView,
    closed_peers: Seq<u64>,
    now: u64,
    p: u64,
)
    requires
        wf(v),
        closed_peers.contains(p),
        v.queue.len() > 0,
        v.queue[0].sent_at matches Some(t) && now > t + v.timeout,
    ensures
        ({
            let v2 = spec_sweep(v, closed_peers, now).0;
            forall|i: int| 0 <= i < v2.queue.len() ==> (#[trigger] v2.queue[i]).peer != p
        }),
{
    lemma_disconnected_peer_fully_evicted(
        v,
        Some(v.queue[0].peer),
        v.queue[0].group,
        closed_peers,
        now,
        p,
    );
}

} // verus!
