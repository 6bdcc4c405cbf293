//! The ordered request queue: an insertion-ordered key -> request map with
//! head access, keyed lookup and removal, and bulk extraction of every entry
//! matching the eviction condition, preserving the order of what remains.
use vstd::prelude::*;



verus! {

/// One in-flight fetch record: the identity being fetched, the peer asked,
/// an optional caller-defined group tag, and the send timestamp, unset until
/// the request is dispatched and then set exactly once.
#[derive(Clone, Copy, Debug)]
pub struct Request {
    pub identity: crate::hash::Hash,
    pub peer: u64,
    pub group: Option<u64>,
    pub sent_at: Option<u64>,
}

impl Request {
    /// A fresh record for a fetch of `identity` from `peer`, not yet sent.
    pub fn new(identity: crate::hash::Hash, peer: u64, group: Option<u64>) -> (r: Request)
        ensures
            r == (Request { identity, peer, group, sent_at: None }),
    {
        Request { identity, peer, group, sent_at: None }
    }
}

/// Whether a queue holds an entry for the given identity.
pub open spec fn queue_contains(q: Seq<Request>, id: Seq<u8>) -> bool {
    exists|i: int| 0 <= i < q.len() && q[i].identity@ == id
}

/// The index of the entry for the given identity (meaningful when the queue
/// holds one and identities are unique).
pub open spec fn queue_index_of(q: Seq<Request>, id: Seq<u8>) -> int {
    choose|i: int| 0 <= i < q.len() && q[i].identity@ == id
}

/// At most one entry per identity: the tracker's central invariant.
pub open spec fn unique_identities(q: Seq<Request>) -> bool {
    forall|i: int, j: int|
        0 <= i < j < q.len() ==> q[i].identity@ != q[j].identity@
}

/// The eviction condition of the sweep routine. An entry is evicted when its
/// group matches the failed group, or its peer matches the failed peer, or
/// its peer's connection is observed closed, or it was sent and its age
/// exceeds the timeout. All four are evaluated together per entry.
pub open spec fn evict_cond(
    r: Request,
    peer: Option<u64>,
    group: Option<u64>,
    closed_peers: Seq<u64>,
    timeout: u64,
    now: u64,
) -> bool {
    ||| (group matches Some(g) && r.group matches Some(rg) && g == rg)
    ||| (peer matches Some(p) && r.peer == p)
    ||| closed_peers.contains(r.peer)
    ||| (r.sent_at matches Some(t) && now > t + timeout)
}

/// Every element of a filtered sequence is an element of the original.
pub proof fn lemma_filter_members<A>(q: Seq<A>, pred: spec_fn(A) -> bool)
    ensures
        forall|k: int|
            0 <= k < q.filter(pred).len() ==> q.contains(#[trigger] q.filter(pred)[k]),
    decreases q.len(),
{
    reveal(Seq::filter);
    if q.len() > 0 {
        let rest = q.drop_last();
        lemma_filter_members(rest, pred);
        assert forall|k: int|
            0 <= k < q.filter(pred).len() implies q.contains(#[trigger] q.filter(pred)[k]) by {
            if pred(q.last()) && k == q.filter(pred).len() - 1 {
                assert(q.filter(pred)[k] == q.last());
                assert(q[q.len() - 1] == q.last());
            } else {
                assert(q.filter(pred)[k] == rest.filter(pred)[k]);
                assert(rest.contains(rest.filter(pred)[k]));
                let j = choose|j: int| 0 <= j < rest.len() && rest[j] == rest.filter(pred)[k];
                assert(q[j] == rest.filter(pred)[k]);
            }
        }
    }
}

/// Two pointwise-equivalent predicates filter a sequence identically.
pub proof fn lemma_filter_equiv<A>(s: Seq<A>, p: spec_fn(A) -> bool, q: spec_fn(A) -> bool)
    requires
        forall|i: int| 0 <= i < s.len() ==> (p(#[trigger] s[i]) <==> q(s[i])),
    ensures
        s.filter(p) == s.filter(q),
    decreases s.len(),
{
    reveal(Seq::filter);
    if s.len() > 0 {
        let rest = s.drop_last();
        assert(forall|i: int| 0 <= i < rest.len() ==> (p(#[trigger] rest[i]) <==> q(rest[i])))
            by {
            assert(forall|i: int|
                0 <= i < rest.len() ==> #[trigger] rest[i] == s[i]);
        }
        lemma_filter_equiv(rest, p, q);
        assert(p(s.last()) <==> q(s.last())) by {
            assert(s[s.len() - 1] == s.last());
        }
    }
}

/// A predicate and its pointwise negation split a sequence in two: nothing
/// is lost and nothing is counted twice.
pub proof fn lemma_filter_partition<A>(s: Seq<A>, p: spec_fn(A) -> bool, q: spec_fn(A) -> bool)
    requires
        forall|i: int| 0 <= i < s.len() ==> (q(#[trigger] s[i]) <==> !p(s[i])),
    ensures
        s.filter(p).len() + s.filter(q).len() == s.len(),
    decreases s.len(),
{
    reveal(Seq::filter);
    if s.len() > 0 {
        let rest = s.drop_last();
        assert(forall|i: int| 0 <= i < rest.len() ==> (q(#[trigger] rest[i]) <==> !p(rest[i])))
            by {
            assert(forall|i: int|
                0 <= i < rest.len() ==> #[trigger] rest[i] == s[i]);
        }
        lemma_filter_partition(rest, p, q);
        assert(q(s.last()) <==> !p(s.last())) by {
            assert(s[s.len() - 1] == s.last());
        }
    }
}

/// Filtering preserves the uniqueness of identities.
pub proof fn lemma_filter_unique(q: Seq<Request>, pred: spec_fn(Request) -> bool)
    requires
        unique_identities(q),
    ensures
        unique_identities(q.filter(pred)),
    decreases q.len(),
{
    reveal(Seq::filter);
    if q.len() > 0 {
        let rest = q.drop_last();
        assert(unique_identities(rest)) by {
            assert forall|i: int, j: int|
                0 <= i < j < rest.len() implies rest[i].identity@ != rest[j].identity@ by {
                assert(q[i].identity@ != q[j].identity@);
            }
        }
        lemma_filter_unique(rest, pred);
        lemma_filter_members(rest, pred);
        if pred(q.last()) {
            assert forall|a: int, b: int|
                0 <= a < b < q.filter(pred).len()
                    implies q.filter(pred)[a].identity@ != q.filter(pred)[b].identity@ by {
                if b == q.filter(pred).len() - 1 {
                    assert(q.filter(pred)[b] == q.last());
                    assert(q.filter(pred)[a] == rest.filter(pred)[a]);
                    assert(rest.contains(rest.filter(pred)[a]));
                    let j = choose|j: int|
                        0 <= j < rest.len() && rest[j] == rest.filter(pred)[a];
                    assert(q[j] == rest.filter(pred)[a]);
                    assert(q[j].identity@ != q[q.len() - 1].identity@);
                } else {
                    assert(q.filter(pred)[a] == rest.filter(pred)[a]);
                    assert(q.filter(pred)[b] == rest.filter(pred)[b]);
                }
            }
        }
    }
}

/// Insertion-ordered map from identity to `Request`.
pub struct RequestQueue {
    entries: Vec<Request>,
}

impl View for RequestQueue {
    type V = Seq<Request>;

    closed spec fn view(&self) -> Seq<Request> {
        self.entries@
    }
}

fn seq_u64_contains(v: &Vec<u64>, x: u64) -> (r: bool)
    ensures
        r == v@.contains(x),
{
    let mut i: usize = 0;
    while i < v.len()
        invariant
            i <= v@.len(),
            forall|k: int| 0 <= k < i ==> v@[k] != x,
        decreases v@.len() - i,
    {
        if v[i] == x {
            return true;
        }
        i += 1;
    }
    false
}

/// Evaluates the eviction condition on one entry.
fn matches_evict_cond(
    r: &Request,
    peer: Option<u64>,
    group: Option<u64>,
    closed_peers: &Vec<u64>,
    timeout: u64,
    now: u64,
) -> (res: bool)
    ensures
        res == evict_cond(*r, peer, group, closed_peers@, timeout, now),
{
    if let (Some(g), Some(rg)) = (group, r.group) {
        if g == rg {
            return true;
        }
    }
    if let Some(p) = peer {
        if r.peer == p {
            return true;
        }
    }
    if seq_u64_contains(closed_peers, r.peer) {
        return true;
    }
    if let Some(t) = r.sent_at {
        if t <= now && now - t > timeout {
            return true;
        }
    }
    false
}

impl RequestQueue {
    pub fn new() -> (r: RequestQueue)
        ensures
            r@ =~= Seq::<Request>::empty(),
    {
        RequestQueue { entries: Vec::new() }
    }

    pub fn len(&self) -> (r: usize)
        ensures
            r == self@.len(),
    {
        self.entries.len()
    }

    /// O(n) keyed lookup by identity.
    pub fn contains(&self, id: &crate::hash::Hash) -> (r: bool)
        ensures
            r == queue_contains(self@, id@),
    {
        let mut i: usize = 0;
        while i < self.entries.len()
            invariant
                i <= self@.len(),
                forall|k: int| 0 <= k < i ==> self@[k].identity@ != id@,
            decreases self@.len() - i,
        {
            if self.entries[i].identity == *id {
                return true;
            }
            i += 1;
        }
        false
    }

    /// Keyed lookup without removal.
    pub fn get(&self, id: &crate::hash::Hash) -> (r: Option<&Request>)
        requires
            unique_identities(self@),
        ensures
            r is Some <==> queue_contains(self@, id@),
            r matches Some(req) ==> *req == self@[queue_index_of(self@, id@)]
                && req.identity@ == id@,
    {
        let mut i: usize = 0;
        while i < self.entries.len()
            invariant
                unique_identities(self@),
                i <= self@.len(),
                forall|k: int| 0 <= k < i ==> self@[k].identity@ != id@,
            decreases self@.len() - i,
        {
            if self.entries[i].identity == *id {
                proof {
                    assert(self@[i as int].identity@ == id@);
                    assert(queue_index_of(self@, id@) == i as int) by {
                        let j = queue_index_of(self@, id@);
                        assert(0 <= j < self@.len() && self@[j].identity@ == id@);
                        if j < i {
                            assert(self@[j].identity@ != id@);
                        }
                        if j > i {
                            assert(self@[i as int].identity@ != self@[j].identity@);
                        }
                    }
                }
                return Some(&self.entries[i]);
            }
            i += 1;
        }
        None
    }

    /// A view of the oldest entry, used by the sweep's stopping test.
    pub fn head(&self) -> (r: Option<&Request>)
        ensures
            r is Some <==> self@.len() > 0,
            r matches Some(req) ==> *req == self@[0],
    {
        if self.entries.len() > 0 {
            Some(&self.entries[0])
        } else {
            None
        }
    }

    /// Appends an entry; the caller must have checked that the key is new.
    pub fn push(&mut self, req: Request)
        requires
            !queue_contains(old(self)@, req.identity@),
        ensures
            final(self)@ == old(self)@.push(req),
    {
        self.entries.push(req);
    }

    /// Deletes and returns the entry for the identity, preserving the order
    /// of the remaining entries.
    pub fn remove(&mut self, id: &crate::hash::Hash) -> (r: Option<Request>)
        requires
            unique_identities(old(self)@),
        ensures
            r is Some <==> queue_contains(old(self)@, id@),
            r matches Some(req) ==> {
                &&& req == old(self)@[queue_index_of(old(self)@, id@)]
                &&& req.identity@ == id@
                &&& final(self)@ == old(self)@.remove(queue_index_of(old(self)@, id@))
            },
            r is None ==> final(self)@ == old(self)@,
    {
        let ghost q0 = self@;
        let mut i: usize = 0;
        while i < self.entries.len()
            invariant
                self@ == q0,
                unique_identities(q0),
                i <= q0.len(),
                forall|k: int| 0 <= k < i ==> q0[k].identity@ != id@,
            decreases q0.len() - i,
        {
            if self.entries[i].identity == *id {
                let req = self.entries.remove(i);
                proof {
                    assert(q0[i as int].identity@ == id@);
                    assert(queue_index_of(q0, id@) == i as int) by {
                        let j = queue_index_of(q0, id@);
                        assert(0 <= j < q0.len() && q0[j].identity@ == id@);
                        if j < i {
                            assert(q0[j].identity@ != id@);
                        }
                        if j > i {
                            assert(q0[i as int].identity@ != q0[j].identity@);
                        }
                    }
                }
                return Some(req);
            }
            i += 1;
        }
        None
    }

    /// Stamps the send time of the entry for the identity, which must not
    /// have been sent yet; returns whether an entry was found.
    pub fn mark_sent(&mut self, id: &crate::hash::Hash, now: u64) -> (found: bool)
        requires
            unique_identities(old(self)@),
            queue_contains(old(self)@, id@) ==>
                old(self)@[queue_index_of(old(self)@, id@)].sent_at is None,
        ensures
            found == queue_contains(old(self)@, id@),
            found ==> {
                let i = queue_index_of(old(self)@, id@);
                final(self)@ == old(self)@.update(i, Request {
                    sent_at: Some(now),
                    ..old(self)@[i]
                })
            },
            !found ==> final(self)@ == old(self)@,
    {
        let ghost q0 = self@;
        let mut i: usize = 0;
        while i < self.entries.len()
            invariant
                self@ == q0,
                unique_identities(q0),
                i <= q0.len(),
                forall|k: int| 0 <= k < i ==> q0[k].identity@ != id@,
            decreases q0.len() - i,
        {
            if self.entries[i].identity == *id {
                proof {
                    assert(q0[i as int].identity@ == id@);
                    assert(queue_index_of(q0, id@) == i as int) by {
                        let j = queue_index_of(q0, id@);
                        assert(0 <= j < q0.len() && q0[j].identity@ == id@);
                        if j < i {
                            assert(q0[j].identity@ != id@);
                        }
                        if j > i {
                            assert(q0[i as int].identity@ != q0[j].identity@);
                        }
                    }
                }
                let old_req = self.entries[i];
                self.entries.set(i, Request { sent_at: Some(now), ..old_req });
                return true;
            }
            i += 1;
        }
        false
    }

    /// Removes and returns every entry, oldest first, leaving the queue
    /// empty; used when the tracker shuts down and the queue is drained.
    pub fn drain_all(&mut self) -> (r: Vec<Request>)
        ensures
            final(self)@ =~= Seq::<Request>::empty(),
            r@ == old(self)@,
    {
        let ghost q0 = self@;
        let mut out: Vec<Request> = Vec::new();
        proof {
            assert(out@ + self@ =~= q0);
        }
        while self.entries.len() > 0
            invariant
                out@ + self@ == q0,
            decreases self@.len(),
        {
            let e = self.entries.remove(0);
            out.push(e);
            proof {
                assert(out@ + self@ =~= q0);
            }
        }
        proof {
            assert(out@ =~= q0);
        }
        out
    }

    /// Removes, in original order, every entry matching the eviction
    /// condition and returns them; the remaining entries keep their order.
    /// This is the queue's bulk `extract_if`, specialized to the one
    /// predicate the tracker uses.
    pub fn extract_matching(
        &mut self,
        peer: Option<u64>,
        group: Option<u64>,
        closed_peers: &Vec<u64>,
        timeout: u64,
        now: u64,
    ) -> (gone: Vec<Request>)
        ensures
            final(self)@ == old(self)@.filter(
                |r: Request| !evict_cond(r, peer, group, closed_peers@, timeout, now)),
            gone@ == old(self)@.filter(
                |r: Request| evict_cond(r, peer, group, closed_peers@, timeout, now)),
    {
        broadcast use vstd::seq_lib::group_seq_properties;

        let ghost q0 = self@;
        let ghost keep_pred = |r: Request| !evict_cond(r, peer, group, closed_peers@, timeout, now);
        let ghost gone_pred = |r: Request| evict_cond(r, peer, group, closed_peers@, timeout, now);
        let mut kept: Vec<Request> = Vec::new();
        let mut gone: Vec<Request> = Vec::new();
        let mut i: usize = 0;
        proof {
            assert(q0.subrange(0, 0) =~= Seq::<Request>::empty());
            assert(Seq::<Request>::empty().filter(keep_pred) =~= Seq::<Request>::empty()) by {
                reveal(Seq::filter);
            }
            assert(Seq::<Request>::empty().filter(gone_pred) =~= Seq::<Request>::empty()) by {
                reveal(Seq::filter);
            }
        }
        while i < self.entries.len()
            invariant
                self@ == q0,
                i <= q0.len(),
                kept@ == q0.subrange(0, i as int).filter(keep_pred),
                gone@ == q0.subrange(0, i as int).filter(gone_pred),
            decreases q0.len() - i,
        {
            let r = self.entries[i];
            proof {
                assert(r == q0[i as int]);
                assert(q0.subrange(0, i + 1) =~=
                    q0.subrange(0, i as int).push(q0[i as int]));
                Seq::lemma_filter_push(q0.subrange(0, i as int), q0[i as int], keep_pred);
                Seq::lemma_filter_push(q0.subrange(0, i as int), q0[i as int], gone_pred);
            }
            if matches_evict_cond(&r, peer, group, closed_peers, timeout, now) {
                gone.push(r);
                proof {
                    assert(gone_pred(q0[i as int]));
                    assert(gone@ == q0.subrange(0, i + 1).filter(gone_pred));
                    assert(kept@ == q0.subrange(0, i + 1).filter(keep_pred));
                }
            } else {
                kept.push(r);
                proof {
                    assert(keep_pred(q0[i as int]));
                    assert(kept@ == q0.subrange(0, i + 1).filter(keep_pred));
                    assert(gone@ == q0.subrange(0, i + 1).filter(gone_pred));
                }
            }
            i += 1;
        }
        proof {
            assert(q0.subrange(0, q0.len() as int) =~= q0);
            assert(kept@ == q0.filter(keep_pred));
            assert(gone@ == q0.filter(gone_pred));
        }
        self.entries = kept;
        gone
    }
}

} // verus!
