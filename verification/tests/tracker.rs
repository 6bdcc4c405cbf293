use dapa::cache::ExpirableCache;
use dapa::tracker::DispatchAction;
use dapa::tracker::ListenerOutcome;
use dapa::tracker::ObjectTracker;
use dapa::tracker::RequestStatus;
use dapa::tracker::TrackerError;

const TIMEOUT: u64 = 15_000;

fn h(last: u8) -> dapa::hash::Hash {
    let mut bytes = [0u8; 32];
    bytes[31] = last;
    dapa::hash::Hash::new(bytes)
}

#[test]
fn duplicate_fetch_attaches_and_transmits_once() {
    let mut t = ObjectTracker::new(8, TIMEOUT);
    let aa = h(0xAA);
    assert_eq!(
        t.request_object_from_peer_with_or_get_notified(aa, 1, None),
        Ok(RequestStatus::Queued)
    );
    assert_eq!(
        t.request_object_from_peer_with_or_get_notified(aa, 2, None),
        Ok(RequestStatus::Attached)
    );
    assert_eq!(t.queue_len(), 1);
    match t.dispatch_next(0) {
        DispatchAction::Transmit { identity, peer, group } => {
            assert_eq!(identity, aa);
            assert_eq!(peer, 1);
            assert_eq!(group, None);
        },
        _ => panic!("expected a transmission"),
    }
    // the channel is empty again: exactly one transmission happened
    assert!(matches!(t.dispatch_next(0), DispatchAction::Idle));
}

#[test]
fn group_cancel_before_dispatch_is_skipped_by_the_requester() {
    let mut t = ObjectTracker::new(8, TIMEOUT);
    let bb = h(0xBB);
    assert_eq!(
        t.request_object_from_peer_with_or_get_notified(bb, 1, Some(7)),
        Ok(RequestStatus::Queued)
    );
    let evicted = t.mark_group_as_fail(7, &Vec::new(), 0);
    assert_eq!(evicted.len(), 1);
    assert_eq!(evicted[0].request.identity, bb);
    assert_eq!(evicted[0].outcome, ListenerOutcome::Canceled);
    assert_eq!(t.queue_len(), 0);
    // the requester loop finds the request already evicted and sends nothing
    match t.dispatch_next(0) {
        DispatchAction::Skip { identity } => assert_eq!(identity, bb),
        _ => panic!("expected the dispatch to be skipped"),
    }
}

#[test]
fn timeout_evicts_then_late_response_is_absorbed() {
    let mut t = ObjectTracker::new(8, TIMEOUT);
    let cc = h(0xCC);
    assert_eq!(
        t.request_object_from_peer_with_or_get_notified(cc, 1, None),
        Ok(RequestStatus::Queued)
    );
    assert!(matches!(t.dispatch_next(0), DispatchAction::Transmit { .. }));
    // nothing to evict before the timeout passes
    assert_eq!(t.sweep_timed_out(&Vec::new(), 10_000).len(), 0);
    // past the timeout the sweep evicts it with a Timeout outcome
    let evicted = t.sweep_timed_out(&Vec::new(), 16_000);
    assert_eq!(evicted.len(), 1);
    assert_eq!(evicted[0].request.identity, cc);
    assert_eq!(evicted[0].outcome, ListenerOutcome::Timeout);
    assert_eq!(t.queue_len(), 0);
    assert_eq!(t.cache_len(), 1);
    // a straggler response within the retention window is absorbed silently
    assert!(t.handle_object_response(&cc));
    // and the cache entry is consumed by it
    assert!(!t.handle_object_response(&cc));
}

#[test]
fn cache_entry_expires_after_the_retention_window() {
    let mut t = ObjectTracker::new(8, TIMEOUT);
    let cc = h(0xCC);
    t.request_object_from_peer_with_or_get_notified(cc, 1, None).unwrap();
    t.dispatch_next(0);
    let evicted = t.sweep_timed_out(&Vec::new(), 16_000);
    assert_eq!(evicted.len(), 1);
    // before the retention window ends the entry survives a cache sweep
    t.clean_cache(30_000);
    assert_eq!(t.cache_len(), 1);
    // at the end of the window it is dropped, and the response is unsolicited
    t.clean_cache(31_000);
    assert_eq!(t.cache_len(), 0);
    assert!(!t.handle_object_response(&cc));
}

#[test]
fn every_request_leaves_by_exactly_one_event() {
    let mut t = ObjectTracker::new(8, TIMEOUT);
    let n: u8 = 5;
    for i in 0..n {
        assert_eq!(
            t.request_object_from_peer_with_or_get_notified(h(i), 1, None),
            Ok(RequestStatus::Queued)
        );
    }
    for _ in 0..n {
        assert!(matches!(t.dispatch_next(0), DispatchAction::Transmit { .. }));
    }
    assert_eq!(t.queue_len(), n as usize);
    // advance past the timeout with no responses: the sweep evicts them all
    let evicted = t.sweep_timed_out(&Vec::new(), 20_000);
    assert_eq!(evicted.len(), n as usize);
    assert!(evicted.iter().all(|e| e.outcome == ListenerOutcome::Timeout));
    assert_eq!(t.queue_len(), 0);
    assert_eq!(t.cache_len(), n as usize);
    // after the retention window the cache empties too: no permanent leaks
    t.clean_cache(20_000 + TIMEOUT + 1);
    assert_eq!(t.cache_len(), 0);
}

#[test]
fn dispatch_is_fifo() {
    let mut t = ObjectTracker::new(8, TIMEOUT);
    let h1 = h(1);
    let h2 = h(2);
    t.request_object_from_peer_with_or_get_notified(h1, 1, None).unwrap();
    t.request_object_from_peer_with_or_get_notified(h2, 2, None).unwrap();
    match t.dispatch_next(0) {
        DispatchAction::Transmit { identity, .. } => assert_eq!(identity, h1),
        _ => panic!("expected the first request to transmit first"),
    }
    match t.dispatch_next(1) {
        DispatchAction::Transmit { identity, .. } => assert_eq!(identity, h2),
        _ => panic!("expected the second request to transmit second"),
    }
}

#[test]
fn group_cancel_touches_only_that_group() {
    let mut t = ObjectTracker::new(8, TIMEOUT);
    t.request_object_from_peer_with_or_get_notified(h(1), 1, Some(7)).unwrap();
    t.request_object_from_peer_with_or_get_notified(h(2), 1, Some(8)).unwrap();
    t.request_object_from_peer_with_or_get_notified(h(3), 1, None).unwrap();
    let evicted = t.mark_group_as_fail(7, &Vec::new(), 0);
    assert_eq!(evicted.len(), 1);
    assert_eq!(evicted[0].request.identity, h(1));
    assert_eq!(t.queue_len(), 2);
}

#[test]
fn disconnected_peer_is_flushed_whatever_its_timeout_state() {
    let mut t = ObjectTracker::new(8, TIMEOUT);
    // the head request was sent and expires; the disconnected peer's request
    // was never sent at all
    t.request_object_from_peer_with_or_get_notified(h(1), 1, None).unwrap();
    t.request_object_from_peer_with_or_get_notified(h(2), 2, None).unwrap();
    match t.dispatch_next(0) {
        DispatchAction::Transmit { identity, .. } => assert_eq!(identity, h(1)),
        _ => panic!("expected a transmission"),
    }
    let closed = vec![2u64];
    let evicted = t.sweep_timed_out(&closed, 16_000);
    assert_eq!(evicted.len(), 2);
    assert_eq!(evicted[0].request.identity, h(1));
    assert_eq!(evicted[0].outcome, ListenerOutcome::Timeout);
    assert_eq!(evicted[1].request.identity, h(2));
    assert_eq!(evicted[1].outcome, ListenerOutcome::Canceled);
    assert_eq!(t.queue_len(), 0);
}

#[test]
fn full_channel_applies_backpressure() {
    let mut t = ObjectTracker::new(1, TIMEOUT);
    assert_eq!(
        t.request_object_from_peer_with_or_get_notified(h(1), 1, None),
        Ok(RequestStatus::Queued)
    );
    assert_eq!(
        t.request_object_from_peer_with_or_get_notified(h(2), 1, None),
        Ok(RequestStatus::ChannelFull)
    );
    // the rejected request left no trace
    assert_eq!(t.queue_len(), 1);
    // once the channel drains, the retry is accepted
    assert!(matches!(t.dispatch_next(0), DispatchAction::Transmit { .. }));
    assert_eq!(
        t.request_object_from_peer_with_or_get_notified(h(2), 1, None),
        Ok(RequestStatus::Queued)
    );
}

#[test]
fn shutdown_cancels_everything_and_closes_the_channel() {
    let mut t = ObjectTracker::new(8, TIMEOUT);
    t.request_object_from_peer_with_or_get_notified(h(1), 1, None).unwrap();
    t.request_object_from_peer_with_or_get_notified(h(2), 2, None).unwrap();
    let evicted = t.shutdown();
    assert_eq!(evicted.len(), 2);
    assert!(evicted.iter().all(|e| e.outcome == ListenerOutcome::Canceled));
    assert_eq!(t.queue_len(), 0);
    assert_eq!(
        t.request_object_from_peer_with_or_get_notified(h(3), 1, None),
        Err(TrackerError::ChannelClosed)
    );
}

#[test]
fn unsolicited_response_is_reported() {
    let mut t = ObjectTracker::new(8, TIMEOUT);
    assert!(!t.handle_object_response(&h(0x42)));
}

#[test]
fn group_ids_are_monotonic() {
    let mut t = ObjectTracker::new(8, TIMEOUT);
    assert_eq!(t.next_group_id(), 0);
    assert_eq!(t.next_group_id(), 1);
    assert_eq!(t.next_group_id(), 2);
}

#[test]
fn expirable_cache_insert_remove_clean() {
    let mut c = ExpirableCache::new();
    c.insert(h(1), 100);
    c.insert(h(2), 200);
    // re-inserting refreshes the timestamp instead of duplicating
    c.insert(h(1), 300);
    assert_eq!(c.len(), 2);
    assert!(c.contains(&h(1)));
    assert!(c.remove(&h(2)));
    assert!(!c.remove(&h(2)));
    // the refreshed entry survives a clean that would have dropped the
    // original timestamp
    c.clean(150, 350);
    assert!(c.contains(&h(1)));
    c.clean(150, 451);
    assert!(!c.contains(&h(1)));
}
