use std::collections::HashMap;

use irtt_client::error::ClientError;
use irtt_client::probe::{
    pending_allocation_failed, reservation_result, reservation_wanted, CompletedSet, PendingMap,
    PendingProbe, TimedOutMap,
};
use irtt_client::timing::{ClientTimestamp, Duration, Instant, SystemTime};

const BASE: Instant = Instant {
    nanos: 1_000_000_000_000,
};

fn after(start: Instant, secs: u64) -> Instant {
    start.checked_add(Duration::from_secs(secs)).unwrap()
}

fn ts(mono: Instant) -> ClientTimestamp {
    ClientTimestamp {
        mono,
        wall: SystemTime::unix_epoch(),
    }
}

fn pending(seq: u32, timeout_at: Instant) -> PendingProbe {
    PendingProbe {
        wire_seq: seq,
        sent_at: ts(timeout_at.checked_sub(Duration::from_secs(1)).unwrap()),
        timeout_at,
        kernel_tx_timestamp: None,
    }
}

fn insert(map: &mut PendingMap, probe: PendingProbe) {
    map.preflight_insert(probe.wire_seq).unwrap();
    map.commit_insert(probe);
}

#[test]
fn pending_map_rejects_over_capacity() {
    let mut map = PendingMap::new(2);
    let now = BASE;
    map.preflight_insert(0).unwrap();
    map.commit_insert(pending(0, after(now, 4)));
    map.preflight_insert(1).unwrap();
    map.commit_insert(pending(1, after(now, 4)));
    assert!(matches!(
        map.preflight_insert(2),
        Err(ClientError::PendingLimitExceeded { limit: 2 })
    ));
}

#[test]
fn pending_map_preflight_reserves_without_changing_contents() {
    let mut map = PendingMap::new(2);
    let initial_capacity = map.capacity();

    map.preflight_insert(7).unwrap();
    let reserved_capacity = map.capacity();
    assert!(reserved_capacity >= initial_capacity);
    assert_eq!(map.len(), 0);
    assert!(!map.contains(7));

    map.preflight_insert(7).unwrap();
    assert_eq!(map.capacity(), reserved_capacity);
    assert_eq!(map.len(), 0);
    assert!(!map.contains(7));
}

#[test]
fn pending_map_preflight_rejects_sequence_collision() {
    let mut map = PendingMap::new(2);
    let now = BASE;
    map.preflight_insert(9).unwrap();
    map.commit_insert(pending(9, now));

    assert!(matches!(
        map.preflight_insert(9),
        Err(ClientError::PendingSequenceCollision { seq: 9 })
    ));
    assert_eq!(map.len(), 1);
}

#[test]
fn pending_map_allocation_failure_maps_to_dedicated_error() {
    let mut map = HashMap::<u32, PendingProbe>::new();
    let source = map.try_reserve(usize::MAX).unwrap_err();

    assert!(matches!(
        pending_allocation_failed(source),
        ClientError::AllocationFailed {
            operation: "pending probe storage",
            ..
        }
    ));
}

#[test]
fn pending_map_unlinks_head_middle_and_tail_and_updates_extrema() {
    let mut map = PendingMap::new(4);
    let now = BASE;
    insert(&mut map, pending(1, after(now, 1)));
    insert(&mut map, pending(2, after(now, 2)));
    insert(&mut map, pending(3, after(now, 3)));

    assert_eq!(map.next_timeout_deadline(), Some(after(now, 1)));
    assert_eq!(map.latest_timeout_deadline(), Some(after(now, 3)));
    assert_eq!(map.linkage(), (Some(1), Some(3)));
    assert_eq!(map.entry_links(1), Some((None, Some(2))));
    assert_eq!(map.entry_links(2), Some((Some(1), Some(3))));
    assert_eq!(map.entry_links(3), Some((Some(2), None)));

    assert!(map.remove(2).is_some());
    assert_eq!(map.next_timeout_deadline(), Some(after(now, 1)));
    assert_eq!(map.latest_timeout_deadline(), Some(after(now, 3)));
    assert_eq!(map.linkage(), (Some(1), Some(3)));
    assert_eq!(map.entry_links(1), Some((None, Some(3))));
    assert_eq!(map.entry_links(3), Some((Some(1), None)));

    assert!(map.remove(1).is_some());
    assert_eq!(map.next_timeout_deadline(), Some(after(now, 3)));
    assert_eq!(map.latest_timeout_deadline(), Some(after(now, 3)));
    assert_eq!(map.linkage(), (Some(3), Some(3)));
    assert_eq!(map.entry_links(3), Some((None, None)));

    assert!(map.remove(3).is_some());
    assert_eq!(map.next_timeout_deadline(), None);
    assert_eq!(map.latest_timeout_deadline(), None);
    assert_eq!(map.linkage(), (None, None));
}

#[test]
fn pending_map_bounded_expiration_matches_exhaustive_order() {
    let now = BASE;
    let probes = [
        pending(1, after(now, 1)),
        pending(2, after(now, 2)),
        pending(3, after(now, 3)),
        pending(4, after(now, 4)),
    ];
    let mut bounded = PendingMap::new(probes.len());
    let mut exhaustive = PendingMap::new(probes.len());
    for probe in probes.iter().cloned() {
        insert(&mut bounded, probe);
        insert(&mut exhaustive, probe);
    }

    let empty = bounded.drain_expired_bounded(after(now, 4), 0);
    assert!(empty.probes.is_empty());
    assert!(empty.more_due);
    assert_eq!(bounded.linkage(), (Some(1), Some(4)));

    let mut actual = Vec::new();
    loop {
        let batch = bounded.drain_expired_bounded(after(now, 4), 2);
        actual.extend(batch.probes.into_iter().map(|probe| probe.wire_seq));
        if !batch.more_due {
            break;
        }
    }
    let expected = exhaustive
        .drain_expired_bounded(after(now, 4), usize::MAX)
        .probes
        .into_iter()
        .map(|probe| probe.wire_seq)
        .collect::<Vec<_>>();

    assert_eq!(actual, expected);
    assert_eq!(actual, vec![1, 2, 3, 4]);
    assert_eq!(bounded.linkage(), (None, None));
}

#[test]
fn pending_map_sequence_reuse_leaves_no_stale_link() {
    let mut map = PendingMap::new(1);
    let now = BASE;
    insert(&mut map, pending(7, now));
    assert!(map.remove(7).is_some());
    insert(&mut map, pending(7, after(now, 1)));

    assert!(map.drain_expired_bounded(now, usize::MAX).probes.is_empty());
    assert_eq!(map.linkage(), (Some(7), Some(7)));
    assert_eq!(map.entry_links(7), Some((None, None)));
    assert_eq!(
        map.drain_expired_bounded(after(now, 1), usize::MAX)
            .probes
            .into_iter()
            .map(|probe| probe.wire_seq)
            .collect::<Vec<_>>(),
        vec![7]
    );
    assert_eq!(map.linkage(), (None, None));
}

#[test]
fn pending_map_commit_uses_only_preflighted_map_capacity() {
    let mut map = PendingMap::new(2);
    let now = BASE;
    map.preflight_insert(7).unwrap();
    let capacity = map.capacity();

    map.commit_insert(pending(7, now));

    assert_eq!(map.capacity(), capacity);
    assert_eq!(map.len(), 1);
    assert_eq!(map.linkage(), (Some(7), Some(7)));
}

#[test]
fn pending_map_mixed_removals_preserve_links() {
    let mut map = PendingMap::new(4);
    let now = BASE;
    for seq in 1..=4 {
        insert(&mut map, pending(seq, after(now, u64::from(seq))));
    }

    assert!(map.remove(2).is_some());
    assert_eq!(map.entry_links(1), Some((None, Some(3))));
    assert_eq!(map.entry_links(3), Some((Some(1), Some(4))));
    let expired = map.drain_expired_bounded(after(now, 3), usize::MAX);
    assert_eq!(
        expired
            .probes
            .into_iter()
            .map(|probe| probe.wire_seq)
            .collect::<Vec<_>>(),
        vec![1, 3]
    );
    assert_eq!(map.linkage(), (Some(4), Some(4)));
    assert!(map.remove(4).is_some());
    assert_eq!(map.linkage(), (None, None));
}

#[test]
fn bounded_probe_tracking_evicts_oldest_entries() {
    let mut set = CompletedSet::new(3);
    set.insert(0);
    set.insert(1);
    set.insert(2);
    assert!(set.contains(0));
    assert!(set.contains(1));
    assert!(set.contains(2));
    set.insert(3);
    assert_eq!(set.len(), 3);
    assert!(!set.contains(0));
    assert!(set.contains(3));

    let mut map = TimedOutMap::new(2);
    let now = BASE;
    map.insert(pending(0, now));
    map.insert(pending(1, now));
    map.insert(pending(2, now));

    assert_eq!(map.len(), 2);
    assert!(map.remove(0).is_none());
    assert!(map.remove(1).is_some());
    assert!(map.remove(2).is_some());
}

#[test]
fn timed_out_map_remove_prunes_insertion_order() {
    let mut map = TimedOutMap::new(4);
    let now = BASE;

    for i in 0..20 {
        map.insert(pending(i, now));
        assert!(map.remove(i).is_some());
        assert_eq!(map.len(), 0);
        assert_eq!(map.insertion_order_len(), 0);
    }
}

#[test]
fn reservation_grows_storage_before_a_commit() {
    let mut map = PendingMap::new(1_000);
    let reserved_at_first = {
        map.preflight_insert(0).unwrap();
        map.capacity()
    };
    assert!(reserved_at_first >= 1);
    for seq in 0..500 {
        insert(&mut map, pending(seq, BASE));
        assert!(map.capacity() >= map.len());
    }
    assert!(map.capacity() > reserved_at_first);
    assert_eq!(map.len(), 500);
}

#[test]
fn room_for_one_probe_is_asked_for_when_the_map_is_full() {
    assert_eq!(reservation_wanted(0, 0), Some(1));
    assert_eq!(reservation_wanted(3, 3), Some(1));
    assert_eq!(reservation_wanted(2, 3), None);
}

#[test]
fn reservation_failure_is_reported() {
    let mut map = HashMap::<u32, PendingProbe>::new();
    assert!(matches!(
        reservation_result(map.try_reserve(usize::MAX)),
        Err(ClientError::AllocationFailed {
            operation: "pending probe storage",
            ..
        })
    ));
    assert!(reservation_result(map.try_reserve(1)).is_ok());
}

#[test]
fn collision_is_reported_before_the_limit() {
    let mut map = PendingMap::new(1);
    insert(&mut map, pending(3, BASE));
    assert!(matches!(
        map.preflight_insert(3),
        Err(ClientError::PendingSequenceCollision { seq: 3 })
    ));
    assert!(matches!(
        map.preflight_insert(4),
        Err(ClientError::PendingLimitExceeded { limit: 1 })
    ));
}

#[test]
fn pending_probe_can_be_amended_in_place() {
    let mut map = PendingMap::new(2);
    insert(&mut map, pending(1, BASE));
    let stamp = SystemTime { nanos: 77 };
    map.get_mut(1).unwrap().kernel_tx_timestamp = Some(stamp);
    assert!(map.get_mut(2).is_none());
    assert_eq!(map.remove(1).unwrap().kernel_tx_timestamp, Some(stamp));
}

#[test]
fn timed_out_map_knows_its_latest_deadline() {
    let mut map = TimedOutMap::new(3);
    assert_eq!(map.latest_timeout_deadline(), None);
    map.insert(pending(1, after(BASE, 5)));
    map.insert(pending(2, after(BASE, 3)));
    assert_eq!(map.latest_timeout_deadline(), Some(after(BASE, 5)));
    map.get_mut(2).unwrap().kernel_tx_timestamp = Some(SystemTime { nanos: 1 });
    assert!(map.contains(2));
    map.remove(1);
    assert_eq!(map.latest_timeout_deadline(), Some(after(BASE, 3)));
    map.clear();
    assert_eq!(map.len(), 0);
    assert!(!map.contains(2));
}

#[test]
fn completed_set_forgets_what_is_removed() {
    let mut set = CompletedSet::new(2);
    set.insert(1);
    set.insert(1);
    assert_eq!(set.len(), 1);
    assert!(set.remove(1));
    assert!(!set.remove(1));
    assert_eq!(set.len(), 0);
}
