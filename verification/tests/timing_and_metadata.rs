use irtt_client::event::PacketMeta;
use irtt_client::metadata::{ReceiveMeta, MAX_KERNEL_RX_LAG};
use irtt_client::receive::{receive_meta, system_time_from_timespec, ControlMessage, TimeSpec};
use irtt_client::timing::{Duration, Instant, SystemTime, MAX_DURATION_NANOS, MAX_INSTANT_NANOS};

fn wall(nanos: i128) -> SystemTime {
    SystemTime { nanos }
}

fn userspace_wall() -> SystemTime {
    SystemTime::unix_epoch()
        .checked_add(Duration::from_secs(1_700_000_000))
        .unwrap()
}

fn meta_with_kernel_rx(kernel_rx_timestamp: SystemTime) -> ReceiveMeta {
    ReceiveMeta {
        traffic_class: None,
        kernel_rx_timestamp: Some(kernel_rx_timestamp),
    }
}

#[test]
fn preferred_receive_wall_without_kernel_timestamp_uses_userspace_sample() {
    let userspace = userspace_wall();

    assert_eq!(
        ReceiveMeta::default().preferred_receive_wall(userspace),
        userspace
    );
}

#[test]
fn preferred_receive_wall_uses_plausible_earlier_kernel_timestamp() {
    let userspace = userspace_wall();
    let kernel = wall(userspace.nanos - 80_000);

    assert_eq!(
        meta_with_kernel_rx(kernel).preferred_receive_wall(userspace),
        kernel
    );
}

#[test]
fn preferred_receive_wall_accepts_kernel_timestamp_equal_to_userspace_sample() {
    let userspace = userspace_wall();

    assert_eq!(
        meta_with_kernel_rx(userspace).preferred_receive_wall(userspace),
        userspace
    );
}

#[test]
fn preferred_receive_wall_rejects_kernel_timestamp_later_than_userspace_sample() {
    let userspace = userspace_wall();
    let kernel = wall(userspace.nanos + 1);

    assert_eq!(
        meta_with_kernel_rx(kernel).preferred_receive_wall(userspace),
        userspace
    );
}

#[test]
fn preferred_receive_wall_accepts_kernel_timestamp_exactly_at_the_lag_bound() {
    let userspace = userspace_wall();
    let at_bound = wall(userspace.nanos - MAX_KERNEL_RX_LAG as i128);
    let past_bound = wall(userspace.nanos - MAX_KERNEL_RX_LAG as i128 - 1);

    assert_eq!(
        meta_with_kernel_rx(at_bound).preferred_receive_wall(userspace),
        at_bound
    );
    assert_eq!(
        meta_with_kernel_rx(past_bound).preferred_receive_wall(userspace),
        userspace
    );
}

#[test]
fn preferred_receive_wall_rejects_implausibly_old_kernel_timestamp() {
    let userspace = userspace_wall();
    let kernel = SystemTime::unix_epoch();

    assert_eq!(
        meta_with_kernel_rx(kernel).preferred_receive_wall(userspace),
        userspace
    );
}

#[test]
fn preferred_receive_wall_handles_extreme_timestamps_without_panicking() {
    let userspace = userspace_wall();
    let far_future = wall(i128::from(u32::MAX) * 4 * 1_000_000_000);
    let before_epoch = wall(-i128::from(u32::MAX) * 1_000_000_000);

    assert_eq!(
        meta_with_kernel_rx(far_future).preferred_receive_wall(userspace),
        userspace
    );
    assert_eq!(
        meta_with_kernel_rx(before_epoch).preferred_receive_wall(userspace),
        userspace
    );
    assert_eq!(
        ReceiveMeta::default().preferred_receive_wall(before_epoch),
        before_epoch
    );
    assert_eq!(
        meta_with_kernel_rx(wall(i128::MIN)).preferred_receive_wall(wall(i128::MAX)),
        wall(i128::MAX)
    );
}

#[test]
fn metadata_preserves_kernel_timestamp_rejected_for_measurement() {
    let userspace = userspace_wall();
    let rejected = wall(userspace.nanos + 30_000_000_000);
    let meta = meta_with_kernel_rx(rejected);

    assert_eq!(meta.preferred_receive_wall(userspace), userspace);
    assert_eq!(
        PacketMeta::from(meta).kernel_rx_timestamp,
        Some(rejected),
        "observed metadata must survive rejection as a measurement endpoint"
    );
}

#[test]
fn metadata_observed_traffic_class_zero_preserves_observed_zero() {
    let packet_meta = PacketMeta::from(ReceiveMeta {
        traffic_class: Some(0),
        kernel_rx_timestamp: None,
    });

    assert_eq!(packet_meta.traffic_class, Some(0));
    assert_eq!(packet_meta.dscp, Some(0));
    assert_eq!(packet_meta.ecn, Some(0));
    assert_eq!(packet_meta.kernel_rx_timestamp, None);
}

#[test]
fn metadata_observed_traffic_class_derives_dscp_and_ecn() {
    let packet_meta = PacketMeta::from(ReceiveMeta {
        traffic_class: Some(184),
        kernel_rx_timestamp: None,
    });

    assert_eq!(packet_meta.traffic_class, Some(184));
    assert_eq!(packet_meta.dscp, Some(46));
    assert_eq!(packet_meta.ecn, Some(0));
    assert_eq!(packet_meta.kernel_rx_timestamp, None);

    let packet_meta = PacketMeta::from(ReceiveMeta {
        traffic_class: Some(186),
        kernel_rx_timestamp: None,
    });

    assert_eq!(packet_meta.traffic_class, Some(186));
    assert_eq!(packet_meta.dscp, Some(46));
    assert_eq!(packet_meta.ecn, Some(2));
    assert_eq!(packet_meta.kernel_rx_timestamp, None);
}

#[test]
fn metadata_mapping_preserves_none_vs_observed_zero() {
    let unavailable = PacketMeta::from(ReceiveMeta::default());
    let observed_zero = PacketMeta::from(ReceiveMeta {
        traffic_class: Some(0),
        kernel_rx_timestamp: None,
    });

    assert_eq!(unavailable.traffic_class, None);
    assert_eq!(unavailable.dscp, None);
    assert_eq!(unavailable.ecn, None);

    assert_eq!(observed_zero.traffic_class, Some(0));
    assert_eq!(observed_zero.dscp, Some(0));
    assert_eq!(observed_zero.ecn, Some(0));
}

#[test]
fn timespec_conversion_accepts_valid_unix_timestamp() {
    let timestamp = system_time_from_timespec(TimeSpec {
        tv_sec: 1,
        tv_nsec: 2,
    })
    .unwrap();

    assert_eq!(timestamp.nanos, 1_000_000_002);
}

#[test]
fn timespec_conversion_rejects_negative_or_invalid_values() {
    let convert = |tv_sec: i64, tv_nsec: i64| system_time_from_timespec(TimeSpec { tv_sec, tv_nsec });
    assert_eq!(convert(-1, 0), None);
    assert_eq!(convert(0, -1), None);
    assert_eq!(convert(0, 1_000_000_000), None);
}

#[test]
fn ancillary_data_fills_receive_metadata() {
    let cmsgs = vec![
        ControlMessage::Unknown,
        ControlMessage::Ipv4Tos(184),
        ControlMessage::ScmTimestampns(TimeSpec {
            tv_sec: 5,
            tv_nsec: 6,
        }),
    ];
    let meta = receive_meta(Some(&cmsgs));
    assert_eq!(meta.traffic_class, Some(184));
    assert_eq!(meta.kernel_rx_timestamp, Some(wall(5_000_000_006)));
    assert_eq!(receive_meta(None), ReceiveMeta::default());
    assert_eq!(receive_meta(Some(&vec![])), ReceiveMeta::default());
}

#[test]
fn ipv6_traffic_class_outside_a_byte_is_not_observed() {
    assert_eq!(
        receive_meta(Some(&vec![ControlMessage::Ipv6TClass(46)])).traffic_class,
        Some(46)
    );
    assert_eq!(
        receive_meta(Some(&vec![ControlMessage::Ipv6TClass(-1)])).traffic_class,
        None
    );
    assert_eq!(
        receive_meta(Some(&vec![ControlMessage::Ipv6TClass(256)])).traffic_class,
        None
    );
}

#[test]
fn instants_stay_in_range() {
    let start = Instant { nanos: 5 };
    assert_eq!(
        start.checked_add(Duration::from_micros(1)),
        Some(Instant { nanos: 1_005 })
    );
    assert_eq!(start.checked_add(Duration::max_value()), None);
    assert_eq!(Duration::max_value().nanos, MAX_DURATION_NANOS);
    assert_eq!(
        Instant {
            nanos: MAX_INSTANT_NANOS
        }
        .checked_add(Duration::from_nanos(1)),
        None
    );
    assert_eq!(start.checked_sub(Duration::from_nanos(6)), None);
    assert_eq!(
        start.checked_sub(Duration::from_nanos(5)),
        Some(Instant { nanos: 0 })
    );
    assert_eq!(
        start.saturating_duration_since(Instant { nanos: 9 }),
        Duration::zero()
    );
    assert_eq!(
        Instant { nanos: 9 }.saturating_duration_since(start),
        Duration::from_nanos(4)
    );
    assert_eq!(Duration::from_millis(3).nanos, 3_000_000);
}
