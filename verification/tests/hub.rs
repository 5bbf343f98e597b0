use irtt_client::event::{ClientEvent, EventSubscriptionError, WarningKind};
use irtt_client::group::model::{TargetEvent, TargetId};
use irtt_client::hub::{EventHub, EventSubscription, SubscriberConfig, SubscriberOverflow};
use irtt_client::net::SocketAddr;
use irtt_client::timing::{ClientTimestamp, Instant, SystemTime};

const AT: ClientTimestamp = ClientTimestamp {
    wall: SystemTime { nanos: 2 },
    mono: Instant { nanos: 1 },
};

fn event(n: usize) -> ClientEvent {
    ClientEvent::Warning {
        kind: WarningKind::UntrackedReply,
        message: format!("event-{n}"),
        at: AT,
    }
}

fn event_message(event: ClientEvent) -> String {
    match event {
        ClientEvent::Warning { message, .. } => message,
        other => panic!("unexpected event: {other:?}"),
    }
}

fn assert_next(
    hub: &mut EventHub<ClientEvent>,
    sub: &EventSubscription,
    expected: Result<Option<&str>, EventSubscriptionError>,
) {
    match (sub.try_recv(hub), expected) {
        (Ok(Some(event)), Ok(Some(message))) => assert_eq!(event_message(event), message),
        (Ok(None), Ok(None)) => {}
        (Err(actual), Err(expected)) => assert_eq!(actual, expected),
        (actual, expected) => panic!("expected {expected:?}, got {actual:?}"),
    }
}

#[test]
fn publishes_to_multiple_subscribers() {
    let mut hub = EventHub::new();
    let a = hub.subscribe(SubscriberConfig::default()).unwrap();
    let b = hub.subscribe(SubscriberConfig::default()).unwrap();

    hub.publish(event(1));

    assert_eq!(
        event_message(a.try_recv(&mut hub).unwrap().unwrap()),
        "event-1"
    );
    assert_eq!(
        event_message(b.try_recv(&mut hub).unwrap().unwrap()),
        "event-1"
    );
}

#[test]
fn full_subscriber_overflow_policy_is_applied() {
    let cases = [
        (
            SubscriberOverflow::DropNewest,
            Ok(Some("event-1")),
            Ok(None),
        ),
        (
            SubscriberOverflow::DropOldest,
            Ok(Some("event-2")),
            Ok(None),
        ),
        (
            SubscriberOverflow::Disconnect,
            Err(EventSubscriptionError::Disconnected),
            Err(EventSubscriptionError::Disconnected),
        ),
    ];

    for (overflow, first_expected, second_expected) in cases {
        let mut hub = EventHub::new();
        let sub = hub
            .subscribe(SubscriberConfig {
                capacity: 1,
                overflow,
            })
            .unwrap();

        hub.publish(event(1));
        hub.publish(event(2));

        assert_next(&mut hub, &sub, first_expected);
        assert_next(&mut hub, &sub, second_expected);
    }
}

#[test]
fn full_subscriber_does_not_prevent_other_delivery() {
    let mut hub = EventHub::new();
    let slow = hub
        .subscribe(SubscriberConfig {
            capacity: 1,
            overflow: SubscriberOverflow::DropNewest,
        })
        .unwrap();
    let fast = hub
        .subscribe(SubscriberConfig {
            capacity: 4,
            overflow: SubscriberOverflow::DropNewest,
        })
        .unwrap();

    hub.publish(event(1));
    hub.publish(event(2));

    assert_eq!(
        event_message(slow.try_recv(&mut hub).unwrap().unwrap()),
        "event-1"
    );
    assert_eq!(
        event_message(fast.try_recv(&mut hub).unwrap().unwrap()),
        "event-1"
    );
    assert_eq!(
        event_message(fast.try_recv(&mut hub).unwrap().unwrap()),
        "event-2"
    );
}

#[test]
fn subscribing_after_events_does_not_replay() {
    let mut hub = EventHub::new();
    hub.publish(event(1));

    let sub = hub.subscribe(SubscriberConfig::default()).unwrap();

    assert!(sub.try_recv(&mut hub).unwrap().is_none());
}

#[test]
fn dropping_subscription_unregisters_from_hub() {
    let mut hub = EventHub::<ClientEvent>::new();
    let sub = hub.subscribe(SubscriberConfig::default()).unwrap();
    assert_eq!(hub.subscriber_count(), 1);

    hub.unsubscribe(sub);

    assert_eq!(hub.subscriber_count(), 0);
}

#[test]
fn disconnect_all_wakes_blocking_receivers() {
    let mut hub = EventHub::<ClientEvent>::new();
    let sub = hub.subscribe(SubscriberConfig::default()).unwrap();
    assert!(!sub.is_ready(&hub));
    hub.disconnect_all();

    assert!(sub.is_ready(&hub));
    assert_eq!(
        sub.recv(&mut hub).unwrap_err(),
        EventSubscriptionError::Disconnected
    );
}

#[test]
fn session_closed_event_can_be_queued() {
    let mut hub = EventHub::new();
    let sub = hub.subscribe(SubscriberConfig::default()).unwrap();
    hub.publish(ClientEvent::SessionClosed {
        remote: SocketAddr::V4 {
            ip: 0x7f00_0001,
            port: 1,
        },
        token: 1,
        at: AT,
    });

    assert!(sub.is_ready(&hub));
    assert!(matches!(
        sub.recv(&mut hub).unwrap(),
        ClientEvent::SessionClosed { token: 1, .. }
    ));
}

#[test]
fn target_event_hub_uses_generic_overflow_behavior() {
    let mut hub = EventHub::<TargetEvent>::new();
    let sub = hub
        .subscribe(SubscriberConfig {
            capacity: 1,
            overflow: SubscriberOverflow::DropOldest,
        })
        .unwrap();

    hub.publish(TargetEvent {
        target: TargetId::from("a"),
        event: ClientEvent::Warning {
            kind: WarningKind::UntrackedReply,
            message: "old".to_owned(),
            at: AT,
        },
    });
    hub.publish(TargetEvent {
        target: TargetId::from("b"),
        event: ClientEvent::Warning {
            kind: WarningKind::UntrackedReply,
            message: "new".to_owned(),
            at: AT,
        },
    });

    let event = sub.try_recv(&mut hub).unwrap().unwrap();
    assert_eq!(event.target, TargetId::from("b"));
    assert!(sub.try_recv(&mut hub).unwrap().is_none());
}

#[test]
fn dropped_events_are_counted_and_zero_capacity_is_refused() {
    let mut hub = EventHub::<u32>::new();
    let sub = hub
        .subscribe(SubscriberConfig {
            capacity: 1,
            overflow: SubscriberOverflow::DropOldest,
        })
        .unwrap();
    hub.publish(1);
    hub.publish(2);
    hub.publish(3);
    assert_eq!(sub.dropped_events(&hub), 2);
    assert_eq!(sub.try_recv(&mut hub), Ok(Some(3)));
    assert!(hub
        .subscribe(SubscriberConfig {
            capacity: 0,
            overflow: SubscriberOverflow::DropOldest,
        })
        .is_err());
    assert_eq!(hub.next_id(), 2);
}

#[test]
fn queued_events_outlive_a_disconnect() {
    let mut hub = EventHub::<u32>::new();
    let sub = hub.subscribe(SubscriberConfig::default()).unwrap();
    hub.publish(1);
    hub.disconnect_all();
    hub.publish(2);
    assert_eq!(sub.try_recv(&mut hub), Ok(Some(1)));
    assert_eq!(
        sub.try_recv(&mut hub),
        Err(EventSubscriptionError::Disconnected)
    );
}

#[test]
fn disconnect_all_lasts() {
    let mut hub = EventHub::<u32>::new();
    let full = hub.subscribe(SubscriberConfig::default()).unwrap();
    hub.publish(1);
    hub.publish(2);
    let empty = hub.subscribe(SubscriberConfig::default()).unwrap();

    hub.disconnect_all();
    assert_eq!(hub.subscriber_count(), 0);
    hub.publish(3);
    let late = hub.subscribe(SubscriberConfig::default()).unwrap();
    assert_eq!(hub.subscriber_count(), 1);
    assert_eq!(full.try_recv(&mut hub), Ok(Some(1)));
    hub.publish(4);
    assert_eq!(late.recv(&mut hub), Ok(4));
    assert_eq!(late.try_recv(&mut hub), Ok(None));

    hub.disconnect_all();
    assert_eq!(hub.subscriber_count(), 0);
    assert_eq!(full.recv(&mut hub), Ok(2));
    for sub in [&full, &empty, &late] {
        for _ in 0..2 {
            assert_eq!(
                sub.try_recv(&mut hub),
                Err(EventSubscriptionError::Disconnected)
            );
        }
    }
}

#[test]
fn default_subscription_keeps_many_events_and_drops_the_newest() {
    let config = SubscriberConfig::default();
    assert_eq!(config.capacity, 1024);
    assert_eq!(config.overflow, SubscriberOverflow::DropNewest);
}

#[test]
fn overflow_keeps_one_end_of_what_was_published() {
    let received = |overflow: SubscriberOverflow| {
        let mut hub = EventHub::<u32>::new();
        let sub = hub
            .subscribe(SubscriberConfig {
                capacity: 2,
                overflow,
            })
            .unwrap();
        for event in 1..=5 {
            hub.publish(event);
        }
        let mut events = vec![];
        while let Ok(Some(event)) = sub.try_recv(&mut hub) {
            events.push(event);
        }
        events
    };
    assert_eq!(received(SubscriberOverflow::DropNewest), vec![1, 2]);
    assert_eq!(received(SubscriberOverflow::DropOldest), vec![4, 5]);
    assert_eq!(received(SubscriberOverflow::Disconnect), vec![]);
}

#[test]
fn events_arrive_in_order() {
    let mut hub = EventHub::<u32>::new();
    let sub = hub.subscribe(SubscriberConfig::default()).unwrap();
    for event in 1..=100 {
        hub.publish(event);
    }
    for event in 1..=100 {
        assert_eq!(sub.try_recv(&mut hub), Ok(Some(event)));
    }
}
