//! The bus of events.

use rproxy::events::{EventBus, ProxyEvent};
use rproxy::model::ConnectionId;

fn number(event: ProxyEvent) -> u64 {
    match event {
        ProxyEvent::ConnectionOpened(id) => id.0,
        _ => panic!("another event"),
    }
}

#[test]
fn every_subscriber_gets_every_event() {
    let bus = EventBus::new();
    // Nobody listens: the event comes back.
    let back = bus.publish(ProxyEvent::ConnectionOpened(ConnectionId(1)));
    assert_eq!(number(back.expect("given back")), 1);

    let mut a = bus.subscribe();
    let mut b = bus.clone().subscribe();
    assert!(bus.publish(ProxyEvent::ConnectionOpened(ConnectionId(2))).is_none());
    assert!(bus.clone().publish(ProxyEvent::ConnectionOpened(ConnectionId(3))).is_none());
    for rx in [&mut a, &mut b] {
        assert_eq!(number(rx.try_recv().unwrap()), 2);
        assert_eq!(number(rx.try_recv().unwrap()), 3);
        assert!(rx.try_recv().is_err());
    }
}

#[test]
fn a_slow_subscriber_misses_the_oldest() {
    let bus = EventBus::default();
    let mut rx = bus.subscribe();
    for i in 0..1030 {
        bus.publish(ProxyEvent::ConnectionOpened(ConnectionId(i)));
    }
    assert!(matches!(
        rx.try_recv(),
        Err(tokio::sync::broadcast::error::TryRecvError::Lagged(6))
    ));
    assert_eq!(number(rx.try_recv().unwrap()), 6);
}
