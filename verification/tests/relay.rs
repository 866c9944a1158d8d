use yewchat::bus::EventBus;
use yewchat::transport::ConnectionHandle;
use yewchat::transport::SendError;

#[test]
fn publish_reaches_live_subscribers_in_order() {
    let mut bus = EventBus::new();
    let a = bus.subscribe();
    let b = bus.subscribe();
    bus.publish("one");
    bus.publish("two");
    assert_eq!(bus.next(a), Some("one".to_string()));
    assert_eq!(bus.next(a), Some("two".to_string()));
    assert_eq!(bus.next(a), None);
    assert_eq!(bus.next(b), Some("one".to_string()));
    assert_eq!(bus.next(b), Some("two".to_string()));
    assert_eq!(bus.next(b), None);
}

#[test]
fn late_subscriber_misses_earlier_publishes() {
    let mut bus = EventBus::new();
    let a = bus.subscribe();
    bus.publish("early");
    let b = bus.subscribe();
    bus.publish("late");
    assert_eq!(bus.next(a), Some("early".to_string()));
    assert_eq!(bus.next(a), Some("late".to_string()));
    assert_eq!(bus.next(b), Some("late".to_string()));
    assert_eq!(bus.next(b), None);
}

#[test]
fn unsubscribing_affects_nobody_else() {
    let mut bus = EventBus::new();
    let a = bus.subscribe();
    let b = bus.subscribe();
    bus.publish("one");
    bus.unsubscribe(a);
    bus.publish("two");
    assert_eq!(bus.next(a), None);
    assert_eq!(bus.next(b), Some("one".to_string()));
    assert_eq!(bus.next(b), Some("two".to_string()));
    assert_eq!(bus.len(), 2);
}

#[test]
fn connection_records_sends_in_order() {
    let mut conn = ConnectionHandle::connect();
    assert!(conn.is_connected());
    assert!(conn.send("first").is_ok());
    assert!(conn.send("second").is_ok());
    assert_eq!(conn.sent_len(), 2);
    assert_eq!(conn.sent_at(0), "first");
    assert_eq!(conn.sent_at(1), "second");
}

#[test]
fn closed_connection_refuses_sends() {
    let mut conn = ConnectionHandle::connect();
    assert!(conn.send("kept").is_ok());
    conn.close();
    assert!(!conn.is_connected());
    assert!(matches!(conn.send("lost"), Err(SendError::ChannelClosed)));
    assert_eq!(conn.sent_len(), 1);
}
