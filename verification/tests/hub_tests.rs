use event_hub::hub::Hub;

#[test]
fn ordered_delivery_single_subscriber() {
    let mut h = Hub::new(10);
    let id = h.subscribe();
    h.publish(&String::from("p1"));
    h.publish(&String::from("p2"));
    h.publish(&String::from("p3"));
    assert_eq!(h.next_event(id), Some(String::from("p1")));
    assert_eq!(h.next_event(id), Some(String::from("p2")));
    assert_eq!(h.next_event(id), Some(String::from("p3")));
    assert_eq!(h.next_event(id), None);
}

#[test]
fn publish_with_no_subscribers_is_noop() {
    let mut h = Hub::new(10);
    assert_eq!(h.subscriber_count(), 0);
    h.publish(&String::from("nobody hears this"));
    assert_eq!(h.subscriber_count(), 0);
    // A subscriber registered afterwards receives no history.
    let id = h.subscribe();
    assert_eq!(h.next_event(id), None);
}

#[test]
fn unsubscribe_stops_delivery_and_is_idempotent() {
    let mut h = Hub::new(10);
    let id = h.subscribe();
    h.publish(&String::from("before"));
    h.unsubscribe(id);
    assert!(!h.is_subscribed(id));
    h.publish(&String::from("after"));
    assert_eq!(h.next_event(id), None);
    // Unsubscribing again is a no-op, not an error.
    h.unsubscribe(id);
    assert!(!h.is_subscribed(id));
    assert_eq!(h.subscriber_count(), 0);
}

#[test]
fn two_subscribers_receive_independently() {
    let mut h = Hub::new(10);
    let fast = h.subscribe();
    let slow = h.subscribe();
    for i in 0..5 {
        h.publish(&format!("e{}", i));
    }
    // The fast subscriber drains everything, in order.
    for i in 0..5 {
        assert_eq!(h.next_event(fast), Some(format!("e{}", i)));
    }
    assert_eq!(h.next_event(fast), None);
    // The slow subscriber's stream is neither delayed nor truncated by that.
    for i in 0..5 {
        assert_eq!(h.next_event(slow), Some(format!("e{}", i)));
    }
    assert_eq!(h.next_event(slow), None);
}

#[test]
fn late_subscriber_sees_only_later_events() {
    let mut h = Hub::new(10);
    let early = h.subscribe();
    h.publish(&String::from("a"));
    let late = h.subscribe();
    h.publish(&String::from("b"));
    assert_eq!(h.next_event(early), Some(String::from("a")));
    assert_eq!(h.next_event(early), Some(String::from("b")));
    assert_eq!(h.next_event(late), Some(String::from("b")));
    assert_eq!(h.next_event(late), None);
}

#[test]
fn overflow_drops_newest_and_keeps_subscriber() {
    let mut h = Hub::new(event_hub::DEFAULT_QUEUE_CAPACITY);
    let id = h.subscribe();
    for i in 0..20 {
        h.publish(&format!("e{}", i));
    }
    // The publisher never blocked; the queue holds the oldest ten events
    // (drop-newest), and the subscriber is still registered.
    assert!(h.is_subscribed(id));
    assert_eq!(h.queue_len(id), 10);
    for i in 0..10 {
        assert_eq!(h.next_event(id), Some(format!("e{}", i)));
    }
    assert_eq!(h.next_event(id), None);
    // Once drained, delivery resumes.
    h.publish(&String::from("fresh"));
    assert_eq!(h.next_event(id), Some(String::from("fresh")));
}

#[test]
fn queue_len_of_unknown_subscriber_is_zero() {
    let mut h = Hub::new(3);
    let id = h.subscribe();
    h.publish(&String::from("x"));
    assert_eq!(h.queue_len(id), 1);
    assert_eq!(h.queue_len(9999), 0);
}
