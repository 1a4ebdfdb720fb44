use event_hub::hub::Hub;
use event_hub::producer::on_demand_command;
use event_hub::producer::publish_command_output;
use event_hub::producer::tick;
use event_hub::producer::ticker_payload;
use event_hub::producer::CmdError;

#[test]
fn the_command_is_fixed_and_pre_declared() {
    let (program, argument) = on_demand_command();
    assert_eq!(program, "echo");
    assert_eq!(argument, "hello");
}

#[test]
fn ticker_publishes_fixed_payload() {
    let mut h = Hub::new(10);
    let id = h.subscribe();
    tick(&mut h);
    tick(&mut h);
    assert_eq!(ticker_payload(), "1");
    assert_eq!(h.next_event(id), Some(String::from("1")));
    assert_eq!(h.next_event(id), Some(String::from("1")));
    assert_eq!(h.next_event(id), None);
}

#[test]
fn ticker_survives_zero_subscribers() {
    let mut h = Hub::new(10);
    // No subscribers: a beat is a defined no-op, never an error.
    tick(&mut h);
    assert_eq!(h.subscriber_count(), 0);
}

#[test]
fn command_output_reaches_all_current_subscribers() {
    let mut h = Hub::new(10);
    let s1 = h.subscribe();
    let s2 = h.subscribe();
    let out = publish_command_output(&mut h, Ok(Vec::from("hello\n".as_bytes())));
    assert_eq!(out, Ok(()));
    // Exactly one event, with the captured output byte for byte.
    assert_eq!(h.next_event(s1), Some(String::from("hello\n")));
    assert_eq!(h.next_event(s1), None);
    assert_eq!(h.next_event(s2), Some(String::from("hello\n")));
    assert_eq!(h.next_event(s2), None);
    // A subscriber registered only after completion sees nothing of it.
    let late = h.subscribe();
    assert_eq!(h.next_event(late), None);
}

#[test]
fn launch_failure_publishes_nothing() {
    let mut h = Hub::new(10);
    let id = h.subscribe();
    let out = publish_command_output(&mut h, Err(CmdError::LaunchFailed));
    assert_eq!(out, Err(CmdError::LaunchFailed));
    assert_eq!(h.next_event(id), None);
}

#[test]
fn exit_failure_publishes_nothing() {
    let mut h = Hub::new(10);
    let id = h.subscribe();
    let out = publish_command_output(&mut h, Err(CmdError::ExitFailure));
    assert_eq!(out, Err(CmdError::ExitFailure));
    assert_eq!(h.next_event(id), None);
}

#[test]
fn command_publish_never_blocks_on_a_full_queue() {
    let mut h = Hub::new(10);
    let id = h.subscribe();
    for i in 0..10 {
        h.publish(&format!("e{}", i));
    }
    // The lagging subscriber's queue is full and never read: the command
    // still reports success promptly, the event is dropped for that
    // subscriber, and its queue is left exactly as it was.
    let out = publish_command_output(&mut h, Ok(Vec::from("hello\n".as_bytes())));
    assert_eq!(out, Ok(()));
    assert!(h.is_subscribed(id));
    assert_eq!(h.queue_len(id), 10);
    for i in 0..10 {
        assert_eq!(h.next_event(id), Some(format!("e{}", i)));
    }
    assert_eq!(h.next_event(id), None);
}

#[test]
fn undecodable_output_publishes_nothing() {
    let mut h = Hub::new(10);
    let id = h.subscribe();
    let out = publish_command_output(&mut h, Ok(vec![0xff, 0xfe, 0x00]));
    assert_eq!(out, Err(CmdError::InvalidOutput));
    assert_eq!(h.next_event(id), None);
    // Valid output still goes through afterwards.
    let out = publish_command_output(&mut h, Ok(Vec::from("ok".as_bytes())));
    assert_eq!(out, Ok(()));
    assert_eq!(h.next_event(id), Some(String::from("ok")));
}
