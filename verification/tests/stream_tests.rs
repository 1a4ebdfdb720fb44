use event_hub::stream::StreamAction;
use event_hub::stream::StreamAdapter;
use event_hub::stream::StreamInput;
use event_hub::stream::default_keep_alive_text;
use event_hub::stream::frame_event;
use event_hub::stream::frame_keep_alive;

#[test]
fn event_frame_wraps_and_frames() {
    assert_eq!(frame_event("msg"), "data: <div>msg</div>\n\n");
    assert_eq!(frame_event(""), "data: <div></div>\n\n");
}

#[test]
fn newline_in_payload_starts_a_fresh_data_field() {
    // The on-demand producer's own output ends in a newline: the frame
    // breaks it across data fields, so the peer reassembles it whole.
    assert_eq!(frame_event("hello\n"), "data: <div>hello\ndata: </div>\n\n");
    assert_eq!(frame_event("a\nb"), "data: <div>a\ndata: b</div>\n\n");
    // A carriage return breaks a field too, and a CRLF pair breaks twice.
    assert_eq!(frame_event("a\r\nb"), "data: <div>a\rdata: \ndata: b</div>\n\n");
    assert_eq!(frame_event("\n"), "data: <div>\ndata: </div>\n\n");
}

#[test]
fn keep_alive_frame_is_a_comment() {
    assert_eq!(frame_keep_alive("keep-alive-text"), ": keep-alive-text\n\n");
    assert_eq!(default_keep_alive_text(), "keep-alive-text");
}

#[test]
fn keep_alive_never_equals_a_data_frame() {
    // Even a payload spelled to imitate the sentinel stays distinct on the wire.
    assert_ne!(frame_event("keep-alive-text"), frame_keep_alive("keep-alive-text"));
    assert_ne!(frame_event(""), frame_keep_alive(""));
}

#[test]
fn delivered_event_is_emitted() {
    let mut a = StreamAdapter::new(600, default_keep_alive_text());
    match a.step(StreamInput::Delivered(String::from("hi"))) {
        StreamAction::Emit(f) => assert_eq!(f, "data: <div>hi</div>\n\n"),
        _ => panic!("a delivered event must be emitted"),
    }
    match a.step(StreamInput::Delivered(String::from("hello\n"))) {
        StreamAction::Emit(f) => assert_eq!(f, "data: <div>hello\ndata: </div>\n\n"),
        _ => panic!("a delivered event must be emitted"),
    }
}

#[test]
fn idle_connection_gets_keep_alive_and_stays_open() {
    let mut a = StreamAdapter::new(600, default_keep_alive_text());
    // Not idle long enough: nothing goes out.
    match a.step(StreamInput::Idle(599)) {
        StreamAction::Wait => {}
        _ => panic!("below the keep-alive interval the adapter waits"),
    }
    // Idle for the full interval: a keep-alive goes out, the stream goes on.
    match a.step(StreamInput::Idle(600)) {
        StreamAction::Emit(f) => assert_eq!(f, ": keep-alive-text\n\n"),
        _ => panic!("at the keep-alive interval a keep-alive is emitted"),
    }
    match a.step(StreamInput::Delivered(String::from("still here"))) {
        StreamAction::Emit(f) => assert_eq!(f, "data: <div>still here</div>\n\n"),
        _ => panic!("the connection stayed open"),
    }
}

#[test]
fn close_ends_the_sequence_permanently() {
    let mut a = StreamAdapter::new(600, default_keep_alive_text());
    match a.step(StreamInput::Closed) {
        StreamAction::End => {}
        _ => panic!("a close ends the sequence"),
    }
    // Once ended, every further step answers End, never another frame.
    match a.step(StreamInput::Delivered(String::from("too late"))) {
        StreamAction::End => {}
        _ => panic!("an ended adapter only ever answers End"),
    }
    match a.step(StreamInput::Idle(10_000)) {
        StreamAction::End => {}
        _ => panic!("an ended adapter only ever answers End"),
    }
}
