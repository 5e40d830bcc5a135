use collaboard::messages::Response;
use collaboard::session::{
    event_name, heartbeat, stroke_event, Draw, Frame, FrameAction, Heartbeat, ProcessedData, StrokeEvent,
    CLIENT_TIMEOUT_SECS, HEARTBEAT_INTERVAL_SECS,
};

fn ev(id: usize, p: (i32, i32), events: &str, mode: &str) -> ProcessedData<(i32, i32)> {
    ProcessedData { id, points: p, events: events.to_string(), mode_set: mode.to_string() }
}

#[test]
fn new_session_is_anonymous_in_main() {
    let d: Draw<(i32, i32)> = Draw::new();
    assert_eq!(d.id, 0);
    assert_eq!(d.username, "Annonymous");
    assert_eq!(d.room, "Main");
    assert!(d.hashhash.is_empty());
}

#[test]
fn session_takes_seat_and_asks_to_join() {
    let mut d: Draw<(i32, i32)> = Draw::new();
    let j = d.join_request(5u8);
    assert_eq!(j.username, "Annonymous");
    assert_eq!(j.room, "Main");
    assert_eq!(j.addr, 5u8);
    d.seat(Response { id: 99, room: "R".to_string(), username: "n".to_string() });
    assert_eq!(d.id, 99);
    assert_eq!(d.room, "R");
    assert_eq!(d.username, "n");
}

#[test]
fn gesture_is_handed_out_as_one_stroke() {
    let mut d: Draw<(i32, i32)> = Draw::new();
    assert!(d.handle_draw(ev(1, (0, 0), "mousedown", "pencil")).is_none());
    assert!(d.handle_draw(ev(1, (1, 2), "mousemove", "pencil")).is_none());
    assert!(d.handle_draw(ev(1, (3, 4), "mousemove", "pencil")).is_none());
    let s = d.handle_draw(ev(1, (5, 6), "mouseup", "pencil")).unwrap();
    assert_eq!(s.mode_set, "pencil");
    assert_eq!(s.stroke, vec![(0, 0), (1, 2), (3, 4), (5, 6)]);
    assert!(d.hashhash.is_empty());
}

#[test]
fn strokes_of_different_peers_do_not_mix() {
    let mut d: Draw<(i32, i32)> = Draw::new();
    d.handle_draw(ev(1, (0, 0), "mousedown", "pencil"));
    d.handle_draw(ev(2, (9, 9), "mousedown", "eraser"));
    d.handle_draw(ev(1, (1, 1), "mousemove", "pencil"));
    let s2 = d.handle_draw(ev(2, (8, 8), "mouseup", "eraser")).unwrap();
    assert_eq!(s2.stroke, vec![(9, 9), (8, 8)]);
    assert_eq!(s2.mode_set, "eraser");
    let s1 = d.handle_draw(ev(1, (2, 2), "mouseup", "pencil")).unwrap();
    assert_eq!(s1.stroke, vec![(0, 0), (1, 1), (2, 2)]);
}

#[test]
fn mousedown_does_not_reset_an_unfinished_stroke() {
    let mut d: Draw<(i32, i32)> = Draw::new();
    d.handle_draw(ev(1, (0, 0), "mousedown", "pencil"));
    d.handle_draw(ev(1, (1, 1), "mousedown", "pencil"));
    let s = d.handle_draw(ev(1, (2, 2), "mouseup", "pencil")).unwrap();
    assert_eq!(s.stroke, vec![(0, 0), (1, 1), (2, 2)]);
}

#[test]
fn lone_mouseup_is_a_one_point_stroke() {
    let mut d: Draw<(i32, i32)> = Draw::new();
    let s = d.handle_draw(ev(3, (7, 7), "mouseup", "eraser")).unwrap();
    assert_eq!(s.stroke, vec![(7, 7)]);
}

#[test]
fn unknown_event_changes_nothing() {
    let mut d: Draw<(i32, i32)> = Draw::new();
    d.handle_draw(ev(1, (0, 0), "mousedown", "pencil"));
    assert!(d.handle_draw(ev(1, (5, 5), "click", "pencil")).is_none());
    assert!(d.handle_draw(ev(2, (5, 5), "MouseUp", "pencil")).is_none());
    let s = d.handle_draw(ev(1, (1, 1), "mouseup", "pencil")).unwrap();
    assert_eq!(s.stroke, vec![(0, 0), (1, 1)]);
}

#[test]
fn event_names_round_trip() {
    for e in [StrokeEvent::Down, StrokeEvent::Move, StrokeEvent::Up] {
        assert_eq!(stroke_event(&event_name(e).to_string()), Some(e));
    }
    assert_eq!(event_name(StrokeEvent::Down), "mousedown");
    assert_eq!(event_name(StrokeEvent::Move), "mousemove");
    assert_eq!(event_name(StrokeEvent::Up), "mouseup");
    assert_eq!(stroke_event(&"touchstart".to_string()), None);
}

#[test]
fn heartbeat_stops_only_after_timeout() {
    assert_eq!(HEARTBEAT_INTERVAL_SECS, 5);
    assert_eq!(CLIENT_TIMEOUT_SECS, 10);
    assert_eq!(heartbeat(0, 0), Heartbeat::Ping);
    assert_eq!(heartbeat(9, 999_999_999), Heartbeat::Ping);
    assert_eq!(heartbeat(10, 0), Heartbeat::Ping);
    assert_eq!(heartbeat(10, 1), Heartbeat::Stop);
    assert_eq!(heartbeat(11, 0), Heartbeat::Stop);
}

#[test]
fn frames_are_dispatched() {
    let mut d: Draw<(i32, i32)> = Draw::new();
    d.seat(Response { id: 12, room: "Room".to_string(), username: "u".to_string() });
    assert!(matches!(d.on_frame(Frame::Ping), FrameAction::Pong));
    assert!(matches!(d.on_frame(Frame::Pong), FrameAction::Alive));
    assert!(matches!(d.on_frame(Frame::Binary), FrameAction::Log));
    assert!(matches!(d.on_frame(Frame::Other), FrameAction::Stop));
    match d.on_frame(Frame::Text("{\"a\":1}".to_string())) {
        FrameAction::Relay(m) => {
            assert_eq!(m.id, 12);
            assert_eq!(m.room, "Room");
            assert_eq!(m.msg, "{\"a\":1}");
        }
        _ => panic!("text must be relayed"),
    }
}

#[test]
fn relayed_event_is_attributed_to_sender() {
    let mut d: Draw<(i32, i32)> = Draw::new();
    assert!(d.handle_relayed(4, ev(999, (1, 1), "mousedown", "pencil")).is_none());
    assert!(d.hashhash.contains_key(&4));
    assert!(!d.hashhash.contains_key(&999));
    assert!(d.handle_relayed(4, ev(7, (2, 2), "mousemove", "pencil")).is_none());
    let s = d.handle_relayed(4, ev(0, (3, 3), "mouseup", "pencil")).unwrap();
    assert_eq!(s.stroke, vec![(1, 1), (2, 2), (3, 3)]);
    assert!(d.hashhash.is_empty());
}

#[test]
fn long_gesture_survives_interleaved_peers() {
    let mut d: Draw<(i32, i32)> = Draw::new();
    d.handle_relayed(2, ev(2, (100, 100), "mousedown", "eraser"));
    d.handle_relayed(1, ev(1, (0, 0), "mousedown", "pencil"));
    for k in 1..20 {
        d.handle_relayed(1, ev(1, (k, k), "mousemove", "pencil"));
        d.handle_relayed(3, ev(3, (-k, k), "mousemove", "pencil"));
        if k == 10 {
            let e = d.handle_relayed(2, ev(2, (101, 101), "mouseup", "eraser")).unwrap();
            assert_eq!(e.stroke, vec![(100, 100), (101, 101)]);
        }
    }
    let s = d.handle_relayed(1, ev(1, (50, 50), "mouseup", "pencil")).unwrap();
    let mut expected: Vec<(i32, i32)> = (0..20).map(|k| (k, k)).collect();
    expected.push((50, 50));
    assert_eq!(s.stroke, expected);
    assert_eq!(s.mode_set, "pencil");
    assert!(!d.hashhash.contains_key(&1));
    assert_eq!(d.hashhash.get(&3).map(|v| v.len()), Some(19));
}
