use collaboard::canvas::{mode_name, received_mode, Mode, Outgoing, Pen, PenAction, Segment};
use collaboard::session::{Draw, ProcessedData, StrokeEvent, event_name};

#[test]
fn mode_names_round_trip() {
    assert_eq!(mode_name(Mode::Pencil), "pencil");
    assert_eq!(mode_name(Mode::Eraser), "eraser");
    assert_eq!(received_mode(&"pencil".to_string()), Some(Mode::Pencil));
    assert_eq!(received_mode(&"eraser".to_string()), Some(Mode::Eraser));
    assert_eq!(received_mode(&"marker".to_string()), None);
}

#[test]
fn pen_gesture_draws_and_sends() {
    let mut pen = Pen::new((0, 0));
    assert_eq!(pen, Pen { mode: Mode::Pencil, pressed: false, current: (0, 0) });
    pen.select(Mode::Eraser);
    assert_eq!(pen.mode, Mode::Eraser);
    let a = pen.press((1, 1));
    assert_eq!(a, PenAction { draw: None, send: Some(Outgoing { point: (1, 1), event: StrokeEvent::Down, mode: Mode::Eraser }) });
    assert!(pen.pressed);
    let b = pen.drag((2, 3));
    assert_eq!(b.draw, Some(Segment { from: (1, 1), to: (2, 3), mode: Mode::Eraser }));
    assert_eq!(b.send, Some(Outgoing { point: (2, 3), event: StrokeEvent::Move, mode: Mode::Eraser }));
    assert_eq!(pen.current, (2, 3));
    let c = pen.release((4, 4));
    assert_eq!(c.draw, Some(Segment { from: (2, 3), to: (4, 4), mode: Mode::Eraser }));
    assert_eq!(c.send, Some(Outgoing { point: (4, 4), event: StrokeEvent::Up, mode: Mode::Eraser }));
    assert!(!pen.pressed);
    assert_eq!(pen.current, (2, 3));
}

#[test]
fn raised_pen_ignores_moves() {
    let mut pen = Pen::new((0, 0));
    let a = pen.drag((5, 5));
    assert_eq!(a, PenAction { draw: None, send: None });
    assert_eq!(pen, Pen::new((0, 0)));
}

#[test]
fn gesture_comes_back_as_stroke() {
    let mut pen = Pen::new((0, 0));
    let mut session: Draw<(i32, i32)> = Draw::new();
    let mut sent: Vec<Outgoing<(i32, i32)>> = Vec::new();
    sent.push(pen.press((1, 1)).send.unwrap());
    sent.push(pen.drag((2, 2)).send.unwrap());
    sent.push(pen.drag((3, 3)).send.unwrap());
    sent.push(pen.release((4, 4)).send.unwrap());
    let mut result = None;
    for o in sent {
        result = session.handle_draw(ProcessedData {
            id: 6,
            points: o.point,
            events: event_name(o.event).to_string(),
            mode_set: mode_name(o.mode).to_string(),
        });
    }
    let stroke = result.unwrap();
    assert_eq!(stroke.stroke, vec![(1, 1), (2, 2), (3, 3), (4, 4)]);
    assert_eq!(received_mode(&stroke.mode_set), Some(Mode::Pencil));
}
