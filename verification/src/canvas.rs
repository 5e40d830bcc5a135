//! The browser side: the pen the user draws with, and how a stroke that
//! arrives from the server is rendered.
use vstd::prelude::*;

use crate::session::{gesture_steps, lemma_gesture_stroke, run_strokes, stroke_step, StrokeEvent};

verus! {

/// The drawing tool.
#[derive(PartialEq, Eq, Structural, Clone, Copy, Debug)]
pub enum Mode {
    /// Draws lines: `"pencil"`.
    Pencil,
    /// Clears what it passes over: `"eraser"`.
    Eraser,
}

/// The name of a tool on the wire.
pub open spec fn mode_name_of(mode: Mode) -> Seq<char> {
    match mode {
        Mode::Pencil => "pencil"@,
        Mode::Eraser => "eraser"@,
    }
}

/// The tool a wire name stands for, if any.
pub open spec fn mode_of_name(name: Seq<char>) -> Option<Mode> {
    if name == "pencil"@ {
        Some(Mode::Pencil)
    } else if name == "eraser"@ {
        Some(Mode::Eraser)
    } else {
        None
    }
}

/// The wire name of a tool.
pub fn mode_name(mode: Mode) -> (name: &'static str)
    ensures
        name@ == mode_name_of(mode),
{
    match mode {
        Mode::Pencil => "pencil",
        Mode::Eraser => "eraser",
    }
}

/// How a stroke received with tool name `mode_set` is rendered: traced for
/// the pencil, cleared for the eraser, and not at all for any other name.
pub fn received_mode(mode_set: &String) -> (mode: Option<Mode>)
    ensures
        mode == mode_of_name(mode_set@),
{
    if *mode_set == "pencil".to_owned() {
        Some(Mode::Pencil)
    } else if *mode_set == "eraser".to_owned() {
        Some(Mode::Eraser)
    } else {
        None
    }
}

/// A line to draw, or to clear along, on the local canvas.
#[derive(PartialEq, Eq, Structural, Clone, Copy, Debug)]
pub struct Segment<P> {
    pub from: P,
    pub to: P,
    pub mode: Mode,
}

/// A pointer event the client sends to the server.
#[derive(PartialEq, Eq, Structural, Clone, Copy, Debug)]
pub struct Outgoing<P> {
    pub point: P,
    pub event: StrokeEvent,
    pub mode: Mode,
}

/// What the pen does on a pointer event: draw locally, and tell the server.
#[derive(PartialEq, Eq, Structural, Clone, Copy, Debug)]
pub struct PenAction<P> {
    pub draw: Option<Segment<P>>,
    pub send: Option<Outgoing<P>>,
}

/// The pen: its tool, whether it is pressed, and where it last was.
#[derive(PartialEq, Eq, Structural, Clone, Copy, Debug)]
pub struct Pen<P> {
    pub mode: Mode,
    pub pressed: bool,
    pub current: P,
}

/// The pen and its action after the pointer goes down at `point`.
pub open spec fn pressed_at<P>(pen: Pen<P>, point: P) -> (Pen<P>, PenAction<P>) {
    (
        Pen { mode: pen.mode, pressed: true, current: point },
        PenAction { draw: None, send: Some(Outgoing { point, event: StrokeEvent::Down, mode: pen.mode }) },
    )
}

/// The pen and its action after the pointer moves to `point`.
pub open spec fn dragged_to<P>(pen: Pen<P>, point: P) -> (Pen<P>, PenAction<P>) {
    if pen.pressed {
        (
            Pen { current: point, ..pen },
            PenAction {
                draw: Some(Segment { from: pen.current, to: point, mode: pen.mode }),
                send: Some(Outgoing { point, event: StrokeEvent::Move, mode: pen.mode }),
            },
        )
    } else {
        (pen, PenAction { draw: None, send: None })
    }
}

/// The pen and its action after the pointer goes up at `point`.
pub open spec fn released_at<P>(pen: Pen<P>, point: P) -> (Pen<P>, PenAction<P>) {
    (
        Pen { pressed: false, ..pen },
        PenAction {
            draw: Some(Segment { from: pen.current, to: point, mode: pen.mode }),
            send: Some(Outgoing { point, event: StrokeEvent::Up, mode: pen.mode }),
        },
    )
}

impl<P: Copy> Pen<P> {
    /// A raised pencil resting at `origin`.
    pub fn new(origin: P) -> (pen: Self)
        ensures
            pen == (Pen { mode: Mode::Pencil, pressed: false, current: origin }),
    {
        Pen { mode: Mode::Pencil, pressed: false, current: origin }
    }

    /// Picks a tool.
    pub fn select(&mut self, mode: Mode)
        ensures
            *final(self) == (Pen { mode, ..*old(self) }),
    {
        self.mode = mode;
    }

    /// The pointer goes down at `point`: the pen is pressed there, and the
    /// server is told.
    pub fn press(&mut self, point: P) -> (action: PenAction<P>)
        ensures
            (*final(self), action) == pressed_at(*old(self), point),
    {
        self.current = point;
        self.pressed = true;
        PenAction { draw: None, send: Some(Outgoing { point, event: StrokeEvent::Down, mode: self.mode }) }
    }

    /// The pointer moves to `point`. A pressed pen draws from where it was to
    /// `point`, moves there and tells the server; a raised pen does nothing.
    pub fn drag(&mut self, point: P) -> (action: PenAction<P>)
        ensures
            (*final(self), action) == dragged_to(*old(self), point),
            old(self).pressed ==> action.draw == Some(Segment { from: old(self).current, to: point, mode: old(self).mode }),
    {
        if self.pressed {
            let from = self.current;
            self.current = point;
            PenAction {
                draw: Some(Segment { from, to: point, mode: self.mode }),
                send: Some(Outgoing { point, event: StrokeEvent::Move, mode: self.mode }),
            }
        } else {
            PenAction { draw: None, send: None }
        }
    }

    /// The pointer goes up at `point`: the pen draws from where it was to
    /// `point`, tells the server, and is raised. It is not moved.
    pub fn release(&mut self, point: P) -> (action: PenAction<P>)
        ensures
            (*final(self), action) == released_at(*old(self), point),
    {
        self.pressed = false;
        PenAction {
            draw: Some(Segment { from: self.current, to: point, mode: self.mode }),
            send: Some(Outgoing { point, event: StrokeEvent::Up, mode: self.mode }),
        }
    }
}

/// The pen after dragging through `moves`, and the actions of the drags.
pub open spec fn drag_through<P>(pen: Pen<P>, moves: Seq<P>) -> (Pen<P>, Seq<PenAction<P>>)
    decreases moves.len(),
{
    if moves.len() == 0 {
        (pen, Seq::empty())
    } else {
        let (before, actions) = drag_through(pen, moves.drop_last());
        let (after, action) = dragged_to(before, moves.last());
        (after, actions.push(action))
    }
}

/// The drawing event an outgoing message carries to the server.
pub open spec fn as_step<P>(out: Outgoing<P>) -> (P, Option<StrokeEvent>) {
    (out.point, Some(out.event))
}

/// A pressed pen dragged through `moves` stays pressed with its tool, ends
/// at the last point, and tells the server of each move, in order.
pub proof fn lemma_drag_through<P>(pen: Pen<P>, moves: Seq<P>)
    requires
        pen.pressed,
    ensures
        drag_through(pen, moves).0.pressed,
        drag_through(pen, moves).0.mode == pen.mode,
        drag_through(pen, moves).0.current == (if moves.len() == 0 { pen.current } else { moves.last() }),
        drag_through(pen, moves).1.len() == moves.len(),
        forall|i: int| 0 <= i < moves.len() ==> (#[trigger] drag_through(pen, moves).1[i]).send
            == Some(Outgoing { point: moves[i], event: StrokeEvent::Move, mode: pen.mode }),
        forall|i: int| 0 <= i < moves.len() ==> (#[trigger] drag_through(pen, moves).1[i]).draw
            == Some(Segment { from: if i == 0 { pen.current } else { moves[i - 1] }, to: moves[i], mode: pen.mode }),
    decreases moves.len(),
{
    if moves.len() > 0 {
        lemma_drag_through(pen, moves.drop_last());
        let (before, actions) = drag_through(pen, moves.drop_last());
        assert forall|i: int| 0 <= i < moves.len() implies (#[trigger] drag_through(pen, moves).1[i]).send
            == Some(Outgoing { point: moves[i], event: StrokeEvent::Move, mode: pen.mode }) by {
            if i < moves.len() - 1 {
                assert(drag_through(pen, moves).1[i] == actions[i]);
                assert(moves.drop_last()[i] == moves[i]);
            }
        }
        assert forall|i: int| 0 <= i < moves.len() implies (#[trigger] drag_through(pen, moves).1[i]).draw
            == Some(Segment { from: if i == 0 { pen.current } else { moves[i - 1] }, to: moves[i], mode: pen.mode }) by {
            if i < moves.len() - 1 {
                assert(drag_through(pen, moves).1[i] == actions[i]);
                assert(moves.drop_last()[i] == moves[i]);
                if i > 0 {
                    assert(moves.drop_last()[i - 1] == moves[i - 1]);
                }
            } else if i > 0 {
                assert(moves.drop_last().last() == moves[i - 1]);
            }
        }
    }
}

/// A gesture on the pen (down at `first`, moves through `moves`, up at
/// `last`) tells the server exactly the gesture's drawing events, with the
/// pen's tool, and leaves the pen raised.
pub proof fn lemma_pen_gesture<P>(pen: Pen<P>, first: P, moves: Seq<P>, last: P)
    ensures
        ({
            let (down, a0) = pressed_at(pen, first);
            let (dragged, actions) = drag_through(down, moves);
            let (up, a1) = released_at(dragged, last);
            &&& !up.pressed
            &&& up.mode == pen.mode
            &&& a0.send == Some(Outgoing { point: first, event: StrokeEvent::Down, mode: pen.mode })
            &&& actions.len() == moves.len()
            &&& forall|i: int| 0 <= i < moves.len() ==> (#[trigger] actions[i]).send
                == Some(Outgoing { point: moves[i], event: StrokeEvent::Move, mode: pen.mode })
            &&& a1.send == Some(Outgoing { point: last, event: StrokeEvent::Up, mode: pen.mode })
            &&& a0.draw is None
            &&& forall|i: int| 0 <= i < moves.len() ==> (#[trigger] actions[i]).draw
                == Some(Segment { from: if i == 0 { first } else { moves[i - 1] }, to: moves[i], mode: pen.mode })
            &&& a1.draw == Some(Segment { from: if moves.len() == 0 { first } else { moves.last() }, to: last, mode: pen.mode })
        }),
{
    let (down, a0) = pressed_at(pen, first);
    lemma_drag_through(down, moves);
}

/// Whatever the tool, a pressed pen dragged to a point draws from where it
/// was to that point and moves there; a raised pen neither draws, sends,
/// nor moves.
pub proof fn lemma_drag_draws<P>(pen: Pen<P>, point: P)
    ensures
        pen.pressed ==> dragged_to(pen, point).1.draw == Some(Segment { from: pen.current, to: point, mode: pen.mode }),
        pen.pressed ==> dragged_to(pen, point).0.current == point && dragged_to(pen, point).0.pressed,
        !pen.pressed ==> dragged_to(pen, point).1.draw is None && dragged_to(pen, point).1.send is None,
        !pen.pressed ==> dragged_to(pen, point).0 == pen,
{
}

/// Pressing draws nothing and puts the pen at the point; releasing draws
/// from where the pen was to the point, raises it, and leaves it where it was.
pub proof fn lemma_press_release_draws<P>(pen: Pen<P>, point: P)
    ensures
        pressed_at(pen, point).1.draw is None,
        pressed_at(pen, point).0.pressed && pressed_at(pen, point).0.current == point,
        released_at(pen, point).1.draw == Some(Segment { from: pen.current, to: point, mode: pen.mode }),
        !released_at(pen, point).0.pressed && released_at(pen, point).0.current == pen.current,
{
}

/// Every tool is read back from its wire name.
pub proof fn lemma_mode_name_round_trip(mode: Mode)
    ensures
        mode_of_name(mode_name_of(mode)) == Some(mode),
{
    reveal_strlit("pencil");
    reveal_strlit("eraser");
    assert("pencil"@[0] != "eraser"@[0]);
}

/// The messages the pen sends during a gesture: down at `first`, moves
/// through `moves`, up at `last`.
pub open spec fn gesture_sends<P>(pen: Pen<P>, first: P, moves: Seq<P>, last: P) -> Seq<Outgoing<P>> {
    let (down, a0) = pressed_at(pen, first);
    let (dragged, actions) = drag_through(down, moves);
    let (up, a1) = released_at(dragged, last);
    seq![a0.send.unwrap()] + actions.map_values(|a: PenAction<P>| a.send.unwrap()) + seq![a1.send.unwrap()]
}

/// What a client draws in one gesture comes back from the session of any
/// peer, at the up event, as one stroke of exactly the gesture's points in
/// order, tagged with the tool it was drawn with; the peer's other gathered
/// strokes are left as they were.
pub proof fn lemma_gesture_round_trip<P>(
    pen: Pen<P>,
    first: P,
    moves: Seq<P>,
    last: P,
    strokes: Map<usize, Seq<P>>,
    sender: usize,
)
    requires
        !strokes.contains_key(sender),
    ensures
        ({
            let steps = gesture_sends(pen, first, moves, last).map_values(|o: Outgoing<P>| as_step(o));
            &&& steps.len() == moves.len() + 2
            &&& stroke_step(run_strokes(strokes, sender, steps.drop_last()), sender, steps.last().0, steps.last().1)
                == (strokes, Some(seq![first] + moves + seq![last]))
        }),
        forall|i: int| 0 <= i < moves.len() + 2 ==> (#[trigger] gesture_sends(pen, first, moves, last)[i]).mode == pen.mode,
        mode_of_name(mode_name_of(pen.mode)) == Some(pen.mode),
{
    lemma_pen_gesture(pen, first, moves, last);
    lemma_mode_name_round_trip(pen.mode);
    let (down, a0) = pressed_at(pen, first);
    let (dragged, actions) = drag_through(down, moves);
    let sends = gesture_sends(pen, first, moves, last);
    let steps = sends.map_values(|o: Outgoing<P>| as_step(o));
    assert(sends.len() == moves.len() + 2);
    assert forall|i: int| 0 <= i < moves.len() implies sends[i + 1] == Outgoing { point: moves[i], event: StrokeEvent::Move, mode: pen.mode } by {
        assert(sends[i + 1] == actions[i].send.unwrap());
        assert(actions[i].send == Some(Outgoing { point: moves[i], event: StrokeEvent::Move, mode: pen.mode }));
    }
    assert(steps.drop_last() =~= gesture_steps(first, moves)) by {
        assert forall|i: int| 0 <= i < steps.drop_last().len() implies steps.drop_last()[i] == gesture_steps(first, moves)[i] by {
            if i > 0 {
                assert(sends[i] == Outgoing { point: moves[i - 1], event: StrokeEvent::Move, mode: pen.mode });
            }
        }
    }
    assert(steps.last() == (last, Some(StrokeEvent::Up)));
    lemma_gesture_stroke(strokes, sender, first, moves, last);
    assert forall|i: int| 0 <= i < moves.len() + 2 implies (#[trigger] sends[i]).mode == pen.mode by {
        if 0 < i < moves.len() + 1 {
            assert(sends[(i - 1) + 1] == Outgoing { point: moves[i - 1], event: StrokeEvent::Move, mode: pen.mode });
        }
    }
}

/// Only the two wire names stand for tools: a name read as a tool is that
/// tool's name, and any other name is rendered not at all.
pub proof fn lemma_mode_names_only(name: Seq<char>)
    ensures
        mode_of_name(name) matches Some(m) ==> name == mode_name_of(m),
{
}

} // verus!
