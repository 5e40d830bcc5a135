//! A websocket session on the server: its seat, the frames it receives from
//! its client, its heartbeat, and the strokes it gathers from its peers.
use vstd::prelude::*;

use std::collections::HashMap;

use crate::messages::{HandleMessage, Join, Response};

verus! {

broadcast use vstd::std_specs::hash::group_hash_axioms;

/// How often, in seconds, a session pings its client.
pub const HEARTBEAT_INTERVAL_SECS: u64 = 5;

/// How long, in seconds, a client may stay silent before its session stops.
pub const CLIENT_TIMEOUT_SECS: u64 = 10;

/// The three pointer events a client reports while drawing.
#[derive(PartialEq, Eq, Structural, Clone, Copy, Debug)]
pub enum StrokeEvent {
    /// The pointer went down: `"mousedown"`.
    Down,
    /// The pointer moved while down: `"mousemove"`.
    Move,
    /// The pointer went up: `"mouseup"`.
    Up,
}

/// The name of a pointer event on the wire.
pub open spec fn event_name_of(event: StrokeEvent) -> Seq<char> {
    match event {
        StrokeEvent::Down => "mousedown"@,
        StrokeEvent::Move => "mousemove"@,
        StrokeEvent::Up => "mouseup"@,
    }
}

/// The pointer event a wire name stands for, if any.
pub open spec fn event_of_name(name: Seq<char>) -> Option<StrokeEvent> {
    if name == "mousedown"@ {
        Some(StrokeEvent::Down)
    } else if name == "mousemove"@ {
        Some(StrokeEvent::Move)
    } else if name == "mouseup"@ {
        Some(StrokeEvent::Up)
    } else {
        None
    }
}

/// The wire name of a pointer event.
pub fn event_name(event: StrokeEvent) -> (name: &'static str)
    ensures
        name@ == event_name_of(event),
{
    match event {
        StrokeEvent::Down => "mousedown",
        StrokeEvent::Move => "mousemove",
        StrokeEvent::Up => "mouseup",
    }
}

/// The pointer event a wire name stands for; `None` for any other name.
pub fn stroke_event(name: &String) -> (event: Option<StrokeEvent>)
    ensures
        event == event_of_name(name@),
{
    if *name == "mousedown".to_owned() {
        Some(StrokeEvent::Down)
    } else if *name == "mousemove".to_owned() {
        Some(StrokeEvent::Move)
    } else if *name == "mouseup".to_owned() {
        Some(StrokeEvent::Up)
    } else {
        None
    }
}

/// The points gathered so far for `sender`; none where nothing is pending.
pub open spec fn pending_points<P>(strokes: Map<usize, Seq<P>>, sender: usize) -> Seq<P> {
    if strokes.contains_key(sender) {
        strokes[sender]
    } else {
        Seq::empty()
    }
}

/// One drawing event of `sender` at `point`: the gathered strokes after it,
/// and the stroke it completes, if any. Down and move add the point to the
/// sender's stroke; up adds it and hands the whole stroke out; an unknown
/// event changes nothing.
pub open spec fn stroke_step<P>(
    strokes: Map<usize, Seq<P>>,
    sender: usize,
    point: P,
    event: Option<StrokeEvent>,
) -> (Map<usize, Seq<P>>, Option<Seq<P>>) {
    let points = pending_points(strokes, sender).push(point);
    match event {
        Some(StrokeEvent::Up) => (strokes.remove(sender), Some(points)),
        Some(_) => (strokes.insert(sender, points), None),
        None => (strokes, None),
    }
}

/// A drawing event as a session reads it: who drew, where, which pointer
/// event, and with which tool.
pub struct ProcessedData<P> {
    pub id: usize,
    pub points: P,
    pub events: String,
    pub mode_set: String,
}

/// A finished stroke, handed back to the client to render with its tool.
pub struct Stroke<P> {
    pub mode_set: String,
    pub stroke: Vec<P>,
}

/// A websocket frame as the session sees it.
pub enum Frame {
    Ping,
    Pong,
    Text(String),
    Binary,
    /// A close, continuation or broken frame.
    Other,
}

/// What a session does with a frame.
pub enum FrameAction {
    /// Note the client alive and answer with a pong.
    Pong,
    /// Note the client alive.
    Alive,
    /// Hand the drawing event to the room server.
    Relay(HandleMessage),
    /// Log the bytes and do nothing else.
    Log,
    /// Stop the session.
    Stop,
}

/// What the heartbeat does.
#[derive(PartialEq, Eq, Structural, Clone, Copy, Debug)]
pub enum Heartbeat {
    /// The client answered recently: ping it again.
    Ping,
    /// The client timed out: stop the session.
    Stop,
}

/// Whether a client silent for `secs` seconds and `nanos` nanoseconds has
/// timed out: silent for strictly longer than the timeout.
pub open spec fn timed_out(secs: u64, nanos: u32) -> bool {
    secs * 1_000_000_000 + nanos > CLIENT_TIMEOUT_SECS * 1_000_000_000
}

/// The heartbeat decision for a client last heard from `secs` seconds and
/// `nanos` nanoseconds ago.
pub fn heartbeat(secs: u64, nanos: u32) -> (beat: Heartbeat)
    requires
        nanos < 1_000_000_000,
    ensures
        beat == (if timed_out(secs, nanos) { Heartbeat::Stop } else { Heartbeat::Ping }),
        (beat == Heartbeat::Stop) <==> (secs > 10 || (secs == 10 && nanos > 0)),
{
    if secs > CLIENT_TIMEOUT_SECS || (secs == CLIENT_TIMEOUT_SECS && nanos > 0) {
        Heartbeat::Stop
    } else {
        Heartbeat::Ping
    }
}

/// A drawing session: its seat and the strokes it is gathering, one per
/// peer. `P` is a point.
pub struct Draw<P> {
    pub id: usize,
    pub username: String,
    pub room: String,
    pub hashhash: HashMap<usize, Vec<P>>,
}

impl<P> Draw<P> {
    /// The strokes being gathered, by the id of the peer drawing them.
    pub open spec fn strokes(&self) -> Map<usize, Seq<P>> {
        self.hashhash@.map_values(|v: Vec<P>| v@)
    }

    /// A session not yet seated: id 0, the anonymous user, the main room,
    /// and no strokes.
    pub fn new() -> (d: Self)
        ensures
            d.id == 0,
            d.username@ == "Annonymous"@,
            d.room@ == "Main"@,
            d.strokes() == Map::<usize, Seq<P>>::empty(),
    {
        let d = Draw {
            id: 0,
            username: "Annonymous".to_owned(),
            room: "Main".to_owned(),
            hashhash: HashMap::new(),
        };
        assert(d.strokes() =~= Map::<usize, Seq<P>>::empty());
        d
    }

    /// The join request this session sends when it starts, reachable at `addr`.
    pub fn join_request<R>(&self, addr: R) -> (j: Join<R>)
        ensures
            j.username@ == self.username@,
            j.room@ == self.room@,
            j.addr == addr,
    {
        Join { username: self.username.clone(), room: self.room.clone(), addr }
    }

    /// Takes the seat the room server gave: id, room and user name.
    pub fn seat(&mut self, res: Response)
        ensures
            final(self).id == res.id,
            final(self).room@ == res.room@,
            final(self).username@ == res.username@,
            final(self).strokes() == old(self).strokes(),
    {
        self.id = res.id;
        self.room = res.room;
        self.username = res.username;
    }

    /// What to do with a frame from the client: pings and pongs keep it
    /// alive, text is a drawing event for the room, binary is logged, and
    /// anything else stops the session.
    pub fn on_frame(&self, frame: Frame) -> (action: FrameAction)
        ensures
            match frame {
                Frame::Ping => action is Pong,
                Frame::Pong => action is Alive,
                Frame::Text(text) => action matches FrameAction::Relay(m)
                    && m.id == self.id && m.room@ == self.room@ && m.msg@ == text@,
                Frame::Binary => action is Log,
                Frame::Other => action is Stop,
            },
    {
        match frame {
            Frame::Ping => FrameAction::Pong,
            Frame::Pong => FrameAction::Alive,
            Frame::Text(text) => FrameAction::Relay(HandleMessage { id: self.id, room: self.room.clone(), msg: text }),
            Frame::Binary => FrameAction::Log,
            Frame::Other => FrameAction::Stop,
        }
    }

    /// Takes a drawing event relayed from a peer. Down and move add the
    /// point to that peer's stroke; up adds it and returns the whole stroke
    /// with the event's tool, forgetting it here; any other event is ignored.
    pub fn handle_draw(&mut self, data: ProcessedData<P>) -> (out: Option<Stroke<P>>)
        ensures
            final(self).id == old(self).id,
            final(self).room@ == old(self).room@,
            final(self).username@ == old(self).username@,
            final(self).strokes() == stroke_step(old(self).strokes(), data.id, data.points, event_of_name(data.events@)).0,
            match stroke_step(old(self).strokes(), data.id, data.points, event_of_name(data.events@)).1 {
                Some(points) => out matches Some(s) && s.stroke@ == points && s.mode_set@ == data.mode_set@,
                None => out is None,
            },
    {
        let ProcessedData { id, points, events, mode_set } = data;
        let event = stroke_event(&events);
        match event {
            Some(StrokeEvent::Down) | Some(StrokeEvent::Move) => {
                if !self.hashhash.contains_key(&id) {
                    self.hashhash.insert(id, Vec::new());
                    assert(self.strokes() =~= old(self).strokes().insert(id, Seq::empty()));
                }
                assert(pending_points(self.strokes(), id) == pending_points(old(self).strokes(), id));
                self.push_point(id, points);
                assert(self.strokes() =~= stroke_step(old(self).strokes(), id, points, event).0);
                None
            },
            Some(StrokeEvent::Up) => {
                self.push_point(id, points);
                let ghost pushed = self.strokes();
                match self.hashhash.remove(&id) {
                    Some(stroke) => {
                        assert(self.strokes() =~= pushed.remove(id));
                        assert(self.strokes() =~= old(self).strokes().remove(id));
                        assert(stroke@ == pushed[id]);
                        Some(Stroke { mode_set, stroke })
                    },
                    None => {
                        assert(pushed.contains_key(id));
                        None
                    },
                }
            },
            None => None,
        }
    }

    /// Takes a drawing event relayed from session `sender`. The event is
    /// attributed to `sender`, whatever id its payload carries; otherwise it
    /// is handled as `handle_draw` says.
    pub fn handle_relayed(&mut self, sender: usize, data: ProcessedData<P>) -> (out: Option<Stroke<P>>)
        ensures
            final(self).id == old(self).id,
            final(self).room@ == old(self).room@,
            final(self).username@ == old(self).username@,
            final(self).strokes() == stroke_step(old(self).strokes(), sender, data.points, event_of_name(data.events@)).0,
            match stroke_step(old(self).strokes(), sender, data.points, event_of_name(data.events@)).1 {
                Some(points) => out matches Some(s) && s.stroke@ == points && s.mode_set@ == data.mode_set@,
                None => out is None,
            },
    {
        let ProcessedData { id: _, points, events, mode_set } = data;
        self.handle_draw(ProcessedData { id: sender, points, events, mode_set })
    }

    /// Adds `point` at the end of the stroke of `sender`, starting one where
    /// there is none.
    fn push_point(&mut self, sender: usize, point: P)
        ensures
            final(self).id == old(self).id,
            final(self).room == old(self).room,
            final(self).username == old(self).username,
            final(self).strokes() == old(self).strokes().insert(sender, pending_points(old(self).strokes(), sender).push(point)),
    {
        let mut points = match self.hashhash.remove(&sender) {
            Some(v) => v,
            None => Vec::new(),
        };
        points.push(point);
        self.hashhash.insert(sender, points);
        assert(self.strokes() =~= old(self).strokes().insert(sender, pending_points(old(self).strokes(), sender).push(point)));
    }
}

/// The gathered strokes after `sender`'s drawing events `steps`, in order,
/// each a point and the pointer event it came with.
pub open spec fn run_strokes<P>(
    strokes: Map<usize, Seq<P>>,
    sender: usize,
    steps: Seq<(P, Option<StrokeEvent>)>,
) -> Map<usize, Seq<P>>
    decreases steps.len(),
{
    if steps.len() == 0 {
        strokes
    } else {
        stroke_step(run_strokes(strokes, sender, steps.drop_last()), sender, steps.last().0, steps.last().1).0
    }
}

/// The drawing events of a gesture before the pointer goes up: down at
/// `first`, then a move to each of `moves`.
pub open spec fn gesture_steps<P>(first: P, moves: Seq<P>) -> Seq<(P, Option<StrokeEvent>)> {
    seq![(first, Some(StrokeEvent::Down))] + moves.map_values(|p: P| (p, Some(StrokeEvent::Move)))
}

/// Drawing events of one sender change no other sender's stroke.
pub proof fn lemma_stroke_step_isolation<P>(
    strokes: Map<usize, Seq<P>>,
    sender: usize,
    point: P,
    event: Option<StrokeEvent>,
    other: usize,
)
    requires
        other != sender,
    ensures
        pending_points(stroke_step(strokes, sender, point, event).0, other) == pending_points(strokes, other),
        stroke_step(strokes, sender, point, event).0.contains_key(other) == strokes.contains_key(other),
{
}

/// Down and move events add their points, in order, to the sender's stroke.
pub proof fn lemma_run_appends<P>(
    strokes: Map<usize, Seq<P>>,
    sender: usize,
    steps: Seq<(P, Option<StrokeEvent>)>,
)
    requires
        steps.len() > 0,
        forall|i: int| 0 <= i < steps.len() ==> (#[trigger] steps[i]).1 == Some(StrokeEvent::Down) || steps[i].1 == Some(StrokeEvent::Move),
    ensures
        run_strokes(strokes, sender, steps) == strokes.insert(
            sender,
            pending_points(strokes, sender) + steps.map_values(|s: (P, Option<StrokeEvent>)| s.0),
        ),
    decreases steps.len(),
{
    let rest = steps.drop_last();
    if rest.len() == 0 {
        assert(steps.map_values(|s: (P, Option<StrokeEvent>)| s.0) =~= seq![steps.last().0]);
        assert(run_strokes(strokes, sender, rest) == strokes);
        assert(pending_points(strokes, sender).push(steps.last().0) =~= pending_points(strokes, sender) + seq![steps.last().0]);
    } else {
        assert forall|i: int| 0 <= i < rest.len() implies (#[trigger] rest[i]).1 == Some(StrokeEvent::Down) || rest[i].1 == Some(StrokeEvent::Move) by {
            assert(rest[i] == steps[i]);
        }
        lemma_run_appends(strokes, sender, rest);
        assert(steps.last() == steps[steps.len() - 1]);
        let before = run_strokes(strokes, sender, rest);
        assert(pending_points(before, sender) == pending_points(strokes, sender) + rest.map_values(|s: (P, Option<StrokeEvent>)| s.0));
        assert(steps.map_values(|s: (P, Option<StrokeEvent>)| s.0) =~= rest.map_values(|s: (P, Option<StrokeEvent>)| s.0).push(steps.last().0));
        assert(pending_points(before, sender).push(steps.last().0) =~= pending_points(strokes, sender) + steps.map_values(|s: (P, Option<StrokeEvent>)| s.0));
        assert(before.insert(sender, pending_points(before, sender).push(steps.last().0)) =~= strokes.insert(
            sender,
            pending_points(strokes, sender) + steps.map_values(|s: (P, Option<StrokeEvent>)| s.0),
        ));
    }
}

/// A gesture (down at `first`, moves through `moves`, up at `last`) from a
/// sender with no stroke pending is handed out, at the up event, as one
/// stroke of exactly its points in order, and leaves the gathered strokes as
/// they were before it.
pub proof fn lemma_gesture_stroke<P>(strokes: Map<usize, Seq<P>>, sender: usize, first: P, moves: Seq<P>, last: P)
    requires
        !strokes.contains_key(sender),
    ensures
        stroke_step(run_strokes(strokes, sender, gesture_steps(first, moves)), sender, last, Some(StrokeEvent::Up))
            == (strokes, Some(seq![first] + moves + seq![last])),
{
    let steps = gesture_steps(first, moves);
    assert forall|i: int| 0 <= i < steps.len() implies (#[trigger] steps[i]).1 == Some(StrokeEvent::Down) || steps[i].1 == Some(StrokeEvent::Move) by {
        if i > 0 {
            assert(steps[i] == (moves[i - 1], Some(StrokeEvent::Move)));
        }
    }
    lemma_run_appends(strokes, sender, steps);
    assert(steps.map_values(|s: (P, Option<StrokeEvent>)| s.0) =~= seq![first] + moves);
    assert(pending_points(strokes, sender) =~= Seq::<P>::empty());
    let before = run_strokes(strokes, sender, steps);
    assert(pending_points(before, sender) =~= seq![first] + moves);
    assert(before.remove(sender) =~= strokes);
    assert(pending_points(before, sender).push(last) =~= seq![first] + moves + seq![last]);
}

/// Every pointer event is read back from its wire name.
pub proof fn lemma_event_name_round_trip(event: StrokeEvent)
    ensures
        event_of_name(event_name_of(event)) == Some(event),
{
    reveal_strlit("mousedown");
    reveal_strlit("mousemove");
    reveal_strlit("mouseup");
    assert("mousedown"@[5] != "mousemove"@[5]);
    assert("mousedown"@.len() != "mouseup"@.len());
    assert("mousemove"@.len() != "mouseup"@.len());
}

/// The gathered strokes after the relayed drawing events `steps`, in order:
/// each the sender, the point, and the pointer event.
pub open spec fn run_relayed<P>(
    strokes: Map<usize, Seq<P>>,
    steps: Seq<(usize, P, Option<StrokeEvent>)>,
) -> Map<usize, Seq<P>>
    decreases steps.len(),
{
    if steps.len() == 0 {
        strokes
    } else {
        let last = steps.last();
        stroke_step(run_relayed(strokes, steps.drop_last()), last.0, last.1, last.2).0
    }
}

/// The points `sender` drew in `steps`, in order.
pub open spec fn points_of<P>(steps: Seq<(usize, P, Option<StrokeEvent>)>, sender: usize) -> Seq<P>
    decreases steps.len(),
{
    if steps.len() == 0 {
        Seq::empty()
    } else if steps.last().0 == sender {
        points_of(steps.drop_last(), sender).push(steps.last().1)
    } else {
        points_of(steps.drop_last(), sender)
    }
}

/// Every event of `sender` in `steps` is a down or a move.
pub open spec fn only_draws<P>(steps: Seq<(usize, P, Option<StrokeEvent>)>, sender: usize) -> bool {
    forall|i: int|
        0 <= i < steps.len() && (#[trigger] steps[i]).0 == sender ==> steps[i].2 == Some(StrokeEvent::Down)
            || steps[i].2 == Some(StrokeEvent::Move)
}

/// While a sender only puts the pointer down or moves it, its stroke grows by
/// exactly its points, in order, whatever other senders do in between.
pub proof fn lemma_relayed_appends<P>(
    strokes: Map<usize, Seq<P>>,
    steps: Seq<(usize, P, Option<StrokeEvent>)>,
    sender: usize,
)
    requires
        only_draws(steps, sender),
    ensures
        pending_points(run_relayed(strokes, steps), sender) == pending_points(strokes, sender) + points_of(steps, sender),
    decreases steps.len(),
{
    if steps.len() == 0 {
        assert(pending_points(strokes, sender) + Seq::<P>::empty() =~= pending_points(strokes, sender));
    } else {
        let rest = steps.drop_last();
        let last = steps.last();
        assert forall|i: int| 0 <= i < rest.len() && (#[trigger] rest[i]).0 == sender implies rest[i].2 == Some(StrokeEvent::Down)
            || rest[i].2 == Some(StrokeEvent::Move) by {
            assert(rest[i] == steps[i]);
        }
        lemma_relayed_appends(strokes, rest, sender);
        let before = run_relayed(strokes, rest);
        if last.0 == sender {
            assert(steps[steps.len() - 1] == last);
            assert(pending_points(before, sender).push(last.1) =~= pending_points(strokes, sender) + points_of(steps, sender));
        } else {
            lemma_stroke_step_isolation(before, last.0, last.1, last.2, sender);
        }
    }
}

/// A sender's gesture comes back whole, even with other senders' events
/// interleaved: if the sender had no stroke pending and only put the pointer
/// down or moved it during `steps`, its up event at `last` hands out exactly
/// the points it drew, in order, followed by `last`; afterwards nothing is
/// pending for it, and every other sender's stroke is as it was.
pub proof fn lemma_interleaved_gesture<P>(
    strokes: Map<usize, Seq<P>>,
    steps: Seq<(usize, P, Option<StrokeEvent>)>,
    sender: usize,
    last: P,
)
    requires
        !strokes.contains_key(sender),
        only_draws(steps, sender),
    ensures
        ({
            let before = run_relayed(strokes, steps);
            let (after, out) = stroke_step(before, sender, last, Some(StrokeEvent::Up));
            &&& out == Some(points_of(steps, sender).push(last))
            &&& !after.contains_key(sender)
            &&& forall|other: usize| other != sender ==> pending_points(after, other) == pending_points(before, other)
        }),
{
    lemma_relayed_appends(strokes, steps, sender);
    assert(pending_points(strokes, sender) + points_of(steps, sender) =~= points_of(steps, sender));
}

/// A client times out exactly when it has been silent for strictly more than
/// ten seconds: any silence of eleven seconds or more times out, and none
/// of ten seconds or less does.
pub proof fn lemma_timeout_threshold(secs: u64, nanos: u32)
    requires
        nanos < 1_000_000_000,
    ensures
        timed_out(secs, nanos) <==> secs * 1_000_000_000 + nanos > 10_000_000_000,
        secs > 10 ==> timed_out(secs, nanos),
        secs < 10 ==> !timed_out(secs, nanos),
        secs == 10 ==> (timed_out(secs, nanos) <==> nanos > 0),
{
}

/// Timing out is monotone in the silence: a client that has timed out stays
/// timed out however much longer it stays silent.
pub proof fn lemma_timeout_monotone(secs: u64, nanos: u32, later_secs: u64, later_nanos: u32)
    requires
        nanos < 1_000_000_000,
        later_nanos < 1_000_000_000,
        secs * 1_000_000_000 + nanos <= later_secs * 1_000_000_000 + later_nanos,
        timed_out(secs, nanos),
    ensures
        timed_out(later_secs, later_nanos),
{
}

/// Only the three wire names stand for pointer events: a name read as an
/// event is that event's name.
pub proof fn lemma_event_names_only(name: Seq<char>)
    ensures
        event_of_name(name) matches Some(e) ==> name == event_name_of(e),
{
}

/// An event with an unknown name changes no stroke and hands out nothing;
/// down and move never hand out a stroke, and up always does.
pub proof fn lemma_step_outputs<P>(strokes: Map<usize, Seq<P>>, sender: usize, point: P, event: Option<StrokeEvent>)
    ensures
        event is None ==> stroke_step(strokes, sender, point, event) == (strokes, None::<Seq<P>>),
        (event == Some(StrokeEvent::Down) || event == Some(StrokeEvent::Move)) ==> stroke_step(strokes, sender, point, event).1 is None
            && stroke_step(strokes, sender, point, event).0.contains_key(sender)
            && stroke_step(strokes, sender, point, event).0[sender] == pending_points(strokes, sender).push(point),
        event == Some(StrokeEvent::Up) ==> stroke_step(strokes, sender, point, event).1 == Some(pending_points(strokes, sender).push(point))
            && !stroke_step(strokes, sender, point, event).0.contains_key(sender),
{
}

} // verus!
