//! The room server: which sessions exist, which rooms they sit in, and who
//! receives a drawing event.
use vstd::prelude::*;

use std::collections::{HashMap, HashSet};

use rand::rngs::ThreadRng;
use vstd::hash_map::StringHashMap;
use vstd::std_specs::iter::IteratorSpec;

use crate::messages::{Bridge, DrawData, HandleMessage, Join, Response};
use crate::random::{new_thread_rng, random_usize};

verus! {

broadcast use vstd::std_specs::hash::group_hash_axioms, vstd::hash_map::group_hash_map_axioms;

/// The room every server starts with.
pub open spec fn main_room() -> Seq<char> {
    "Main"@
}

/// The abstract state of the room server.
pub struct HashState<R> {
    /// Each session id and the address it is reached at.
    pub sessions: Map<usize, R>,
    /// Each room and the ids of its members.
    pub rooms: Map<Seq<char>, Set<usize>>,
    /// User names announced by bridges and not yet taken by a session, newest last.
    pub pending_users: Seq<Seq<char>>,
    /// Room codes announced by bridges and not yet taken by a session, newest last.
    pub pending_rooms: Seq<Seq<char>>,
}

impl<R> HashState<R> {
    /// What every reachable state of the server satisfies: names and rooms are
    /// announced in pairs, the main room exists, and every member of a room is
    /// a session.
    pub open spec fn inv(self) -> bool {
        &&& self.pending_users.len() == self.pending_rooms.len()
        &&& self.rooms.contains_key(main_room())
        &&& forall|r: Seq<char>, id: usize|
            #![trigger self.rooms[r].contains(id)]
            self.rooms.contains_key(r) && self.rooms[r].contains(id) ==> self.sessions.contains_key(id)
    }

    /// The members of `room`; none where the room does not exist.
    pub open spec fn members(self, room: Seq<char>) -> Set<usize> {
        if self.rooms.contains_key(room) {
            self.rooms[room]
        } else {
            Set::empty()
        }
    }

    /// The user name a session joining with `requested` gets: the newest
    /// pending one, if any.
    pub open spec fn joined_name(self, requested: Seq<char>) -> Seq<char> {
        if self.pending_users.len() == 0 {
            requested
        } else {
            self.pending_users.last()
        }
    }

    /// The room a session asking for `requested` gets: the newest pending
    /// room code, if any.
    pub open spec fn joined_room(self, requested: Seq<char>) -> Seq<char> {
        if self.pending_rooms.len() == 0 {
            requested
        } else {
            self.pending_rooms.last()
        }
    }

    /// The state after a bridge announces `username` and `roomcode`.
    pub open spec fn after_bridge(self, username: Seq<char>, roomcode: Seq<char>) -> HashState<R> {
        HashState {
            pending_users: self.pending_users.push(username),
            pending_rooms: self.pending_rooms.push(roomcode),
            ..self
        }
    }

    /// The state after session `id`, reached at `addr`, joins asking for
    /// `username` and `room`.
    pub open spec fn after_join(self, id: usize, username: Seq<char>, room: Seq<char>, addr: R) -> HashState<R> {
        let r = self.joined_room(room);
        HashState {
            sessions: self.sessions.insert(id, addr),
            rooms: self.rooms.insert(r, self.members(r).insert(id)),
            pending_users: if self.pending_users.len() == 0 {
                self.pending_users
            } else {
                self.pending_users.drop_last()
            },
            pending_rooms: if self.pending_rooms.len() == 0 {
                self.pending_rooms
            } else {
                self.pending_rooms.drop_last()
            },
        }
    }

    /// Who receives what session `sender` says in `room`: the other members
    /// of the room that are sessions.
    pub open spec fn recipients(self, room: Seq<char>, sender: usize) -> Set<usize> {
        self.members(room).filter(|id: usize| id != sender && self.sessions.contains_key(id))
    }
}

/// The state of the room server: sessions, rooms, and the bridges not yet
/// taken by a joining session, newest last.
struct Rooms<R> {
    sessions: HashMap<usize, R>,
    rooms: StringHashMap<HashSet<usize>>,
    pending: Vec<Bridge>,
}

impl<R> View for Rooms<R> {
    type V = HashState<R>;

    closed spec fn view(&self) -> HashState<R> {
        HashState {
            sessions: self.sessions@,
            rooms: self.rooms@.map_values(|s: HashSet<usize>| s@),
            pending_users: self.pending@.map_values(|b: Bridge| b.username@),
            pending_rooms: self.pending@.map_values(|b: Bridge| b.roomcode@),
        }
    }
}

/// The room server. `R` is the address a session is reached at.
pub struct Hash<R> {
    state: Rooms<R>,
    rng: ThreadRng,
}

impl<R> View for Hash<R> {
    type V = HashState<R>;

    closed spec fn view(&self) -> HashState<R> {
        self.state@
    }
}

/// Copies a set of ids.
fn copy_ids(set: &HashSet<usize>) -> (copy: HashSet<usize>)
    ensures
        copy@ == set@,
{
    let ghost keys = vstd::std_specs::hash::spec_hash_keys_iter(set).remaining().unref();
    let mut copy: HashSet<usize> = HashSet::new();
    for x in it: set.iter()
        invariant
            it.seq().unref() == keys,
            copy@ == Set::new(|v: usize| exists|j: int| 0 <= j < it.index() && keys[j] == v),
    {
        copy.insert(*x);
        assert(copy@ =~= Set::new(|v: usize| exists|j: int| 0 <= j < it.index() + 1 && keys[j] == v));
    }
    assert(copy@ =~= keys.to_set());
    copy
}

/// The ids of the deliveries, in order.
pub open spec fn delivered_ids(out: Seq<(usize, DrawData)>) -> Seq<usize> {
    out.map_values(|d: (usize, DrawData)| d.0)
}

impl<R> Rooms<R> {
    /// The starting state: no sessions, nothing pending, only the empty
    /// main room.
    fn new() -> (r: Self)
        ensures
            r@.sessions == Map::<usize, R>::empty(),
            r@.rooms == Map::<Seq<char>, Set<usize>>::empty().insert(main_room(), Set::empty()),
            r@.pending_users == Seq::<Seq<char>>::empty(),
            r@.pending_rooms == Seq::<Seq<char>>::empty(),
            r@.inv(),
    {
        let mut rooms: StringHashMap<HashSet<usize>> = StringHashMap::new();
        rooms.insert("Main".to_owned(), HashSet::new());
        let r = Rooms { sessions: HashMap::new(), rooms, pending: Vec::new() };
        assert(r@.rooms =~= Map::<Seq<char>, Set<usize>>::empty().insert(main_room(), Set::empty()));
        assert(r@.pending_users =~= Seq::<Seq<char>>::empty());
        assert(r@.pending_rooms =~= Seq::<Seq<char>>::empty());
        r
    }

    fn bridge(&mut self, msg: Bridge)
        ensures
            final(self)@ == old(self)@.after_bridge(msg.username@, msg.roomcode@),
    {
        let ghost b = msg;
        self.pending.push(msg);
        assert(self@.pending_users =~= old(self)@.pending_users.push(b.username@));
        assert(self@.pending_rooms =~= old(self)@.pending_rooms.push(b.roomcode@));
    }

    /// Adds session `id` to `room`, creating the room where it does not exist.
    fn add_member(&mut self, room: &String, id: usize)
        ensures
            final(self)@ == (HashState {
                rooms: old(self)@.rooms.insert(room@, old(self)@.members(room@).insert(id)),
                ..old(self)@
            }),
    {
        let mut members = match self.rooms.get(room.as_str()) {
            Some(set) => copy_ids(set),
            None => HashSet::new(),
        };
        members.insert(id);
        self.rooms.insert(room.clone(), members);
        assert(self@.rooms =~= old(self)@.rooms.insert(room@, old(self)@.members(room@).insert(id)));
    }

    fn join_with_id(&mut self, id: usize, msg: Join<R>) -> (res: Response)
        ensures
            final(self)@ == old(self)@.after_join(id, msg.username@, msg.room@, msg.addr),
            res.id == id,
            res.username@ == old(self)@.joined_name(msg.username@),
            res.room@ == old(self)@.joined_room(msg.room@),
    {
        let Join { username, room, addr } = msg;
        let (username, room) = match self.pending.pop() {
            Some(b) => (b.username, b.roomcode),
            None => (username, room),
        };
        self.sessions.insert(id, addr);
        assert(self@.pending_users =~= old(self)@.after_join(id, msg.username@, msg.room@, msg.addr).pending_users);
        assert(self@.pending_rooms =~= old(self)@.after_join(id, msg.username@, msg.room@, msg.addr).pending_rooms);
        self.add_member(&room, id);
        Response { id, room, username }
    }
}

impl<R> Hash<R> {
    /// Every server is in a reachable state.
    #[verifier::type_invariant]
    closed spec fn wf(self) -> bool {
        self@.inv()
    }

    /// Hands the state out for a change, leaving a fresh one in its place.
    fn take_state(&mut self) -> (state: Rooms<R>)
        ensures
            state@ == old(self)@,
            state@.inv(),
            final(self).rng == old(self).rng,
    {
        proof {
            use_type_invariant(&*self);
        }
        let mut state = Rooms::new();
        std::mem::swap(&mut state, &mut self.state);
        state
    }

    /// Records a bridge: its user name and room code wait for the next
    /// session that joins.
    pub fn handle_bridge(&mut self, msg: Bridge)
        ensures
            final(self)@.inv(),
            final(self)@ == old(self)@.after_bridge(msg.username@, msg.roomcode@),
            final(self)@.sessions == old(self)@.sessions,
            final(self)@.rooms == old(self)@.rooms,
            final(self)@.pending_users == old(self)@.pending_users.push(msg.username@),
            final(self)@.pending_rooms == old(self)@.pending_rooms.push(msg.roomcode@),
    {
        let mut state = self.take_state();
        state.bridge(msg);
        proof {
            lemma_bridge_keeps_inv(old(self)@, msg.username@, msg.roomcode@);
        }
        self.state = state;
    }

    /// Seats session `id`, reached at `msg.addr`: it takes the user name and
    /// room code of the newest pending bridge if there is one, else the ones
    /// it asked for, and becomes a member of that room.
    pub fn join_with_id(&mut self, id: usize, msg: Join<R>) -> (res: Response)
        ensures
            final(self)@.inv(),
            final(self)@ == old(self)@.after_join(id, msg.username@, msg.room@, msg.addr),
            res.id == id,
            res.username@ == old(self)@.joined_name(msg.username@),
            res.room@ == old(self)@.joined_room(msg.room@),
            final(self)@.sessions == old(self)@.sessions.insert(id, msg.addr),
            final(self)@.members(res.room@) == old(self)@.members(res.room@).insert(id),
    {
        let mut state = self.take_state();
        let res = state.join_with_id(id, msg);
        proof {
            lemma_join_keeps_inv(old(self)@, id, msg.username@, msg.room@, msg.addr);
        }
        self.state = state;
        res
    }

    /// Seats a joining session under a freshly drawn random id. The id is
    /// returned in the response; whatever it is, the server changes as
    /// `join_with_id` says for that id.
    pub fn handle_join(&mut self, msg: Join<R>) -> (res: Response)
        ensures
            final(self)@.inv(),
            final(self)@ == old(self)@.after_join(res.id, msg.username@, msg.room@, msg.addr),
            res.username@ == old(self)@.joined_name(msg.username@),
            res.room@ == old(self)@.joined_room(msg.room@),
    {
        proof {
            use_type_invariant(&*self);
        }
        let id = random_usize(&mut self.rng);
        self.join_with_id(id, msg)
    }

    /// The deliveries of a drawing event that session `skip_id` sent in
    /// `room`: one `DrawData` carrying `message` and the sender's id for each
    /// recipient, each recipient once.
    pub fn send_message(&self, room: &str, message: &str, skip_id: usize) -> (out: Vec<(usize, DrawData)>)
        ensures
            delivered_ids(out@).no_duplicates(),
            delivered_ids(out@).to_set() == self@.recipients(room@, skip_id),
            forall|i: int| 0 <= i < out@.len() ==> (#[trigger] out@[i]).1.id == skip_id && out@[i].1.data@ == message@,
    {
        let mut out: Vec<(usize, DrawData)> = Vec::new();
        match self.state.rooms.get(room) {
            Some(members) => {
                let ghost keys = vstd::std_specs::hash::spec_hash_keys_iter(members).remaining().unref();
                let ghost wanted = self@.recipients(room@, skip_id);
                let ghost mut pos: Seq<int> = Seq::empty();
                for x in it: members.iter()
                    invariant
                        it.seq().unref() == keys,
                        keys.no_duplicates(),
                        keys.to_set() == members@,
                        members@ == self@.members(room@),
                        wanted == self@.recipients(room@, skip_id),
                        delivered_ids(out@).no_duplicates(),
                        delivered_ids(out@).to_set() == Set::new(|v: usize| exists|j: int| 0 <= j < it.index() && keys[j] == v && wanted.contains(v)),
                        pos.len() == out@.len(),
                        forall|i: int| 0 <= i < out@.len() ==> 0 <= #[trigger] pos[i] < it.index() && keys[pos[i]] == out@[i].0,
                        forall|i: int| 0 <= i < out@.len() ==> (#[trigger] out@[i]).1.id == skip_id && out@[i].1.data@ == message@,
                {
                    let ghost old_out = out@;
                    let ghost k = it.index();
                    let id = *x;
                    assert(id == keys[k]);
                    assert(keys.contains(id));
                    assert(self@.members(room@).contains(id));
                    let wanted_id = id != skip_id && self.state.sessions.contains_key(&id);
                    assert(wanted_id == wanted.contains(id));
                    if wanted_id {
                        out.push((id, DrawData { id: skip_id, data: message.to_owned() }));
                        proof {
                            assert forall|i: int| 0 <= i < old_out.len() implies old_out[i].0 != id by {
                                assert(keys[pos[i]] != keys[k]);
                            }
                            pos = pos.push(k);
                            assert(delivered_ids(out@) =~= delivered_ids(old_out).push(id));
                        }
                    }
                    proof {
                        let old_ids = delivered_ids(old_out);
                        let ids = delivered_ids(out@);
                        assert(ids.len() >= old_ids.len());
                        assert(forall|i: int| 0 <= i < old_ids.len() ==> ids[i] == old_ids[i]);
                        assert forall|v: usize| ids.contains(v) <==> (exists|j: int| 0 <= j < k + 1 && keys[j] == v && wanted.contains(v)) by {
                            if ids.contains(v) {
                                let i = choose|i: int| 0 <= i < ids.len() && ids[i] == v;
                                if i < old_ids.len() {
                                    assert(old_ids[i] == v);
                                    assert(old_ids.to_set().contains(v));
                                } else {
                                    assert(v == keys[k]);
                                }
                            }
                            if exists|j: int| 0 <= j < k + 1 && keys[j] == v && wanted.contains(v) {
                                let j = choose|j: int| 0 <= j < k + 1 && keys[j] == v && wanted.contains(v);
                                if j < k {
                                    assert(old_ids.to_set().contains(v));
                                    let i = choose|i: int| 0 <= i < old_ids.len() && old_ids[i] == v;
                                    assert(ids[i] == v);
                                } else {
                                    assert(ids[ids.len() - 1] == v);
                                }
                            }
                        }
                    }
                    assert(delivered_ids(out@).to_set() =~= Set::new(|v: usize| exists|j: int| 0 <= j < k + 1 && keys[j] == v && wanted.contains(v)));
                }
                assert(delivered_ids(out@).to_set() =~= self@.recipients(room@, skip_id));
            },
            None => {
                assert(delivered_ids(out@).to_set() =~= self@.recipients(room@, skip_id));
            },
        }
        out
    }

    /// Relays a drawing event to the rest of its room.
    pub fn handle_message(&self, msg: HandleMessage) -> (out: Vec<(usize, DrawData)>)
        ensures
            delivered_ids(out@).no_duplicates(),
            delivered_ids(out@).to_set() == self@.recipients(msg.room@, msg.id),
            forall|i: int| 0 <= i < out@.len() ==> (#[trigger] out@[i]).1.id == msg.id && out@[i].1.data@ == msg.msg@,
    {
        self.send_message(msg.room.as_str(), msg.msg.as_str(), msg.id)
    }

    /// The address of session `id`, if there is one.
    pub fn session(&self, id: usize) -> (addr: Option<&R>)
        ensures
            match addr {
                Some(a) => self@.sessions.contains_key(id) && *a == self@.sessions[id],
                None => !self@.sessions.contains_key(id),
            },
    {
        self.state.sessions.get(&id)
    }
}

impl<R> Default for Hash<R> {
    /// A server with no sessions, nothing pending, and only the empty main room.
    fn default() -> (h: Self)
        ensures
            h@.inv(),
            h@.sessions == Map::<usize, R>::empty(),
            h@.rooms == Map::<Seq<char>, Set<usize>>::empty().insert(main_room(), Set::empty()),
            h@.pending_users == Seq::<Seq<char>>::empty(),
            h@.pending_rooms == Seq::<Seq<char>>::empty(),
    {
        Hash { state: Rooms::new(), rng: new_thread_rng() }
    }
}

/// Recording a bridge keeps the server's invariant.
pub proof fn lemma_bridge_keeps_inv<R>(s: HashState<R>, username: Seq<char>, roomcode: Seq<char>)
    requires
        s.inv(),
    ensures
        s.after_bridge(username, roomcode).inv(),
{
}

/// Seating a session keeps the server's invariant.
pub proof fn lemma_join_keeps_inv<R>(s: HashState<R>, id: usize, username: Seq<char>, room: Seq<char>, addr: R)
    requires
        s.inv(),
    ensures
        s.after_join(id, username, room, addr).inv(),
{
    let t = s.after_join(id, username, room, addr);
    assert forall|r: Seq<char>, m: usize| t.rooms.contains_key(r) && #[trigger] t.rooms[r].contains(m) implies t.sessions.contains_key(m) by {
        if r != s.joined_room(room) || m != id {
            if r != s.joined_room(room) {
                assert(s.rooms[r].contains(m));
            } else {
                assert(s.members(r).contains(m));
            }
        }
    }
}

/// A session that joins right after a bridge takes the bridge's user name
/// and room code, whatever it asked for, becomes a member of that room, is
/// reached at its own address, and leaves the pending announcements as they
/// were before the bridge.
pub proof fn lemma_bridge_then_join<R>(
    s: HashState<R>,
    username: Seq<char>,
    roomcode: Seq<char>,
    requested_name: Seq<char>,
    requested_room: Seq<char>,
    id: usize,
    addr: R,
)
    ensures
        ({
            let b = s.after_bridge(username, roomcode);
            let t = b.after_join(id, requested_name, requested_room, addr);
            &&& b.joined_name(requested_name) == username
            &&& b.joined_room(requested_room) == roomcode
            &&& t.members(roomcode).contains(id)
            &&& t.sessions[id] == addr
            &&& t.pending_users == s.pending_users
            &&& t.pending_rooms == s.pending_rooms
        }),
{
    let b = s.after_bridge(username, roomcode);
    assert(b.pending_users.drop_last() =~= s.pending_users);
    assert(b.pending_rooms.drop_last() =~= s.pending_rooms);
}

/// With no bridge pending, a joining session keeps the user name and room it
/// asked for and becomes a member of that room.
pub proof fn lemma_join_without_bridge<R>(
    s: HashState<R>,
    requested_name: Seq<char>,
    requested_room: Seq<char>,
    id: usize,
    addr: R,
)
    requires
        s.inv(),
        s.pending_users.len() == 0,
    ensures
        s.joined_name(requested_name) == requested_name,
        s.joined_room(requested_room) == requested_room,
        s.after_join(id, requested_name, requested_room, addr).members(requested_room).contains(id),
{
}

/// In a reachable state, what a session says in a room reaches every other
/// member of the room and nobody else; the sender never hears itself.
pub proof fn lemma_recipients_are_room_peers<R>(s: HashState<R>, room: Seq<char>, sender: usize)
    requires
        s.inv(),
    ensures
        s.recipients(room, sender) == s.members(room).remove(sender),
        !s.recipients(room, sender).contains(sender),
{
    assert forall|m: usize| #[trigger] s.members(room).contains(m) implies s.sessions.contains_key(m) by {
        assert(s.rooms[room].contains(m));
    }
    assert(s.recipients(room, sender) =~= s.members(room).remove(sender));
}

/// A session that has joined a room hears what any other member of that
/// room says from then on.
pub proof fn lemma_joined_session_hears_room<R>(
    s: HashState<R>,
    id: usize,
    requested_name: Seq<char>,
    requested_room: Seq<char>,
    addr: R,
    sender: usize,
)
    requires
        s.inv(),
        sender != id,
    ensures
        ({
            let t = s.after_join(id, requested_name, requested_room, addr);
            t.recipients(s.joined_room(requested_room), sender).contains(id)
        }),
{
    let t = s.after_join(id, requested_name, requested_room, addr);
    lemma_join_keeps_inv(s, id, requested_name, requested_room, addr);
    lemma_recipients_are_room_peers(t, s.joined_room(requested_room), sender);
}

/// A bridge only queues its user name and room code: it seats nobody and
/// touches no room, and its name and code are the newest pending ones.
pub proof fn lemma_bridge_only_queues<R>(s: HashState<R>, username: Seq<char>, roomcode: Seq<char>)
    ensures
        s.after_bridge(username, roomcode).sessions == s.sessions,
        s.after_bridge(username, roomcode).rooms == s.rooms,
        s.after_bridge(username, roomcode).pending_users.len() == s.pending_users.len() + 1,
        s.after_bridge(username, roomcode).pending_users.last() == username,
        s.after_bridge(username, roomcode).pending_rooms.last() == roomcode,
        s.after_bridge(username, roomcode).pending_users.drop_last() == s.pending_users,
        s.after_bridge(username, roomcode).pending_rooms.drop_last() == s.pending_rooms,
{
    assert(s.after_bridge(username, roomcode).pending_users.drop_last() =~= s.pending_users);
    assert(s.after_bridge(username, roomcode).pending_rooms.drop_last() =~= s.pending_rooms);
}

/// A join seats exactly the joining session: it is reached at its own
/// address, every other session keeps its address, the room it gets gains
/// exactly it, and every other room keeps its members.
pub proof fn lemma_join_effect<R>(s: HashState<R>, id: usize, username: Seq<char>, room: Seq<char>, addr: R)
    ensures
        ({
            let t = s.after_join(id, username, room, addr);
            let r = s.joined_room(room);
            &&& t.sessions.contains_key(id) && t.sessions[id] == addr
            &&& forall|k: usize| k != id ==> (#[trigger] t.sessions.contains_key(k)) == s.sessions.contains_key(k)
            &&& forall|k: usize| k != id && s.sessions.contains_key(k) ==> #[trigger] t.sessions[k] == s.sessions[k]
            &&& t.members(r) == s.members(r).insert(id)
            &&& forall|q: Seq<char>| q != r ==> #[trigger] t.members(q) == s.members(q)
            &&& forall|m: usize| m != id ==> (#[trigger] t.members(r).contains(m) <==> s.members(r).contains(m))
        }),
{
}

/// The room a joining session gets: the room code of the newest pending
/// bridge if there is one, else the room it asked for; likewise its name.
pub proof fn lemma_joined_seat<R>(s: HashState<R>, username: Seq<char>, room: Seq<char>)
    ensures
        s.pending_rooms.len() == 0 ==> s.joined_room(room) == room,
        s.pending_rooms.len() > 0 ==> s.joined_room(room) == s.pending_rooms[s.pending_rooms.len() - 1],
        s.pending_users.len() == 0 ==> s.joined_name(username) == username,
        s.pending_users.len() > 0 ==> s.joined_name(username) == s.pending_users[s.pending_users.len() - 1],
{
}

} // verus!
