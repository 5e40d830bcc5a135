//! The messages exchanged between the web handlers, the room server and the
//! websocket sessions.
use vstd::prelude::*;

use crate::random::{is_room_code, new_thread_rng, random_alphanumeric};

verus! {

/// How many characters a freshly created room code has.
pub const ROOM_CODE_LEN: usize = 5;

/// Announces that the next websocket session to join should take this user
/// name and room code.
pub struct Bridge {
    pub username: String,
    pub roomcode: String,
}

/// What the room server answers a joining session: its id, and the room and
/// user name it was given.
pub struct Response {
    pub id: usize,
    pub room: String,
    pub username: String,
}

/// A session asks to join a room; `addr` is where the server reaches it.
pub struct Join<R> {
    pub username: String,
    pub room: String,
    pub addr: R,
}

/// A drawing event from session `id`, to be relayed to the rest of `room`.
pub struct HandleMessage {
    pub room: String,
    pub msg: String,
    pub id: usize,
}

/// A relayed drawing event: `data` as it was sent by session `id`.
pub struct DrawData {
    pub id: usize,
    pub data: String,
}

/// The form that creates a room.
pub struct UserData {
    pub usernamecreate: String,
}

/// The form that joins an existing room.
pub struct JoinData {
    pub usernamejoin: String,
    pub roomcode: String,
}

impl UserData {
    /// The bridge that announces this user as the creator of room `roomcode`.
    pub fn bridge_to(&self, roomcode: String) -> (b: Bridge)
        ensures
            b.username@ == self.usernamecreate@,
            b.roomcode@ == roomcode@,
    {
        Bridge { username: self.usernamecreate.clone(), roomcode }
    }
}

/// Creates a room for the user of the form: draws a fresh room code and
/// returns the bridge that will seat the user's session in it. The code is
/// random; whatever it is, it has `ROOM_CODE_LEN` alphanumeric characters.
pub fn create_room(params: &UserData) -> (b: Bridge)
    ensures
        b.username@ == params.usernamecreate@,
        is_room_code(b.roomcode@, ROOM_CODE_LEN as nat),
{
    let rng = new_thread_rng();
    let room = random_alphanumeric(rng, ROOM_CODE_LEN);
    params.bridge_to(room)
}

/// Joins the room named in the form: the bridge that will seat the user's
/// session in that room under that name.
pub fn join_room(params: &JoinData) -> (b: Bridge)
    ensures
        b.username@ == params.usernamejoin@,
        b.roomcode@ == params.roomcode@,
{
    Bridge { username: params.usernamejoin.clone(), roomcode: params.roomcode.clone() }
}

} // verus!
