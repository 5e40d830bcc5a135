use collaboard::messages::{create_room, join_room, Bridge, HandleMessage, Join, JoinData, UserData, ROOM_CODE_LEN};


fn join(name: &str, room: &str, addr: u32) -> Join<u32> {
    Join { username: name.to_string(), room: room.to_string(), addr }
}

fn bridge(name: &str, code: &str) -> Bridge {
    Bridge { username: name.to_string(), roomcode: code.to_string() }
}

fn sorted_ids(out: &[(usize, collaboard::messages::DrawData)]) -> Vec<usize> {
    let mut ids: Vec<usize> = out.iter().map(|d| d.0).collect();
    ids.sort();
    ids
}

#[test]
fn default_server_has_only_an_empty_main_room() {
    let hash: collaboard::server::Hash<u32> = collaboard::server::Hash::default();
    assert!(hash.send_message("Main", "{}", 7).is_empty());
    assert!(hash.send_message("Other", "{}", 7).is_empty());
    assert!(hash.session(0).is_none());
}

#[test]
fn join_without_bridge_keeps_requested_seat() {
    let mut hash: collaboard::server::Hash<u32> = collaboard::server::Hash::default();
    let res = hash.join_with_id(42, join("alice", "Main", 9));
    assert_eq!(res.id, 42);
    assert_eq!(res.username, "alice");
    assert_eq!(res.room, "Main");
    assert_eq!(hash.session(42), Some(&9));
}

#[test]
fn bridge_then_join_takes_bridged_seat() {
    let mut hash: collaboard::server::Hash<u32> = collaboard::server::Hash::default();
    hash.handle_bridge(bridge("bob", "AB12z"));
    let res = hash.join_with_id(3, join("Annonymous", "Main", 1));
    assert_eq!(res.username, "bob");
    assert_eq!(res.room, "AB12z");
    // the bridge is used up: the next session keeps its own seat
    let res2 = hash.join_with_id(4, join("carol", "Main", 2));
    assert_eq!(res2.username, "carol");
    assert_eq!(res2.room, "Main");
}

#[test]
fn pending_bridges_are_taken_newest_first() {
    let mut hash: collaboard::server::Hash<u32> = collaboard::server::Hash::default();
    hash.handle_bridge(bridge("first", "R1"));
    hash.handle_bridge(bridge("second", "R2"));
    let a = hash.join_with_id(1, join("x", "Main", 1));
    let b = hash.join_with_id(2, join("y", "Main", 2));
    assert_eq!((a.username.as_str(), a.room.as_str()), ("second", "R2"));
    assert_eq!((b.username.as_str(), b.room.as_str()), ("first", "R1"));
}

#[test]
fn message_reaches_room_peers_but_not_sender_or_other_rooms() {
    let mut hash: collaboard::server::Hash<u32> = collaboard::server::Hash::default();
    hash.join_with_id(1, join("a", "Main", 10));
    hash.join_with_id(2, join("b", "Main", 20));
    hash.join_with_id(3, join("c", "Main", 30));
    hash.join_with_id(4, join("d", "Side", 40));
    let out = hash.send_message("Main", "hello", 1);
    assert_eq!(sorted_ids(&out), vec![2, 3]);
    for (_, data) in &out {
        assert_eq!(data.id, 1);
        assert_eq!(data.data, "hello");
    }
    let side = hash.handle_message(HandleMessage { room: "Side".to_string(), msg: "m".to_string(), id: 4 });
    assert!(side.is_empty());
    let side2 = hash.send_message("Side", "m", 1);
    assert_eq!(sorted_ids(&side2), vec![4]);
}

#[test]
fn handle_join_seats_under_returned_id() {
    let mut hash: collaboard::server::Hash<u32> = collaboard::server::Hash::default();
    let res = hash.handle_join(join("zed", "Main", 77));
    assert_eq!(res.username, "zed");
    assert_eq!(res.room, "Main");
    assert_eq!(hash.session(res.id), Some(&77));
    let out = hash.send_message("Main", "x", res.id.wrapping_add(1));
    assert_eq!(sorted_ids(&out), vec![res.id]);
}

#[test]
fn rejoining_id_replaces_address() {
    let mut hash: collaboard::server::Hash<u32> = collaboard::server::Hash::default();
    hash.join_with_id(5, join("a", "Main", 1));
    hash.join_with_id(5, join("a", "Side", 2));
    assert_eq!(hash.session(5), Some(&2));
    assert_eq!(sorted_ids(&hash.send_message("Main", "x", 0)), vec![5]);
    assert_eq!(sorted_ids(&hash.send_message("Side", "x", 0)), vec![5]);
}

#[test]
fn create_room_draws_alphanumeric_code() {
    let params = UserData { usernamecreate: "maker".to_string() };
    let b = create_room(&params);
    assert_eq!(b.username, "maker");
    assert_eq!(b.roomcode.chars().count(), ROOM_CODE_LEN);
    assert_eq!(ROOM_CODE_LEN, 5);
    assert!(b.roomcode.chars().all(|c| c.is_ascii_alphanumeric()));
}

#[test]
fn join_room_bridges_form_fields() {
    let params = JoinData { usernamejoin: "guest".to_string(), roomcode: "Qw3rT".to_string() };
    let b = join_room(&params);
    assert_eq!(b.username, "guest");
    assert_eq!(b.roomcode, "Qw3rT");
    let u = UserData { usernamecreate: "u".to_string() }.bridge_to("CODE1".to_string());
    assert_eq!(u.username, "u");
    assert_eq!(u.roomcode, "CODE1");
}

#[test]
fn created_room_is_joined_by_next_session() {
    let mut hash: collaboard::server::Hash<u32> = collaboard::server::Hash::default();
    let b = create_room(&UserData { usernamecreate: "host".to_string() });
    let code = b.roomcode.clone();
    hash.handle_bridge(b);
    let res = hash.join_with_id(8, join("Annonymous", "Main", 3));
    assert_eq!(res.username, "host");
    assert_eq!(res.room, code);
    assert_eq!(sorted_ids(&hash.send_message(&code, "x", 0)), vec![8]);
    assert!(hash.send_message("Main", "x", 0).is_empty());
}
