//! Collaboard: the room, session and stroke logic of a shared whiteboard.
//!
//! The server keeps rooms of websocket sessions and relays drawing events
//! between the members of a room; each session gathers the points of the
//! strokes drawn by its peers and hands a finished stroke back to its client.
//! The browser side keeps a small pen state machine and decides how a stroke
//! received from the server is rendered.
pub mod messages;
pub mod random;
pub mod server;
pub mod session;
pub mod canvas;
