# collaboard

The logic of a shared whiteboard, verified with Verus.

- `src/server.rs` — the room server: sessions, rooms, pending bridges, who receives a drawing event.
- `src/session.rs` — a websocket session: its seat, frame dispatch, heartbeat, and the strokes it gathers.
- `src/canvas.rs` — the browser pen and how a received stroke is rendered.
- `src/messages.rs` — the messages, and the creation and joining of rooms.
- `src/random.rs` — the random session ids and room codes, drawn with `rand`.
- `app/` — the actix servers, JSON handling, templates, and the wasm canvas client.
