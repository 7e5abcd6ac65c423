# lan-chat

A messenger for a local network, without a server: whoever knows the code of a room reads and
writes in it, end-to-end encrypted. This repository holds its core, written in
[Verus](https://github.com/verus-lang/verus), and the program around it.

- `src/` is the core, every function of it proved against its contract. `room` derives a room
  from its code, `crypto` seals and opens envelopes, `identity` keeps a node the same peer from one
  session to the next, `history` keeps and exchanges the messages of a room, `files` offers and
  downloads files in chunks, `swarm` decides what a node does on each event of the network, and
  `manager` changes rooms without a restart. `app_state` is the state that these share.
  `primitives` holds what is taken on trust: the functions of outside crates for hashing,
  encryption, encodings, media types, key pairs and peer identifiers.
- `app/` is ordinary Rust: the network, the disk and the web view. It does what the core decides,
  and encodes and decodes messages. It needs Tauri, which `Cargo.toml` does not list.
- `tests/` runs the core on concrete values.
