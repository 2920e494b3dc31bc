//! Sidecar server library for bridging a flight-simulator host to remote
//! control surfaces: a msgpack wire codec, the subscription state for
//! streamed cockpit textures, the frame dedup/encode-cache engine, the
//! keybinding resolver that turns callbacks into scancode sequences, and
//! the keyfile watcher's change detection.

pub mod callbacks;
pub mod config;
pub mod enet_server;
pub mod hashing;
pub mod keyboard_emulator;
pub mod keyfile_watcher;
pub mod msgpack;
pub mod state;
pub mod texture_reader;
pub mod texture_stream;
pub mod udp_broadcast_listener;
