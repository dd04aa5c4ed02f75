//! MicSync: one microphone, shared across every computer on the LAN.
//!
//! The library holds the protocol and its rules: the audio codec, the wire
//! format, HTTP heads, discovery packets, the consent gate, the client, server
//! and auto-follow state machines, and the persisted settings. Sound cards,
//! sockets, threads and the user interface stand around it.
use vstd::prelude::*;

pub mod text;
pub mod adpcm;
pub mod wire;
pub mod json;
pub mod http;
pub mod settings;
pub mod platform;
pub mod audio;
pub mod micuse;
pub mod server;
pub mod client;
pub mod follow;
pub mod discovery;
pub mod status;

verus! {

/// The port that a server listens on unless another one is asked for.
pub const DEFAULT_PORT: u16 = 47800;

} // verus!
