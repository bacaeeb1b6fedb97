//! Core of a small group voice chat: the wire format, the voice gate, the
//! relay's bookkeeping and the client's session logic, as plain functions on
//! plain values.

pub mod cli;
pub mod client;
pub mod events;
pub mod gate;
pub mod pcm;
pub mod peer;
pub mod relay_laws;
pub mod server;
pub mod tui;
pub mod wire;
