//! Core of a persistent multi-user IRC bouncer: the IRC line codec, the
//! per-network state machine, the session and remote-control routing fabric,
//! and the persistence facade, with machine-checked contracts.

pub mod encoding;
pub mod envelope;
pub mod buffer;
pub mod database;
pub mod irc;
pub mod network;
pub mod remotecontrol;
pub mod session;
