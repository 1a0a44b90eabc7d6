//! The commands a network accepts and the events and replies it emits.

use vstd::prelude::*;
use crate::buffer;

verus! {

/// What a client may ask of one network. Each command is answered by
/// exactly one reply under the same envelope.
#[derive(Debug, PartialEq, Eq)]
pub enum Command {
    Connect,
    Disconnect,
    JoinChannel(String),
    SendPrivmsg(String, String),
    GetBufferList,
    SetConfiguration(super::Configuration),
    GetConfiguration,
    GetBufferMessageRange(u64, usize, Option<u64>),
}

/// A network's replies and spontaneous events.
#[derive(Debug, PartialEq, Eq)]
pub enum Message {
    Disconnected(String),
    Connected,
    NewBuffer(u64, buffer::Role),
    BufferMessage(u64, buffer::Message),
    BufferList(Vec<(u64, buffer::Role)>),
    Error(String),
    Success,
    Configuration(Option<super::Configuration>),
    BufferMessageRange(u64, Vec<buffer::Message>),
}

} // verus!
