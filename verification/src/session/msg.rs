//! The commands a session accepts and the messages it emits.

use vstd::prelude::*;
use crate::network;

verus! {

/// What a remote may ask of one session.
#[derive(Debug)]
pub enum Command {
    NetworkCommand(u64, network::msg::Command),
    GetNetworkList,
}

/// What a session emits: wrapped network traffic, the network list, or a
/// direct reply.
#[derive(Debug)]
pub enum Message {
    NetworkMessage(u64, network::msg::Message),
    NetworkList(Vec<(u64, network::State)>),
    Error(String),
    Success,
}

} // verus!
