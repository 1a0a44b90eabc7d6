//! The commands a remote client sends and the messages sent back.

use vstd::prelude::*;
use crate::session;

verus! {

/// What one remote client asks the control task.
#[derive(Debug)]
pub enum Command {
    AttachSession(u64),
    SessionCommand(session::msg::Command),
}

/// What goes back to remote clients.
#[derive(Debug)]
pub enum Message {
    Error(String),
    Success,
    SessionMessage(session::msg::Message),
}

} // verus!
