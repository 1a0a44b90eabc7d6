//! Buffers and the messages they hold.
//!
//! A buffer is one conversation log: the network's status log, a channel,
//! or a private query. Messages live in the store; a buffer owns only its
//! identity and a count of what it has appended.

use vstd::prelude::*;
use crate::database::Store;

verus! {

/// The kind of conversation a buffer represents. Channel and query names
/// are compared case-insensitively under the IRC casemap.
#[derive(Debug, PartialEq, Eq)]
pub enum Role {
    Status,
    Channel(String),
    Query(String),
}

impl Role {
    /// A value equal to this one.
    pub fn dup(&self) -> (r: Role)
        ensures
            r == *self,
    {
        match self {
            Role::Status => Role::Status,
            Role::Channel(n) => Role::Channel(n.clone()),
            Role::Query(n) => Role::Query(n.clone()),
        }
    }
}

/// What one message says; each variant is stored under its own integer
/// discriminant.
#[derive(Debug, PartialEq, Eq)]
pub enum MessageContents {
    Information(String),
    Join(String),
    Privmsg(String, String),
}

impl MessageContents {
    /// A value equal to this one.
    pub fn dup(&self) -> (r: MessageContents)
        ensures
            r == *self,
    {
        match self {
            MessageContents::Information(t) => MessageContents::Information(t.clone()),
            MessageContents::Join(w) => MessageContents::Join(w.clone()),
            MessageContents::Privmsg(w, t) => MessageContents::Privmsg(w.clone(), t.clone()),
        }
    }
}

/// One stored message. The id is assigned by the store on append and is
/// strictly increasing within a buffer.
#[derive(Debug, PartialEq, Eq)]
pub struct Message {
    pub id: u64,
    pub time_ns: u64,
    pub contents: MessageContents,
}

/// Relies on `time::OffsetDateTime::now_utc` for the wall clock, read as
/// nanoseconds since the epoch; nothing is promised of the value.
#[verifier::external_body]
fn time_now() -> u64 {
    time::OffsetDateTime::now_utc().unix_timestamp_nanos() as u64
}

impl Message {
    /// A fresh, unstored message stamped with the current wall-clock time.
    pub fn now(cont: MessageContents) -> (r: Message)
        ensures
            r.id == 0,
            r.contents == cont,
    {
        Message { id: 0, time_ns: time_now(), contents: cont }
    }

    /// A value equal to this one.
    pub fn dup(&self) -> (r: Message)
        ensures
            r == *self,
    {
        Message { id: self.id, time_ns: self.time_ns, contents: self.contents.dup() }
    }
}

/// One conversation log, bound to its row in the store.
pub struct Buffer {
    pub id: u64,
    pub role: Role,
    pub stored_messages: u64,
}

impl Buffer {
    /// The in-memory representative of a stored buffer row.
    pub fn create_repr(id: u64, role: Role, stored_messages: u64) -> (r: Buffer)
        ensures
            r.id == id,
            r.role == role,
            r.stored_messages == stored_messages,
    {
        Buffer { id, role, stored_messages }
    }

    /// Append a message to this buffer: the store assigns the id, and the
    /// stored message is returned. The new id is larger than that of every
    /// message already in the store.
    pub fn add(&mut self, store: &mut Store, msg: Message) -> (r: Message)
        requires
            old(store).wf(),
            old(store).has_room(1),
        ensures
            final(store).wf(),
            final(self).id == old(self).id,
            final(self).role == old(self).role,
            final(self).stored_messages == if old(self).stored_messages < u64::MAX {
                (old(self).stored_messages + 1) as u64
            } else {
                u64::MAX
            },
            final(store).created_message(*old(store), old(self).id, msg, r),
    {
        let stored = store.create_message(self.id, msg);
        if self.stored_messages < u64::MAX {
            self.stored_messages = self.stored_messages + 1;
        }
        stored
    }

    /// Page history: the newest `count` messages older than `before_id`,
    /// or the newest `count` outright, newest first.
    pub fn fetch_message_range(&self, store: &Store, count: usize, before_id: Option<u64>) -> (r:
        Vec<Message>)
        ensures
            r@ == match before_id {
                Some(id) => store.spec_fetch_before(self.id, id, count as int),
                None => store.spec_fetch_latest(self.id, count as int),
            },
    {
        match before_id {
            Some(id) => store.fetch_messages_before(self.id, id, count),
            None => store.fetch_latest_messages(self.id, count),
        }
    }
}

} // verus!
