//! The correlation wrapper carried through the command/reply fabric.
//!
//! `client_tag` is chosen by a remote client and echoed on the terminal
//! reply to its request; `remote_tag` is stamped by the accept path and
//! directs a reply to the one remote that asked. Spontaneous events carry
//! neither.

use vstd::prelude::*;

verus! {

/// A value together with its two correlation tags.
pub struct Envelope<T> {
    pub client_tag: Option<u64>,
    pub remote_tag: Option<u64>,
    pub contents: T,
}

impl<T> Envelope<T> {
    /// Wrap a spontaneous event: both tags absent.
    pub fn empty(x: T) -> (r: Envelope<T>)
        ensures
            r.client_tag is None,
            r.remote_tag is None,
            r.contents == x,
    {
        Envelope { client_tag: None, remote_tag: None, contents: x }
    }

    /// Map the contents, keeping both tags.
    pub fn encapsulate<U, F: FnOnce(T) -> U>(self, f: F) -> (r: Envelope<U>)
        requires
            call_requires(f, (self.contents,)),
        ensures
            r.client_tag == self.client_tag,
            r.remote_tag == self.remote_tag,
            call_ensures(f, (self.contents,), r.contents),
    {
        let Envelope { client_tag, remote_tag, contents } = self;
        Envelope { client_tag, remote_tag, contents: f(contents) }
    }

    /// A new envelope with the same tags and the given contents.
    pub fn copy_with<U>(&self, x: U) -> (r: Envelope<U>)
        ensures
            r.client_tag == self.client_tag,
            r.remote_tag == self.remote_tag,
            r.contents == x,
    {
        Envelope { client_tag: self.client_tag, remote_tag: self.remote_tag, contents: x }
    }

    /// The tags alone.
    pub fn bare(&self) -> (r: Envelope<()>)
        ensures
            r.client_tag == self.client_tag,
            r.remote_tag == self.remote_tag,
    {
        Envelope { client_tag: self.client_tag, remote_tag: self.remote_tag, contents: () }
    }
}

} // verus!
