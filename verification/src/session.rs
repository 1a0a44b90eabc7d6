//! The session actor: it owns a set of networks, forwards commands to
//! them by id, and wraps their events for the remote-control layer.
//!
//! The multi-way select over the networks' channels is the transport's
//! business; the session's logic is what to do with one command or one
//! network event at a time.

pub mod msg;

use vstd::prelude::*;
use crate::database::Store;
use crate::envelope::Envelope;
use crate::irc::client::ClientMessage;
use crate::network::{command_step, message_step, Network, UpstreamAction};

verus! {

/// A session: a mapping from network id to network, with unique ids.
pub struct Session {
    pub networks: Vec<Network>,
}

/// Whether the session holds a network with the given id.
pub open spec fn has_network(nets: Seq<Network>, id: u64) -> bool {
    exists|i: int| 0 <= i < nets.len() && nets[i].id == id
}

/// The position of the network with the given id.
pub open spec fn network_at(nets: Seq<Network>, id: u64) -> int {
    choose|i: int| 0 <= i < nets.len() && nets[i].id == id
}

impl Session {
    /// Ids are unique and every network is well-formed against the store.
    pub open spec fn wf(&self, store: Store) -> bool {
        &&& forall|i: int, j: int|
            0 <= i < j < self.networks@.len() ==> self.networks@[i].id != self.networks@[j].id
        &&& forall|i: int| 0 <= i < self.networks@.len() ==> (#[trigger] self.networks@[i]).wf(store)
    }

    /// An empty session.
    pub fn new() -> (r: Session)
        ensures
            r.networks@.len() == 0,
            forall|s: Store| #[trigger] s.wf() ==> r.wf(s),
    {
        Session { networks: Vec::new() }
    }

    /// Adopt one network; its id must be new to this session.
    pub fn insert_network(&mut self, store: &Store, network: Network)
        requires
            old(self).wf(*store),
            network.wf(*store),
            !has_network(old(self).networks@, network.id),
        ensures
            final(self).wf(*store),
            final(self).networks@ == old(self).networks@.push(network),
    {
        self.networks.push(network);
    }

}

/// How one session command changes the session and the store, which
/// reply it earns, and which network's transport request comes back: the
/// full transition relation of `handle_command`.
pub open spec fn session_command_step(
    pre: Session,
    post: Session,
    pre_store: Store,
    post_store: Store,
    c: msg::Command,
    reply: msg::Message,
    action: Option<(u64, UpstreamAction)>,
) -> bool {
    &&& post_store.wf()
    &&& post.wf(post_store)
    &&& post_store.next_row_id == pre_store.next_row_id
    &&& post_store.messages == pre_store.messages
    &&& post_store.buffers == pre_store.buffers
    &&& post_store.sessions == pre_store.sessions
    &&& match c {
        msg::Command::NetworkCommand(id, nc) => {
            &&& (!has_network(pre.networks@, id) ==> {
                &&& (reply matches msg::Message::Error(e) && e@ == "invalid network"@)
                &&& action is None
                &&& post == pre
                &&& post_store == pre_store
            })
            &&& (has_network(pre.networks@, id) ==> {
                let k = network_at(pre.networks@, id);
                &&& post.networks@.len() == pre.networks@.len()
                &&& forall|j: int|
                    0 <= j < pre.networks@.len() && j != k ==> post.networks@[j]
                        == pre.networks@[j]
                &&& (reply matches msg::Message::NetworkMessage(nid, m) && nid == id
                    && command_step(
                    pre.networks@[k],
                    post.networks@[k],
                    pre_store,
                    post_store,
                    nc,
                    m,
                    match action {
                        Some((_, act)) => Some(act),
                        None => None,
                    },
                ))
                &&& (action matches Some((did, _)) ==> did == id)
            })
        },
        msg::Command::GetNetworkList => {
            &&& action is None
            &&& post == pre
            &&& post_store == pre_store
            &&& (reply matches msg::Message::NetworkList(v) && v@.len() == pre.networks@.len() && (
            forall|i: int|
                0 <= i < v@.len() ==> (#[trigger] v@[i]).0 == pre.networks@[i].id && v@[i].1
                    == pre.networks@[i].state))
        },
    }
}

impl Session {
    /// Dispatch one command: `NetworkCommand` reaches the named network
    /// and returns its reply under the same envelope; an unknown network
    /// id is answered with an error; `GetNetworkList` lists ids and
    /// states. Exactly one reply comes back, tags preserved; the second
    /// component carries the named network's transport request.
    pub fn handle_command(&mut self, store: &mut Store, cmd: Envelope<msg::Command>) -> (r: (
        Vec<Envelope<msg::Message>>,
        Option<(u64, UpstreamAction)>,
    ))
        requires
            old(self).wf(*old(store)),
            old(store).wf(),
        ensures
            r.0@.len() == 1,
            r.0@[0].client_tag == cmd.client_tag,
            r.0@[0].remote_tag == cmd.remote_tag,
            session_command_step(
                *old(self),
                *final(self),
                *old(store),
                *final(store),
                cmd.contents,
                r.0@[0].contents,
                r.1,
            ),
    {
        let bare = cmd.bare();
        let mut replies: Vec<Envelope<msg::Message>> = Vec::new();
        let mut action: Option<(u64, UpstreamAction)> = None;
        match cmd.contents {
            msg::Command::NetworkCommand(id, c) => {
                let n = self.networks.len();
                let mut found: Option<usize> = None;
                let mut i: usize = 0;
                while i < n
                    invariant
                        n == self.networks@.len(),
                        i <= n,
                        *self == *old(self),
                        match found {
                            Some(k) => k < n && self.networks@[k as int].id == id,
                            None => forall|j: int| 0 <= j < i ==> self.networks@[j].id != id,
                        },
                    decreases n - i,
                {
                    if found.is_none() && self.networks[i].id == id {
                        found = Some(i);
                    }
                    i = i + 1;
                }
                match found {
                    Some(k) => {
                        proof {
                            assert(has_network(self.networks@, id));
                        }
                        let nw = &mut self.networks[k];
                        let (mut net_replies, net_action) = nw.handle_command(
                            store,
                            bare.copy_with(c),
                        );
                        let reply = net_replies.pop().unwrap();
                        let wrapped = Envelope {
                            client_tag: reply.client_tag,
                            remote_tag: reply.remote_tag,
                            contents: msg::Message::NetworkMessage(id, reply.contents),
                        };
                        replies.push(wrapped);
                        action = match net_action {
                            Some(act) => Some((id, act)),
                            None => None,
                        };
                        proof {
                            let ghost k0 = network_at(old(self).networks@, id);
                            assert(old(self).networks@[k as int].id == id);
                            assert(0 <= k0 < old(self).networks@.len() && old(
                                self,
                            ).networks@[k0].id == id);
                            if k0 != k as int {
                                assert(old(self).networks@[k0].id != old(
                                    self,
                                ).networks@[k as int].id);
                            }
                            assert(k0 == k as int);
                            assert(forall|s2: Store|
                                (#[trigger] self.networks@[k as int].wf(s2)) && old(self).wf(s2)
                                    ==> self.wf(s2)) by {
                                assert(forall|j: int|
                                    0 <= j < self.networks@.len() && j != k as int
                                        ==> #[trigger] self.networks@[j] == old(
                                        self,
                                    ).networks@[j]);
                            }
                        }
                    },
                    None => {
                        proof {
                            assert(!has_network(self.networks@, id));
                        }
                        replies.push(
                            bare.copy_with(
                                msg::Message::Error(String::from_str("invalid network")),
                            ),
                        );
                    },
                }
            },
            msg::Command::GetNetworkList => {
                let n = self.networks.len();
                let mut data: Vec<(u64, crate::network::State)> = Vec::new();
                let mut i: usize = 0;
                while i < n
                    invariant
                        n == self.networks@.len(),
                        i <= n,
                        *self == *old(self),
                        data@.len() == i,
                        forall|j: int|
                            0 <= j < i ==> (#[trigger] data@[j]).0 == self.networks@[j].id
                                && data@[j].1 == self.networks@[j].state,
                    decreases n - i,
                {
                    data.push((self.networks[i].id, self.networks[i].state));
                    i = i + 1;
                }
                replies.push(cmd.copy_with(msg::Message::NetworkList(data)));
            },
        }
        (replies, action)
    }

    /// Wrap one network's upstream event batch for the outside: the named
    /// network handles the event, and each emitted message goes out as a
    /// spontaneous `NetworkMessage` envelope with both tags absent. An
    /// unknown network id yields nothing.
    pub fn handle_message(&mut self, store: &mut Store, net_id: u64, event: ClientMessage) -> (r:
        Vec<Envelope<msg::Message>>)
        requires
            old(self).wf(*old(store)),
            old(store).wf(),
            old(store).has_room(2),
        ensures
            final(store).wf(),
            final(self).wf(*final(store)),
            final(store).next_row_id >= old(store).next_row_id,
            final(store).sessions == old(store).sessions,
            final(store).networks == old(store).networks,
            forall|i: int|
                0 <= i < r@.len() ==> (#[trigger] r@[i]).client_tag is None && r@[i].remote_tag
                    is None,
            !has_network(old(self).networks@, net_id) ==> {
                &&& r@.len() == 0
                &&& *final(self) == *old(self)
                &&& *final(store) == *old(store)
            },
            has_network(old(self).networks@, net_id) ==> {
                let k = network_at(old(self).networks@, net_id);
                &&& final(self).networks@.len() == old(self).networks@.len()
                &&& forall|j: int|
                    0 <= j < old(self).networks@.len() && j != k ==> final(self).networks@[j]
                        == old(self).networks@[j]
                &&& exists|out: Seq<crate::network::msg::Message>|
                    {
                        &&& #[trigger] message_step(
                            old(self).networks@[k],
                            final(self).networks@[k],
                            *old(store),
                            *final(store),
                            event,
                            out,
                        )
                        &&& r@.len() == out.len()
                        &&& forall|i: int|
                            0 <= i < out.len() ==> (#[trigger] r@[i]).contents
                                == msg::Message::NetworkMessage(net_id, out[i])
                    }
            },
    {
        let n = self.networks.len();
        let mut found: Option<usize> = None;
        let mut i: usize = 0;
        while i < n
            invariant
                n == self.networks@.len(),
                i <= n,
                *self == *old(self),
                match found {
                    Some(k) => k < n && self.networks@[k as int].id == net_id,
                    None => forall|j: int| 0 <= j < i ==> self.networks@[j].id != net_id,
                },
            decreases n - i,
        {
            if found.is_none() && self.networks[i].id == net_id {
                found = Some(i);
            }
            i = i + 1;
        }
        let mut r: Vec<Envelope<msg::Message>> = Vec::new();
        match found {
            Some(k) => {
                proof {
                    assert(has_network(self.networks@, net_id));
                }
                let nw = &mut self.networks[k];
                let mut out = nw.handle_message(store, event);
                let ghost out_seq = out@;
                let count = out.len();
                let mut t: usize = 0;
                while t < count
                    invariant
                        count == out_seq.len(),
                        t <= count,
                        out@ == out_seq.skip(t as int),
                        r@.len() == t,
                        forall|i2: int|
                            0 <= i2 < t ==> (#[trigger] r@[i2]).contents
                                == msg::Message::NetworkMessage(net_id, out_seq[i2])
                                && r@[i2].client_tag is None && r@[i2].remote_tag is None,
                    decreases count - t,
                {
                    let m = out.remove(0);
                    proof {
                        assert(m == out_seq[t as int]);
                        assert(out@ =~~= out_seq.skip(t + 1 as int));
                    }
                    r.push(Envelope::empty(msg::Message::NetworkMessage(net_id, m)));
                    t = t + 1;
                }
                proof {
                    let ghost k0 = network_at(old(self).networks@, net_id);
                    assert(old(self).networks@[k as int].id == net_id);
                    assert(0 <= k0 < old(self).networks@.len() && old(self).networks@[k0].id
                        == net_id);
                    if k0 != k as int {
                        assert(old(self).networks@[k0].id != old(self).networks@[k as int].id);
                    }
                    assert(k0 == k as int);
                    assert(message_step(
                        old(self).networks@[k as int],
                        self.networks@[k as int],
                        *old(store),
                        *final(store),
                        event,
                        out_seq,
                    ));
                    assert(self.wf(*store)) by {
                        assert(forall|j: int|
                            0 <= j < self.networks@.len() && j != k as int
                                ==> #[trigger] self.networks@[j] == old(self).networks@[j]);
                        assert(forall|j: int|
                            0 <= j < self.networks@.len() && j != k as int ==> (
                            #[trigger] self.networks@[j]).wf(*store)) by {
                            assert(forall|b: u64, j: int|
                                0 <= j < old(self).networks@.len() && (
                                #[trigger] old(self).networks@[j].announced@.contains(b)) ==> b
                                    < old(store).next_row_id);
                        }
                    }
                }
            },
            None => {
                proof {
                    assert(!has_network(self.networks@, net_id));
                }
            },
        }
        r
    }
}

} // verus!