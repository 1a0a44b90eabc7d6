//! The persistence facade: a single-writer store of sessions, networks,
//! buffers and messages.
//!
//! Rows carry ids drawn from one monotonically increasing counter, so a
//! message appended later always has a larger id than every message
//! appended before it, in any buffer. History is paged newest-first.

use vstd::prelude::*;
use crate::buffer::{Buffer, Message, Role};
use crate::network::{Configuration, Network};
use crate::remotecontrol::{RemoteControl, SessionData};
use crate::session::Session;

verus! {

/// One network row: to which session it belongs, and its configuration,
/// when both parts of one have been stored.
pub struct NetworkRow {
    pub id: u64,
    pub session_id: u64,
    pub server: Option<String>,
    pub nickname: Option<String>,
}

/// One buffer row.
pub struct BufferRow {
    pub id: u64,
    pub network_id: u64,
    pub role: Role,
}

/// One message row; the message carries its assigned id.
pub struct MessageRow {
    pub buffer_id: u64,
    pub msg: Message,
}

/// The store: every row the bouncer persists, and the id counter.
pub struct Store {
    pub sessions: Vec<u64>,
    pub networks: Vec<NetworkRow>,
    pub buffers: Vec<BufferRow>,
    pub messages: Vec<MessageRow>,
    pub next_row_id: u64,
}

/// The messages of one buffer, in append order.
pub open spec fn msgs_of(rows: Seq<MessageRow>, bid: u64) -> Seq<Message>
    decreases rows.len(),
{
    if rows.len() == 0 {
        Seq::empty()
    } else {
        let pre = msgs_of(rows.drop_last(), bid);
        if rows.last().buffer_id == bid {
            pre.push(rows.last().msg)
        } else {
            pre
        }
    }
}

/// The messages with an id strictly below `before`, order kept.
pub open spec fn older_than(msgs: Seq<Message>, before: u64) -> Seq<Message>
    decreases msgs.len(),
{
    if msgs.len() == 0 {
        Seq::empty()
    } else {
        let pre = older_than(msgs.drop_last(), before);
        if msgs.last().id < before {
            pre.push(msgs.last())
        } else {
            pre
        }
    }
}

/// The newest `count` messages of an append-ordered history, newest
/// first.
pub open spec fn newest_window(msgs: Seq<Message>, count: int) -> Seq<Message> {
    let k = if count < msgs.len() {
        count
    } else {
        msgs.len() as int
    };
    msgs.subrange(msgs.len() - k, msgs.len() as int).reverse()
}

impl Store {
    /// Ids are unique, below the counter, and message ids grow in append
    /// order.
    pub open spec fn wf(&self) -> bool {
        &&& 1 <= self.next_row_id
        &&& forall|i: int, j: int|
            0 <= i < j < self.messages@.len() ==> self.messages@[i].msg.id < self.messages@[j].msg.id
        &&& forall|i: int|
            0 <= i < self.messages@.len() ==> #[trigger] self.messages@[i].msg.id
                < self.next_row_id
        &&& forall|i: int, j: int|
            0 <= i < j < self.buffers@.len() ==> self.buffers@[i].id != self.buffers@[j].id
        &&& forall|i: int|
            0 <= i < self.buffers@.len() ==> #[trigger] self.buffers@[i].id < self.next_row_id
        &&& forall|i: int, j: int|
            0 <= i < j < self.networks@.len() ==> self.networks@[i].id != self.networks@[j].id
        &&& forall|i: int|
            0 <= i < self.networks@.len() ==> #[trigger] self.networks@[i].id < self.next_row_id
        &&& forall|i: int, j: int|
            0 <= i < j < self.sessions@.len() ==> self.sessions@[i] != self.sessions@[j]
        &&& forall|i: int|
            0 <= i < self.sessions@.len() ==> #[trigger] self.sessions@[i] < self.next_row_id
    }

    /// Room for `n` more ids.
    pub open spec fn has_room(&self, n: int) -> bool {
        self.next_row_id + n <= u64::MAX
    }

    /// An empty store.
    pub fn open() -> (r: Store)
        ensures
            r.wf(),
            r.sessions@ == Seq::<u64>::empty(),
            r.networks@.len() == 0,
            r.buffers@.len() == 0,
            r.messages@.len() == 0,
            r.next_row_id == 1,
    {
        Store {
            sessions: Vec::new(),
            networks: Vec::new(),
            buffers: Vec::new(),
            messages: Vec::new(),
            next_row_id: 1,
        }
    }

    /// First-run setup: an empty store gets one session owning one
    /// unconfigured network; a store with sessions is left alone.
    pub fn bootstrap(&mut self)
        requires
            old(self).wf(),
            old(self).has_room(2),
        ensures
            final(self).wf(),
            old(self).sessions@.len() > 0 ==> *final(self) == *old(self),
            old(self).sessions@.len() == 0 ==> {
                &&& final(self).sessions@ == old(self).sessions@.push(old(self).next_row_id)
                &&& final(self).networks@ == old(self).networks@.push(
                    NetworkRow {
                        id: (old(self).next_row_id + 1) as u64,
                        session_id: old(self).next_row_id,
                        server: None,
                        nickname: None,
                    },
                )
                &&& final(self).buffers == old(self).buffers
                &&& final(self).messages == old(self).messages
                &&& final(self).next_row_id == old(self).next_row_id + 2
            },
    {
        if self.sessions.len() == 0 {
            let sid = self.next_row_id;
            self.next_row_id = self.next_row_id + 1;
            self.sessions.push(sid);
            let nid = self.next_row_id;
            self.next_row_id = self.next_row_id + 1;
            self.networks.push(
                NetworkRow { id: nid, session_id: sid, server: None, nickname: None },
            );
        }
    }

    /// The append-ordered history of one buffer.
    pub open spec fn spec_buffer_messages(&self, bid: u64) -> Seq<Message> {
        msgs_of(self.messages@, bid)
    }

    /// What `fetch_latest_messages` returns.
    pub open spec fn spec_fetch_latest(&self, bid: u64, count: int) -> Seq<Message> {
        newest_window(self.spec_buffer_messages(bid), count)
    }

    /// What `fetch_messages_before` returns.
    pub open spec fn spec_fetch_before(&self, bid: u64, before: u64, count: int) -> Seq<Message> {
        newest_window(older_than(self.spec_buffer_messages(bid), before), count)
    }

    /// How `create_message` relates the new store and the stored message
    /// to the old store and the message handed in.
    pub open spec fn created_message(
        &self,
        prev: Store,
        bid: u64,
        given: Message,
        r: Message,
    ) -> bool {
        &&& r.id == prev.next_row_id
        &&& r.time_ns == given.time_ns
        &&& r.contents == given.contents
        &&& self.messages@ == prev.messages@.push(MessageRow { buffer_id: bid, msg: r })
        &&& self.next_row_id == prev.next_row_id + 1
        &&& self.sessions == prev.sessions
        &&& self.networks == prev.networks
        &&& self.buffers == prev.buffers
    }

    /// Append one message row; the id assigned is the largest the store
    /// has given out, so ids within each buffer grow strictly.
    pub fn create_message(&mut self, buffer_id: u64, msg: Message) -> (r: Message)
        requires
            old(self).wf(),
            old(self).has_room(1),
        ensures
            final(self).wf(),
            final(self).created_message(*old(self), buffer_id, msg, r),
    {
        let id = self.next_row_id;
        self.next_row_id = self.next_row_id + 1;
        let stored = Message { id, time_ns: msg.time_ns, contents: msg.contents };
        let ret = stored.dup();
        self.messages.push(MessageRow { buffer_id, msg: stored });
        ret
    }

    /// How `create_buffer` relates the new store and buffer to the old
    /// store.
    pub open spec fn created_buffer(&self, prev: Store, network_id: u64, b: Buffer) -> bool {
        &&& b.id == prev.next_row_id
        &&& b.stored_messages == 0
        &&& self.buffers@ == prev.buffers@.push(
            BufferRow { id: b.id, network_id, role: b.role },
        )
        &&& self.next_row_id == prev.next_row_id + 1
        &&& self.sessions == prev.sessions
        &&& self.networks == prev.networks
        &&& self.messages == prev.messages
    }

    /// Insert a buffer row and return its in-memory representative.
    pub fn create_buffer(&mut self, network_id: u64, role: Role) -> (b: Buffer)
        requires
            old(self).wf(),
            old(self).has_room(1),
        ensures
            final(self).wf(),
            b.role == role,
            final(self).created_buffer(*old(self), network_id, b),
    {
        let id = self.next_row_id;
        self.next_row_id = self.next_row_id + 1;
        let row_role = role.dup();
        self.buffers.push(BufferRow { id, network_id, role: row_role });
        Buffer::create_repr(id, role, 0)
    }

    /// How `update_network_configuration` relates the new store to the
    /// old one: the first row with the given id, if any, gets both
    /// configuration fields set; nothing else changes.
    pub open spec fn config_updated(&self, prev: Store, nid: u64, config: Configuration) -> bool {
        &&& self.sessions == prev.sessions
        &&& self.buffers == prev.buffers
        &&& self.messages == prev.messages
        &&& self.next_row_id == prev.next_row_id
        &&& self.networks@.len() == prev.networks@.len()
        &&& forall|i: int|
            0 <= i < prev.networks@.len() && prev.networks@[i].id != nid ==> self.networks@[i]
                == prev.networks@[i]
        &&& (exists|i: int| 0 <= i < prev.networks@.len() && prev.networks@[i].id == nid) ==> {
            let i = first_network_with(prev.networks@, nid);
            &&& self.networks@[i].id == prev.networks@[i].id
            &&& self.networks@[i].session_id == prev.networks@[i].session_id
            &&& self.networks@[i].server == Some(config.server)
            &&& self.networks@[i].nickname == Some(config.nickname)
            &&& forall|j: int|
                0 <= j < prev.networks@.len() && j != i ==> self.networks@[j] == prev.networks@[j]
        }
    }

    /// Store a network's configuration: the first row with the given id,
    /// if any, gets both fields set.
    pub fn update_network_configuration(&mut self, nid: u64, config: &Configuration)
        requires
            old(self).wf(),
        ensures
            final(self).wf(),
            final(self).config_updated(*old(self), nid, *config),
    {
        let n = self.networks.len();
        let mut i: usize = 0;
        while i < n
            invariant
                old(self).wf(),
                n == self.networks@.len(),
                i <= n,
                *self == *old(self),
                forall|j: int| 0 <= j < i ==> old(self).networks@[j].id != nid,
            decreases n - i,
        {
            if self.networks[i].id == nid {
                proof {
                    lemma_first_network_with(self.networks@, nid, i as int);
                }
                let row = NetworkRow {
                    id: nid,
                    session_id: self.networks[i].session_id,
                    server: Some(config.server.clone()),
                    nickname: Some(config.nickname.clone()),
                };
                self.networks.set(i, row);
                proof {
                    assert(forall|a: int|
                        0 <= a < self.networks@.len() ==> #[trigger] self.networks@[a].id == old(
                            self,
                        ).networks@[a].id);
                }
                return ;
            }
            i = i + 1;
        }
    }
}

/// The newest `count` entries of an append-ordered history, newest first.
fn window_newest(all: &Vec<Message>, count: usize) -> (r: Vec<Message>)
    ensures
        r@ == newest_window(all@, count as int),
{
    let n = all.len();
    let k = if count < n {
        count
    } else {
        n
    };
    let mut out: Vec<Message> = Vec::new();
    let mut j: usize = 0;
    while j < k
        invariant
            n == all@.len(),
            k <= n,
            j <= k,
            out@.len() == j,
            forall|t: int| 0 <= t < j ==> out@[t] == all@[n - 1 - t],
        decreases k - j,
    {
        out.push(all[n - 1 - j].dup());
        j = j + 1;
    }
    proof {
        assert(out@ =~~= newest_window(all@, count as int));
    }
    out
}

impl Store {
    /// The newest `count` messages of the buffer, newest first.
    pub fn fetch_latest_messages(&self, buffer_id: u64, count: usize) -> (r: Vec<Message>)
        ensures
            r@ == self.spec_fetch_latest(buffer_id, count as int),
    {
        let n = self.messages.len();
        let mut all: Vec<Message> = Vec::new();
        let mut i: usize = 0;
        proof {
            assert(self.messages@.take(0) =~~= Seq::<MessageRow>::empty());
        }
        while i < n
            invariant
                n == self.messages@.len(),
                i <= n,
                all@ == msgs_of(self.messages@.take(i as int), buffer_id),
            decreases n - i,
        {
            proof {
                assert(self.messages@.take(i + 1 as int).drop_last() =~~= self.messages@.take(
                    i as int,
                ));
                assert(self.messages@.take(i + 1 as int).last() == self.messages@[i as int]);
            }
            if self.messages[i].buffer_id == buffer_id {
                all.push(self.messages[i].msg.dup());
            }
            i = i + 1;
        }
        proof {
            assert(self.messages@.take(n as int) =~~= self.messages@);
        }
        window_newest(&all, count)
    }

    /// The newest `count` messages of the buffer with ids strictly below
    /// `before_id`, newest first.
    pub fn fetch_messages_before(&self, buffer_id: u64, before_id: u64, count: usize) -> (r: Vec<
        Message,
    >)
        ensures
            r@ == self.spec_fetch_before(buffer_id, before_id, count as int),
    {
        let n = self.messages.len();
        let mut all: Vec<Message> = Vec::new();
        let mut i: usize = 0;
        proof {
            assert(self.messages@.take(0) =~~= Seq::<MessageRow>::empty());
        }
        while i < n
            invariant
                n == self.messages@.len(),
                i <= n,
                all@ == older_than(
                    msgs_of(self.messages@.take(i as int), buffer_id),
                    before_id,
                ),
            decreases n - i,
        {
            let ghost pre = msgs_of(self.messages@.take(i as int), buffer_id);
            proof {
                assert(self.messages@.take(i + 1 as int).drop_last() =~~= self.messages@.take(
                    i as int,
                ));
                assert(self.messages@.take(i + 1 as int).last() == self.messages@[i as int]);
            }
            if self.messages[i].buffer_id == buffer_id {
                proof {
                    let stepped = msgs_of(self.messages@.take(i + 1 as int), buffer_id);
                    assert(stepped == pre.push(self.messages@[i as int].msg));
                    assert(stepped.drop_last() =~~= pre);
                    assert(stepped.last() == self.messages@[i as int].msg);
                }
                if self.messages[i].msg.id < before_id {
                    all.push(self.messages[i].msg.dup());
                }
            }
            i = i + 1;
        }
        proof {
            assert(self.messages@.take(n as int) =~~= self.messages@);
        }
        window_newest(&all, count)
    }
}

pub open spec fn ids_increasing(msgs: Seq<Message>) -> bool {
    forall|i: int, j: int| 0 <= i < j < msgs.len() ==> msgs[i].id < msgs[j].id
}

proof fn lemma_msgs_of_increasing(rows: Seq<MessageRow>, bid: u64)
    requires
        forall|i: int, j: int| 0 <= i < j < rows.len() ==> rows[i].msg.id < rows[j].msg.id,
    ensures
        ids_increasing(msgs_of(rows, bid)),
        forall|i: int|
            0 <= i < msgs_of(rows, bid).len() && rows.len() > 0 ==> #[trigger] msgs_of(
                rows,
                bid,
            )[i].id <= rows.last().msg.id,
    decreases rows.len(),
{
    if rows.len() == 0 {
    } else {
        let d = rows.drop_last();
        assert(forall|i: int, j: int| 0 <= i < j < d.len() ==> d[i].msg.id < d[j].msg.id);
        lemma_msgs_of_increasing(d, bid);
        let pre = msgs_of(d, bid);
        assert(forall|i: int|
            0 <= i < pre.len() && d.len() > 0 ==> #[trigger] pre[i].id <= d.last().msg.id);
        if d.len() > 0 {
            assert(d.last() == rows[rows.len() - 2]);
            assert(d.last().msg.id < rows.last().msg.id);
        }
        if rows.last().buffer_id == bid {
            let out = pre.push(rows.last().msg);
            assert(forall|i: int| 0 <= i < pre.len() ==> out[i] == pre[i]);
            assert(out.last() == rows.last().msg);
            assert(pre.len() > 0 ==> d.len() > 0);
            assert(ids_increasing(out));
        }
    }
}

proof fn lemma_older_all(msgs: Seq<Message>, cut: u64)
    requires
        forall|i: int| 0 <= i < msgs.len() ==> #[trigger] msgs[i].id < cut,
    ensures
        older_than(msgs, cut) == msgs,
    decreases msgs.len(),
{
    if msgs.len() == 0 {
        assert(older_than(msgs, cut) =~~= msgs);
    } else {
        let d = msgs.drop_last();
        assert(forall|i: int| 0 <= i < d.len() ==> #[trigger] d[i].id < cut);
        lemma_older_all(d, cut);
        assert(older_than(msgs, cut) =~~= msgs);
    }
}

proof fn lemma_older_cut(msgs: Seq<Message>, p: int)
    requires
        ids_increasing(msgs),
        0 <= p < msgs.len(),
    ensures
        older_than(msgs, msgs[p].id) == msgs.take(p),
    decreases msgs.len(),
{
    let cut = msgs[p].id;
    if p == msgs.len() - 1 {
        let d = msgs.drop_last();
        assert(forall|i: int| 0 <= i < d.len() ==> #[trigger] d[i].id < cut);
        lemma_older_all(d, cut);
        assert(older_than(msgs, cut) =~~= msgs.take(p));
    } else {
        let d = msgs.drop_last();
        assert(ids_increasing(d));
        assert(d[p] == msgs[p]);
        lemma_older_cut(d, p);
        assert(msgs.last().id > cut);
        assert(d.take(p) =~~= msgs.take(p));
        assert(older_than(msgs, cut) =~~= msgs.take(p));
    }
}

/// Paging history never overlaps: within one buffer the stored ids grow
/// in append order, each fetched window is newest-first, and fetching
/// `latest(n)` and then the window before the oldest id of that result
/// yields messages that are all strictly older.
pub proof fn lemma_paging_windows(s: Store, bid: u64, n: int)
    requires
        s.wf(),
        n >= 0,
    ensures
        ids_increasing(s.spec_buffer_messages(bid)),
        forall|a: int, b: int|
            0 <= a < b < s.spec_fetch_latest(bid, n).len() ==> s.spec_fetch_latest(bid, n)[a].id
                > s.spec_fetch_latest(bid, n)[b].id,
        s.spec_fetch_latest(bid, n).len() > 0 ==> {
            let lat = s.spec_fetch_latest(bid, n);
            let bef = s.spec_fetch_before(bid, lat.last().id, n);
            &&& forall|a: int, b: int| 0 <= a < b < bef.len() ==> bef[a].id > bef[b].id
            &&& forall|a: int, b: int|
                0 <= a < bef.len() && 0 <= b < lat.len() ==> bef[a].id < lat[b].id
        },
{
    let msgs = s.spec_buffer_messages(bid);
    lemma_msgs_of_increasing(s.messages@, bid);
    let len = msgs.len() as int;
    let k = if n < len {
        n
    } else {
        len
    };
    let lat = s.spec_fetch_latest(bid, n);
    assert(lat =~~= msgs.subrange(len - k, len).reverse());
    assert(lat.len() == k);
    assert(forall|a: int| 0 <= a < k ==> lat[a] == msgs[len - 1 - a]);
    assert(forall|a: int, b: int| 0 <= a < b < lat.len() ==> lat[a].id > lat[b].id);
    if lat.len() > 0 {
        let p = len - k;
        assert(lat.last() == msgs[p]);
        lemma_older_cut(msgs, p);
        let older = older_than(msgs, lat.last().id);
        assert(older == msgs.take(p));
        let k2 = if n < p {
            n
        } else {
            p
        };
        let bef = s.spec_fetch_before(bid, lat.last().id, n);
        assert(bef =~~= older.subrange(p - k2, p).reverse());
        assert(forall|a: int| 0 <= a < k2 ==> bef[a] == older[p - 1 - a]);
        assert(forall|a: int| 0 <= a < k2 ==> bef[a] == msgs[p - 1 - a]);
        assert(forall|a: int, b: int| 0 <= a < b < bef.len() ==> bef[a].id > bef[b].id);
        assert(forall|a: int, b: int|
            0 <= a < bef.len() && 0 <= b < lat.len() ==> bef[a].id < lat[b].id);
    }
}


/// The network rows belonging to one session, in stored order.
pub open spec fn rows_for_session(rows: Seq<NetworkRow>, sid: u64) -> Seq<NetworkRow>
    decreases rows.len(),
{
    if rows.len() == 0 {
        Seq::empty()
    } else {
        let pre = rows_for_session(rows.drop_last(), sid);
        if rows.last().session_id == sid {
            pre.push(rows.last())
        } else {
            pre
        }
    }
}

/// The buffer rows belonging to one network, in stored order.
pub open spec fn rows_for_network(rows: Seq<BufferRow>, nid: u64) -> Seq<BufferRow>
    decreases rows.len(),
{
    if rows.len() == 0 {
        Seq::empty()
    } else {
        let pre = rows_for_network(rows.drop_last(), nid);
        if rows.last().network_id == nid {
            pre.push(rows.last())
        } else {
            pre
        }
    }
}

/// Buffers reconstructed from their rows: same ids and roles, in stored
/// order, with nothing counted as appended yet.
pub open spec fn loaded_buffers(bufs: Seq<Buffer>, rows: Seq<BufferRow>) -> bool {
    &&& bufs.len() == rows.len()
    &&& forall|k: int|
        0 <= k < rows.len() ==> (#[trigger] bufs[k]).id == rows[k].id && bufs[k].role
            == rows[k].role && bufs[k].stored_messages == 0
}

/// A network reconstructed from its row: fresh and disconnected, with the
/// stored configuration when both of its parts are present, and its
/// buffers loaded from their rows.
pub open spec fn loaded_network(n: Network, row: NetworkRow, store: Store) -> bool {
    &&& n.id == row.id
    &&& n.state is NetworkDisconnected
    &&& n.nickname is None
    &&& n.client.conn_out is None
    &&& match (row.server, row.nickname) {
        (Some(srv), Some(nick)) => n.config matches Some(c) && c.server == srv && c.nickname
            == nick,
        _ => n.config is None,
    }
    &&& loaded_buffers(n.buffers@, rows_for_network(store.buffers@, row.id))
}

/// A session reconstructed from the store: one network per stored row of
/// this session, in stored order.
pub open spec fn loaded_session(s: Session, sid: u64, store: Store) -> bool {
    &&& s.networks@.len() == rows_for_session(store.networks@, sid).len()
    &&& forall|j: int|
        0 <= j < s.networks@.len() ==> loaded_network(
            #[trigger] s.networks@[j],
            rows_for_session(store.networks@, sid)[j],
            store,
        )
}

/// Attach the stored buffers of one network to its in-memory actor.
fn load_buffers(store: &Store, nid: u64, network: &mut Network)
    requires
        store.wf(),
        old(network).wf(*store),
        old(network).id == nid,
        old(network).buffers@.len() == 0,
    ensures
        final(network).wf(*store),
        final(network).id == old(network).id,
        final(network).state == old(network).state,
        final(network).nickname == old(network).nickname,
        final(network).client == old(network).client,
        final(network).config == old(network).config,
        loaded_buffers(final(network).buffers@, rows_for_network(store.buffers@, nid)),
{
    let n = store.buffers.len();
    let mut i: usize = 0;
    proof {
        assert(store.buffers@.take(0) =~~= Seq::<BufferRow>::empty());
    }
    while i < n
        invariant
            store.wf(),
            n == store.buffers@.len(),
            i <= n,
            network.wf(*store),
            network.id == old(network).id,
            network.state == old(network).state,
            network.nickname == old(network).nickname,
            network.client == old(network).client,
            network.config == old(network).config,
            nid == old(network).id,
            loaded_buffers(network.buffers@, rows_for_network(store.buffers@.take(i as int), nid)),
        decreases n - i,
    {
        proof {
            let t = store.buffers@.take(i + 1 as int);
            assert(t.drop_last() =~~= store.buffers@.take(i as int));
            assert(t.last() == store.buffers@[i as int]);
        }
        if store.buffers[i].network_id == nid {
            let row_id = store.buffers[i].id;
            let b = Buffer::create_repr(row_id, store.buffers[i].role.dup(), 0);
            network.buffers.push(b);
            proof {
                network.announced@ = network.announced@.insert(row_id);
                assert(store.buffers@[i as int].id < store.next_row_id);
            }
        }
        i = i + 1;
    }
    proof {
        assert(store.buffers@.take(n as int) =~~= store.buffers@);
    }
}

/// Rebuild one session's networks from the store.
fn load_session(store: &Store, sid: u64, session: &mut Session)
    requires
        store.wf(),
        old(session).networks@.len() == 0,
    ensures
        final(session).wf(*store),
        loaded_session(*final(session), sid, *store),
{
    let n = store.networks.len();
    let mut i: usize = 0;
    proof {
        assert(store.networks@.take(0) =~~= Seq::<NetworkRow>::empty());
    }
    while i < n
        invariant
            store.wf(),
            n == store.networks@.len(),
            i <= n,
            session.wf(*store),
            session.networks@.len() == rows_for_session(
                store.networks@.take(i as int),
                sid,
            ).len(),
            forall|j: int|
                0 <= j < session.networks@.len() ==> loaded_network(
                    #[trigger] session.networks@[j],
                    rows_for_session(store.networks@.take(i as int), sid)[j],
                    *store,
                ),
            forall|k: int|
                0 <= k < session.networks@.len() ==> exists|j: int|
                    0 <= j < i && (#[trigger] session.networks@[k]).id == store.networks@[j].id
                        && store.networks@[j].session_id == sid,
        decreases n - i,
    {
        proof {
            let t = store.networks@.take(i + 1 as int);
            assert(t.drop_last() =~~= store.networks@.take(i as int));
            assert(t.last() == store.networks@[i as int]);
        }
        if store.networks[i].session_id == sid {
            let row_id = store.networks[i].id;
            let mut network = Network::new(row_id);
            match (&store.networks[i].server, &store.networks[i].nickname) {
                (Some(srv), Some(nick)) => {
                    network.config = Some(
                        Configuration { server: srv.clone(), nickname: nick.clone() },
                    );
                },
                _ => {},
            }
            load_buffers(store, row_id, &mut network);
            proof {
                assert(!crate::session::has_network(session.networks@, row_id)) by {
                    assert forall|k: int|
                        0 <= k < session.networks@.len() implies (
                    #[trigger] session.networks@[k]).id != row_id by {
                        let j = choose|j: int|
                            0 <= j < i && (#[trigger] session.networks@[k]).id
                                == store.networks@[j].id && store.networks@[j].session_id == sid;
                        assert(store.networks@[j].id != store.networks@[i as int].id);
                    }
                }
            }
            session.insert_network(store, network);
        }
        i = i + 1;
    }
    proof {
        assert(store.networks@.take(n as int) =~~= store.networks@);
    }
}

/// Rebuild the whole core from the store: every session with its networks
/// and their buffers, ready to be driven; no remotes are attached, and
/// historical messages stay in the store until fetched.
pub fn load_core(store: &Store) -> (rc: RemoteControl)
    requires
        store.wf(),
    ensures
        rc.wf(*store),
        rc.remotes@.len() == 0,
        rc.next_tag == 0,
        rc.sessions@.len() == store.sessions@.len(),
        forall|i: int|
            0 <= i < store.sessions@.len() ==> (#[trigger] rc.sessions@[i]).0
                == store.sessions@[i] && loaded_session(
                rc.sessions@[i].1.session,
                store.sessions@[i],
                *store,
            ),
{
    let mut rc = RemoteControl::new();
    let n = store.sessions.len();
    let mut i: usize = 0;
    while i < n
        invariant
            store.wf(),
            n == store.sessions@.len(),
            i <= n,
            rc.wf(*store),
            rc.remotes@.len() == 0,
            rc.next_tag == 0,
            rc.sessions@.len() == i,
            forall|k: int|
                0 <= k < i ==> (#[trigger] rc.sessions@[k]).0 == store.sessions@[k]
                    && loaded_session(rc.sessions@[k].1.session, store.sessions@[k], *store),
        decreases n - i,
    {
        let sid = store.sessions[i];
        let mut session = Session::new();
        load_session(store, sid, &mut session);
        proof {
            assert(!crate::remotecontrol::has_session(rc.sessions@, sid)) by {
                assert forall|k: int|
                    0 <= k < rc.sessions@.len() implies (#[trigger] rc.sessions@[k]).0 != sid by {
                    assert(rc.sessions@[k].0 == store.sessions@[k]);
                    assert(store.sessions@[k] != store.sessions@[i as int]);
                }
            }
        }
        rc.add_session(store, sid, SessionData { session });
        i = i + 1;
    }
    rc
}

/// The first position holding the network row with the given id.
pub open spec fn first_network_with(rows: Seq<NetworkRow>, nid: u64) -> int {
    choose|i: int|
        0 <= i < rows.len() && rows[i].id == nid && forall|j: int| 0 <= j < i ==> rows[j].id != nid
}

proof fn lemma_first_network_with(rows: Seq<NetworkRow>, nid: u64, i: int)
    requires
        0 <= i < rows.len(),
        rows[i].id == nid,
        forall|j: int| 0 <= j < i ==> rows[j].id != nid,
    ensures
        first_network_with(rows, nid) == i,
{
    assert(0 <= i < rows.len() && rows[i].id == nid && forall|j: int|
        0 <= j < i ==> rows[j].id != nid);
    let w = first_network_with(rows, nid);
    if w != i {
        if w < i {
            assert(rows[w].id != nid);
        } else {
            assert(rows[i].id != nid);
        }
    }
}

} // verus!
