//! One configured IRC network: its connection state machine, its buffers,
//! and the handling of upstream events and client commands.
//!
//! The actor owns no socket: upstream writes land in its client's outbox,
//! and every event or command handled returns the replies to route. Each
//! command yields exactly one reply under the request's envelope; events
//! carry no tags. A `NewBuffer` event always precedes the first
//! `BufferMessage` for that buffer.

pub mod msg;

use vstd::prelude::*;
use vstd::utf8::encode_utf8;
use crate::buffer::{Buffer, Message as BufMessage, MessageContents, Role};
use crate::database::{BufferRow, MessageRow, Store};
use crate::encoding::{
    irc_eq_bytes, irc_lower_bytes, lossy_decode, lower_seq, Encoding,
};
use crate::envelope::Envelope;
use crate::irc::client::{client_outbox, Client, ClientMessage};
use crate::irc::parser;
use vstd::slice::{slice_subrange, slice_to_vec};

verus! {

/// The three byte-string codecs a network applies: `network` for
/// identifiers, `outgoing` for text sent, `incoming` for text received.
pub struct EncodingPolicy {
    pub network: Encoding,
    pub outgoing: Encoding,
    pub incoming: Encoding,
}

impl Default for EncodingPolicy {
    fn default() -> (r: EncodingPolicy) {
        EncodingPolicy {
            network: Encoding::new(),
            outgoing: Encoding::new(),
            incoming: Encoding::new(),
        }
    }
}

/// Where the upstream connection stands.
#[derive(Clone, Copy, Debug, PartialEq, Eq, Structural)]
pub enum State {
    NetworkDisconnected,
    NetworkConnecting,
    NetworkConnected,
}

/// What is needed to reach a network: the server as `host:port`, and the
/// nickname to register with.
#[derive(Debug, PartialEq, Eq)]
pub struct Configuration {
    pub server: String,
    pub nickname: String,
}

impl Configuration {
    /// A value equal to this one.
    pub fn dup(&self) -> (r: Configuration)
        ensures
            r == *self,
    {
        Configuration { server: self.server.clone(), nickname: self.nickname.clone() }
    }
}

/// The shape of a role: its kind and the characters of its name.
pub ghost enum RoleView {
    Status,
    Channel(Seq<char>),
    Query(Seq<char>),
}

pub open spec fn role_view(r: Role) -> RoleView {
    match r {
        Role::Status => RoleView::Status,
        Role::Channel(n) => RoleView::Channel(n@),
        Role::Query(n) => RoleView::Query(n@),
    }
}

/// Buffer names are equal when their UTF-8 bytes agree under the IRC
/// casemap.
pub open spec fn role_name_eq(a: Seq<char>, b: Seq<char>) -> bool {
    lower_seq(encode_utf8(a)) == lower_seq(encode_utf8(b))
}

pub open spec fn role_views_match(a: RoleView, b: RoleView) -> bool {
    match (a, b) {
        (RoleView::Status, RoleView::Status) => true,
        (RoleView::Channel(x), RoleView::Channel(y)) => role_name_eq(x, y),
        (RoleView::Query(x), RoleView::Query(y)) => role_name_eq(x, y),
        _ => false,
    }
}

/// Role equality as buffer lookup sees it: same kind, names equal under
/// the casemap.
pub fn roles_match(a: &Role, b: &Role) -> (r: bool)
    ensures
        r == role_views_match(role_view(*a), role_view(*b)),
{
    match (a, b) {
        (Role::Status, Role::Status) => true,
        (Role::Channel(x), Role::Channel(y)) => irc_eq_bytes(
            x.as_str().as_bytes(),
            y.as_str().as_bytes(),
        ),
        (Role::Query(x), Role::Query(y)) => irc_eq_bytes(
            x.as_str().as_bytes(),
            y.as_str().as_bytes(),
        ),
        _ => false,
    }
}

/// Whether some buffer matches the role shape.
pub open spec fn has_role(bufs: Seq<Buffer>, rv: RoleView) -> bool {
    exists|i: int| 0 <= i < bufs.len() && role_views_match(role_view(bufs[i].role), rv)
}

/// The first buffer matching the role shape.
pub open spec fn first_role_match(bufs: Seq<Buffer>, rv: RoleView) -> int {
    choose|i: int|
        0 <= i < bufs.len() && role_views_match(role_view(bufs[i].role), rv) && forall|j: int|
            0 <= j < i ==> !role_views_match(role_view(bufs[j].role), rv)
}

proof fn lemma_first_role_match(bufs: Seq<Buffer>, rv: RoleView, i: int)
    requires
        0 <= i < bufs.len(),
        role_views_match(role_view(bufs[i].role), rv),
        forall|j: int| 0 <= j < i ==> !role_views_match(role_view(bufs[j].role), rv),
    ensures
        first_role_match(bufs, rv) == i,
{
    assert(0 <= i < bufs.len() && role_views_match(role_view(bufs[i].role), rv) && forall|j: int|
        0 <= j < i ==> !role_views_match(role_view(bufs[j].role), rv));
    let w = first_role_match(bufs, rv);
    if w != i {
        if w < i {
            assert(!role_views_match(role_view(bufs[w].role), rv));
        } else {
            assert(!role_views_match(role_view(bufs[i].role), rv));
        }
    }
}

/// One network actor.
pub struct Network {
    pub id: u64,
    pub client: Client,
    pub encoding: EncodingPolicy,
    pub buffers: Vec<Buffer>,
    pub state: State,
    pub nickname: Option<Vec<u8>>,
    pub config: Option<Configuration>,
    /// The ids of buffers already announced on this network's event
    /// stream (or present when the network was loaded).
    pub announced: Ghost<Set<u64>>,
}

impl Network {
    /// Every held buffer has been announced, and every announced id was
    /// drawn from the store's id counter.
    pub open spec fn wf(&self, store: Store) -> bool {
        &&& forall|i: int|
            0 <= i < self.buffers@.len() ==> self.announced@.contains(
                #[trigger] self.buffers@[i].id,
            )
        &&& forall|b: u64| self.announced@.contains(b) ==> b < store.next_row_id
    }

    /// A fresh, unconfigured, disconnected network.
    pub fn new(id: u64) -> (r: Network)
        ensures
            r.id == id,
            r.client.conn_out is None,
            r.buffers@.len() == 0,
            r.state is NetworkDisconnected,
            r.nickname is None,
            r.config is None,
            r.announced@ == Set::<u64>::empty(),
            forall|s: Store| #[trigger] s.wf() ==> r.wf(s),
    {
        Network {
            id,
            client: Client::new(),
            encoding: Default::default(),
            buffers: Vec::new(),
            state: State::NetworkDisconnected,
            nickname: None,
            config: None,
            announced: Ghost(Set::empty()),
        }
    }

    /// Find the buffer matching the role, or create it, announcing the
    /// new buffer before anything is appended to it.
    fn get_buffer(&mut self, store: &mut Store, role: Role, out: &mut Vec<msg::Message>) -> (idx:
        usize)
        requires
            old(self).wf(*old(store)),
            old(store).wf(),
            old(store).has_room(1),
        ensures
            final(store).wf(),
            final(self).wf(*final(store)),
            idx < final(self).buffers@.len(),
            final(self).buffers@[idx as int].id < final(store).next_row_id,
            role_views_match(role_view(final(self).buffers@[idx as int].role), role_view(role)),
            final(self).id == old(self).id,
            final(self).client == old(self).client,
            final(self).state == old(self).state,
            final(self).nickname == old(self).nickname,
            final(self).config == old(self).config,
            final(store).messages == old(store).messages,
            final(store).sessions == old(store).sessions,
            final(store).networks == old(store).networks,
            has_role(old(self).buffers@, role_view(role)) ==> {
                &&& *final(store) == *old(store)
                &&& *final(self) == *old(self)
                &&& final(out)@ == old(out)@
                &&& idx == first_role_match(old(self).buffers@, role_view(role))
            },
            !has_role(old(self).buffers@, role_view(role)) ==> {
                let bid = old(store).next_row_id;
                &&& idx == old(self).buffers@.len()
                &&& final(self).buffers@ == old(self).buffers@.push(
                    Buffer { id: bid, role: role, stored_messages: 0 },
                )
                &&& final(self).announced@ == old(self).announced@.insert(bid)
                &&& !old(self).announced@.contains(bid)
                &&& final(out)@ == old(out)@.push(msg::Message::NewBuffer(bid, role))
                &&& final(store).buffers@ == old(store).buffers@.push(
                    BufferRow { id: bid, network_id: old(self).id, role: role },
                )
                &&& final(store).next_row_id == old(store).next_row_id + 1
            },
    {
        let n = self.buffers.len();
        let mut i: usize = 0;
        while i < n
            invariant
                old(self).wf(*old(store)),
                old(store).wf(),
                *store == *old(store),
                n == self.buffers@.len(),
                i <= n,
                *self == *old(self),
                out@ == old(out)@,
                forall|j: int|
                    0 <= j < i ==> !role_views_match(
                        role_view(#[trigger] old(self).buffers@[j].role),
                        role_view(role),
                    ),
            decreases n - i,
        {
            if roles_match(&self.buffers[i].role, &role) {
                proof {
                    lemma_first_role_match(self.buffers@, role_view(role), i as int);
                }
                return i;
            }
            i = i + 1;
        }
        let ghost bid = store.next_row_id;
        let buf = store.create_buffer(self.id, role.dup());
        out.push(msg::Message::NewBuffer(buf.id, role.dup()));
        let idx = self.buffers.len();
        self.buffers.push(buf);
        proof {
            self.announced@ = self.announced@.insert(bid);
        }
        proof {
            assert(final(self).buffers@ =~~= old(self).buffers@.push(
                Buffer { id: bid, role: role, stored_messages: 0 },
            ));
        }
        idx
    }
}

/// The shape of message contents: the variant and its decoded text.
pub ghost enum ContentsView {
    Information(Seq<char>),
    Join(Seq<char>),
    Privmsg(Seq<char>, Seq<char>),
}

pub open spec fn contents_view(c: MessageContents) -> ContentsView {
    match c {
        MessageContents::Information(t) => ContentsView::Information(t@),
        MessageContents::Join(w) => ContentsView::Join(w@),
        MessageContents::Privmsg(w, t) => ContentsView::Privmsg(w@, t@),
    }
}

/// The event announces buffer `b`.
pub open spec fn announces(m: msg::Message, b: u64) -> bool {
    m matches msg::Message::NewBuffer(id, _) && id == b
}

/// The event carries a message of buffer `b`.
pub open spec fn uses_buffer(m: msg::Message, b: u64) -> bool {
    m matches msg::Message::BufferMessage(id, _) && id == b
}

/// Every buffer used in the batch was announced earlier: either before
/// the batch, or by a `NewBuffer` at a smaller index within it.
pub open spec fn announce_before_use(out: Seq<msg::Message>, announced: Set<u64>) -> bool {
    forall|k: int, b: u64|
        0 <= k < out.len() && #[trigger] uses_buffer(out[k], b) ==> announced.contains(b) || (
        exists|j: int| 0 <= j < k && announces(#[trigger] out[j], b))
}

/// The buffers the batch announces.
pub open spec fn announced_ids(out: Seq<msg::Message>) -> Set<u64> {
    Set::new(|b: u64| exists|k: int| 0 <= k < out.len() && announces(#[trigger] out[k], b))
}

/// One handled event emits a batch that uses only announced buffers and
/// grows the announced set by exactly what it announces.
pub open spec fn batch_ok(out: Seq<msg::Message>, before: Set<u64>, after: Set<u64>) -> bool {
    &&& announce_before_use(out, before)
    &&& after == before.union(announced_ids(out))
}

/// One message was posted to the buffer of the given role shape: the
/// events from `start` on are a possible `NewBuffer`, then the
/// `BufferMessage`; the store gained the message row (and the buffer
/// row, when the buffer is new).
pub open spec fn posted(
    pre_bufs: Seq<Buffer>,
    nid: u64,
    post_bufs: Seq<Buffer>,
    pre_store: Store,
    post_store: Store,
    out: Seq<msg::Message>,
    rv: RoleView,
    cv: ContentsView,
) -> bool {
    exists|bid: u64, m: BufMessage|
        {
            &&& #[trigger] uses_buffer(msg::Message::BufferMessage(bid, m), bid)
            &&& out.len() == (if has_role(pre_bufs, rv) {
                1int
            } else {
                2int
            })
            &&& out.last() == msg::Message::BufferMessage(bid, m)
            &&& contents_view(m.contents) == cv
            &&& post_store.messages@ == pre_store.messages@.push(
                MessageRow { buffer_id: bid, msg: m },
            )
            &&& if has_role(pre_bufs, rv) {
                &&& m.id == pre_store.next_row_id
                &&& bid == pre_bufs[first_role_match(pre_bufs, rv)].id
                &&& post_bufs.len() == pre_bufs.len()
                &&& forall|i: int|
                    0 <= i < pre_bufs.len() ==> #[trigger] post_bufs[i].id == pre_bufs[i].id
                        && post_bufs[i].role == pre_bufs[i].role
                &&& post_store.buffers == pre_store.buffers
                &&& post_store.next_row_id == pre_store.next_row_id + 1
            } else {
                &&& m.id == pre_store.next_row_id + 1
                &&& bid == pre_store.next_row_id
                &&& out[0] matches msg::Message::NewBuffer(nb, r2) && nb == bid && role_view(
                    r2,
                ) == rv
                &&& post_bufs.len() == pre_bufs.len() + 1
                &&& forall|i: int|
                    0 <= i < pre_bufs.len() ==> #[trigger] post_bufs[i].id == pre_bufs[i].id
                        && post_bufs[i].role == pre_bufs[i].role
                &&& post_bufs.last().id == bid
                &&& role_view(post_bufs.last().role) == rv
                &&& post_store.buffers@.len() == pre_store.buffers@.len() + 1
                &&& post_store.buffers@.last().id == bid
                &&& post_store.buffers@.last().network_id == nid
                &&& role_view(post_store.buffers@.last().role) == rv
                &&& post_store.next_row_id == pre_store.next_row_id + 2
            }
        }
}

impl Network {
    /// Post one message: find or create the buffer for the role, append
    /// the message, and emit the events, announcement first.
    fn reply_buffer(
        &mut self,
        store: &mut Store,
        role: Role,
        cont: MessageContents,
        out: &mut Vec<msg::Message>,
    )
        requires
            old(self).wf(*old(store)),
            old(store).wf(),
            old(store).has_room(2),
        ensures
            final(store).wf(),
            final(self).wf(*final(store)),
            final(self).id == old(self).id,
            final(self).client == old(self).client,
            final(self).state == old(self).state,
            final(self).nickname == old(self).nickname,
            final(self).config == old(self).config,
            final(store).sessions == old(store).sessions,
            final(store).networks == old(store).networks,
            final(store).next_row_id >= old(store).next_row_id,
            final(out)@.len() >= old(out)@.len() + 1,
            final(out)@.take(old(out)@.len() as int) == old(out)@,
            posted(
                old(self).buffers@,
                old(self).id,
                final(self).buffers@,
                *old(store),
                *final(store),
                final(out)@.skip(old(out)@.len() as int),
                role_view(role),
                contents_view(cont),
            ),
            batch_ok(
                final(out)@.skip(old(out)@.len() as int),
                old(self).announced@,
                final(self).announced@,
            ),
            forall|b: u64|
                announced_ids(final(out)@.skip(old(out)@.len() as int)).contains(b) ==> !old(
                    self,
                ).announced@.contains(b),
    {
        let ghost base = out@.len() as int;
        let ghost pre_bufs = self.buffers@;
        let ghost pre_store = *store;
        let ghost pre_announced = self.announced@;
        let rv = Ghost(role_view(role));
        let cv = Ghost(contents_view(cont));
        let idx = self.get_buffer(store, role, out);
        let ghost mid_out = out@;
        let bid = self.buffers[idx].id;
        let stored = {
            let b = &mut self.buffers[idx];
            proof {
                assert(b.id == bid);
            }
            b.add(store, BufMessage::now(cont))
        };
        out.push(msg::Message::BufferMessage(bid, stored.dup()));
        proof {
            let added = out@.skip(base);
            assert(out@.take(base) =~~= old(out)@);
            if has_role(pre_bufs, rv@) {
                assert(added =~~= seq![msg::Message::BufferMessage(bid, stored)]);
                assert(posted(
                    pre_bufs,
                    old(self).id,
                    self.buffers@,
                    pre_store,
                    *store,
                    added,
                    rv@,
                    cv@,
                )) by {
                    assert(uses_buffer(msg::Message::BufferMessage(bid, stored), bid));
                    assert(added.last() == msg::Message::BufferMessage(bid, stored));
                    assert(forall|i: int|
                        0 <= i < pre_bufs.len() ==> #[trigger] self.buffers@[i].id == pre_bufs[i].id
                            && self.buffers@[i].role == pre_bufs[i].role);
                }
                assert(announced_ids(added) =~~= Set::<u64>::empty());
                assert(self.announced@ =~~= pre_announced.union(announced_ids(added)));
                assert(announce_before_use(added, pre_announced)) by {
                    assert(forall|k: int, b: u64|
                        0 <= k < added.len() && #[trigger] uses_buffer(added[k], b) ==> b == bid);
                    assert(pre_announced.contains(bid));
                }
            } else {
                let nb_event = mid_out[base];
                assert(added =~~= seq![nb_event, msg::Message::BufferMessage(bid, stored)]);
                assert(nb_event == msg::Message::NewBuffer(bid, role));
                assert(posted(
                    pre_bufs,
                    old(self).id,
                    self.buffers@,
                    pre_store,
                    *store,
                    added,
                    rv@,
                    cv@,
                )) by {
                    assert(uses_buffer(msg::Message::BufferMessage(bid, stored), bid));
                    assert(added.last() == msg::Message::BufferMessage(bid, stored));
                    assert(self.buffers@.last().id == bid);
                    assert(forall|i: int|
                        0 <= i < pre_bufs.len() ==> #[trigger] self.buffers@[i].id == pre_bufs[i].id
                            && self.buffers@[i].role == pre_bufs[i].role);
                }
                assert(announced_ids(added) =~~= Set::<u64>::empty().insert(bid)) by {
                    assert(announces(added[0], bid));
                    assert(forall|k: int, b: u64|
                        0 <= k < added.len() && #[trigger] announces(added[k], b) ==> b == bid);
                }
                assert(self.announced@ =~~= pre_announced.union(announced_ids(added)));
                assert(announce_before_use(added, pre_announced)) by {
                    assert(forall|k: int, b: u64|
                        0 <= k < added.len() && #[trigger] uses_buffer(added[k], b) ==> k == 1 && b
                            == bid);
                    assert(announces(added[0], bid));
                }
            }
        }
    }
}

pub open spec fn is_digit(b: u8) -> bool {
    0x30 <= b <= 0x39
}

pub open spec fn all_digits(d: Seq<u8>) -> bool {
    forall|i: int| 0 <= i < d.len() ==> is_digit(#[trigger] d[i])
}

/// The numeric value of a string of decimal digits.
pub open spec fn dec_value(d: Seq<u8>) -> int
    decreases d.len(),
{
    if d.len() == 0 {
        0
    } else {
        dec_value(d.drop_last()) * 10 + (d.last() - 0x30)
    }
}

/// `p` is the position of the last colon.
pub open spec fn last_colon_at(s: Seq<u8>, p: int) -> bool {
    &&& 0 <= p < s.len()
    &&& s[p] == parser::COLON
    &&& forall|j: int| p < j < s.len() ==> s[j] != parser::COLON
}

/// The server string is `host:port`: a non-empty host, a colon, and a
/// decimal port that fits in sixteen bits.
pub open spec fn valid_host_port(s: Seq<u8>) -> bool {
    exists|p: int|
        {
            &&& #[trigger] last_colon_at(s, p)
            &&& p >= 1
            &&& p + 1 < s.len()
            &&& all_digits(s.skip(p + 1))
            &&& dec_value(s.skip(p + 1)) <= 65535
        }
}

proof fn lemma_dec_value_nonneg(d: Seq<u8>)
    requires
        all_digits(d),
    ensures
        dec_value(d) >= 0,
    decreases d.len(),
{
    if d.len() > 0 {
        assert(all_digits(d.drop_last()));
        lemma_dec_value_nonneg(d.drop_last());
    }
}

proof fn lemma_dec_value_mono(d: Seq<u8>, i: int)
    requires
        all_digits(d),
        0 <= i <= d.len(),
    ensures
        dec_value(d.take(i)) <= dec_value(d),
    decreases d.len() - i,
{
    if i == d.len() {
        assert(d.take(i) =~~= d);
    } else {
        lemma_dec_value_mono(d, i + 1);
        let t = d.take(i + 1);
        assert(all_digits(t));
        assert(t.drop_last() =~~= d.take(i));
        lemma_dec_value_nonneg(d.take(i));
        assert(dec_value(t) == dec_value(d.take(i)) * 10 + (t.last() - 0x30));
        assert(dec_value(d.take(i)) <= dec_value(t));
    }
}

/// Split a server string into host and port: everything before the last
/// colon, which must be non-empty, and the decimal port after it.
pub fn parse_host_port(s: &[u8]) -> (r: Option<(Vec<u8>, u16)>)
    ensures
        r is Some <==> valid_host_port(s@),
        r matches Some((h, port)) ==> exists|p: int|
            {
                &&& #[trigger] last_colon_at(s@, p)
                &&& h@ == s@.take(p)
                &&& port as int == dec_value(s@.skip(p + 1))
            },
{
    let n = s.len();
    let mut p: usize = n;
    loop
        invariant_except_break
            n == s@.len(),
            p <= n,
            forall|j: int| p <= j < n ==> s@[j] != parser::COLON,
        ensures
            last_colon_at(s@, p as int),
            p < n,
        decreases p,
    {
        if p == 0 {
            proof {
                assert forall|q: int| !(#[trigger] last_colon_at(s@, q)) by {
                    if 0 <= q < s@.len() {
                        assert(s@[q] != parser::COLON);
                    }
                }
            }
            return None;
        }
        p = p - 1;
        if s[p] == parser::COLON {
            break ;
        }
    }
    proof {
        assert(last_colon_at(s@, p as int));
    }
    if p == 0 || p + 1 == n {
        proof {
            assert forall|q: int| #[trigger] last_colon_at(s@, q) implies q == p as int by {
                if q > p as int {
                    assert(s@[q] != parser::COLON);
                } else if q < p as int {
                    assert(s@[p as int] != parser::COLON);
                }
            }
        }
        return None;
    }
    let mut value: u32 = 0;
    let mut j: usize = p + 1;
    let ghost digs = s@.skip(p + 1 as int);
    while j < n
        invariant
            n == s@.len(),
            p + 1 <= j <= n,
            p < n,
            digs == s@.skip(p + 1 as int),
            last_colon_at(s@, p as int),
            all_digits(digs.take(j - p - 1 as int)),
            value <= 65535,
            value == dec_value(digs.take(j - p - 1 as int)),
        decreases n - j,
    {
        let b = s[j];
        proof {
            assert(digs[j - p - 1 as int] == s@[j as int]);
            assert(digs.take(j - p - 1 as int + 1).drop_last() =~~= digs.take(j - p - 1 as int));
            assert(digs.take(j - p - 1 as int + 1).last() == digs[j - p - 1 as int]);
        }
        if b < 0x30 || b > 0x39 {
            proof {
                assert(!is_digit(digs[j - p - 1 as int]));
                assert forall|q: int| #[trigger] last_colon_at(s@, q) implies !(q >= 1 && q + 1
                    < s@.len() && all_digits(s@.skip(q + 1)) && dec_value(s@.skip(q + 1))
                    <= 65535) by {
                    if q > p as int {
                        assert(s@[q] != parser::COLON);
                    } else if q < p as int {
                        assert(s@[p as int] != parser::COLON);
                    } else {
                        assert(!all_digits(s@.skip(q + 1)));
                    }
                }
            }
            return None;
        }
        let d: u32 = (b - 0x30) as u32;
        let next: u32 = value * 10 + d;
        if next > 65535 {
            proof {
                let pre = digs.take(j - p - 1 as int + 1);
                assert(dec_value(pre) == next);
                if all_digits(digs) && dec_value(digs) <= 65535 {
                    lemma_dec_value_mono(digs, j - p - 1 as int + 1);
                }
                assert forall|q: int| #[trigger] last_colon_at(s@, q) implies !(q >= 1 && q + 1
                    < s@.len() && all_digits(s@.skip(q + 1)) && dec_value(s@.skip(q + 1))
                    <= 65535) by {
                    if q > p as int {
                        assert(s@[q] != parser::COLON);
                    } else if q < p as int {
                        assert(s@[p as int] != parser::COLON);
                    }
                }
            }
            return None;
        }
        value = next;
        j = j + 1;
    }
    proof {
        assert(digs.take(n - p - 1 as int) =~~= digs);
        lemma_dec_value_nonneg(digs);
    }
    let host = slice_to_vec(slice_subrange(s, 0, p));
    proof {
        assert(host@ =~~= s@.take(p as int));
        assert(valid_host_port(s@));
    }
    Some((host, value as u16))
}

/// `p` is the position of the first `!` in a source prefix.
pub open spec fn bang_at(s: Seq<u8>, p: int) -> bool {
    &&& 0 <= p < s.len()
    &&& s[p] == 0x21
    &&& forall|j: int| 0 <= j < p ==> s[j] != 0x21
}

/// The nick part of a source prefix: everything before the first `!`, or
/// the whole prefix when there is none.
pub open spec fn spec_nick_of(s: Seq<u8>) -> Seq<u8> {
    if exists|p: int| bang_at(s, p) {
        s.take(choose|p: int| bang_at(s, p))
    } else {
        s
    }
}

/// The nick part of a source prefix.
pub fn nick_of(s: &[u8]) -> (r: Vec<u8>)
    ensures
        r@ == spec_nick_of(s@),
{
    let n = s.len();
    let mut i: usize = 0;
    while i < n
        invariant
            n == s@.len(),
            i <= n,
            forall|j: int| 0 <= j < i ==> s@[j] != 0x21,
        decreases n - i,
    {
        if s[i] == 0x21 {
            proof {
                assert(bang_at(s@, i as int));
                let p = choose|p: int| bang_at(s@, p);
                if p < i as int {
                    assert(s@[p] != 0x21);
                } else if p > i as int {
                    assert(s@[i as int] != 0x21);
                }
                assert(p == i as int);
            }
            return slice_to_vec(slice_subrange(s, 0, i));
        }
        i = i + 1;
    }
    proof {
        assert forall|p: int| !(#[trigger] bang_at(s@, p)) by {
            if 0 <= p < s@.len() {
                assert(s@[p] != 0x21);
            }
        }
    }
    slice_to_vec(s)
}

/// The text posted to the status buffer on welcome.
pub open spec fn welcome_text() -> Seq<char> {
    "Welcome to IRC!"@
}

/// A leading event that neither announces nor uses a buffer leaves a
/// batch's bookkeeping intact.
proof fn lemma_batch_ok_cons(
    e: msg::Message,
    rest: Seq<msg::Message>,
    before: Set<u64>,
    after: Set<u64>,
)
    requires
        batch_ok(rest, before, after),
        forall|b: u64| !announces(e, b) && !uses_buffer(e, b),
    ensures
        batch_ok(seq![e] + rest, before, after),
{
    let full = seq![e] + rest;
    assert(forall|k: int| 1 <= k < full.len() ==> full[k] == rest[k - 1]);
    assert forall|k: int, b: u64|
        0 <= k < full.len() && #[trigger] uses_buffer(full[k], b) implies before.contains(b) || (
    exists|j: int| 0 <= j < k && announces(#[trigger] full[j], b)) by {
        if k == 0 {
            assert(!uses_buffer(e, b));
        } else {
            assert(uses_buffer(rest[k - 1], b));
            if !before.contains(b) {
                let j = choose|j: int| 0 <= j < k - 1 && announces(#[trigger] rest[j], b);
                assert(announces(full[j + 1], b));
            }
        }
    }
    assert(announced_ids(full) =~~= announced_ids(rest)) by {
        assert forall|b: u64| announced_ids(full).contains(b) implies announced_ids(
            rest,
        ).contains(b) by {
            let k = choose|k: int| 0 <= k < full.len() && announces(#[trigger] full[k], b);
            assert(k != 0);
            assert(announces(rest[k - 1], b));
        }
        assert forall|b: u64| announced_ids(rest).contains(b) implies announced_ids(
            full,
        ).contains(b) by {
            let k = choose|k: int| 0 <= k < rest.len() && announces(#[trigger] rest[k], b);
            assert(announces(full[k + 1], b));
        }
    }
}

/// How one upstream event changes a network and the store, and what
/// the emitted batch holds: the full transition relation of
/// `handle_message`.
pub open spec fn message_step(
    pre: Network,
    post: Network,
    pre_store: Store,
    post_store: Store,
    event: ClientMessage,
    out: Seq<msg::Message>,
) -> bool {
    &&& post_store.wf()
    &&& post.wf(post_store)
    &&& post.id == pre.id
    &&& post.config == pre.config
    &&& post_store.sessions == pre_store.sessions
    &&& post_store.networks == pre_store.networks
    &&& post_store.next_row_id >= pre_store.next_row_id
    &&& batch_ok(out, pre.announced@, post.announced@)
    &&& forall|b: u64| announced_ids(out).contains(b) ==> !pre.announced@.contains(b)
    &&& match event {
                ClientMessage::ConnectionError(e) => {
                    &&& out.len() == 1
                    &&& (out[0] matches msg::Message::Disconnected(t) && t == e)
                    &&& post.state is NetworkDisconnected
                    &&& post.client.conn_out is None
                    &&& post.nickname == pre.nickname
                    &&& post_store == pre_store
                    &&& post.buffers == pre.buffers
                },
                ClientMessage::Message(m) => match m {
                    parser::Message::Ping(target) => {
                        &&& out.len() == 0
                        &&& post_store == pre_store
                        &&& post.buffers == pre.buffers
                        &&& post.state == pre.state
                        &&& post.nickname == pre.nickname
                        &&& (pre.client.conn_out is Some ==> (post.client.conn_out
                            is Some && client_outbox(post.client) == client_outbox(
                            pre.client,
                        ) + crate::irc::client::lit_pong() + target@ + crate::irc::client::crlf()))
                        &&& (pre.client.conn_out is None ==> post.client == pre.client)
                    },
                    parser::Message::Welcome(_) => {
                        &&& post.state is NetworkConnected
                        &&& out.len() >= 1
                        &&& out[0] is Connected
                        &&& post.client == pre.client
                        &&& post.nickname == pre.nickname
                        &&& posted(
                            pre.buffers@,
                            pre.id,
                            post.buffers@,
                            pre_store,
                            post_store,
                            out.skip(1),
                            RoleView::Status,
                            ContentsView::Information(welcome_text()),
                        )
                    },
                    parser::Message::Join(who, channel) => {
                        &&& post.state == pre.state
                        &&& post.client == pre.client
                        &&& post.nickname == pre.nickname
                        &&& posted(
                            pre.buffers@,
                            pre.id,
                            post.buffers@,
                            pre_store,
                            post_store,
                            out,
                            RoleView::Channel(lossy_decode(lower_seq(channel@))),
                            ContentsView::Join(lossy_decode(who@)),
                        )
                    },
                    parser::Message::Privmsg(who, target, text) => {
                        let to_self = (pre.nickname matches Some(n) && lower_seq(target@)
                            == lower_seq(n@));
                        &&& post.state == pre.state
                        &&& post.client == pre.client
                        &&& post.nickname == pre.nickname
                        &&& posted(
                            pre.buffers@,
                            pre.id,
                            post.buffers@,
                            pre_store,
                            post_store,
                            out,
                            if to_self {
                                RoleView::Query(lossy_decode(lower_seq(spec_nick_of(who@))))
                            } else {
                                RoleView::Channel(lossy_decode(lower_seq(target@)))
                            },
                            ContentsView::Privmsg(lossy_decode(who@), lossy_decode(text@)),
                        )
                    },
                    parser::Message::Unknown(_) => {
                        &&& out.len() == 0
                        &&& post_store == pre_store
                        &&& post == pre
                    },
                },
            }
}

impl Network {
    /// React to one event from the upstream reader: answer pings, track
    /// the connection state, and post what belongs in a buffer. The
    /// returned events are spontaneous: the session wraps them in empty
    /// envelopes.
    pub fn handle_message(&mut self, store: &mut Store, event: ClientMessage) -> (out: Vec<
        msg::Message,
    >)
        requires
            old(self).wf(*old(store)),
            old(store).wf(),
            old(store).has_room(2),
        ensures
            message_step(*old(self), *final(self), *old(store), *final(store), event, out@),
    {
        let mut out: Vec<msg::Message> = Vec::new();
        match event {
            ClientMessage::ConnectionError(e) => {
                self.client = Client::new();
                self.state = State::NetworkDisconnected;
                out.push(msg::Message::Disconnected(e));
                proof {
                    assert(announced_ids(out@) =~~= Set::<u64>::empty());
                    assert(self.announced@ =~~= old(self).announced@.union(announced_ids(out@)));
                }
            },
            ClientMessage::Message(m) => {
                match m {
                    parser::Message::Ping(target) => {
                        self.client.pong(target.as_slice());
                        proof {
                            assert(announced_ids(out@) =~~= Set::<u64>::empty());
                            assert(self.announced@ =~~= old(self).announced@.union(
                                announced_ids(out@),
                            ));
                        }
                    },
                    parser::Message::Welcome(_) => {
                        self.state = State::NetworkConnected;
                        out.push(msg::Message::Connected);
                        let text = String::from_str("Welcome to IRC!");
                        self.reply_buffer(
                            store,
                            Role::Status,
                            MessageContents::Information(text),
                            &mut out,
                        );
                        proof {
                            assert(out@.take(1).len() == 1);
                            assert(out@[0] == out@.take(1)[0]);
                            assert(out@[0] is Connected);
                            assert(out@ =~~= seq![out@[0]] + out@.skip(1));
                            lemma_batch_ok_cons(
                                out@[0],
                                out@.skip(1),
                                old(self).announced@,
                                self.announced@,
                            );
                        }
                    },
                    parser::Message::Join(who, channel) => {
                        let channel_l = self.encoding.network.decode(
                            irc_lower_bytes(channel.as_slice()).as_slice(),
                        );
                        let who_d = self.encoding.network.decode(who.as_slice());
                        self.reply_buffer(
                            store,
                            Role::Channel(channel_l),
                            MessageContents::Join(who_d),
                            &mut out,
                        );
                        proof {
                            assert(out@.skip(0) =~~= out@);
                        }
                    },
                    parser::Message::Privmsg(who, target, text) => {
                        let to_self = match &self.nickname {
                            Some(n) => irc_eq_bytes(target.as_slice(), n.as_slice()),
                            None => false,
                        };
                        let who_d = self.encoding.network.decode(who.as_slice());
                        let text_d = self.encoding.incoming.decode(text.as_slice());
                        if to_self {
                            let who_l = self.encoding.network.decode(
                                irc_lower_bytes(nick_of(who.as_slice()).as_slice()).as_slice(),
                            );
                            self.reply_buffer(
                                store,
                                Role::Query(who_l),
                                MessageContents::Privmsg(who_d, text_d),
                                &mut out,
                            );
                        } else {
                            let target_l = self.encoding.network.decode(
                                irc_lower_bytes(target.as_slice()).as_slice(),
                            );
                            self.reply_buffer(
                                store,
                                Role::Channel(target_l),
                                MessageContents::Privmsg(who_d, text_d),
                                &mut out,
                            );
                        }
                        proof {
                            assert(out@.skip(0) =~~= out@);
                        }
                    },
                    parser::Message::Unknown(_) => {
                        proof {
                            assert(announced_ids(out@) =~~= Set::<u64>::empty());
                            assert(self.announced@ =~~= old(self).announced@.union(
                                announced_ids(out@),
                            ));
                        }
                    },
                }
            },
        }
        out
    }
}

proof fn lemma_announced_somewhere(
    batches: Seq<Seq<msg::Message>>,
    sets: Seq<Set<u64>>,
    bi: int,
    b: u64,
)
    requires
        sets.len() == batches.len() + 1,
        sets[0] == Set::<u64>::empty(),
        forall|t: int|
            0 <= t < batches.len() ==> batch_ok(#[trigger] batches[t], sets[t], sets[t + 1]),
        0 <= bi < sets.len(),
        sets[bi].contains(b),
    ensures
        exists|ci: int, j: int|
            0 <= ci < bi && 0 <= j < batches[ci].len() && announces(#[trigger] batches[ci][j], b),
    decreases bi,
{
    assert(bi > 0);
    assert(batch_ok(batches[bi - 1], sets[bi - 1], sets[bi]));
    if sets[bi - 1].contains(b) {
        lemma_announced_somewhere(batches, sets, bi - 1, b);
        let (ci, j) = choose|ci: int, j: int|
            0 <= ci < bi - 1 && 0 <= j < batches[ci].len() && announces(
                #[trigger] batches[ci][j],
                b,
            );
        assert(0 <= ci < bi && 0 <= j < batches[ci].len() && announces(batches[ci][j], b));
    } else {
        assert(announced_ids(batches[bi - 1]).contains(b));
        let j = choose|j: int|
            0 <= j < batches[bi - 1].len() && announces(#[trigger] batches[bi - 1][j], b);
        assert(0 <= bi - 1 < bi && 0 <= j < batches[bi - 1].len() && announces(
            batches[bi - 1][j],
            b,
        ));
    }
}

/// Every `BufferMessage` on a network's outbound stream is preceded by
/// the `NewBuffer` event for its buffer: within one handled event's batch
/// or in an earlier batch, counting from a fresh start, where nothing is
/// announced yet. The batches are what `handle_message` returns, whose
/// contract threads the announced set from one call to the next.
pub proof fn lemma_new_buffer_precedes(
    batches: Seq<Seq<msg::Message>>,
    sets: Seq<Set<u64>>,
    bi: int,
    k: int,
    b: u64,
)
    requires
        sets.len() == batches.len() + 1,
        sets[0] == Set::<u64>::empty(),
        forall|t: int|
            0 <= t < batches.len() ==> batch_ok(#[trigger] batches[t], sets[t], sets[t + 1]),
        0 <= bi < batches.len(),
        0 <= k < batches[bi].len(),
        uses_buffer(batches[bi][k], b),
    ensures
        (exists|j: int| 0 <= j < k && announces(#[trigger] batches[bi][j], b)) || (exists|
            ci: int,
            j: int,
        |
            0 <= ci < bi && 0 <= j < batches[ci].len() && announces(#[trigger] batches[ci][j], b)),
{
    assert(batch_ok(batches[bi], sets[bi], sets[bi + 1]));
    if sets[bi].contains(b) {
        lemma_announced_somewhere(batches, sets, bi, b);
    } else {
        assert(exists|j: int| 0 <= j < k && announces(#[trigger] batches[bi][j], b));
    }
}

/// The quit message sent upstream on `Disconnect`.
pub open spec fn quit_text() -> Seq<char> {
    "So long, and thanks for all the fish."@
}

/// What the transport is asked to do after a command: dial the configured
/// server, or write the parting bytes to the upstream socket and close it.
#[derive(Debug, PartialEq, Eq)]
pub enum UpstreamAction {
    Dial(String),
    Close(Vec<u8>),
}

/// How one client command changes a network and the store, which reply
/// it gets, and what is asked of the transport (a dial on `Connect`, a
/// flush-and-close on `Disconnect`): the full transition relation of
/// `handle_command`.
pub open spec fn command_step(
    pre: Network,
    post: Network,
    pre_store: Store,
    post_store: Store,
    c: msg::Command,
    reply: msg::Message,
    action: Option<UpstreamAction>,
) -> bool {
    &&& post_store.wf()
    &&& post.wf(post_store)
    &&& post.id == pre.id
    &&& post.buffers == pre.buffers
    &&& post.announced == pre.announced
    &&& post_store.next_row_id == pre_store.next_row_id
    &&& post_store.messages == pre_store.messages
    &&& post_store.buffers == pre_store.buffers
    &&& post_store.sessions == pre_store.sessions
    &&& match c {
                msg::Command::Connect => {
                    &&& (pre.config is None ==> {
                        &&& (reply matches msg::Message::Error(e) && e@
                            == "network not configured"@)
                        &&& action is None
                        &&& post == pre
                        &&& post_store == pre_store
                    })
                    &&& (pre.config matches Some(cfg) ==> {
                        &&& post_store == pre_store
                        &&& post.config == pre.config
                        &&& if valid_host_port(encode_utf8(cfg.server@)) {
                            &&& reply is Success
                            &&& (action matches Some(act) && act matches UpstreamAction::Dial(srv)
                                && srv@ == cfg.server@)
                            &&& post.state is NetworkConnecting
                            &&& (post.nickname matches Some(nk) && nk@ == encode_utf8(
                                cfg.nickname@,
                            ))
                            &&& post.client.conn_out is Some
                            &&& client_outbox(post.client) == (if pre.client.conn_out is Some {
                                client_outbox(pre.client)
                            } else {
                                Seq::<u8>::empty()
                            }) + crate::irc::client::lit_nick() + encode_utf8(cfg.nickname@)
                                + crate::irc::client::crlf() + crate::irc::client::lit_user()
                                + encode_utf8(cfg.nickname@) + seq![parser::SP]
                                + crate::irc::client::dec_of(0) + crate::irc::client::lit_star_trail()
                                + encode_utf8(cfg.nickname@) + crate::irc::client::crlf()
                        } else {
                            &&& (reply matches msg::Message::Error(e) && e@
                                == "invalid server"@)
                            &&& action is None
                            &&& post.state == pre.state
                            &&& post.nickname == pre.nickname
                            &&& post.client == pre.client
                        }
                    })
                },
                msg::Command::Disconnect => {
                    &&& reply is Success
                    &&& post_store == pre_store
                    &&& post.state is NetworkDisconnected
                    &&& post.nickname == pre.nickname
                    &&& post.config == pre.config
                    &&& post.client.conn_out is None
                    &&& (action matches Some(act) && act matches UpstreamAction::Close(parting)
                        && parting@ == (if pre.client.conn_out is Some {
                        client_outbox(pre.client) + crate::irc::client::lit_quit() + encode_utf8(
                            quit_text(),
                        ) + crate::irc::client::crlf()
                    } else {
                        Seq::<u8>::empty()
                    }))
                },
                msg::Command::JoinChannel(ch) => {
                    &&& reply is Success
                    &&& action is None
                    &&& post_store == pre_store
                    &&& post.state == pre.state
                    &&& post.nickname == pre.nickname
                    &&& post.config == pre.config
                    &&& (pre.client.conn_out is Some ==> (post.client.conn_out is Some
                        && client_outbox(post.client) == client_outbox(pre.client)
                        + crate::irc::client::lit_join() + encode_utf8(ch@)
                        + crate::irc::client::crlf()))
                    &&& (pre.client.conn_out is None ==> post.client == pre.client)
                },
                msg::Command::SendPrivmsg(target, text) => {
                    &&& reply is Success
                    &&& action is None
                    &&& post_store == pre_store
                    &&& post.state == pre.state
                    &&& post.nickname == pre.nickname
                    &&& post.config == pre.config
                    &&& (pre.client.conn_out is Some ==> (post.client.conn_out is Some
                        && client_outbox(post.client) == client_outbox(pre.client)
                        + crate::irc::client::lit_privmsg() + encode_utf8(target@)
                        + crate::irc::client::lit_trail() + encode_utf8(text@)
                        + crate::irc::client::crlf()))
                    &&& (pre.client.conn_out is None ==> post.client == pre.client)
                },
                msg::Command::GetBufferList => {
                    &&& action is None
                    &&& post == pre
                    &&& post_store == pre_store
                    &&& (reply matches msg::Message::BufferList(v) && v@.len() == pre.buffers@.len() && (forall|i: int|
                        0 <= i < v@.len() ==> (#[trigger] v@[i]).0 == pre.buffers@[i].id
                            && v@[i].1 == pre.buffers@[i].role))
                },
                msg::Command::SetConfiguration(cfg) => {
                    &&& reply is Success
                    &&& action is None
                    &&& post_store.config_updated(pre_store, pre.id, cfg)
                    &&& post.config == Some(cfg)
                    &&& post.state == pre.state
                    &&& post.nickname == pre.nickname
                    &&& post.client == pre.client
                },
                msg::Command::GetConfiguration => {
                    &&& action is None
                    &&& post == pre
                    &&& post_store == pre_store
                    &&& (reply matches msg::Message::Configuration(c) && c == pre.config)
                },
                msg::Command::GetBufferMessageRange(bufid, count, before_id) => {
                    &&& action is None
                    &&& post == pre
                    &&& post_store == pre_store
                    &&& (exists|i: int|
                        0 <= i < pre.buffers@.len() && pre.buffers@[i].id == bufid)
                        ==> (reply matches msg::Message::BufferMessageRange(b, v) && b
                        == bufid && v@ == (match before_id {
                        Some(before) => pre_store.spec_fetch_before(bufid, before, count as int),
                        None => pre_store.spec_fetch_latest(bufid, count as int),
                    }))
                    &&& !(exists|i: int|
                        0 <= i < pre.buffers@.len() && pre.buffers@[i].id == bufid)
                        ==> (reply matches msg::Message::Error(e) && e@
                        == "invalid buffer specified"@)
                },
            }
}

impl Network {
    /// Handle one client command. Exactly one reply is returned, under
    /// the request's envelope; the second component asks the transport to
    /// dial the configured server, or to flush the parting bytes and close
    /// the upstream socket.
    pub fn handle_command(&mut self, store: &mut Store, cmd: Envelope<msg::Command>) -> (r: (
        Vec<Envelope<msg::Message>>,
        Option<UpstreamAction>,
    ))
        requires
            old(self).wf(*old(store)),
            old(store).wf(),
        ensures
            r.0@.len() == 1,
            r.0@[0].client_tag == cmd.client_tag,
            r.0@[0].remote_tag == cmd.remote_tag,
            command_step(
                *old(self),
                *final(self),
                *old(store),
                *final(store),
                cmd.contents,
                r.0@[0].contents,
                r.1,
            ),
    {
        let bare = cmd.bare();
        let mut replies: Vec<Envelope<msg::Message>> = Vec::new();
        let mut action: Option<UpstreamAction> = None;
        match cmd.contents {
            msg::Command::Connect => {
                match &self.config {
                    Some(cfg) => {
                        match parse_host_port(cfg.server.as_str().as_bytes()) {
                            Some(_) => {
                                self.state = State::NetworkConnecting;
                                self.client.connect();
                                let nick_net = self.encoding.network.encode(&cfg.nickname);
                                let nick_real = self.encoding.outgoing.encode(&cfg.nickname);
                                self.client.register(
                                    nick_net.as_slice(),
                                    nick_net.as_slice(),
                                    nick_real.as_slice(),
                                );
                                action = Some(UpstreamAction::Dial(cfg.server.clone()));
                                self.nickname = Some(nick_net);
                                replies.push(bare.copy_with(msg::Message::Success));
                            },
                            None => {
                                replies.push(
                                    bare.copy_with(
                                        msg::Message::Error(String::from_str("invalid server")),
                                    ),
                                );
                            },
                        }
                    },
                    None => {
                        replies.push(
                            bare.copy_with(
                                msg::Message::Error(String::from_str("network not configured")),
                            ),
                        );
                    },
                }
            },
            msg::Command::Disconnect => {
                self.state = State::NetworkDisconnected;
                let quit_msg = self.encoding.outgoing.encode(
                    &String::from_str("So long, and thanks for all the fish."),
                );
                self.client.quit(quit_msg.as_slice());
                let parting = self.client.take_written();
                self.client.disconnect();
                action = Some(UpstreamAction::Close(parting));
                replies.push(bare.copy_with(msg::Message::Success));
            },
            msg::Command::JoinChannel(channel) => {
                let ch = self.encoding.network.encode(&channel);
                self.client.join(ch.as_slice());
                replies.push(bare.copy_with(msg::Message::Success));
            },
            msg::Command::SendPrivmsg(target, text) => {
                let t = self.encoding.network.encode(&target);
                let m = self.encoding.outgoing.encode(&text);
                self.client.privmsg(t.as_slice(), m.as_slice());
                replies.push(bare.copy_with(msg::Message::Success));
            },
            msg::Command::GetBufferList => {
                let n = self.buffers.len();
                let mut data: Vec<(u64, Role)> = Vec::new();
                let mut i: usize = 0;
                while i < n
                    invariant
                        n == self.buffers@.len(),
                        i <= n,
                        *self == *old(self),
                        data@.len() == i,
                        forall|j: int|
                            0 <= j < i ==> (#[trigger] data@[j]).0 == self.buffers@[j].id
                                && data@[j].1 == self.buffers@[j].role,
                    decreases n - i,
                {
                    data.push((self.buffers[i].id, self.buffers[i].role.dup()));
                    i = i + 1;
                }
                replies.push(bare.copy_with(msg::Message::BufferList(data)));
            },
            msg::Command::SetConfiguration(cfg) => {
                store.update_network_configuration(self.id, &cfg);
                self.config = Some(cfg);
                replies.push(bare.copy_with(msg::Message::Success));
            },
            msg::Command::GetConfiguration => {
                let c = match &self.config {
                    Some(cfg) => Some(cfg.dup()),
                    None => None,
                };
                replies.push(bare.copy_with(msg::Message::Configuration(c)));
            },
            msg::Command::GetBufferMessageRange(bufid, count, before_id) => {
                let n = self.buffers.len();
                let mut found: Option<usize> = None;
                let mut i: usize = 0;
                while i < n
                    invariant
                        n == self.buffers@.len(),
                        i <= n,
                        *self == *old(self),
                        match found {
                            Some(k) => k < n && self.buffers@[k as int].id == bufid,
                            None => forall|j: int| 0 <= j < i ==> self.buffers@[j].id != bufid,
                        },
                    decreases n - i,
                {
                    if found.is_none() && self.buffers[i].id == bufid {
                        found = Some(i);
                    }
                    i = i + 1;
                }
                match found {
                    Some(k) => {
                        let msgs = self.buffers[k].fetch_message_range(store, count, before_id);
                        replies.push(
                            bare.copy_with(msg::Message::BufferMessageRange(bufid, msgs)),
                        );
                    },
                    None => {
                        replies.push(
                            bare.copy_with(
                                msg::Message::Error(
                                    String::from_str("invalid buffer specified"),
                                ),
                            ),
                        );
                    },
                }
            },
        }
        (replies, action)
    }
}

} // verus!
