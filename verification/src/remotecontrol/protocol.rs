//! The structured payloads exchanged with remote clients, as plain
//! records: a packet type discriminator, an optional correlation tag, and
//! the per-type fields. The byte encoding of these records lives with the
//! transport; the records are what the control logic parses and packs.

use vstd::prelude::*;
use crate::network::State;

verus! {

/// The inbound packet types.
#[derive(Clone, Copy, Debug, PartialEq, Eq, Structural)]
pub enum CommandType {
    AttachSession,
    GetNetworkList,
    Connect,
    Disconnect,
    JoinChannel,
    SendPrivmsg,
    GetBufferList,
    SetNetworkConfiguration,
    GetNetworkConfiguration,
}

/// One inbound payload: the discriminator, the client's tag, and every
/// field any packet type may carry.
pub struct RemoteCommand {
    pub packet_type: Option<CommandType>,
    pub tag: Option<u64>,
    pub session_id: Option<u64>,
    pub network_id: Option<u64>,
    pub channel: Option<String>,
    pub target: Option<String>,
    pub msg: Option<String>,
    pub server: Option<String>,
    pub nickname: Option<String>,
}

impl RemoteCommand {
    /// A payload with nothing set; the transport fills in what the bytes
    /// carry.
    pub fn empty() -> (r: RemoteCommand)
        ensures
            r == (RemoteCommand {
                packet_type: None,
                tag: None,
                session_id: None,
                network_id: None,
                channel: None,
                target: None,
                msg: None,
                server: None,
                nickname: None,
            }),
    {
        RemoteCommand {
            packet_type: None,
            tag: None,
            session_id: None,
            network_id: None,
            channel: None,
            target: None,
            msg: None,
            server: None,
            nickname: None,
        }
    }
}

/// The outbound packet types.
#[derive(Clone, Copy, Debug, PartialEq, Eq, Structural)]
pub enum MessageType {
    Error,
    Success,
    Disconnected,
    Connected,
    NewBuffer,
    BufferList,
    NetworkList,
    Information,
    Join,
    Privmsg,
    Configuration,
    BufferMessageRange,
}

/// A buffer's role on the wire: its kind, and its name (empty for the
/// status buffer).
pub struct BufferRole {
    pub buffer_type: Option<BufferType>,
    pub name: Option<String>,
}

#[derive(Clone, Copy, Debug, PartialEq, Eq, Structural)]
pub enum BufferType {
    Status,
    Channel,
    Query,
}

/// One entry of a buffer list reply.
pub struct BufferListEntry {
    pub id: Option<u64>,
    pub role: Option<BufferRole>,
}

/// One entry of a network list reply.
pub struct NetworkListEntry {
    pub id: Option<u64>,
    pub state: Option<State>,
}

/// One message of a history range reply.
pub struct RangeEntry {
    pub message_id: Option<u64>,
    pub message_time: Option<u64>,
    pub information: Option<String>,
    pub join_who: Option<String>,
    pub privmsg_who: Option<String>,
    pub privmsg_text: Option<String>,
}

/// One outbound payload.
pub struct RemoteMessage {
    pub packet_type: Option<MessageType>,
    pub tag: Option<u64>,
    pub network_id: Option<u64>,
    pub buffer_id: Option<u64>,
    pub message_id: Option<u64>,
    pub message_time: Option<u64>,
    pub error: Option<String>,
    pub disconnected_reason: Option<String>,
    pub new_buffer: Option<BufferListEntry>,
    pub buffer_list: Vec<BufferListEntry>,
    pub network_list: Vec<NetworkListEntry>,
    pub information: Option<String>,
    pub join_who: Option<String>,
    pub privmsg_who: Option<String>,
    pub privmsg_text: Option<String>,
    pub configuration_server: Option<String>,
    pub configuration_nickname: Option<String>,
    pub range_messages: Vec<RangeEntry>,
}

/// The shape of a wire role.
#[verifier::ext_equal]
pub ghost struct BufferRoleV {
    pub buffer_type: Option<BufferType>,
    pub name: Option<Seq<char>>,
}

impl View for BufferRole {
    type V = BufferRoleV;

    open spec fn view(&self) -> BufferRoleV {
        BufferRoleV {
            buffer_type: self.buffer_type,
            name: match self.name {
                Some(n) => Some(n@),
                None => None,
            },
        }
    }
}

#[verifier::ext_equal]
pub ghost struct BufferListEntryV {
    pub id: Option<u64>,
    pub role: Option<BufferRoleV>,
}

impl View for BufferListEntry {
    type V = BufferListEntryV;

    open spec fn view(&self) -> BufferListEntryV {
        BufferListEntryV {
            id: self.id,
            role: match self.role {
                Some(r) => Some(r@),
                None => None,
            },
        }
    }
}

impl DeepView for BufferListEntry {
    type V = BufferListEntryV;

    open spec fn deep_view(&self) -> BufferListEntryV {
        self.view()
    }
}

#[verifier::ext_equal]
pub ghost struct RangeEntryV {
    pub message_id: Option<u64>,
    pub message_time: Option<u64>,
    pub information: Option<Seq<char>>,
    pub join_who: Option<Seq<char>>,
    pub privmsg_who: Option<Seq<char>>,
    pub privmsg_text: Option<Seq<char>>,
}

pub open spec fn opt_chars(s: Option<String>) -> Option<Seq<char>> {
    match s {
        Some(t) => Some(t@),
        None => None,
    }
}

impl View for RangeEntry {
    type V = RangeEntryV;

    open spec fn view(&self) -> RangeEntryV {
        RangeEntryV {
            message_id: self.message_id,
            message_time: self.message_time,
            information: opt_chars(self.information),
            join_who: opt_chars(self.join_who),
            privmsg_who: opt_chars(self.privmsg_who),
            privmsg_text: opt_chars(self.privmsg_text),
        }
    }
}

impl DeepView for RangeEntry {
    type V = RangeEntryV;

    open spec fn deep_view(&self) -> RangeEntryV {
        self.view()
    }
}

/// The shape of an outbound payload.
#[verifier::ext_equal]
pub ghost struct RemoteMessageV {
    pub packet_type: Option<MessageType>,
    pub tag: Option<u64>,
    pub network_id: Option<u64>,
    pub buffer_id: Option<u64>,
    pub message_id: Option<u64>,
    pub message_time: Option<u64>,
    pub error: Option<Seq<char>>,
    pub disconnected_reason: Option<Seq<char>>,
    pub new_buffer: Option<BufferListEntryV>,
    pub buffer_list: Seq<BufferListEntryV>,
    pub network_list: Seq<NetworkListEntry>,
    pub information: Option<Seq<char>>,
    pub join_who: Option<Seq<char>>,
    pub privmsg_who: Option<Seq<char>>,
    pub privmsg_text: Option<Seq<char>>,
    pub configuration_server: Option<Seq<char>>,
    pub configuration_nickname: Option<Seq<char>>,
    pub range_messages: Seq<RangeEntryV>,
}

impl View for RemoteMessage {
    type V = RemoteMessageV;

    open spec fn view(&self) -> RemoteMessageV {
        RemoteMessageV {
            packet_type: self.packet_type,
            tag: self.tag,
            network_id: self.network_id,
            buffer_id: self.buffer_id,
            message_id: self.message_id,
            message_time: self.message_time,
            error: opt_chars(self.error),
            disconnected_reason: opt_chars(self.disconnected_reason),
            new_buffer: match self.new_buffer {
                Some(e) => Some(e@),
                None => None,
            },
            buffer_list: self.buffer_list.deep_view(),
            network_list: self.network_list@,
            information: opt_chars(self.information),
            join_who: opt_chars(self.join_who),
            privmsg_who: opt_chars(self.privmsg_who),
            privmsg_text: opt_chars(self.privmsg_text),
            configuration_server: opt_chars(self.configuration_server),
            configuration_nickname: opt_chars(self.configuration_nickname),
            range_messages: self.range_messages.deep_view(),
        }
    }
}

/// The shape of an outbound payload with nothing set.
pub open spec fn blank_message() -> RemoteMessageV {
    RemoteMessageV {
        packet_type: None,
        tag: None,
        network_id: None,
        buffer_id: None,
        message_id: None,
        message_time: None,
        error: None,
        disconnected_reason: None,
        new_buffer: None,
        buffer_list: Seq::empty(),
        network_list: Seq::empty(),
        information: None,
        join_who: None,
        privmsg_who: None,
        privmsg_text: None,
        configuration_server: None,
        configuration_nickname: None,
        range_messages: Seq::empty(),
    }
}

/// An outbound payload with nothing set.
pub fn empty_message() -> (r: RemoteMessage)
    ensures
        r@ == blank_message(),
{
    let r = RemoteMessage {
        packet_type: None,
        tag: None,
        network_id: None,
        buffer_id: None,
        message_id: None,
        message_time: None,
        error: None,
        disconnected_reason: None,
        new_buffer: None,
        buffer_list: Vec::new(),
        network_list: Vec::new(),
        information: None,
        join_who: None,
        privmsg_who: None,
        privmsg_text: None,
        configuration_server: None,
        configuration_nickname: None,
        range_messages: Vec::new(),
    };
    proof {
        assert(r@.buffer_list =~~= blank_message().buffer_list);
        assert(r@.network_list =~~= blank_message().network_list);
        assert(r@.range_messages =~~= blank_message().range_messages);
        assert(r@ =~~= blank_message());
    }
    r
}

} // verus!
