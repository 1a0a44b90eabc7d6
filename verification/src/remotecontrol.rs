//! The remote-control layer: frames on the client sockets, the packet
//! parser and packer, and the control state that owns sessions and
//! attached remotes and routes every reply to the right ones.
//!
//! Each accepted remote gets a fresh tag. A reply whose envelope carries a
//! remote tag reaches only the remote with that tag; an event without one
//! fans out to every remote attached to the source session.

pub mod msg;
pub mod protocol;

use vstd::prelude::*;
use crate::buffer::{MessageContents, Role};
use crate::envelope::Envelope;
use crate::network;
use crate::network::UpstreamAction;
use crate::session;
use crate::session::{session_command_step, Session};
use crate::database::Store;
use protocol::{
    blank_message, empty_message, BufferListEntry, BufferRole, BufferRoleV, BufferType,
    CommandType, MessageType, NetworkListEntry, RangeEntry, RemoteCommand, RemoteMessage,
};

verus! {

/// The largest frame a remote may send: one mebibyte.
pub const MAX_FRAME: u32 = 0x10_0000;

/// The little-endian encoding of a frame length.
pub open spec fn le32(n: u32) -> Seq<u8> {
    seq![
        (n & 0xff) as u8,
        ((n >> 8) & 0xff) as u8,
        ((n >> 16) & 0xff) as u8,
        ((n >> 24) & 0xff) as u8,
    ]
}

/// Frame one payload for the wire: four length bytes, little endian, then
/// the payload itself. Payloads beyond the frame ceiling are refused.
pub fn frame_packet(payload: &[u8]) -> (r: Option<Vec<u8>>)
    ensures
        payload@.len() <= MAX_FRAME <==> r is Some,
        r matches Some(f) ==> f@ == le32(payload@.len() as u32) + payload@,
{
    if payload.len() > MAX_FRAME as usize {
        return None;
    }
    let n = payload.len() as u32;
    let mut out: Vec<u8> = Vec::new();
    out.push((n & 0xff) as u8);
    out.push(((n >> 8) & 0xff) as u8);
    out.push(((n >> 16) & 0xff) as u8);
    out.push(((n >> 24) & 0xff) as u8);
    let ghost header = out@;
    proof {
        assert(header =~~= le32(n));
    }
    let count = payload.len();
    let mut i: usize = 0;
    while i < count
        invariant
            count == payload@.len(),
            i <= count,
            out@ == header + payload@.take(i as int),
        decreases count - i,
    {
        out.push(payload[i]);
        proof {
            assert(out@ =~~= header + payload@.take(i + 1 as int));
        }
        i = i + 1;
    }
    proof {
        assert(out@ =~~= le32(n) + payload@);
    }
    Some(out)
}

/// Read a frame length from its four little-endian bytes; lengths beyond
/// the frame ceiling are refused.
pub fn parse_frame_len(b0: u8, b1: u8, b2: u8, b3: u8) -> (r: Option<u32>)
    ensures
        r matches Some(n) ==> n <= MAX_FRAME && le32(n) == seq![b0, b1, b2, b3],
        r is None ==> (forall|n: u32| le32(n) == seq![b0, b1, b2, b3] ==> n > MAX_FRAME),
{
    let n: u32 = (b0 as u32) | ((b1 as u32) << 8) | ((b2 as u32) << 16) | ((b3 as u32) << 24);
    proof {
        assert(le32(n) =~~= seq![b0, b1, b2, b3]) by {
            assert((n & 0xff) as u8 == b0 && ((n >> 8) & 0xff) as u8 == b1 && ((n >> 16) & 0xff)
                as u8 == b2 && ((n >> 24) & 0xff) as u8 == b3) by (bit_vector)
                requires
                    n == (b0 as u32) | ((b1 as u32) << 8) | ((b2 as u32) << 16) | ((b3 as u32)
                        << 24),
            ;
        }
        assert(forall|m: u32| le32(m) == le32(n) ==> m == n) by {
            assert forall|m: u32| le32(m) == le32(n) implies m == n by {
                assert(le32(m)[0] == le32(n)[0] && le32(m)[1] == le32(n)[1] && le32(m)[2] == le32(
                    n,
                )[2] && le32(m)[3] == le32(n)[3]);
                assert(((m & 0xff) as u8 == (n & 0xff) as u8 && ((m >> 8) & 0xff) as u8 == ((n >> 8)
                    & 0xff) as u8 && ((m >> 16) & 0xff) as u8 == ((n >> 16) & 0xff) as u8 && ((m
                    >> 24) & 0xff) as u8 == ((n >> 24) & 0xff) as u8) ==> m == n) by (bit_vector);
            }
        }
    }
    if n > MAX_FRAME {
        None
    } else {
        Some(n)
    }
}

/// Turn one decoded payload into the command it asks for: the envelope
/// carries the client's tag and this remote's tag. A payload whose type
/// or required fields are missing yields nothing.
pub fn parse_remote_packet(packet: RemoteCommand, tag: u64) -> (r: Option<
    Envelope<msg::Command>,
>)
    ensures
        match packet.packet_type {
            None => r is None,
            Some(CommandType::AttachSession) => match packet.session_id {
                Some(sid) => r == Some(
                    Envelope {
                        client_tag: packet.tag,
                        remote_tag: Some(tag),
                        contents: msg::Command::AttachSession(sid),
                    },
                ),
                None => r is None,
            },
            Some(CommandType::GetNetworkList) => r == Some(
                Envelope {
                    client_tag: packet.tag,
                    remote_tag: Some(tag),
                    contents: msg::Command::SessionCommand(session::msg::Command::GetNetworkList),
                },
            ),
            Some(CommandType::Connect) => match packet.network_id {
                Some(nid) => r == Some(
                    Envelope {
                        client_tag: packet.tag,
                        remote_tag: Some(tag),
                        contents: msg::Command::SessionCommand(
                            session::msg::Command::NetworkCommand(
                                nid,
                                network::msg::Command::Connect,
                            ),
                        ),
                    },
                ),
                None => r is None,
            },
            Some(CommandType::Disconnect) => match packet.network_id {
                Some(nid) => r == Some(
                    Envelope {
                        client_tag: packet.tag,
                        remote_tag: Some(tag),
                        contents: msg::Command::SessionCommand(
                            session::msg::Command::NetworkCommand(
                                nid,
                                network::msg::Command::Disconnect,
                            ),
                        ),
                    },
                ),
                None => r is None,
            },
            Some(CommandType::JoinChannel) => match (packet.network_id, packet.channel) {
                (Some(nid), Some(ch)) => r == Some(
                    Envelope {
                        client_tag: packet.tag,
                        remote_tag: Some(tag),
                        contents: msg::Command::SessionCommand(
                            session::msg::Command::NetworkCommand(
                                nid,
                                network::msg::Command::JoinChannel(ch),
                            ),
                        ),
                    },
                ),
                _ => r is None,
            },
            Some(CommandType::SendPrivmsg) => match (
                packet.network_id,
                packet.target,
                packet.msg,
            ) {
                (Some(nid), Some(t), Some(m)) => r == Some(
                    Envelope {
                        client_tag: packet.tag,
                        remote_tag: Some(tag),
                        contents: msg::Command::SessionCommand(
                            session::msg::Command::NetworkCommand(
                                nid,
                                network::msg::Command::SendPrivmsg(t, m),
                            ),
                        ),
                    },
                ),
                _ => r is None,
            },
            Some(CommandType::GetBufferList) => match packet.network_id {
                Some(nid) => r == Some(
                    Envelope {
                        client_tag: packet.tag,
                        remote_tag: Some(tag),
                        contents: msg::Command::SessionCommand(
                            session::msg::Command::NetworkCommand(
                                nid,
                                network::msg::Command::GetBufferList,
                            ),
                        ),
                    },
                ),
                None => r is None,
            },
            Some(CommandType::SetNetworkConfiguration) => match (
                packet.network_id,
                packet.server,
                packet.nickname,
            ) {
                (Some(nid), Some(srv), Some(nick)) => r == Some(
                    Envelope {
                        client_tag: packet.tag,
                        remote_tag: Some(tag),
                        contents: msg::Command::SessionCommand(
                            session::msg::Command::NetworkCommand(
                                nid,
                                network::msg::Command::SetConfiguration(
                                    network::Configuration { server: srv, nickname: nick },
                                ),
                            ),
                        ),
                    },
                ),
                _ => r is None,
            },
            Some(CommandType::GetNetworkConfiguration) => match packet.network_id {
                Some(nid) => r == Some(
                    Envelope {
                        client_tag: packet.tag,
                        remote_tag: Some(tag),
                        contents: msg::Command::SessionCommand(
                            session::msg::Command::NetworkCommand(
                                nid,
                                network::msg::Command::GetConfiguration,
                            ),
                        ),
                    },
                ),
                None => r is None,
            },
        },
{
    let RemoteCommand {
        packet_type,
        tag: cli_tag,
        session_id,
        network_id,
        channel,
        target,
        msg: text,
        server,
        nickname,
    } = packet;
    let pt = match packet_type {
        Some(pt) => pt,
        None => {
            return None;
        },
    };
    let contents: msg::Command = match pt {
        CommandType::AttachSession => {
            match session_id {
                Some(sid) => msg::Command::AttachSession(sid),
                None => {
                    return None;
                },
            }
        },
        CommandType::GetNetworkList => msg::Command::SessionCommand(
            session::msg::Command::GetNetworkList,
        ),
        CommandType::Connect => {
            match network_id {
                Some(nid) => msg::Command::SessionCommand(
                    session::msg::Command::NetworkCommand(nid, network::msg::Command::Connect),
                ),
                None => {
                    return None;
                },
            }
        },
        CommandType::Disconnect => {
            match network_id {
                Some(nid) => msg::Command::SessionCommand(
                    session::msg::Command::NetworkCommand(nid, network::msg::Command::Disconnect),
                ),
                None => {
                    return None;
                },
            }
        },
        CommandType::JoinChannel => {
            match (network_id, channel) {
                (Some(nid), Some(ch)) => msg::Command::SessionCommand(
                    session::msg::Command::NetworkCommand(
                        nid,
                        network::msg::Command::JoinChannel(ch),
                    ),
                ),
                _ => {
                    return None;
                },
            }
        },
        CommandType::SendPrivmsg => {
            match (network_id, target, text) {
                (Some(nid), Some(t), Some(m)) => msg::Command::SessionCommand(
                    session::msg::Command::NetworkCommand(
                        nid,
                        network::msg::Command::SendPrivmsg(t, m),
                    ),
                ),
                _ => {
                    return None;
                },
            }
        },
        CommandType::GetBufferList => {
            match network_id {
                Some(nid) => msg::Command::SessionCommand(
                    session::msg::Command::NetworkCommand(
                        nid,
                        network::msg::Command::GetBufferList,
                    ),
                ),
                None => {
                    return None;
                },
            }
        },
        CommandType::SetNetworkConfiguration => {
            match (network_id, server, nickname) {
                (Some(nid), Some(srv), Some(nick)) => msg::Command::SessionCommand(
                    session::msg::Command::NetworkCommand(
                        nid,
                        network::msg::Command::SetConfiguration(
                            network::Configuration { server: srv, nickname: nick },
                        ),
                    ),
                ),
                _ => {
                    return None;
                },
            }
        },
        CommandType::GetNetworkConfiguration => {
            match network_id {
                Some(nid) => msg::Command::SessionCommand(
                    session::msg::Command::NetworkCommand(
                        nid,
                        network::msg::Command::GetConfiguration,
                    ),
                ),
                None => {
                    return None;
                },
            }
        },
    };
    Some(Envelope { client_tag: cli_tag, remote_tag: Some(tag), contents })
}

/// A buffer role as it goes on the wire; the status buffer's name is the
/// empty string.
pub fn role_to_pbuf(role: Role) -> (r: BufferRole)
    ensures
        r@ == wire_role(role),
{
    match role {
        Role::Status => {
            let empty = String::new();
            proof {
                assert(empty@ =~~= Seq::<char>::empty());
            }
            BufferRole { buffer_type: Some(BufferType::Status), name: Some(empty) }
        },
        Role::Channel(n) => BufferRole { buffer_type: Some(BufferType::Channel), name: Some(n) },
        Role::Query(n) => BufferRole { buffer_type: Some(BufferType::Query), name: Some(n) },
    }
}

/// A role's wire shape.
pub open spec fn wire_role(r: Role) -> BufferRoleV {
    match r {
        Role::Status => BufferRoleV {
            buffer_type: Some(BufferType::Status),
            name: Some(Seq::<char>::empty()),
        },
        Role::Channel(n) => BufferRoleV { buffer_type: Some(BufferType::Channel), name: Some(n@) },
        Role::Query(n) => BufferRoleV { buffer_type: Some(BufferType::Query), name: Some(n@) },
    }
}

pub open spec fn wire_buffer_entry(t: (u64, Role)) -> protocol::BufferListEntryV {
    protocol::BufferListEntryV { id: Some(t.0), role: Some(wire_role(t.1)) }
}

pub open spec fn wire_network_entry(t: (u64, network::State)) -> NetworkListEntry {
    NetworkListEntry { id: Some(t.0), state: Some(t.1) }
}

pub open spec fn wire_range_entry(m: crate::buffer::Message) -> protocol::RangeEntryV {
    protocol::RangeEntryV {
        message_id: Some(m.id),
        message_time: Some(m.time_ns),
        information: match m.contents {
            MessageContents::Information(t) => Some(t@),
            _ => None,
        },
        join_who: match m.contents {
            MessageContents::Join(w) => Some(w@),
            _ => None,
        },
        privmsg_who: match m.contents {
            MessageContents::Privmsg(w, _) => Some(w@),
            _ => None,
        },
        privmsg_text: match m.contents {
            MessageContents::Privmsg(_, t) => Some(t@),
            _ => None,
        },
    }
}

pub open spec fn wire_buffer_entries(s: Seq<(u64, Role)>) -> Seq<protocol::BufferListEntryV> {
    s.map_values(|t: (u64, Role)| wire_buffer_entry(t))
}

pub open spec fn wire_network_entries(s: Seq<(u64, network::State)>) -> Seq<NetworkListEntry> {
    s.map_values(|t: (u64, network::State)| wire_network_entry(t))
}

pub open spec fn wire_range_entries(s: Seq<crate::buffer::Message>) -> Seq<protocol::RangeEntryV> {
    s.map_values(|bm: crate::buffer::Message| wire_range_entry(bm))
}

/// The payload one outbound message packs into.
pub open spec fn pack_view(ct: Option<u64>, m: msg::Message) -> protocol::RemoteMessageV {
    match m {
        msg::Message::Error(e) => protocol::RemoteMessageV {
            packet_type: Some(MessageType::Error),
            tag: ct,
            error: Some(e@),
            ..blank_message()
        },
        msg::Message::Success => protocol::RemoteMessageV {
            packet_type: Some(MessageType::Success),
            tag: ct,
            ..blank_message()
        },
        msg::Message::SessionMessage(sm) => match sm {
            session::msg::Message::Error(e) => protocol::RemoteMessageV {
                packet_type: Some(MessageType::Error),
                tag: ct,
                error: Some(e@),
                ..blank_message()
            },
            session::msg::Message::Success => protocol::RemoteMessageV {
                packet_type: Some(MessageType::Success),
                tag: ct,
                ..blank_message()
            },
            session::msg::Message::NetworkList(data) => protocol::RemoteMessageV {
                packet_type: Some(MessageType::NetworkList),
                tag: ct,
                network_list: wire_network_entries(data@),
                ..blank_message()
            },
            session::msg::Message::NetworkMessage(nid, nm) => match nm {
                network::msg::Message::Error(e) => protocol::RemoteMessageV {
                    packet_type: Some(MessageType::Error),
                    tag: ct,
                    network_id: Some(nid),
                    error: Some(e@),
                    ..blank_message()
                },
                network::msg::Message::Success => protocol::RemoteMessageV {
                    packet_type: Some(MessageType::Success),
                    tag: ct,
                    network_id: Some(nid),
                    ..blank_message()
                },
                network::msg::Message::Disconnected(reason) => protocol::RemoteMessageV {
                    packet_type: Some(MessageType::Disconnected),
                    tag: ct,
                    network_id: Some(nid),
                    disconnected_reason: Some(reason@),
                    ..blank_message()
                },
                network::msg::Message::Connected => protocol::RemoteMessageV {
                    packet_type: Some(MessageType::Connected),
                    tag: ct,
                    network_id: Some(nid),
                    ..blank_message()
                },
                network::msg::Message::NewBuffer(bufid, role) => protocol::RemoteMessageV {
                    packet_type: Some(MessageType::NewBuffer),
                    tag: ct,
                    network_id: Some(nid),
                    new_buffer: Some(
                        protocol::BufferListEntryV {
                            id: Some(bufid),
                            role: Some(wire_role(role)),
                        },
                    ),
                    ..blank_message()
                },
                network::msg::Message::BufferList(data) => protocol::RemoteMessageV {
                    packet_type: Some(MessageType::BufferList),
                    tag: ct,
                    network_id: Some(nid),
                    buffer_list: wire_buffer_entries(data@),
                    ..blank_message()
                },
                network::msg::Message::BufferMessage(bufid, bm) => protocol::RemoteMessageV {
                    packet_type: Some(
                        match bm.contents {
                            MessageContents::Information(_) => MessageType::Information,
                            MessageContents::Join(_) => MessageType::Join,
                            MessageContents::Privmsg(_, _) => MessageType::Privmsg,
                        },
                    ),
                    tag: ct,
                    network_id: Some(nid),
                    buffer_id: Some(bufid),
                    message_id: Some(bm.id),
                    message_time: Some(bm.time_ns),
                    information: match bm.contents {
                        MessageContents::Information(t) => Some(t@),
                        _ => None,
                    },
                    join_who: match bm.contents {
                        MessageContents::Join(w) => Some(w@),
                        _ => None,
                    },
                    privmsg_who: match bm.contents {
                        MessageContents::Privmsg(w, _) => Some(w@),
                        _ => None,
                    },
                    privmsg_text: match bm.contents {
                        MessageContents::Privmsg(_, t) => Some(t@),
                        _ => None,
                    },
                    ..blank_message()
                },
                network::msg::Message::Configuration(c) => protocol::RemoteMessageV {
                    packet_type: Some(MessageType::Configuration),
                    tag: ct,
                    network_id: Some(nid),
                    configuration_server: match c {
                        Some(cfg) => Some(cfg.server@),
                        None => None,
                    },
                    configuration_nickname: match c {
                        Some(cfg) => Some(cfg.nickname@),
                        None => None,
                    },
                    ..blank_message()
                },
                network::msg::Message::BufferMessageRange(bufid, msgs) => protocol::RemoteMessageV {
                    packet_type: Some(MessageType::BufferMessageRange),
                    tag: ct,
                    network_id: Some(nid),
                    buffer_id: Some(bufid),
                    range_messages: wire_range_entries(msgs@),
                    ..blank_message()
                },
            },
        },
    }
}

/// Pack one outbound message into its wire payload: the packet type, the
/// echoed client tag, and the per-type fields. The second component is
/// the remote tag that addresses the delivery.
pub fn pack_remote_packet(env: Envelope<msg::Message>) -> (r: (RemoteMessage, Option<u64>))
    ensures
        r.1 == env.remote_tag,
        r.0@ == pack_view(env.client_tag, env.contents),
{
    let Envelope { client_tag, remote_tag, contents } = env;
    let mut p = empty_message();
    p.tag = client_tag;
    match contents {
        msg::Message::Error(e) => {
            p.packet_type = Some(MessageType::Error);
            p.error = Some(e);
        },
        msg::Message::Success => {
            p.packet_type = Some(MessageType::Success);
        },
        msg::Message::SessionMessage(sm) => {
            match sm {
                session::msg::Message::Error(e) => {
                    p.packet_type = Some(MessageType::Error);
                    p.error = Some(e);
                },
                session::msg::Message::Success => {
                    p.packet_type = Some(MessageType::Success);
                },
                session::msg::Message::NetworkList(data) => {
                    p.packet_type = Some(MessageType::NetworkList);
                    let ghost dv = data@;
                    let mut entries: Vec<NetworkListEntry> = Vec::new();
                    let count = data.len();
                    let mut i: usize = 0;
                    while i < count
                        invariant
                            count == dv.len(),
                            i <= count,
                            data@ == dv,
                            entries@ == wire_network_entries(dv.take(i as int)),
                        decreases count - i,
                    {
                        entries.push(
                            NetworkListEntry { id: Some(data[i].0), state: Some(data[i].1) },
                        );
                        proof {
                            assert(entries@ =~~= wire_network_entries(dv.take(i + 1 as int)));
                        }
                        i = i + 1;
                    }
                    proof {
                        assert(dv.take(count as int) =~~= dv);
                    }
                    p.network_list = entries;
                },
                session::msg::Message::NetworkMessage(nid, nm) => {
                    p.network_id = Some(nid);
                    match nm {
                        network::msg::Message::Error(e) => {
                            p.packet_type = Some(MessageType::Error);
                            p.error = Some(e);
                        },
                        network::msg::Message::Success => {
                            p.packet_type = Some(MessageType::Success);
                        },
                        network::msg::Message::Disconnected(reason) => {
                            p.packet_type = Some(MessageType::Disconnected);
                            p.disconnected_reason = Some(reason);
                        },
                        network::msg::Message::Connected => {
                            p.packet_type = Some(MessageType::Connected);
                        },
                        network::msg::Message::NewBuffer(bufid, role) => {
                            p.packet_type = Some(MessageType::NewBuffer);
                            p.new_buffer = Some(
                                BufferListEntry { id: Some(bufid), role: Some(role_to_pbuf(role)) },
                            );
                        },
                        network::msg::Message::BufferList(data) => {
                            p.packet_type = Some(MessageType::BufferList);
                            let ghost dv = data@;
                            let mut entries: Vec<BufferListEntry> = Vec::new();
                            let count = data.len();
                            let mut i: usize = 0;
                            let mut rest = data;
                            proof {
                                assert(rest@ =~~= dv.skip(0));
                            }
                            while i < count
                                invariant
                                    count == dv.len(),
                                    i <= count,
                                    rest@ == dv.skip(i as int),
                                    entries.deep_view() == wire_buffer_entries(
                                        dv.take(i as int),
                                    ),
                                decreases count - i,
                            {
                                let (bid, role) = rest.remove(0);
                                proof {
                                    assert((bid, role) == dv[i as int]);
                                    assert(rest@ =~~= dv.skip(i + 1 as int));
                                }
                                let entry = BufferListEntry {
                                    id: Some(bid),
                                    role: Some(role_to_pbuf(role)),
                                };
                                let ghost pre_entries = entries.deep_view();
                                let ghost pre_vec = entries@;
                                proof {
                                    assert(entry.deep_view() == wire_buffer_entry(dv[i as int]));
                                }
                                entries.push(entry);
                                proof {
                                    assert(entries@ == pre_vec.push(entry));
                                    assert(pre_entries == wire_buffer_entries(dv.take(i as int)));
                                    assert(dv.take(i as int).len() == i);
                                    assert(pre_entries.len() == i);
                                    assert(pre_entries.len() == pre_vec.len());
                                    assert(pre_vec.len() == i);
                                    let f = wire_buffer_entries(dv.take(i + 1 as int));
                                    assert(f.len() == i + 1);
                                    assert forall|j: int|
                                        0 <= j < i + 1 implies entries.deep_view()[j] == f[j] by {
                                        assert(f[j] == wire_buffer_entry(dv.take(i + 1 as int)[j]));
                                        assert(dv.take(i + 1 as int)[j] == dv[j]);
                                        if j < i {
                                            assert(entries@[j] == pre_vec[j]);
                                            assert(entries.deep_view()[j] == pre_entries[j]);
                                            assert(pre_entries[j] == wire_buffer_entries(
                                                dv.take(i as int),
                                            )[j]);
                                            assert(wire_buffer_entries(dv.take(i as int))[j]
                                                == wire_buffer_entry(dv.take(i as int)[j]));
                                            assert(dv.take(i as int)[j] == dv[j]);
                                        } else {
                                            assert(entries@[j] == entry);
                                        }
                                    }
                                    assert(entries.deep_view() =~= wire_buffer_entries(
                                        dv.take(i + 1 as int),
                                    ));
                                }
                                i = i + 1;
                            }
                            proof {
                                assert(dv.take(count as int) =~~= dv);
                            }
                            p.buffer_list = entries;
                        },
                        network::msg::Message::BufferMessage(bufid, bm) => {
                            p.buffer_id = Some(bufid);
                            p.message_id = Some(bm.id);
                            p.message_time = Some(bm.time_ns);
                            match bm.contents {
                                MessageContents::Information(t) => {
                                    p.packet_type = Some(MessageType::Information);
                                    p.information = Some(t);
                                },
                                MessageContents::Join(w) => {
                                    p.packet_type = Some(MessageType::Join);
                                    p.join_who = Some(w);
                                },
                                MessageContents::Privmsg(w, t) => {
                                    p.packet_type = Some(MessageType::Privmsg);
                                    p.privmsg_who = Some(w);
                                    p.privmsg_text = Some(t);
                                },
                            }
                        },
                        network::msg::Message::Configuration(c) => {
                            p.packet_type = Some(MessageType::Configuration);
                            match c {
                                Some(cfg) => {
                                    p.configuration_server = Some(cfg.server);
                                    p.configuration_nickname = Some(cfg.nickname);
                                },
                                None => {},
                            }
                        },
                        network::msg::Message::BufferMessageRange(bufid, msgs) => {
                            p.packet_type = Some(MessageType::BufferMessageRange);
                            p.buffer_id = Some(bufid);
                            let ghost dv = msgs@;
                            let mut entries: Vec<RangeEntry> = Vec::new();
                            let count = msgs.len();
                            let mut i: usize = 0;
                            let mut rest = msgs;
                            proof {
                                assert(rest@ =~~= dv.skip(0));
                            }
                            while i < count
                                invariant
                                    count == dv.len(),
                                    i <= count,
                                    rest@ == dv.skip(i as int),
                                    entries.deep_view() == wire_range_entries(
                                        dv.take(i as int),
                                    ),
                                decreases count - i,
                            {
                                let bm = rest.remove(0);
                                proof {
                                    assert(bm == dv[i as int]);
                                    assert(rest@ =~~= dv.skip(i + 1 as int));
                                }
                                let entry = match bm.contents {
                                    MessageContents::Information(t) => RangeEntry {
                                        message_id: Some(bm.id),
                                        message_time: Some(bm.time_ns),
                                        information: Some(t),
                                        join_who: None,
                                        privmsg_who: None,
                                        privmsg_text: None,
                                    },
                                    MessageContents::Join(w) => RangeEntry {
                                        message_id: Some(bm.id),
                                        message_time: Some(bm.time_ns),
                                        information: None,
                                        join_who: Some(w),
                                        privmsg_who: None,
                                        privmsg_text: None,
                                    },
                                    MessageContents::Privmsg(w, t) => RangeEntry {
                                        message_id: Some(bm.id),
                                        message_time: Some(bm.time_ns),
                                        information: None,
                                        join_who: None,
                                        privmsg_who: Some(w),
                                        privmsg_text: Some(t),
                                    },
                                };
                                let ghost pre_entries = entries.deep_view();
                                let ghost pre_vec = entries@;
                                proof {
                                    assert(entry.deep_view() == wire_range_entry(dv[i as int]));
                                }
                                entries.push(entry);
                                proof {
                                    assert(entries@ == pre_vec.push(entry));
                                    assert(pre_entries == wire_range_entries(dv.take(i as int)));
                                    assert(dv.take(i as int).len() == i);
                                    assert(pre_entries.len() == i);
                                    assert(pre_entries.len() == pre_vec.len());
                                    let f = wire_range_entries(dv.take(i + 1 as int));
                                    assert(f.len() == i + 1);
                                    assert forall|j: int|
                                        0 <= j < i + 1 implies entries.deep_view()[j] == f[j] by {
                                        assert(f[j] == wire_range_entry(dv.take(i + 1 as int)[j]));
                                        assert(dv.take(i + 1 as int)[j] == dv[j]);
                                        if j < i {
                                            assert(entries@[j] == pre_vec[j]);
                                            assert(entries.deep_view()[j] == pre_entries[j]);
                                            assert(pre_entries[j] == wire_range_entries(
                                                dv.take(i as int),
                                            )[j]);
                                            assert(wire_range_entries(dv.take(i as int))[j]
                                                == wire_range_entry(dv.take(i as int)[j]));
                                            assert(dv.take(i as int)[j] == dv[j]);
                                        } else {
                                            assert(entries@[j] == entry);
                                        }
                                    }
                                    assert(entries.deep_view() =~= wire_range_entries(
                                        dv.take(i + 1 as int),
                                    ));
                                }
                                i = i + 1;
                            }
                            proof {
                                assert(dv.take(count as int) =~~= dv);
                            }
                            p.range_messages = entries;
                        },
                    }
                },
            }
        },
    }
    proof {
        assert(p@ =~~= pack_view(client_tag, env.contents));
    }
    (p, remote_tag)
}


/// One attached remote: its assigned tag, and the session it follows.
pub struct RemoteData {
    pub session_id: Option<u64>,
    pub tag: u64,
}

/// One session owned by the control task.
pub struct SessionData {
    pub session: Session,
}

/// The control state: the sessions, the attached remotes, and the tag
/// counter for the next accepted remote.
pub struct RemoteControl {
    pub sessions: Vec<(u64, SessionData)>,
    pub remotes: Vec<RemoteData>,
    pub next_tag: u64,
}

/// Whether a session with the given id is owned.
pub open spec fn has_session(s: Seq<(u64, SessionData)>, id: u64) -> bool {
    exists|i: int| 0 <= i < s.len() && s[i].0 == id
}

/// The position of the session with the given id.
pub open spec fn session_at(s: Seq<(u64, SessionData)>, id: u64) -> int {
    choose|i: int| 0 <= i < s.len() && s[i].0 == id
}

/// Whether a remote with the given tag is attached.
pub open spec fn has_remote(rs: Seq<RemoteData>, tag: u64) -> bool {
    exists|i: int| 0 <= i < rs.len() && rs[i].tag == tag
}

/// The position of the remote with the given tag.
pub open spec fn remote_at(rs: Seq<RemoteData>, tag: u64) -> int {
    choose|i: int| 0 <= i < rs.len() && rs[i].tag == tag
}

/// The remotes a reply reaches, in attachment order: those following the
/// session, narrowed to the one named remote when the envelope carries a
/// remote tag.
pub open spec fn recipients_of(rs: Seq<RemoteData>, sid: u64, rt: Option<u64>) -> Seq<u64>
    decreases rs.len(),
{
    if rs.len() == 0 {
        Seq::empty()
    } else {
        let pre = recipients_of(rs.drop_last(), sid, rt);
        if rs.last().session_id == Some(sid) && (rt is None || rt == Some(rs.last().tag)) {
            pre.push(rs.last().tag)
        } else {
            pre
        }
    }
}

/// Tag routing never leaks: a tagged reply reaches at most the remote
/// with that tag; an untagged event reaches exactly the remotes attached
/// to the source session, and no others.
pub proof fn lemma_delivery_targets(rs: Seq<RemoteData>, sid: u64, rt: Option<u64>)
    ensures
        forall|k: int|
            0 <= k < recipients_of(rs, sid, rt).len() ==> exists|i: int|
                0 <= i < rs.len() && rs[i].tag == #[trigger] recipients_of(rs, sid, rt)[k]
                    && rs[i].session_id == Some(sid),
        rt matches Some(t) ==> forall|k: int|
            0 <= k < recipients_of(rs, sid, rt).len() ==> #[trigger] recipients_of(
                rs,
                sid,
                rt,
            )[k] == t,
        rt is None ==> forall|i: int|
            0 <= i < rs.len() && (#[trigger] rs[i]).session_id == Some(sid) ==> recipients_of(
                rs,
                sid,
                rt,
            ).contains(rs[i].tag),
    decreases rs.len(),
{
    if rs.len() > 0 {
        lemma_delivery_targets(rs.drop_last(), sid, rt);
        let pre = recipients_of(rs.drop_last(), sid, rt);
        let all = recipients_of(rs, sid, rt);
        assert forall|k: int|
            0 <= k < all.len() implies exists|i: int|
            0 <= i < rs.len() && rs[i].tag == #[trigger] all[k] && rs[i].session_id == Some(
                sid,
            ) by {
            if k < pre.len() {
                assert(all[k] == pre[k]);
                let i = choose|i: int|
                    0 <= i < rs.drop_last().len() && rs.drop_last()[i].tag == pre[k]
                        && rs.drop_last()[i].session_id == Some(sid);
                assert(rs[i] == rs.drop_last()[i]);
            } else {
                assert(rs[rs.len() - 1].tag == all[k] && rs[rs.len() - 1].session_id == Some(sid));
            }
        }
        if rt is None {
            assert forall|i: int|
                0 <= i < rs.len() && (#[trigger] rs[i]).session_id == Some(sid) implies all.contains(
                rs[i].tag,
            ) by {
                if i < rs.len() - 1 {
                    assert(rs.drop_last()[i] == rs[i]);
                    assert(pre.contains(rs[i].tag));
                    let k = choose|k: int| 0 <= k < pre.len() && pre[k] == rs[i].tag;
                    assert(all[k] == rs[i].tag);
                } else {
                    assert(all.last() == rs[i].tag);
                }
            }
        }
    }
}

/// The remotes left when the one with the given tag goes away.
pub open spec fn without_tag(rs: Seq<RemoteData>, tag: u64) -> Seq<RemoteData>
    decreases rs.len(),
{
    if rs.len() == 0 {
        Seq::empty()
    } else {
        let pre = without_tag(rs.drop_last(), tag);
        if rs.last().tag != tag {
            pre.push(rs.last())
        } else {
            pre
        }
    }
}

proof fn lemma_without_tag(rs: Seq<RemoteData>, tag: u64)
    ensures
        forall|k: int|
            0 <= k < without_tag(rs, tag).len() ==> rs.contains(#[trigger] without_tag(rs, tag)[k]),
        forall|k: int| 0 <= k < without_tag(rs, tag).len() ==> without_tag(rs, tag)[k].tag != tag,
        (forall|i: int, j: int| 0 <= i < j < rs.len() ==> rs[i].tag != rs[j].tag) ==> (forall|
            i: int,
            j: int,
        |
            0 <= i < j < without_tag(rs, tag).len() ==> without_tag(rs, tag)[i].tag != without_tag(
                rs,
                tag,
            )[j].tag),
    decreases rs.len(),
{
    if rs.len() > 0 {
        lemma_without_tag(rs.drop_last(), tag);
        let pre = without_tag(rs.drop_last(), tag);
        let all = without_tag(rs, tag);
        assert forall|k: int| 0 <= k < all.len() implies rs.contains(#[trigger] all[k]) by {
            if k < pre.len() {
                assert(rs.drop_last().contains(pre[k]));
                let j = choose|j: int| 0 <= j < rs.drop_last().len() && rs.drop_last()[j] == pre[k];
                assert(rs[j] == pre[k]);
            } else {
                assert(all[k] == rs[rs.len() - 1]);
            }
        }
        if forall|i: int, j: int| 0 <= i < j < rs.len() ==> rs[i].tag != rs[j].tag {
            assert(forall|i: int, j: int|
                0 <= i < j < rs.drop_last().len() ==> rs.drop_last()[i].tag != rs.drop_last()[j].tag);
            assert forall|i: int, j: int|
                0 <= i < j < all.len() implies all[i].tag != all[j].tag by {
                if j < pre.len() {
                } else if rs.last().tag != tag {
                    assert(all[j] == rs.last());
                    assert(rs.drop_last().contains(pre[i]));
                    let w = choose|w: int|
                        0 <= w < rs.drop_last().len() && rs.drop_last()[w] == pre[i];
                    assert(rs[w] == all[i]);
                    assert(rs[w].tag != rs[rs.len() - 1].tag);
                }
            }
        }
    }
}

/// With unique tags, any position holding the tag is the one `remote_at`
/// names.
proof fn lemma_remote_at_unique(rs: Seq<RemoteData>, tag: u64, k: int)
    requires
        0 <= k < rs.len(),
        rs[k].tag == tag,
        forall|i: int, j: int| 0 <= i < j < rs.len() ==> rs[i].tag != rs[j].tag,
    ensures
        remote_at(rs, tag) == k,
{
    assert(has_remote(rs, tag));
    let k0 = remote_at(rs, tag);
    assert(0 <= k0 < rs.len() && rs[k0].tag == tag);
    if k0 < k {
        assert(rs[k0].tag != rs[k].tag);
    } else if k0 > k {
        assert(rs[k].tag != rs[k0].tag);
    }
}

/// With unique ids, any position holding the id is the one `session_at`
/// names.
proof fn lemma_session_at_unique(s: Seq<(u64, SessionData)>, sid: u64, k: int)
    requires
        0 <= k < s.len(),
        s[k].0 == sid,
        forall|i: int, j: int| 0 <= i < j < s.len() ==> s[i].0 != s[j].0,
    ensures
        session_at(s, sid) == k,
{
    assert(has_session(s, sid));
    let k0 = session_at(s, sid);
    assert(0 <= k0 < s.len() && s[k0].0 == sid);
    if k0 < k {
        assert(s[k0].0 != s[k].0);
    } else if k0 > k {
        assert(s[k].0 != s[k0].0);
    }
}

/// A session well-formed against a store stays well-formed when the
/// store's id counter has only grown.
proof fn lemma_session_wf_grow(s: Session, pre: Store, post: Store)
    requires
        s.wf(pre),
        post.next_row_id >= pre.next_row_id,
    ensures
        s.wf(post),
{
    assert forall|i: int| 0 <= i < s.networks@.len() implies (#[trigger] s.networks@[i]).wf(
        post,
    ) by {
        assert(s.networks@[i].wf(pre));
    }
}

impl RemoteControl {
    /// Session ids and remote tags are unique; tags stay below the
    /// counter; every session is well-formed against the store.
    pub open spec fn wf(&self, store: Store) -> bool {
        &&& forall|i: int, j: int|
            0 <= i < j < self.sessions@.len() ==> self.sessions@[i].0 != self.sessions@[j].0
        &&& forall|i: int|
            0 <= i < self.sessions@.len() ==> (#[trigger] self.sessions@[i]).1.session.wf(store)
        &&& forall|i: int, j: int|
            0 <= i < j < self.remotes@.len() ==> self.remotes@[i].tag != self.remotes@[j].tag
        &&& forall|i: int|
            0 <= i < self.remotes@.len() ==> (#[trigger] self.remotes@[i]).tag < self.next_tag
    }

    /// No sessions, no remotes, tags from zero.
    pub fn new() -> (r: RemoteControl)
        ensures
            r.sessions@.len() == 0,
            r.remotes@.len() == 0,
            r.next_tag == 0,
            forall|s: Store| #[trigger] s.wf() ==> r.wf(s),
    {
        RemoteControl { sessions: Vec::new(), remotes: Vec::new(), next_tag: 0 }
    }

    /// Adopt one session under a fresh id.
    pub fn add_session(&mut self, store: &Store, id: u64, data: SessionData)
        requires
            old(self).wf(*store),
            data.session.wf(*store),
            !has_session(old(self).sessions@, id),
        ensures
            final(self).wf(*store),
            final(self).sessions@ == old(self).sessions@.push((id, data)),
            final(self).remotes == old(self).remotes,
            final(self).next_tag == old(self).next_tag,
    {
        self.sessions.push((id, data));
    }

    /// Register one newly accepted remote and hand back its fresh tag; it
    /// starts detached.
    pub fn accept_remote(&mut self) -> (tag: u64)
        requires
            old(self).next_tag < u64::MAX,
        ensures
            tag == old(self).next_tag,
            final(self).remotes@ == old(self).remotes@.push(
                RemoteData { session_id: None, tag: old(self).next_tag },
            ),
            final(self).next_tag == old(self).next_tag + 1,
            final(self).sessions == old(self).sessions,
            forall|s: Store| old(self).wf(s) ==> final(self).wf(s),
    {
        let tag = self.next_tag;
        self.next_tag = self.next_tag + 1;
        self.remotes.push(RemoteData { session_id: None, tag });
        tag
    }

    /// Drop a dead remote; other remotes are unaffected.
    pub fn remove_remote(&mut self, tag: u64)
        ensures
            final(self).remotes@ == without_tag(old(self).remotes@, tag),
            final(self).sessions == old(self).sessions,
            final(self).next_tag == old(self).next_tag,
            forall|s: Store| old(self).wf(s) ==> final(self).wf(s),
    {
        proof {
            lemma_without_tag(self.remotes@, tag);
        }
        let n = self.remotes.len();
        let mut out: Vec<RemoteData> = Vec::new();
        let mut i: usize = 0;
        while i < n
            invariant
                n == old(self).remotes@.len(),
                i <= n,
                *self == *old(self),
                out@ == without_tag(old(self).remotes@.take(i as int), tag),
            decreases n - i,
        {
            let rd = RemoteData {
                session_id: self.remotes[i].session_id,
                tag: self.remotes[i].tag,
            };
            proof {
                let t = old(self).remotes@.take(i + 1 as int);
                assert(t.drop_last() =~~= old(self).remotes@.take(i as int));
                assert(t.last() == old(self).remotes@[i as int]);
                assert(rd == old(self).remotes@[i as int]);
            }
            if rd.tag != tag {
                out.push(rd);
            }
            i = i + 1;
        }
        proof {
            assert(old(self).remotes@.take(n as int) =~~= old(self).remotes@);
        }
        self.remotes = out;
        proof {
            assert forall|s: Store| old(self).wf(s) implies self.wf(s) by {
                lemma_without_tag(old(self).remotes@, tag);
            }
        }
    }

    /// Pack one session message and name its recipients: the remote the
    /// envelope addresses, or, for an untagged event, every remote
    /// attached to the source session.
    pub fn route_session_message(&self, session_id: u64, env: Envelope<session::msg::Message>) -> (
        r: (RemoteMessage, Vec<u64>))
        ensures
            r.0@ == pack_view(env.client_tag, msg::Message::SessionMessage(env.contents)),
            r.1@ == recipients_of(self.remotes@, session_id, env.remote_tag),
    {
        let rt = env.remote_tag;
        let (packet, _) = pack_remote_packet(
            Envelope {
                client_tag: env.client_tag,
                remote_tag: env.remote_tag,
                contents: msg::Message::SessionMessage(env.contents),
            },
        );
        let n = self.remotes.len();
        let mut recipients: Vec<u64> = Vec::new();
        let mut i: usize = 0;
        while i < n
            invariant
                n == self.remotes@.len(),
                i <= n,
                rt == env.remote_tag,
                recipients@ == recipients_of(self.remotes@.take(i as int), session_id, rt),
            decreases n - i,
        {
            proof {
                let t = self.remotes@.take(i + 1 as int);
                assert(t.drop_last() =~~= self.remotes@.take(i as int));
                assert(t.last() == self.remotes@[i as int]);
            }
            let attached = match self.remotes[i].session_id {
                Some(sid) => sid == session_id,
                None => false,
            };
            let addressed = match rt {
                Some(t) => t == self.remotes[i].tag,
                None => true,
            };
            if attached && addressed {
                recipients.push(self.remotes[i].tag);
            }
            i = i + 1;
        }
        proof {
            assert(self.remotes@.take(n as int) =~~= self.remotes@);
        }
        (packet, recipients)
    }

    /// Handle one command from a remote: attach it to a session, or
    /// forward the command to its session and pack the reply. The result
    /// names the packet, the remotes to write it to, and any transport
    /// request as `(session id, network id, action)`.
    pub fn handle_remote_command(
        &mut self,
        store: &mut Store,
        remote_tag: u64,
        cmd: Envelope<msg::Command>,
    ) -> (r: (RemoteMessage, Vec<u64>, Option<(u64, u64, UpstreamAction)>))
        requires
            old(self).wf(*old(store)),
            old(store).wf(),
            has_remote(old(self).remotes@, remote_tag),
        ensures
            final(self).wf(*final(store)),
            final(store).wf(),
            final(self).next_tag == old(self).next_tag,
            final(store).next_row_id == old(store).next_row_id,
            final(store).messages == old(store).messages,
            final(store).buffers == old(store).buffers,
            final(store).sessions == old(store).sessions,
            match cmd.contents {
                msg::Command::AttachSession(sid) => {
                    &&& r.2 is None
                    &&& r.1@ == seq![remote_tag]
                    &&& *final(store) == *old(store)
                    &&& final(self).sessions == old(self).sessions
                    &&& (has_session(old(self).sessions@, sid) ==> {
                        let k = remote_at(old(self).remotes@, remote_tag);
                        &&& final(self).remotes@ == old(self).remotes@.update(
                            k,
                            RemoteData { session_id: Some(sid), tag: remote_tag },
                        )
                        &&& r.0@ == (protocol::RemoteMessageV {
                            packet_type: Some(MessageType::Success),
                            tag: cmd.client_tag,
                            ..blank_message()
                        })
                    })
                    &&& (!has_session(old(self).sessions@, sid) ==> {
                        &&& final(self).remotes == old(self).remotes
                        &&& r.0@ == (protocol::RemoteMessageV {
                            packet_type: Some(MessageType::Error),
                            tag: cmd.client_tag,
                            error: Some("invalid session"@),
                            ..blank_message()
                        })
                    })
                },
                msg::Command::SessionCommand(sc) => {
                    let rd = old(self).remotes@[remote_at(old(self).remotes@, remote_tag)];
                    let no_session = rd.session_id is None || !has_session(
                        old(self).sessions@,
                        rd.session_id.unwrap(),
                    );
                    &&& final(self).remotes == old(self).remotes
                    &&& (no_session ==> {
                        &&& r.1@ == seq![remote_tag]
                        &&& r.2 is None
                        &&& final(self).sessions == old(self).sessions
                        &&& *final(store) == *old(store)
                        &&& r.0@ == (protocol::RemoteMessageV {
                            packet_type: Some(MessageType::Error),
                            tag: cmd.client_tag,
                            error: Some("No session attached"@),
                            ..blank_message()
                        })
                    })
                    &&& (!no_session ==> {
                        let sid = rd.session_id.unwrap();
                        let k = session_at(old(self).sessions@, sid);
                        &&& final(self).sessions@.len() == old(self).sessions@.len()
                        &&& forall|j: int|
                            0 <= j < old(self).sessions@.len() && j != k ==> final(self).sessions@[j] == old(self).sessions@[j]
                        &&& final(self).sessions@[k].0 == sid
                        &&& exists|m: session::msg::Message|
                            {
                                &&& session_command_step(
                                    old(self).sessions@[k].1.session,
                                    final(self).sessions@[k].1.session,
                                    *old(store),
                                    *final(store),
                                    sc,
                                    m,
                                    match r.2 {
                                        Some((_, nid, act)) => Some((nid, act)),
                                        None => None,
                                    },
                                )
                                &&& r.0@ == #[trigger] pack_view(
                                    cmd.client_tag,
                                    msg::Message::SessionMessage(m),
                                )
                            }
                        &&& (r.2 matches Some((did, _, _)) ==> did == sid)
                        &&& r.1@ == recipients_of(old(self).remotes@, sid, cmd.remote_tag)
                    })
                },
            },
    {
        let bare = cmd.bare();
        match cmd.contents {
            msg::Command::AttachSession(sid) => {
                match self.find_session_index(sid) {
                    Some(_) => {
                        let k = match self.find_remote_index(remote_tag) {
                            Some(k) => k,
                            None => {
                                proof {
                                    assert(false);
                                }
                                unreached()
                            },
                        };
                        proof {
                            lemma_remote_at_unique(self.remotes@, remote_tag, k as int);
                        }
                        self.remotes.set(
                            k,
                            RemoteData { session_id: Some(sid), tag: remote_tag },
                        );
                        proof {
                            assert(forall|a: int|
                                0 <= a < self.remotes@.len() ==> #[trigger] self.remotes@[a].tag
                                    == old(self).remotes@[a].tag);
                        }
                        let (packet, _) = pack_remote_packet(
                            bare.copy_with(msg::Message::Success),
                        );
                        let mut to: Vec<u64> = Vec::new();
                        to.push(remote_tag);
                        proof {
                            assert(to@ =~~= seq![remote_tag]);
                        }
                        (packet, to, None)
                    },
                    None => {
                        let (packet, _) = pack_remote_packet(
                            bare.copy_with(
                                msg::Message::Error(String::from_str("invalid session")),
                            ),
                        );
                        let mut to: Vec<u64> = Vec::new();
                        to.push(remote_tag);
                        proof {
                            assert(to@ =~~= seq![remote_tag]);
                        }
                        (packet, to, None)
                    },
                }
            },
            msg::Command::SessionCommand(sc) => {
                let k = match self.find_remote_index(remote_tag) {
                    Some(k) => k,
                    None => {
                        proof {
                            assert(false);
                        }
                        unreached()
                    },
                };
                proof {
                    lemma_remote_at_unique(self.remotes@, remote_tag, k as int);
                }
                let sid = match self.remotes[k].session_id {
                    Some(s) => s,
                    None => {
                        let (packet, _) = pack_remote_packet(
                            bare.copy_with(
                                msg::Message::Error(String::from_str("No session attached")),
                            ),
                        );
                        let mut to: Vec<u64> = Vec::new();
                        to.push(remote_tag);
                        proof {
                            assert(to@ =~~= seq![remote_tag]);
                        }
                        return (packet, to, None);
                    },
                };
                match self.find_session_index(sid) {
                    Some(w) => {
                        proof {
                            lemma_session_at_unique(self.sessions@, sid, w as int);
                        }
                        let entry = &mut self.sessions[w];
                        let (mut replies, action) = entry.1.session.handle_command(
                            store,
                            bare.copy_with(sc),
                        );
                        let reply = replies.pop().unwrap();
                        let (packet, out_tag) = pack_remote_packet(
                            Envelope {
                                client_tag: reply.client_tag,
                                remote_tag: reply.remote_tag,
                                contents: msg::Message::SessionMessage(reply.contents),
                            },
                        );
                        let n2 = self.remotes.len();
                        let mut recipients: Vec<u64> = Vec::new();
                        let mut t: usize = 0;
                        while t < n2
                            invariant
                                n2 == self.remotes@.len(),
                                t <= n2,
                                self.remotes == old(self).remotes,
                                out_tag == cmd.remote_tag,
                                recipients@ == recipients_of(
                                    self.remotes@.take(t as int),
                                    sid,
                                    cmd.remote_tag,
                                ),
                            decreases n2 - t,
                        {
                            proof {
                                let tk = self.remotes@.take(t + 1 as int);
                                assert(tk.drop_last() =~~= self.remotes@.take(t as int));
                                assert(tk.last() == self.remotes@[t as int]);
                            }
                            let att = match self.remotes[t].session_id {
                                Some(s2) => s2 == sid,
                                None => false,
                            };
                            let addressed = match &out_tag {
                                Some(tt) => *tt == self.remotes[t].tag,
                                None => true,
                            };
                            if att && addressed {
                                recipients.push(self.remotes[t].tag);
                            }
                            t = t + 1;
                        }
                        proof {
                            assert(self.remotes@.take(n2 as int) =~~= self.remotes@);
                        }
                        let out_action = match action {
                            Some((nid, act)) => Some((sid, nid, act)),
                            None => None,
                        };
                        proof {
                            assert(self.wf(*store)) by {
                                assert(forall|j: int|
                                    0 <= j < self.sessions@.len() && j != w as int
                                        ==> #[trigger] self.sessions@[j] == old(
                                        self,
                                    ).sessions@[j]);
                                assert forall|j: int|
                                    0 <= j < self.sessions@.len() implies (
                                #[trigger] self.sessions@[j]).1.session.wf(*store) by {
                                    if j != w as int {
                                        lemma_session_wf_grow(
                                            old(self).sessions@[j].1.session,
                                            *old(store),
                                            *store,
                                        );
                                    }
                                }
                            }
                        }
                        (packet, recipients, out_action)
                    },
                    None => {
                        let (packet, _) = pack_remote_packet(
                            bare.copy_with(
                                msg::Message::Error(String::from_str("No session attached")),
                            ),
                        );
                        let mut to: Vec<u64> = Vec::new();
                        to.push(remote_tag);
                        proof {
                            assert(to@ =~~= seq![remote_tag]);
                        }
                        (packet, to, None)
                    },
                }
            },
        }
    }

    /// The position of the remote with the given tag, when one exists;
    /// earlier positions hold other tags.
    fn find_remote_index(&self, tag: u64) -> (r: Option<usize>)
        ensures
            match r {
                Some(k) => k < self.remotes@.len() && self.remotes@[k as int].tag == tag && (forall|
                    j: int,
                |
                    0 <= j < k ==> self.remotes@[j].tag != tag),
                None => !has_remote(self.remotes@, tag),
            },
    {
        let n = self.remotes.len();
        let mut i: usize = 0;
        while i < n
            invariant
                n == self.remotes@.len(),
                i <= n,
                forall|j: int| 0 <= j < i ==> self.remotes@[j].tag != tag,
            decreases n - i,
        {
            if self.remotes[i].tag == tag {
                return Some(i);
            }
            i = i + 1;
        }
        None
    }

    /// The position of the session with the given id, when one exists.
    fn find_session_index(&self, sid: u64) -> (r: Option<usize>)
        ensures
            match r {
                Some(k) => k < self.sessions@.len() && self.sessions@[k as int].0 == sid && (forall|
                    j: int,
                |
                    0 <= j < k ==> self.sessions@[j].0 != sid),
                None => !has_session(self.sessions@, sid),
            },
    {
        let n = self.sessions.len();
        let mut i: usize = 0;
        while i < n
            invariant
                n == self.sessions@.len(),
                i <= n,
                forall|j: int| 0 <= j < i ==> self.sessions@[j].0 != sid,
            decreases n - i,
        {
            if self.sessions[i].0 == sid {
                return Some(i);
            }
            i = i + 1;
        }
        None
    }

}

} // verus!
