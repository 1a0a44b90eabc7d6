use q2::database::{load_core, Store};
use q2::envelope::Envelope;
use q2::remotecontrol::{
    frame_packet, msg, parse_frame_len, parse_remote_packet, protocol, RemoteControl, MAX_FRAME,
};
use q2::session;

fn attach(rc: &mut RemoteControl, store: &mut Store, tag: u64, sid: u64) {
    let cmd = Envelope {
        client_tag: None,
        remote_tag: Some(tag),
        contents: msg::Command::AttachSession(sid),
    };
    let (packet, to, _) = rc.handle_remote_command(store, tag, cmd);
    assert_eq!(packet.packet_type, Some(protocol::MessageType::Success));
    assert_eq!(to, vec![tag]);
}

fn bootstrapped() -> (Store, RemoteControl, u64, u64) {
    let mut store = Store::open();
    store.bootstrap();
    let sid = store.sessions[0];
    let nid = store.networks[0].id;
    let rc = load_core(&store);
    (store, rc, sid, nid)
}

#[test]
fn frame_round_trips() {
    let framed = frame_packet(b"abc").unwrap();
    assert_eq!(framed.as_slice(), &[3, 0, 0, 0, b'a', b'b', b'c']);
    assert_eq!(parse_frame_len(3, 0, 0, 0), Some(3));
    assert_eq!(parse_frame_len(0x00, 0x00, 0x10, 0x00), Some(MAX_FRAME));
}

#[test]
fn oversized_frames_are_refused() {
    assert_eq!(parse_frame_len(0x01, 0x00, 0x10, 0x00), None);
    assert_eq!(parse_frame_len(0xff, 0xff, 0xff, 0x7f), None);
    let big = vec![0u8; MAX_FRAME as usize + 1];
    assert!(frame_packet(&big).is_none());
}

#[test]
fn packet_parsing_requires_fields() {
    let mut p = protocol::RemoteCommand::empty();
    p.packet_type = Some(protocol::CommandType::JoinChannel);
    p.network_id = Some(4);
    assert!(parse_remote_packet(p, 1).is_none(), "channel field is required");

    let mut p = protocol::RemoteCommand::empty();
    p.packet_type = Some(protocol::CommandType::JoinChannel);
    p.network_id = Some(4);
    p.channel = Some("#chan".to_string());
    p.tag = Some(8);
    let env = parse_remote_packet(p, 3).unwrap();
    assert_eq!(env.client_tag, Some(8));
    assert_eq!(env.remote_tag, Some(3));
    match env.contents {
        msg::Command::SessionCommand(session::msg::Command::NetworkCommand(
            4,
            q2::network::msg::Command::JoinChannel(ch),
        )) => assert_eq!(ch, "#chan"),
        other => panic!("unexpected command {other:?}"),
    }

    let p = protocol::RemoteCommand::empty();
    assert!(parse_remote_packet(p, 1).is_none(), "a packet type is required");
}

#[test]
fn tag_echo_reaches_only_the_asking_remote() {
    let (mut store, mut rc, sid, _nid) = bootstrapped();
    let r1 = rc.accept_remote();
    let r2 = rc.accept_remote();
    attach(&mut rc, &mut store, r1, sid);
    attach(&mut rc, &mut store, r2, sid);

    let mut p = protocol::RemoteCommand::empty();
    p.packet_type = Some(protocol::CommandType::GetNetworkList);
    p.tag = Some(42);
    let env = parse_remote_packet(p, r1).unwrap();
    let (packet, to, _) = rc.handle_remote_command(&mut store, r1, env);
    assert_eq!(packet.packet_type, Some(protocol::MessageType::NetworkList));
    assert_eq!(packet.tag, Some(42));
    assert_eq!(packet.network_list.len(), 1);
    assert_eq!(to, vec![r1], "the second remote receives nothing");
}

#[test]
fn untagged_events_fan_out_to_the_session() {
    let (mut store, mut rc, sid, _nid) = bootstrapped();
    let r1 = rc.accept_remote();
    let r2 = rc.accept_remote();
    let r3 = rc.accept_remote();
    attach(&mut rc, &mut store, r1, sid);
    attach(&mut rc, &mut store, r2, sid);
    // r3 stays detached.
    let (packet, to) = rc.route_session_message(
        sid,
        Envelope::empty(session::msg::Message::Success),
    );
    assert_eq!(packet.packet_type, Some(protocol::MessageType::Success));
    assert_eq!(packet.tag, None);
    assert_eq!(to, vec![r1, r2]);
    assert!(!to.contains(&r3));
}

#[test]
fn session_command_without_attachment_fails() {
    let (mut store, mut rc, _sid, _nid) = bootstrapped();
    let r1 = rc.accept_remote();
    let cmd = Envelope {
        client_tag: Some(1),
        remote_tag: Some(r1),
        contents: msg::Command::SessionCommand(session::msg::Command::GetNetworkList),
    };
    let (packet, to, _) = rc.handle_remote_command(&mut store, r1, cmd);
    assert_eq!(packet.packet_type, Some(protocol::MessageType::Error));
    assert_eq!(packet.error, Some("No session attached".to_string()));
    assert_eq!(packet.tag, Some(1));
    assert_eq!(to, vec![r1]);
}

#[test]
fn attaching_to_a_missing_session_fails() {
    let (mut store, mut rc, _sid, _nid) = bootstrapped();
    let r1 = rc.accept_remote();
    let cmd = Envelope {
        client_tag: Some(2),
        remote_tag: Some(r1),
        contents: msg::Command::AttachSession(4096),
    };
    let (packet, to, _) = rc.handle_remote_command(&mut store, r1, cmd);
    assert_eq!(packet.packet_type, Some(protocol::MessageType::Error));
    assert_eq!(packet.error, Some("invalid session".to_string()));
    assert_eq!(to, vec![r1]);
}

#[test]
fn dead_remotes_are_purged() {
    let (mut store, mut rc, sid, _nid) = bootstrapped();
    let r1 = rc.accept_remote();
    let r2 = rc.accept_remote();
    attach(&mut rc, &mut store, r1, sid);
    attach(&mut rc, &mut store, r2, sid);
    rc.remove_remote(r1);
    let (_, to) = rc.route_session_message(sid, Envelope::empty(session::msg::Message::Success));
    assert_eq!(to, vec![r2]);
}

#[test]
fn command_replies_pack_network_payloads() {
    let (mut store, mut rc, sid, nid) = bootstrapped();
    let r1 = rc.accept_remote();
    attach(&mut rc, &mut store, r1, sid);

    let mut p = protocol::RemoteCommand::empty();
    p.packet_type = Some(protocol::CommandType::GetNetworkConfiguration);
    p.network_id = Some(nid);
    p.tag = Some(5);
    let env = parse_remote_packet(p, r1).unwrap();
    let (packet, to, action) = rc.handle_remote_command(&mut store, r1, env);
    assert_eq!(packet.packet_type, Some(protocol::MessageType::Configuration));
    assert_eq!(packet.tag, Some(5));
    assert_eq!(packet.network_id, Some(nid));
    assert_eq!(packet.configuration_server, None);
    assert_eq!(to, vec![r1]);
    assert!(action.is_none());
}

#[test]
fn disconnect_through_the_fabric_requests_a_close() {
    let (mut store, mut rc, sid, nid) = bootstrapped();
    let r1 = rc.accept_remote();
    attach(&mut rc, &mut store, r1, sid);

    let mut p = protocol::RemoteCommand::empty();
    p.packet_type = Some(protocol::CommandType::Disconnect);
    p.network_id = Some(nid);
    let env = parse_remote_packet(p, r1).unwrap();
    let (packet, to, action) = rc.handle_remote_command(&mut store, r1, env);
    assert_eq!(packet.packet_type, Some(protocol::MessageType::Success));
    assert_eq!(to, vec![r1]);
    match action {
        Some((s, n, q2::network::UpstreamAction::Close(parting))) => {
            assert_eq!((s, n), (sid, nid));
            // Nothing was ever written upstream, so nothing is left to flush.
            assert!(parting.is_empty());
        }
        other => panic!("expected a close request, got {other:?}"),
    }
}

#[test]
fn connect_through_the_fabric_requests_a_dial() {
    let (mut store, mut rc, sid, nid) = bootstrapped();
    let r1 = rc.accept_remote();
    attach(&mut rc, &mut store, r1, sid);

    let mut p = protocol::RemoteCommand::empty();
    p.packet_type = Some(protocol::CommandType::SetNetworkConfiguration);
    p.network_id = Some(nid);
    p.server = Some("irc.example.com:6667".to_string());
    p.nickname = Some("bob".to_string());
    let env = parse_remote_packet(p, r1).unwrap();
    let (packet, _, _) = rc.handle_remote_command(&mut store, r1, env);
    assert_eq!(packet.packet_type, Some(protocol::MessageType::Success));

    let mut p = protocol::RemoteCommand::empty();
    p.packet_type = Some(protocol::CommandType::Connect);
    p.network_id = Some(nid);
    let env = parse_remote_packet(p, r1).unwrap();
    let (packet, _, action) = rc.handle_remote_command(&mut store, r1, env);
    assert_eq!(packet.packet_type, Some(protocol::MessageType::Success));
    assert_eq!(
        action,
        Some((sid, nid, q2::network::UpstreamAction::Dial("irc.example.com:6667".to_string())))
    );
}
