use q2::database::Store;
use q2::envelope::Envelope;
use q2::irc::client::ClientMessage;
use q2::irc::parser;
use q2::network::{self, Network, State};
use q2::session::{msg, Session};

fn session_with_network(store: &Store, id: u64) -> Session {
    let mut session = Session::new();
    session.insert_network(store, Network::new(id));
    session
}

#[test]
fn unknown_network_id_is_an_error() {
    let mut store = Store::open();
    let mut session = session_with_network(&store, 1);
    let cmd = Envelope {
        client_tag: Some(5),
        remote_tag: Some(9),
        contents: msg::Command::NetworkCommand(42, network::msg::Command::GetBufferList),
    };
    let (replies, dial) = session.handle_command(&mut store, cmd);
    assert_eq!(replies.len(), 1);
    assert_eq!(replies[0].client_tag, Some(5));
    assert_eq!(replies[0].remote_tag, Some(9));
    match &replies[0].contents {
        msg::Message::Error(e) => assert_eq!(e, "invalid network"),
        other => panic!("unexpected reply {other:?}"),
    }
    assert!(dial.is_none());
}

#[test]
fn network_command_is_forwarded_and_wrapped() {
    let mut store = Store::open();
    let mut session = session_with_network(&store, 1);
    let cmd = Envelope {
        client_tag: Some(11),
        remote_tag: None,
        contents: msg::Command::NetworkCommand(1, network::msg::Command::GetBufferList),
    };
    let (replies, _) = session.handle_command(&mut store, cmd);
    assert_eq!(replies.len(), 1);
    assert_eq!(replies[0].client_tag, Some(11));
    match &replies[0].contents {
        msg::Message::NetworkMessage(1, network::msg::Message::BufferList(v)) => {
            assert!(v.is_empty())
        }
        other => panic!("unexpected reply {other:?}"),
    }
}

#[test]
fn network_list_reports_ids_and_states() {
    let mut store = Store::open();
    let mut session = Session::new();
    session.insert_network(&store, Network::new(1));
    session.insert_network(&store, Network::new(2));
    let cmd = Envelope {
        client_tag: Some(42),
        remote_tag: Some(1),
        contents: msg::Command::GetNetworkList,
    };
    let (replies, _) = session.handle_command(&mut store, cmd);
    assert_eq!(replies[0].client_tag, Some(42));
    match &replies[0].contents {
        msg::Message::NetworkList(v) => {
            assert_eq!(v.len(), 2);
            assert_eq!(v[0], (1, State::NetworkDisconnected));
            assert_eq!(v[1], (2, State::NetworkDisconnected));
        }
        other => panic!("unexpected reply {other:?}"),
    }
}

#[test]
fn network_events_carry_no_tags() {
    let mut store = Store::open();
    let mut session = session_with_network(&store, 1);
    let events = session.handle_message(
        &mut store,
        1,
        ClientMessage::Message(parser::Message::Welcome(b"hi".to_vec())),
    );
    assert!(!events.is_empty());
    for e in &events {
        assert!(e.client_tag.is_none());
        assert!(e.remote_tag.is_none());
        assert!(matches!(e.contents, msg::Message::NetworkMessage(1, _)));
    }
}

#[test]
fn events_for_unknown_network_vanish() {
    let mut store = Store::open();
    let mut session = session_with_network(&store, 1);
    let events = session.handle_message(
        &mut store,
        77,
        ClientMessage::Message(parser::Message::Welcome(b"hi".to_vec())),
    );
    assert!(events.is_empty());
}
