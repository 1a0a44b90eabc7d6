use q2::buffer::{MessageContents, Role};
use q2::database::Store;
use q2::envelope::Envelope;
use q2::irc::client::ClientMessage;
use q2::irc::parser;
use q2::network::{msg, Configuration, Network, State, UpstreamAction};

fn configured(store: &mut Store) -> Network {
    let mut network = Network::new(1);
    network.config = Some(Configuration {
        server: "irc.example.com:6667".to_string(),
        nickname: "bob".to_string(),
    });
    let (replies, action) = network.handle_command(store, Envelope::empty(msg::Command::Connect));
    assert!(matches!(replies[0].contents, msg::Message::Success));
    assert_eq!(action, Some(UpstreamAction::Dial("irc.example.com:6667".to_string())));
    network
}

#[test]
fn connect_without_configuration_is_refused() {
    let mut store = Store::open();
    let mut network = Network::new(1);
    let cmd = Envelope { client_tag: Some(7), remote_tag: Some(3), contents: msg::Command::Connect };
    let (replies, action) = network.handle_command(&mut store, cmd);
    assert_eq!(replies.len(), 1);
    assert_eq!(replies[0].client_tag, Some(7));
    assert_eq!(replies[0].remote_tag, Some(3));
    match &replies[0].contents {
        msg::Message::Error(e) => assert_eq!(e, "network not configured"),
        other => panic!("unexpected reply {other:?}"),
    }
    assert!(action.is_none());
    assert_eq!(network.state, State::NetworkDisconnected);
}

#[test]
fn connect_with_bad_server_is_refused() {
    let mut store = Store::open();
    let mut network = Network::new(1);
    network.config = Some(Configuration {
        server: "no port here".to_string(),
        nickname: "bob".to_string(),
    });
    let (replies, action) = network.handle_command(&mut store, Envelope::empty(msg::Command::Connect));
    match &replies[0].contents {
        msg::Message::Error(e) => assert_eq!(e, "invalid server"),
        other => panic!("unexpected reply {other:?}"),
    }
    assert!(action.is_none());
    assert_eq!(network.state, State::NetworkDisconnected);
}

#[test]
fn connect_registers_nick_and_user() {
    let mut store = Store::open();
    let mut network = configured(&mut store);
    assert_eq!(network.state, State::NetworkConnecting);
    assert_eq!(network.nickname, Some(b"bob".to_vec()));
    let written = network.client.take_written();
    assert_eq!(written.as_slice(), b"NICK bob\r\nUSER bob 0 * :bob\r\n".as_slice());
}

#[test]
fn ping_answers_with_pong_and_no_events() {
    let mut store = Store::open();
    let mut network = configured(&mut store);
    network.client.take_written();
    let events = network.handle_message(
        &mut store,
        ClientMessage::Message(parser::Message::Ping(b"foobar.com".to_vec())),
    );
    assert!(events.is_empty());
    let written = network.client.take_written();
    assert_eq!(written.as_slice(), b"PONG foobar.com\r\n".as_slice());
}

#[test]
fn welcome_connects_and_posts_status_line() {
    let mut store = Store::open();
    let mut network = configured(&mut store);
    let events = network.handle_message(
        &mut store,
        ClientMessage::Message(parser::Message::Welcome(b"hello".to_vec())),
    );
    assert_eq!(network.state, State::NetworkConnected);
    assert_eq!(events.len(), 3);
    assert!(matches!(events[0], msg::Message::Connected));
    let status_id = match &events[1] {
        msg::Message::NewBuffer(id, Role::Status) => *id,
        other => panic!("expected the status buffer first, got {other:?}"),
    };
    match &events[2] {
        msg::Message::BufferMessage(bid, m) => {
            assert_eq!(*bid, status_id);
            assert_eq!(m.contents, MessageContents::Information("Welcome to IRC!".to_string()));
        }
        other => panic!("expected the welcome line, got {other:?}"),
    }
}

#[test]
fn privmsg_to_own_nick_opens_query() {
    let mut store = Store::open();
    let mut network = configured(&mut store);
    let events = network.handle_message(
        &mut store,
        ClientMessage::Message(parser::Message::Privmsg(
            b"alice!a@h".to_vec(),
            b"bob".to_vec(),
            b"hi".to_vec(),
        )),
    );
    assert_eq!(events.len(), 2);
    match &events[0] {
        msg::Message::NewBuffer(_, role) => assert_eq!(*role, Role::Query("alice".to_string())),
        other => panic!("expected a new query buffer, got {other:?}"),
    }
    match &events[1] {
        msg::Message::BufferMessage(_, m) => assert_eq!(
            m.contents,
            MessageContents::Privmsg("alice!a@h".to_string(), "hi".to_string())
        ),
        other => panic!("expected the message, got {other:?}"),
    }
}

#[test]
fn privmsg_to_channel_goes_to_channel_buffer() {
    let mut store = Store::open();
    let mut network = configured(&mut store);
    let events = network.handle_message(
        &mut store,
        ClientMessage::Message(parser::Message::Privmsg(
            b"alice!a@h".to_vec(),
            b"#Chan".to_vec(),
            b"hi".to_vec(),
        )),
    );
    match &events[0] {
        msg::Message::NewBuffer(_, role) => assert_eq!(*role, Role::Channel("#chan".to_string())),
        other => panic!("expected a new channel buffer, got {other:?}"),
    }
}

#[test]
fn join_lowercases_channel_buffer_name() {
    let mut store = Store::open();
    let mut network = configured(&mut store);
    let events = network.handle_message(
        &mut store,
        ClientMessage::Message(parser::Message::Join(
            b"WiZ".to_vec(),
            b"#Twilight_zone".to_vec(),
        )),
    );
    assert_eq!(events.len(), 2);
    match &events[0] {
        msg::Message::NewBuffer(_, role) => {
            assert_eq!(*role, Role::Channel("#twilight_zone".to_string()))
        }
        other => panic!("expected a new buffer, got {other:?}"),
    }
    match &events[1] {
        msg::Message::BufferMessage(_, m) => {
            assert_eq!(m.contents, MessageContents::Join("WiZ".to_string()))
        }
        other => panic!("expected the join line, got {other:?}"),
    }
}

#[test]
fn second_message_reuses_the_buffer() {
    let mut store = Store::open();
    let mut network = configured(&mut store);
    let privmsg = |network: &mut Network, store: &mut Store| {
        network.handle_message(
            store,
            ClientMessage::Message(parser::Message::Privmsg(
                b"alice!a@h".to_vec(),
                b"#chan".to_vec(),
                b"hi".to_vec(),
            )),
        )
    };
    let first = privmsg(&mut network, &mut store);
    assert_eq!(first.len(), 2);
    let second = privmsg(&mut network, &mut store);
    assert_eq!(second.len(), 1);
    assert!(matches!(second[0], msg::Message::BufferMessage(..)));
    assert_eq!(network.buffers.len(), 1);
}

#[test]
fn connection_error_resets_the_network() {
    let mut store = Store::open();
    let mut network = configured(&mut store);
    let events = network.handle_message(
        &mut store,
        ClientMessage::ConnectionError("broken pipe".to_string()),
    );
    assert_eq!(events.len(), 1);
    match &events[0] {
        msg::Message::Disconnected(reason) => assert_eq!(reason, "broken pipe"),
        other => panic!("expected a disconnect event, got {other:?}"),
    }
    assert_eq!(network.state, State::NetworkDisconnected);
    assert!(network.client.conn_out.is_none());
}

#[test]
fn disconnect_sends_quit_and_tears_down() {
    let mut store = Store::open();
    let mut network = configured(&mut store);
    network.client.take_written();
    let (replies, action) =
        network.handle_command(&mut store, Envelope::empty(msg::Command::Disconnect));
    assert!(matches!(replies[0].contents, msg::Message::Success));
    assert_eq!(network.state, State::NetworkDisconnected);
    // The QUIT line comes back as the parting bytes of the close request;
    // the outbound half itself is gone.
    match action {
        Some(UpstreamAction::Close(parting)) => assert_eq!(
            parting.as_slice(),
            b"QUIT :So long, and thanks for all the fish.\r\n".as_slice()
        ),
        other => panic!("expected a close request, got {other:?}"),
    }
    assert!(network.client.conn_out.is_none());
    // Later sends are dropped: nothing reaches the outbox.
    let (replies, action) = network.handle_command(
        &mut store,
        Envelope::empty(msg::Command::JoinChannel("#chan".to_string())),
    );
    assert!(matches!(replies[0].contents, msg::Message::Success));
    assert!(action.is_none());
    assert!(network.client.take_written().is_empty());
}

#[test]
fn disconnect_flushes_pending_writes_first() {
    let mut store = Store::open();
    let mut network = configured(&mut store);
    let (_, action) =
        network.handle_command(&mut store, Envelope::empty(msg::Command::Disconnect));
    match action {
        Some(UpstreamAction::Close(parting)) => assert_eq!(
            parting.as_slice(),
            b"NICK bob\r\nUSER bob 0 * :bob\r\nQUIT :So long, and thanks for all the fish.\r\n"
                .as_slice()
        ),
        other => panic!("expected a close request, got {other:?}"),
    }
}

#[test]
fn join_and_privmsg_commands_write_upstream() {
    let mut store = Store::open();
    let mut network = configured(&mut store);
    network.client.take_written();
    network.handle_command(
        &mut store,
        Envelope::empty(msg::Command::JoinChannel("#chan".to_string())),
    );
    network.handle_command(
        &mut store,
        Envelope::empty(msg::Command::SendPrivmsg("#chan".to_string(), "hello".to_string())),
    );
    let written = network.client.take_written();
    assert_eq!(written.as_slice(), b"JOIN #chan\r\nPRIVMSG #chan :hello\r\n".as_slice());
}

#[test]
fn buffer_list_and_ranges() {
    let mut store = Store::open();
    let mut network = configured(&mut store);
    network.handle_message(
        &mut store,
        ClientMessage::Message(parser::Message::Privmsg(
            b"alice!a@h".to_vec(),
            b"#chan".to_vec(),
            b"hi".to_vec(),
        )),
    );
    let (replies, _) = network.handle_command(
        &mut store,
        Envelope::empty(msg::Command::GetBufferList),
    );
    let (buf_id, role) = match &replies[0].contents {
        msg::Message::BufferList(v) => (v[0].0, v[0].1.dup()),
        other => panic!("expected the buffer list, got {other:?}"),
    };
    assert_eq!(role, Role::Channel("#chan".to_string()));

    let (replies, _) = network.handle_command(
        &mut store,
        Envelope::empty(msg::Command::GetBufferMessageRange(buf_id, 10, None)),
    );
    match &replies[0].contents {
        msg::Message::BufferMessageRange(b, msgs) => {
            assert_eq!(*b, buf_id);
            assert_eq!(msgs.len(), 1);
            assert_eq!(
                msgs[0].contents,
                MessageContents::Privmsg("alice!a@h".to_string(), "hi".to_string())
            );
        }
        other => panic!("expected the range, got {other:?}"),
    }

    let (replies, _) = network.handle_command(
        &mut store,
        Envelope::empty(msg::Command::GetBufferMessageRange(9999, 10, None)),
    );
    match &replies[0].contents {
        msg::Message::Error(e) => assert_eq!(e, "invalid buffer specified"),
        other => panic!("expected an error, got {other:?}"),
    }
}

#[test]
fn configuration_round_trips_through_commands() {
    let mut store = Store::open();
    store.bootstrap();
    let nid = store.networks[0].id;
    let mut network = Network::new(nid);
    let cfg = Configuration { server: "h:1".to_string(), nickname: "n".to_string() };
    let (replies, _) = network.handle_command(
        &mut store,
        Envelope::empty(msg::Command::SetConfiguration(cfg)),
    );
    assert!(matches!(replies[0].contents, msg::Message::Success));
    assert_eq!(store.networks[0].server, Some("h:1".to_string()));
    let (replies, _) = network.handle_command(
        &mut store,
        Envelope::empty(msg::Command::GetConfiguration),
    );
    match &replies[0].contents {
        msg::Message::Configuration(Some(c)) => {
            assert_eq!(c.server, "h:1");
            assert_eq!(c.nickname, "n");
        }
        other => panic!("expected the configuration, got {other:?}"),
    }
}
