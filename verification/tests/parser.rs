use q2::irc::parser::{parse_message, parse_message_raw, raw_to_line, Message};

#[test]
fn test_raw_welcome() {
    let m = parse_message_raw(b"001 :Welcome to the Internet Relay Network a!b@c").unwrap();

    assert!(m.prefix.is_none());
    assert_eq!(m.command.as_slice(), b"001");
    assert_eq!(
        m.parameters[0].as_slice(),
        b"Welcome to the Internet Relay Network a!b@c".as_slice()
    );
    assert_eq!(m.parameters.len(), 1);
}

#[test]
fn test_raw_join() {
    let m = parse_message_raw(b":WiZ JOIN #Twilight_zone").unwrap();

    assert_eq!(m.prefix.as_ref().unwrap().as_slice(), b"WiZ");
    assert_eq!(m.command.as_slice(), b"JOIN");
    assert_eq!(m.parameters[0].as_slice(), b"#Twilight_zone");
    assert_eq!(m.parameters.len(), 1);
}

#[test]
fn test_ping() {
    let m = parse_message(b"PING foobar.com").unwrap();

    match m {
        Message::Ping(ref x) if x.as_slice() == b"foobar.com" => (),
        _ => panic!("no"),
    }
}

#[test]
fn classify_welcome_line() {
    let m = parse_message(b"001 :Welcome to the Internet Relay Network a!b@c").unwrap();
    match m {
        Message::Welcome(p) => {
            assert_eq!(p.as_slice(), b"Welcome to the Internet Relay Network a!b@c".as_slice())
        }
        _ => panic!("expected a welcome"),
    }
}

#[test]
fn classify_join_with_prefix() {
    let m = parse_message(b":WiZ JOIN #Twilight_zone").unwrap();
    match m {
        Message::Join(prefix, channel) => {
            assert_eq!(prefix.as_slice(), b"WiZ");
            assert_eq!(channel.as_slice(), b"#Twilight_zone");
        }
        _ => panic!("expected a join"),
    }
}

#[test]
fn privmsg_without_prefix_is_dropped() {
    assert!(parse_message(b"PRIVMSG bob :hi").is_none());
}

#[test]
fn empty_line_has_no_command() {
    assert!(parse_message_raw(b"").is_none());
    assert!(parse_message_raw(b"   ").is_none());
}

#[test]
fn unknown_command_kept_raw() {
    let m = parse_message(b"TOPIC #chan :new topic").unwrap();
    match m {
        Message::Unknown(raw) => {
            assert_eq!(raw.command.as_slice(), b"TOPIC");
            assert_eq!(raw.parameters.len(), 2);
            assert_eq!(raw.parameters[1].as_slice(), b"new topic");
        }
        _ => panic!("expected raw"),
    }
}

#[test]
fn round_trip_preserves_parsed_shape() {
    let input: &[u8] = b":nick!user@host PRIVMSG #chan :hi  there :all";
    let m = parse_message_raw(input).unwrap();
    let line = raw_to_line(&m);
    let m2 = parse_message_raw(line.as_slice()).unwrap();
    assert_eq!(m.prefix, m2.prefix);
    assert_eq!(m.command, m2.command);
    assert_eq!(m.parameters, m2.parameters);
    assert_eq!(m2.parameters[1].as_slice(), b"hi  there :all".as_slice());
}

#[test]
fn round_trip_without_trailing_marker() {
    // The last parameter re-parses as a trailing parameter either way.
    let m = parse_message_raw(b"MODE #chan +o WiZ").unwrap();
    let line = raw_to_line(&m);
    assert_eq!(line.as_slice(), b"MODE #chan +o :WiZ".as_slice());
    let m2 = parse_message_raw(line.as_slice()).unwrap();
    assert_eq!(m.parameters, m2.parameters);
    assert_eq!(m.command, m2.command);
}
