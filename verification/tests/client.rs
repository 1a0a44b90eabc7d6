use q2::envelope::Envelope;
use q2::irc::client::{to_u8, Client, Connection, LineBuffer};

#[test]
fn envelope_tags_travel() {
    let e = Envelope { client_tag: Some(1), remote_tag: Some(2), contents: 5u32 };
    let bare = e.bare();
    assert_eq!(bare.client_tag, Some(1));
    assert_eq!(bare.remote_tag, Some(2));
    let copied = bare.copy_with("x");
    assert_eq!(copied.client_tag, Some(1));
    assert_eq!(copied.remote_tag, Some(2));
    assert_eq!(copied.contents, "x");
    let mapped = e.encapsulate(|n| n + 1);
    assert_eq!(mapped.client_tag, Some(1));
    assert_eq!(mapped.remote_tag, Some(2));
    assert_eq!(mapped.contents, 6);
    let empty = Envelope::empty(7u8);
    assert!(empty.client_tag.is_none() && empty.remote_tag.is_none());
}

#[test]
fn connection_serializes_each_command() {
    let mut c = Connection::new();
    c.send_pass(b"secret");
    c.send_nick(b"bob");
    c.send_user(b"bob", 0, b"Bob B.");
    c.send_pong(b"srv");
    c.send_join(b"#chan");
    c.send_privmsg(b"#chan", b"hi all");
    c.send_quit(b"bye");
    let written = c.take_outbox();
    assert_eq!(
        written.as_slice(),
        b"PASS secret\r\nNICK bob\r\nUSER bob 0 * :Bob B.\r\nPONG srv\r\nJOIN #chan\r\nPRIVMSG #chan :hi all\r\nQUIT :bye\r\n".as_slice()
    );
    assert!(c.take_outbox().is_empty());
}

#[test]
fn client_ignores_writes_when_disconnected() {
    let mut client = Client::new();
    client.privmsg(b"#chan", b"hello");
    assert!(client.take_written().is_empty());
    client.connect();
    client.pong(b"srv");
    assert_eq!(client.take_written().as_slice(), b"PONG srv\r\n".as_slice());
    client.disconnect();
    assert!(client.conn_out.is_none());
}

#[test]
fn decimal_digits_of_small_numbers() {
    assert_eq!(to_u8(0).as_slice(), b"0");
    assert_eq!(to_u8(7).as_slice(), b"7");
    assert_eq!(to_u8(42).as_slice(), b"42");
    assert_eq!(to_u8(250).as_slice(), b"250");
    assert_eq!(to_u8(255).as_slice(), b"255");
}

#[test]
fn line_buffer_splits_on_lf_and_strips_cr() {
    let mut lb = LineBuffer::new();
    let mut lines: Vec<Vec<u8>> = Vec::new();
    for b in b"PING a\r\nPONG b\n" {
        if let Some(line) = lb.push_byte(*b) {
            lines.push(line);
        }
    }
    assert_eq!(lines.len(), 2);
    assert_eq!(lines[0].as_slice(), b"PING a");
    assert_eq!(lines[1].as_slice(), b"PONG b");
    assert!(lb.buf.is_empty());
}
