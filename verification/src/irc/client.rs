//! The upstream IRC client: the commands the bouncer sends, serialized
//! byte-exactly into an outbox the transport drains, and the assembly of
//! incoming bytes into lines.
//!
//! The socket itself lives outside the library. Writing means appending
//! the serialized line to the connection's outbox; reading means feeding
//! received bytes one by one into a line buffer.

use vstd::prelude::*;
use crate::irc::parser;
use crate::irc::parser::{COLON, SP};

verus! {

pub const CR: u8 = 0x0d;
pub const LF: u8 = 0x0a;

/// What the reader side hands the network actor: a parsed message, or the
/// error text of the failure that ended the connection.
pub enum ClientMessage {
    ConnectionError(String),
    Message(parser::Message),
}

pub open spec fn crlf() -> Seq<u8> {
    seq![CR, LF]
}

/// `"PASS "`
pub open spec fn lit_pass() -> Seq<u8> {
    seq![0x50u8, 0x41u8, 0x53u8, 0x53u8, SP]
}

/// `"NICK "`
pub open spec fn lit_nick() -> Seq<u8> {
    seq![0x4eu8, 0x49u8, 0x43u8, 0x4bu8, SP]
}

/// `"USER "`
pub open spec fn lit_user() -> Seq<u8> {
    seq![0x55u8, 0x53u8, 0x45u8, 0x52u8, SP]
}

/// `" * :"`
pub open spec fn lit_star_trail() -> Seq<u8> {
    seq![SP, 0x2au8, SP, COLON]
}

/// `"PONG "`
pub open spec fn lit_pong() -> Seq<u8> {
    seq![0x50u8, 0x4fu8, 0x4eu8, 0x47u8, SP]
}

/// `"JOIN "`
pub open spec fn lit_join() -> Seq<u8> {
    seq![0x4au8, 0x4fu8, 0x49u8, 0x4eu8, SP]
}

/// `"PRIVMSG "`
pub open spec fn lit_privmsg() -> Seq<u8> {
    seq![0x50u8, 0x52u8, 0x49u8, 0x56u8, 0x4du8, 0x53u8, 0x47u8, SP]
}

/// `" :"`
pub open spec fn lit_trail() -> Seq<u8> {
    seq![SP, COLON]
}

/// `"QUIT :"`
pub open spec fn lit_quit() -> Seq<u8> {
    seq![0x51u8, 0x55u8, 0x49u8, 0x54u8, SP, COLON]
}

/// The decimal digits of a number.
pub open spec fn dec_of(n: int) -> Seq<u8>
    decreases n,
{
    if n < 10 {
        seq![(0x30 + if n >= 0 {
            n
        } else {
            0
        }) as u8]
    } else {
        dec_of(n / 10).push((0x30 + n % 10) as u8)
    }
}

/// The decimal digits of one byte-sized number.
pub fn to_u8(x: u8) -> (r: Vec<u8>)
    ensures
        r@ == dec_of(x as int),
{
    let mut out: Vec<u8> = Vec::new();
    if x >= 100 {
        out.push(0x30 + x / 100);
        out.push(0x30 + (x / 10) % 10);
        out.push(0x30 + x % 10);
        proof {
            reveal_with_fuel(dec_of, 4);
            assert((x as int) / 10 / 10 == (x as int) / 100);
            assert(out@ =~~= dec_of(x as int));
        }
    } else if x >= 10 {
        out.push(0x30 + x / 10);
        out.push(0x30 + x % 10);
        proof {
            reveal_with_fuel(dec_of, 3);
            assert(out@ =~~= dec_of(x as int));
        }
    } else {
        out.push(0x30 + x);
        proof {
            assert(out@ =~~= dec_of(x as int));
        }
    }
    out
}

fn push_all(dst: &mut Vec<u8>, src: &[u8])
    ensures
        final(dst)@ == old(dst)@ + src@,
{
    let n = src.len();
    let mut i: usize = 0;
    while i < n
        invariant
            n == src@.len(),
            i <= n,
            dst@ == old(dst)@ + src@.take(i as int),
        decreases n - i,
    {
        dst.push(src[i]);
        proof {
            assert(dst@ =~~= old(dst)@ + src@.take(i + 1 as int));
        }
        i = i + 1;
    }
    proof {
        assert(dst@ =~~= old(dst)@ + src@);
    }
}

/// The outbound half of one upstream connection: bytes serialized and
/// waiting for the transport.
pub struct Connection {
    pub outbox: Vec<u8>,
}

impl Connection {
    /// A fresh connection with nothing written.
    pub fn new() -> (r: Connection)
        ensures
            r.outbox@ == Seq::<u8>::empty(),
    {
        Connection { outbox: Vec::new() }
    }

    /// Write one line: the given bytes, terminated by CR LF.
    fn send(&mut self, line: &[u8])
        ensures
            final(self).outbox@ == old(self).outbox@ + line@ + crlf(),
    {
        push_all(&mut self.outbox, line);
        self.outbox.push(CR);
        self.outbox.push(LF);
        proof {
            assert(self.outbox@ =~~= old(self).outbox@ + line@ + crlf());
        }
    }

    /// `PASS <password>`
    pub fn send_pass(&mut self, password: &[u8])
        ensures
            final(self).outbox@ == old(self).outbox@ + lit_pass() + password@ + crlf(),
    {
        let mut line: Vec<u8> = Vec::new();
        line.push(0x50);
        line.push(0x41);
        line.push(0x53);
        line.push(0x53);
        line.push(SP);
        push_all(&mut line, password);
        proof {
            assert(line@ =~~= lit_pass() + password@);
        }
        self.send(line.as_slice());
        proof {
            assert(self.outbox@ =~~= old(self).outbox@ + lit_pass() + password@ + crlf());
        }
    }

    /// `NICK <nickname>`
    pub fn send_nick(&mut self, nickname: &[u8])
        ensures
            final(self).outbox@ == old(self).outbox@ + lit_nick() + nickname@ + crlf(),
    {
        let mut line: Vec<u8> = Vec::new();
        line.push(0x4e);
        line.push(0x49);
        line.push(0x43);
        line.push(0x4b);
        line.push(SP);
        push_all(&mut line, nickname);
        proof {
            assert(line@ =~~= lit_nick() + nickname@);
        }
        self.send(line.as_slice());
        proof {
            assert(self.outbox@ =~~= old(self).outbox@ + lit_nick() + nickname@ + crlf());
        }
    }

    /// `USER <username> <mode> * :<realname>`
    pub fn send_user(&mut self, username: &[u8], mode: u8, realname: &[u8])
        ensures
            final(self).outbox@ == old(self).outbox@ + lit_user() + username@ + seq![SP] + dec_of(
                mode as int,
            ) + lit_star_trail() + realname@ + crlf(),
    {
        let mut line: Vec<u8> = Vec::new();
        line.push(0x55);
        line.push(0x53);
        line.push(0x45);
        line.push(0x52);
        line.push(SP);
        push_all(&mut line, username);
        line.push(SP);
        let digits = to_u8(mode);
        push_all(&mut line, digits.as_slice());
        line.push(SP);
        line.push(0x2a);
        line.push(SP);
        line.push(COLON);
        push_all(&mut line, realname);
        proof {
            assert(line@ =~~= lit_user() + username@ + seq![SP] + dec_of(mode as int)
                + lit_star_trail() + realname@);
        }
        self.send(line.as_slice());
        proof {
            assert(self.outbox@ =~~= old(self).outbox@ + lit_user() + username@ + seq![SP] + dec_of(
                mode as int,
            ) + lit_star_trail() + realname@ + crlf());
        }
    }

    /// `PONG <target>`
    pub fn send_pong(&mut self, target: &[u8])
        ensures
            final(self).outbox@ == old(self).outbox@ + lit_pong() + target@ + crlf(),
    {
        let mut line: Vec<u8> = Vec::new();
        line.push(0x50);
        line.push(0x4f);
        line.push(0x4e);
        line.push(0x47);
        line.push(SP);
        push_all(&mut line, target);
        proof {
            assert(line@ =~~= lit_pong() + target@);
        }
        self.send(line.as_slice());
        proof {
            assert(self.outbox@ =~~= old(self).outbox@ + lit_pong() + target@ + crlf());
        }
    }

    /// `JOIN <channel>`
    pub fn send_join(&mut self, channel: &[u8])
        ensures
            final(self).outbox@ == old(self).outbox@ + lit_join() + channel@ + crlf(),
    {
        let mut line: Vec<u8> = Vec::new();
        line.push(0x4a);
        line.push(0x4f);
        line.push(0x49);
        line.push(0x4e);
        line.push(SP);
        push_all(&mut line, channel);
        proof {
            assert(line@ =~~= lit_join() + channel@);
        }
        self.send(line.as_slice());
        proof {
            assert(self.outbox@ =~~= old(self).outbox@ + lit_join() + channel@ + crlf());
        }
    }

    /// `PRIVMSG <target> :<message>`
    pub fn send_privmsg(&mut self, target: &[u8], message: &[u8])
        ensures
            final(self).outbox@ == old(self).outbox@ + lit_privmsg() + target@ + lit_trail()
                + message@ + crlf(),
    {
        let mut line: Vec<u8> = Vec::new();
        line.push(0x50);
        line.push(0x52);
        line.push(0x49);
        line.push(0x56);
        line.push(0x4d);
        line.push(0x53);
        line.push(0x47);
        line.push(SP);
        push_all(&mut line, target);
        line.push(SP);
        line.push(COLON);
        push_all(&mut line, message);
        proof {
            assert(line@ =~~= lit_privmsg() + target@ + lit_trail() + message@);
        }
        self.send(line.as_slice());
        proof {
            assert(self.outbox@ =~~= old(self).outbox@ + lit_privmsg() + target@ + lit_trail()
                + message@ + crlf());
        }
    }

    /// `QUIT :<message>`
    pub fn send_quit(&mut self, message: &[u8])
        ensures
            final(self).outbox@ == old(self).outbox@ + lit_quit() + message@ + crlf(),
    {
        let mut line: Vec<u8> = Vec::new();
        line.push(0x51);
        line.push(0x55);
        line.push(0x49);
        line.push(0x54);
        line.push(SP);
        line.push(COLON);
        push_all(&mut line, message);
        proof {
            assert(line@ =~~= lit_quit() + message@);
        }
        self.send(line.as_slice());
        proof {
            assert(self.outbox@ =~~= old(self).outbox@ + lit_quit() + message@ + crlf());
        }
    }

    /// Hand the buffered bytes to the transport and leave the outbox
    /// empty.
    pub fn take_outbox(&mut self) -> (r: Vec<u8>)
        ensures
            r@ == old(self).outbox@,
            final(self).outbox@ == Seq::<u8>::empty(),
    {
        let mut taken: Vec<u8> = Vec::new();
        core::mem::swap(&mut taken, &mut self.outbox);
        taken
    }
}

/// Assembles the bytes the transport reads into lines: LF ends a line,
/// CR is stripped, everything else is kept.
pub struct LineBuffer {
    pub buf: Vec<u8>,
}

impl LineBuffer {
    pub fn new() -> (r: LineBuffer)
        ensures
            r.buf@ == Seq::<u8>::empty(),
    {
        LineBuffer { buf: Vec::new() }
    }

    /// Feed one byte; a completed line comes back without its CR LF.
    pub fn push_byte(&mut self, b: u8) -> (r: Option<Vec<u8>>)
        ensures
            match r {
                Some(line) => b == LF && line@ == old(self).buf@ && final(self).buf@
                    == Seq::<u8>::empty(),
                None => b != LF && final(self).buf@ == if b == CR {
                    old(self).buf@
                } else {
                    old(self).buf@.push(b)
                },
            },
    {
        if b == LF {
            let mut line: Vec<u8> = Vec::new();
            core::mem::swap(&mut line, &mut self.buf);
            Some(line)
        } else if b == CR {
            None
        } else {
            self.buf.push(b);
            None
        }
    }
}

/// The upstream client: at most one live outbound connection.
pub struct Client {
    pub conn_out: Option<Connection>,
}

/// The outbox bytes of a client, or nothing when it is not connected.
pub open spec fn client_outbox(c: Client) -> Seq<u8> {
    match c.conn_out {
        Some(conn) => conn.outbox@,
        None => Seq::empty(),
    }
}

impl Client {
    /// A client with no connection.
    pub fn new() -> (r: Client)
        ensures
            r.conn_out is None,
    {
        Client { conn_out: None }
    }

    /// Open the outbound half. The transport is dialed outside the
    /// library; a client already connected is left alone.
    pub fn connect(&mut self)
        ensures
            old(self).conn_out is Some ==> *final(self) == *old(self),
            old(self).conn_out is None ==> (final(self).conn_out matches Some(c) && c.outbox@
                == Seq::<u8>::empty()),
    {
        if self.conn_out.is_none() {
            self.conn_out = Some(Connection::new());
        }
    }

    /// Tear down the outbound half.
    pub fn disconnect(&mut self)
        ensures
            final(self).conn_out is None,
    {
        self.conn_out = None;
    }

    /// `NICK` then `USER` with mode 0, as one registration.
    pub fn register(&mut self, nickname: &[u8], username: &[u8], realname: &[u8])
        ensures
            old(self).conn_out is None ==> *final(self) == *old(self),
            old(self).conn_out is Some ==> final(self).conn_out is Some && client_outbox(
                *final(self),
            ) == client_outbox(*old(self)) + lit_nick() + nickname@ + crlf() + lit_user()
                + username@ + seq![SP] + dec_of(0) + lit_star_trail() + realname@ + crlf(),
    {
        match &mut self.conn_out {
            Some(c) => {
                c.send_nick(nickname);
                c.send_user(username, 0, realname);
                proof {
                    assert(client_outbox(*self) =~~= client_outbox(*old(self)) + lit_nick()
                        + nickname@ + crlf() + lit_user() + username@ + seq![SP] + dec_of(0)
                        + lit_star_trail() + realname@ + crlf());
                }
            },
            None => {},
        }
    }

    /// `PRIVMSG <target> :<message>`, when connected.
    pub fn privmsg(&mut self, target: &[u8], message: &[u8])
        ensures
            old(self).conn_out is None ==> *final(self) == *old(self),
            old(self).conn_out is Some ==> final(self).conn_out is Some && client_outbox(
                *final(self),
            ) == client_outbox(*old(self)) + lit_privmsg() + target@ + lit_trail() + message@
                + crlf(),
    {
        match &mut self.conn_out {
            Some(c) => c.send_privmsg(target, message),
            None => {},
        }
    }

    /// `JOIN <channel>`, when connected.
    pub fn join(&mut self, channel: &[u8])
        ensures
            old(self).conn_out is None ==> *final(self) == *old(self),
            old(self).conn_out is Some ==> final(self).conn_out is Some && client_outbox(
                *final(self),
            ) == client_outbox(*old(self)) + lit_join() + channel@ + crlf(),
    {
        match &mut self.conn_out {
            Some(c) => c.send_join(channel),
            None => {},
        }
    }

    /// `PONG <recipient>`, when connected.
    pub fn pong(&mut self, recipient: &[u8])
        ensures
            old(self).conn_out is None ==> *final(self) == *old(self),
            old(self).conn_out is Some ==> final(self).conn_out is Some && client_outbox(
                *final(self),
            ) == client_outbox(*old(self)) + lit_pong() + recipient@ + crlf(),
    {
        match &mut self.conn_out {
            Some(c) => c.send_pong(recipient),
            None => {},
        }
    }

    /// `QUIT :<msg>`, when connected.
    pub fn quit(&mut self, msg: &[u8])
        ensures
            old(self).conn_out is None ==> *final(self) == *old(self),
            old(self).conn_out is Some ==> final(self).conn_out is Some && client_outbox(
                *final(self),
            ) == client_outbox(*old(self)) + lit_quit() + msg@ + crlf(),
    {
        match &mut self.conn_out {
            Some(c) => c.send_quit(msg),
            None => {},
        }
    }

    /// Drain what is waiting for the transport; nothing when not
    /// connected.
    pub fn take_written(&mut self) -> (r: Vec<u8>)
        ensures
            r@ == client_outbox(*old(self)),
            client_outbox(*final(self)) == Seq::<u8>::empty(),
            final(self).conn_out is Some <==> old(self).conn_out is Some,
    {
        match &mut self.conn_out {
            Some(c) => c.take_outbox(),
            None => Vec::new(),
        }
    }
}

} // verus!
