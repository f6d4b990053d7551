use vstd::prelude::*;
use vstd::string::*;
use vstd::utf8::*;
use crate::dns_protocol::looks_like_dns_tcp;
use crate::dns_protocol::looks_like_dns_tcp_spec;
use crate::dns_protocol::{answer_dns_packet, decoded_dns, dns_reply_matches, is_dns_packet, DnsError, DnsReply};
use crate::util::string::{is_first_index, lemma_index_of_first, split_on_first, split_on_first_spec};
use crate::util::text::{
    from_utf8_lossy, is_whitespace_spec, lemma_trim_spec, str_equal, trim, trim_bounds, trim_spec,
    utf8_lossy,
};
use crate::util::TestKey;

verus! {

broadcast use vstd::string::group_string_axioms, vstd::utf8::group_utf8_lib;

/// What the server does next with a TCP connection.
pub enum TcpStep {
    /// The peer closed the connection.
    Closed,
    /// The bytes received so far are a DNS query; `message` is the buffer
    /// after its two-byte length prefix. The connection is done with after it.
    Dns { message: Vec<u8> },
    /// The bytes received so far are something else; `message` is all of them.
    Generic { message: Vec<u8> },
}

/// The bytes received so far on one TCP connection.
pub struct TcpSession {
    buf: Vec<u8>,
}

impl View for TcpSession {
    type V = Seq<u8>;

    closed spec fn view(&self) -> Seq<u8> {
        self.buf@
    }
}

impl TcpSession {
    /// A connection on which nothing was received yet.
    pub fn new() -> (r: TcpSession)
        ensures
            r@ == Seq::<u8>::empty(),
    {
        TcpSession { buf: Vec::new() }
    }

    /// Takes the bytes of one read: none means the peer closed the connection;
    /// otherwise they are added to what was received, and the whole is handed
    /// on as a DNS query where it looks like one, else as a generic message.
    pub fn receive(&mut self, data: &[u8]) -> (step: TcpStep)
        ensures
            data@.len() == 0 ==> step is Closed && final(self)@ == old(self)@,
            data@.len() > 0 ==> final(self)@ == old(self)@ + data@,
            data@.len() > 0 && looks_like_dns_tcp_spec(final(self)@) ==> (step matches TcpStep::Dns {
                message,
            } && message@ == final(self)@.skip(2)),
            data@.len() > 0 && !looks_like_dns_tcp_spec(final(self)@) ==> (
            step matches TcpStep::Generic { message } && message@ == final(self)@),
    {
        if data.len() == 0 {
            return TcpStep::Closed;
        }
        self.buf.extend_from_slice(data);
        let buf = &self.buf;
        if looks_like_dns_tcp(buf.as_slice()) {
            let mut message: Vec<u8> = Vec::new();
            let mut i: usize = 2;
            while i < buf.len()
                invariant
                    2 <= i <= buf@.len(),
                    message@ =~= buf@.subrange(2, i as int),
                decreases buf@.len() - i,
            {
                message.push(buf[i]);
                i = i + 1;
            }
            TcpStep::Dns { message }
        } else {
            TcpStep::Generic { message: buf.clone() }
        }
    }
}

/// `ping`.
pub open spec fn ping_command() -> Seq<char> {
    seq!['p', 'i', 'n', 'g']
}

/// What a generic message asks, given its text: nothing unless the trimmed
/// text is `key:command` with both parts non-empty; then the key and whether
/// the command is `ping`.
pub open spec fn generic_command_spec(text: Seq<char>) -> Option<(Seq<char>, bool)> {
    match split_on_first_spec(trim_spec(text), ':') {
        (Some(key), Some(command)) => Some((key, command == ping_command())),
        _ => None,
    }
}

/// The server's answer to a generic message.
pub enum GenericReply {
    /// The message is not `key:command`: nothing is answered.
    Ignore,
    /// `key:ping`: answer `pong` and record the ping under `key`.
    Pong { key: TestKey },
    /// `key:` followed by anything else: answer that the command is unknown.
    UnknownCommand,
}

/// `reply` is what the server answers to a message of text `text`.
pub open spec fn generic_reply_matches(reply: GenericReply, text: Seq<char>) -> bool {
    match generic_command_spec(text) {
        None => reply is Ignore,
        Some((key, true)) => reply matches GenericReply::Pong { key: k } && k@ == key,
        Some((_, false)) => reply is UnknownCommand,
    }
}

/// Decides the server's answer to a message that is not DNS: it is read as
/// UTF-8 (invalid sequences replaced), trimmed, and split at its first `:`.
pub fn handle_generic_message(message: &[u8]) -> (r: GenericReply)
    ensures
        generic_reply_matches(r, utf8_lossy(message@)),
        valid_utf8(message@) ==> generic_reply_matches(r, decode_utf8(message@)),
{
    let text = from_utf8_lossy(message);
    let trimmed = trim(text.as_str());
    let (key, command) = split_on_first(trimmed, ':');
    match (key, command) {
        (Some(key), Some(command)) => {
            let ping = "ping";
            proof {
                reveal_strlit("ping");
                assert(ping@ =~= ping_command());
            }
            if str_equal(command, ping) {
                GenericReply::Pong { key: TestKey::from_text(key) }
            } else {
                GenericReply::UnknownCommand
            }
        },
        _ => GenericReply::Ignore,
    }
}

/// What the server does with one UDP datagram.
pub enum UdpStep {
    /// A DNS message; `reply` is the answer to it (on `Answer`, the response
    /// is sent back and the request recorded under its key).
    Dns { reply: Result<DnsReply, DnsError> },
    /// Arbitrary data; `reply` is the answer to it as a generic message (on
    /// `Pong`, the ping is recorded under its key).
    Generic { reply: GenericReply },
}

/// Sorts a datagram received on `address` into a DNS message, which is
/// answered, or arbitrary data, which is answered as a generic message.
pub fn udp_step(packet: &[u8], address: [u8; 4]) -> (step: UdpStep)
    ensures
        decoded_dns(packet@) is Some ==> (step matches UdpStep::Dns { reply } && dns_reply_matches(
            packet@,
            address@,
            reply,
        )),
        decoded_dns(packet@) is None ==> (step matches UdpStep::Generic { reply }
            && generic_reply_matches(reply, utf8_lossy(packet@))),
{
    if is_dns_packet(packet) {
        UdpStep::Dns { reply: answer_dns_packet(packet, address) }
    } else {
        UdpStep::Generic { reply: handle_generic_message(packet) }
    }
}

/// `pong` and a newline, the answer to a ping.
pub open spec fn pong_bytes() -> Seq<u8> {
    seq![112u8, 111u8, 110u8, 103u8, 10u8]
}

/// `unknown command` and a newline.
pub open spec fn unknown_command_bytes() -> Seq<u8> {
    seq![
        117u8, 110u8, 107u8, 110u8, 111u8, 119u8, 110u8, 32u8, 99u8, 111u8, 109u8, 109u8, 97u8,
        110u8, 100u8, 10u8,
    ]
}

impl GenericReply {
    /// The bytes sent back, if any.
    pub fn reply_bytes(&self) -> (r: Option<Vec<u8>>)
        ensures
            self is Ignore ==> r is None,
            self is Pong ==> (r matches Some(b) && b@ == pong_bytes()),
            self is UnknownCommand ==> (r matches Some(b) && b@ == unknown_command_bytes()),
    {
        match self {
            GenericReply::Ignore => None,
            GenericReply::Pong { .. } => {
                let v: Vec<u8> = vec![112u8, 111u8, 110u8, 103u8, 10u8];
                assert(v@ =~= pong_bytes());
                Some(v)
            },
            GenericReply::UnknownCommand => {
                let v: Vec<u8> = vec![
                    117u8, 110u8, 107u8, 110u8, 111u8, 119u8, 110u8, 32u8, 99u8, 111u8, 109u8,
                    109u8, 97u8, 110u8, 100u8, 10u8,
                ];
                assert(v@ =~= unknown_command_bytes());
                Some(v)
            },
        }
    }
}

/// `:ping` and a newline, which the client appends to its key.
pub open spec fn ping_suffix() -> Seq<char> {
    seq![':', 'p', 'i', 'n', 'g', '\n']
}

/// The text that the client sends to test whether arbitrary data passes. The
/// server reads it as a ping under `key` whenever the key is non-empty, holds
/// no `:` and does not start with whitespace.
pub fn ping_request(key: &str) -> (r: String)
    ensures
        r@ == key@ + ping_suffix(),
        key@.len() > 0 && !key@.contains(':') && !is_whitespace_spec(key@[0])
            ==> generic_command_spec(r@) == Some((key@, true)),
{
    let mut r = String::from_str(key);
    let suffix = ":ping\n";
    proof {
        reveal_strlit(":ping\n");
        assert(suffix@ =~= ping_suffix());
    }
    r.append(suffix);
    proof {
        if key@.len() > 0 && !key@.contains(':') && !is_whitespace_spec(key@[0]) {
            lemma_ping_answered(key@);
        }
    }
    r
}

/// Whether the server's answer is the answer to a ping.
pub fn is_pong(response: &[u8]) -> (r: bool)
    ensures
        r == (response@ == pong_bytes()),
{
    if response.len() != 5 {
        return false;
    }
    let r = response[0] == 112 && response[1] == 111 && response[2] == 110 && response[3] == 103
        && response[4] == 10;
    proof {
        if r {
            assert(response@ =~= pong_bytes());
        } else if response@ == pong_bytes() {
            assert(response@[0] == 112 && response@[4] == 10);
        }
    }
    r
}

/// The server answers the client's ping with `pong` and records it under the
/// client's key, whenever the key is non-empty, holds no `:` and does not
/// start with whitespace.
pub proof fn lemma_ping_answered(key: Seq<char>)
    requires
        key.len() > 0,
        !key.contains(':'),
        !is_whitespace_spec(key[0]),
    ensures
        generic_command_spec(key + ping_suffix()) == Some((key, true)),
{
    let text = key + ping_suffix();
    let n = text.len();
    assert(text[n - 1] == '\n');
    assert(is_whitespace_spec('\n'));
    assert(text[n - 2] == 'g');
    assert(trim_bounds(text, 0, n - 1));
    lemma_trim_spec(text, 0, n - 1);
    let trimmed = text.subrange(0, n - 1);
    assert(trimmed =~= key + seq![':', 'p', 'i', 'n', 'g']);
    assert(trimmed[key.len() as int] == ':');
    assert forall|j: int| 0 <= j < key.len() implies trimmed[j] != ':' by {
        assert(trimmed[j] == key[j]);
    }
    assert(is_first_index(trimmed, ':', key.len() as int));
    lemma_index_of_first(trimmed, ':', key.len() as int);
    assert(trimmed.subrange(0, key.len() as int) =~= key);
    assert(trimmed.subrange(key.len() as int + 1, trimmed.len() as int) =~= ping_command());
}

} // verus!
