use vstd::prelude::*;
use vstd::string::*;
use vstd::utf8::*;
use crate::util::base32::{
    decodable, decode, decode_checked, decode_spec, encode, encode_spec, is_base32_label,
    lemma_decode_ignores_case, lemma_encode_spec,
};
use crate::util::string::{is_first_index, lemma_index_of_first, split_on_first, split_on_first_spec};
use crate::util::text::{
    ascii_lower_char, ascii_lowercase, ascii_upper_char, ascii_uppercase, lemma_encode_utf8_concat,
    opt_string_view,
};
use hickory_proto::op::{Message, MessageType, OpCode, Query, ResponseCode};
use hickory_proto::rr::rdata::A;
use hickory_proto::rr::{RData, Record};
use hickory_proto::serialize::binary::{BinDecodable, BinEncodable};
use hickory_proto::ProtoError;

verus! {

broadcast use vstd::string::group_string_axioms, vstd::utf8::group_utf8_lib;

/// The 16-bit big-endian number made of `hi` and `lo`.
pub open spec fn be16(hi: u8, lo: u8) -> int {
    hi as int * 256 + lo as int
}

/// `buf` is a DNS query framed for TCP: at least 14 bytes, a length prefix of
/// at least 12 that the buffer covers, a non-zero question count and no
/// answers.
pub open spec fn looks_like_dns_tcp_spec(buf: Seq<u8>) -> bool {
    &&& buf.len() >= 14
    &&& be16(buf[0], buf[1]) >= 12
    &&& buf.len() >= be16(buf[0], buf[1]) + 2
    &&& be16(buf[6], buf[7]) != 0
    &&& be16(buf[8], buf[9]) == 0
}

/// Whether `buf` looks like a DNS query sent over TCP.
pub fn looks_like_dns_tcp(buf: &[u8]) -> (r: bool)
    ensures
        r == looks_like_dns_tcp_spec(buf@),
{
    if buf.len() < 14 {
        return false;
    }
    let length: usize = buf[0] as usize * 256 + buf[1] as usize;
    if length < 12 {
        return false;
    }
    if buf.len() < length + 2 {
        return false;
    }
    let qdcount: u16 = buf[6] as u16 * 256 + buf[7] as u16;
    let ancount: u16 = buf[8] as u16 * 256 + buf[9] as u16;
    if qdcount == 0 {
        return false;
    }
    if ancount > 0 {
        return false;
    }
    true
}

/// The two bytes that frame a DNS message of `len` bytes on TCP: the length
/// truncated to 16 bits, big-endian.
pub open spec fn tcp_length_prefix_spec(len: nat) -> Seq<u8> {
    seq![((len % 65536) / 256) as u8, (len % 256) as u8]
}

/// The TCP length prefix of a DNS message of `len` bytes.
pub fn tcp_length_prefix(len: usize) -> (r: [u8; 2])
    ensures
        r@ == tcp_length_prefix_spec(len as nat),
{
    let l: usize = len % 65536;
    let r = [(l / 256) as u8, (len % 256) as u8];
    assert(r@ =~= tcp_length_prefix_spec(len as nat));
    r
}

/// A message framed with its TCP length prefix is recognised as a DNS query
/// when it is at least a header long, fits the prefix, asks a question and
/// carries no answer.
pub proof fn lemma_framed_query_looks_like_dns(message: Seq<u8>)
    requires
        12 <= message.len() < 65536,
        be16(message[4], message[5]) != 0,
        be16(message[6], message[7]) == 0,
    ensures
        looks_like_dns_tcp_spec(tcp_length_prefix_spec(message.len()) + message),
{
    let framed = tcp_length_prefix_spec(message.len()) + message;
    let n = message.len();
    assert(framed[0] == ((n % 65536) / 256) as u8);
    assert(framed[1] == (n % 256) as u8);
    assert(be16(framed[0], framed[1]) == n) by (nonlinear_arith)
        requires
            framed[0] == ((n % 65536) / 256) as u8,
            framed[1] == (n % 256) as u8,
            n < 65536,
    {
        assert(n % 65536 == n);
        assert((n / 256) < 256);
    }
    assert(framed[6] == message[4] && framed[7] == message[5]);
    assert(framed[8] == message[6] && framed[9] == message[7]);
}

/// `:host`, appended to a key before it is encoded.
pub open spec fn host_suffix() -> Seq<char> {
    seq![':', 'h', 'o', 's', 't']
}

/// `.domain.de.`, the zone below which the encoded key is asked for.
pub open spec fn zone_suffix() -> Seq<char> {
    seq!['.', 'd', 'o', 'm', 'a', 'i', 'n', '.', 'd', 'e', '.']
}

/// The name under which the client asks for `key`: the base32 label of
/// `key:host`, below `domain.de.`.
pub open spec fn query_name_spec(key: Seq<char>) -> Seq<char> {
    encode_spec(key + host_suffix()) + zone_suffix()
}

/// The key can be taken out of `name`: where `name` has a first label and
/// more after it, that label can be decoded.
pub open spec fn key_name_decodable(name: Seq<char>) -> bool {
    match split_on_first_spec(name, '.') {
        (Some(label), Some(_)) => decodable(label),
        _ => true,
    }
}

/// The key that the server reads from a queried `name`: the first label is
/// decoded from base32, and the key is what precedes the first `:` in it,
/// provided something follows the `:`.
pub open spec fn key_from_name_spec(name: Seq<char>) -> Option<Seq<char>> {
    match split_on_first_spec(name, '.') {
        (Some(label), Some(_)) => match decode_spec(label) {
            Some(text) => match split_on_first_spec(text, ':') {
                (Some(key), Some(_)) => Some(key),
                _ => None,
            },
            None => None,
        },
        _ => None,
    }
}

/// The key encoded in a queried DNS name.
pub fn key_from_query_name(name: &str) -> (r: Option<String>)
    requires
        key_name_decodable(name@),
    ensures
        opt_string_view(r) == key_from_name_spec(name@),
{
    let (label, rest) = split_on_first(name, '.');
    match (label, rest) {
        (Some(label), Some(_)) => match decode(label) {
            Ok(text) => {
                let (key, command) = split_on_first(text.as_str(), ':');
                match (key, command) {
                    (Some(key), Some(_)) => Some(key.to_owned()),
                    _ => None,
                }
            },
            Err(_) => None,
        },
        _ => None,
    }
}

/// `key_from_query_name` where the name can be decoded; nothing where its
/// first label decodes to bytes that are not UTF-8 (or is too long).
pub fn key_from_query_name_checked(name: &str) -> (r: Option<Option<String>>)
    ensures
        r is None <==> !key_name_decodable(name@),
        r matches Some(k) ==> opt_string_view(k) == key_from_name_spec(name@),
{
    let (label, rest) = split_on_first(name, '.');
    match (label, rest) {
        (Some(label), Some(_)) => {
            if decode_checked(label).is_none() {
                return None;
            }
        },
        _ => {},
    }
    Some(key_from_query_name(name))
}

/// The DNS name under which the client asks for `key`. The server reads the
/// key back from it whenever the key is non-empty and holds no `:`.
pub fn query_name_for_key(key: &str) -> (name: String)
    requires
        encode_utf8(key@).len() + 5 <= usize::MAX / 512,
    ensures
        name@ == query_name_spec(key@),
        key@.len() > 0 && !key@.contains(':') ==> key_name_decodable(name@) && key_from_name_spec(
            name@,
        ) == Some(key@),
{
    let mut text = String::from_str(key);
    let suffix = ":host";
    proof {
        reveal_strlit(":host");
        assert(suffix@ =~= host_suffix());
        lemma_encode_utf8_concat(key@, host_suffix());
        assert(is_ascii_chars(host_suffix()));
    }
    text.append(suffix);
    let mut name = encode(text.as_str());
    let zone = ".domain.de.";
    proof {
        reveal_strlit(".domain.de.");
        assert(zone@ =~= zone_suffix());
    }
    name.append(zone);
    proof {
        assert(name@ == query_name_spec(key@));
        if key@.len() > 0 && !key@.contains(':') {
            lemma_query_name_carries_key(key@);
        }
    }
    name
}

/// The server reads every non-empty key without `:` back from the name under
/// which the client asks for it.
pub proof fn lemma_query_name_carries_key(key: Seq<char>)
    requires
        key.len() > 0,
        !key.contains(':'),
        encode_utf8(key + host_suffix()).len() <= usize::MAX / 512,
    ensures
        key_name_decodable(query_name_spec(key)),
        key_from_name_spec(query_name_spec(key)) == Some(key),
{
    let text = key + host_suffix();
    lemma_encode_spec(text);
    lemma_encode_utf8_concat(key, host_suffix());
    assert(is_ascii_chars(host_suffix()));
    let label = encode_spec(text);
    lemma_key_round_trip(key, label, query_name_spec(key));
}

/// A request whose first question asks for the client's name for `key`
/// carries `key`, for every non-empty key without `:`.
pub proof fn lemma_request_carries_key(key: Seq<char>, names: Seq<Seq<char>>)
    requires
        key.len() > 0,
        !key.contains(':'),
        encode_utf8(key + host_suffix()).len() <= usize::MAX / 512,
        names.len() > 0,
        names[0] == query_name_spec(key),
    ensures
        request_key_readable(names),
        request_key_spec(names) == Some(key),
{
    lemma_query_name_carries_key(key);
}

proof fn lemma_split_first_label(label: Seq<char>, rest: Seq<char>)
    requires
        !label.contains('.'),
    ensures
        split_on_first_spec(label + seq!['.'] + rest, '.') == (if label.len() > 0 && rest.len() > 0 {
            (Some(label), Some(rest))
        } else {
            (Some(label), None::<Seq<char>>)
        }),
{
    let name = label + seq!['.'] + rest;
    let n = label.len() as int;
    assert forall|j: int| 0 <= j < n implies name[j] != '.' by {
        assert(name[j] == label[j]);
        if label[j] == '.' {
            assert(label.contains('.'));
        }
    }
    assert(name[n] == '.');
    assert(is_first_index(name, '.', n));
    lemma_index_of_first(name, '.', n);
    assert(name.subrange(0, n) =~= label);
    assert(name.subrange(n + 1, name.len() as int) =~= rest);
}

proof fn lemma_case_keeps_dots(label: Seq<char>)
    requires
        is_ascii_chars(label),
        !label.contains('.'),
    ensures
        !ascii_uppercase(label).contains('.'),
        !ascii_lowercase(label).contains('.'),
{
    let u = ascii_uppercase(label);
    let l = ascii_lowercase(label);
    assert forall|j: int| 0 <= j < label.len() implies u[j] != '.' && l[j] != '.' by {
        let c = label[j];
        assert(c != '.') by {
            if c == '.' {
                assert(label.contains('.'));
            }
        }
        if 97 <= c as u32 <= 122 {
            assert((((c as u32) - 32) as char) as u32 == (c as u32) - 32);
        }
        if 65 <= c as u32 <= 90 {
            assert((((c as u32) + 32) as char) as u32 == (c as u32) + 32);
        }
    }
    if u.contains('.') {
        let j = choose|j: int| 0 <= j < u.len() && u[j] == '.';
        assert(u[j] != '.');
    }
    if l.contains('.') {
        let j = choose|j: int| 0 <= j < l.len() && l[j] == '.';
        assert(l[j] != '.');
    }
}

/// The key read from a name does not depend on the ASCII case of its first
/// label: upper- or lowercasing that label changes neither whether a key can
/// be read nor which key is read.
pub proof fn lemma_key_ignores_label_case(label: Seq<char>, rest: Seq<char>)
    requires
        is_ascii_chars(label),
        !label.contains('.'),
    ensures
        key_name_decodable(ascii_uppercase(label) + seq!['.'] + rest) == key_name_decodable(
            label + seq!['.'] + rest,
        ),
        key_from_name_spec(ascii_uppercase(label) + seq!['.'] + rest) == key_from_name_spec(
            label + seq!['.'] + rest,
        ),
        key_name_decodable(ascii_lowercase(label) + seq!['.'] + rest) == key_name_decodable(
            label + seq!['.'] + rest,
        ),
        key_from_name_spec(ascii_lowercase(label) + seq!['.'] + rest) == key_from_name_spec(
            label + seq!['.'] + rest,
        ),
{
    lemma_case_keeps_dots(label);
    lemma_split_first_label(label, rest);
    lemma_split_first_label(ascii_uppercase(label), rest);
    lemma_split_first_label(ascii_lowercase(label), rest);
    lemma_decode_ignores_case(label);
}

proof fn lemma_key_round_trip(key: Seq<char>, label: Seq<char>, name: Seq<char>)
    requires
        key.len() > 0,
        !key.contains(':'),
        is_base32_label(label),
        label.len() > 0,
        decodable(label),
        decode_spec(label) == Some(key + host_suffix()),
        name == label + zone_suffix(),
    ensures
        key_name_decodable(name),
        key_from_name_spec(name) == Some(key),
{
    let n = label.len();
    assert(name[n as int] == '.');
    assert forall|j: int| 0 <= j < n implies name[j] != '.' by {
        assert(name[j] == label[j]);
        let v = label[j] as u32;
        assert((97 <= v <= 122) || (50 <= v <= 55));
    }
    assert(is_first_index(name, '.', n as int));
    lemma_index_of_first(name, '.', n as int);
    assert(name.subrange(0, n as int) =~= label);
    assert(name.subrange(n as int + 1, name.len() as int).len() > 0);
    let text = key + host_suffix();
    assert(text[key.len() as int] == ':');
    assert forall|j: int| 0 <= j < key.len() implies text[j] != ':' by {
        assert(text[j] == key[j]);
    }
    assert(is_first_index(text, ':', key.len() as int));
    lemma_index_of_first(text, ':', key.len() as int);
    assert(text.subrange(0, key.len() as int) =~= key);
    assert(text.subrange(key.len() as int + 1, text.len() as int).len() == 4);
}

/// The error that decoding or encoding a DNS message reports.
#[verifier::external_type_specification]
#[verifier::external_body]
pub struct ExProtoError(ProtoError);

/// A question of a received DNS message: its name as text and the question
/// in its wire form (the name's labels, then the record type and the class,
/// each a big-endian `u16`).
pub struct DnsQuery {
    name: String,
    wire: Vec<u8>,
}

impl View for DnsQuery {
    type V = (Seq<char>, Seq<u8>);

    /// The name asked for, and the question's wire form.
    closed spec fn view(&self) -> (Seq<char>, Seq<u8>) {
        (self.name@, self.wire@)
    }
}

/// The record type that a question in wire form asks for.
pub open spec fn question_type(wire: Seq<u8>) -> int {
    be16(wire[wire.len() - 4], wire[wire.len() - 3])
}

/// The class that a question in wire form asks in.
pub open spec fn question_class(wire: Seq<u8>) -> int {
    be16(wire[wire.len() - 2], wire[wire.len() - 1])
}

impl DnsQuery {
    /// The name asked for, as text.
    pub fn name(&self) -> (r: &str)
        ensures
            r@ == self@.0,
    {
        self.name.as_str()
    }
}

/// The parts of a received DNS message that the server reads: its id and its
/// questions, in order.
pub struct DnsRequest {
    pub id: u16,
    pub queries: Vec<DnsQuery>,
}

/// The names of a sequence of questions.
pub open spec fn query_names(queries: Seq<DnsQuery>) -> Seq<Seq<char>> {
    queries.map_values(|q: DnsQuery| q@.0)
}

/// The wire forms of a sequence of questions.
pub open spec fn query_wires(queries: Seq<DnsQuery>) -> Seq<Seq<u8>> {
    queries.map_values(|q: DnsQuery| q@.1)
}

/// The names of questions given as (name, wire form) pairs.
pub open spec fn names_of(questions: Seq<(Seq<char>, Seq<u8>)>) -> Seq<Seq<char>> {
    questions.map_values(|q: (Seq<char>, Seq<u8>)| q.0)
}

/// A received message as plain values: its id and its questions.
pub open spec fn request_view(request: &DnsRequest) -> (u16, Seq<(Seq<char>, Seq<u8>)>) {
    (request.id, request.queries@.map_values(|q: DnsQuery| q@))
}

/// What decoding `packet` as a DNS message gives: its id and its questions
/// (each its name as text and its wire form), or nothing where it is not a
/// DNS message.
pub uninterp spec fn decoded_dns(packet: Seq<u8>) -> Option<(u16, Seq<(Seq<char>, Seq<u8>)>)>;

/// Calls `hickory_proto::op::Message::from_vec` and keeps the id and the
/// questions (`Message::take_queries`), each with its name as text (`Name`'s
/// `Display`) and its wire form (`BinEncodable::to_bytes` of the question).
/// Claimed: the outcome is a function of the bytes alone. Writing a decoded
/// question back does not fail, so the outcome is that of `from_vec`:
/// `Name::read` accepts labels of at most 63 bytes and names shorter than 255,
/// which `Name::emit` writes in at most 255 bytes. Not claimed: which byte
/// strings decode, nor what the names and wire forms are.
#[verifier::external_body]
fn decode_dns_message(packet: &[u8]) -> (r: Result<DnsRequest, ProtoError>)
    ensures
        match r {
            Ok(m) => decoded_dns(packet@) == Some(request_view(&m)),
            Err(_) => decoded_dns(packet@) is None,
        },
{
    let mut m = Message::from_vec(packet)?;
    let mut queries = Vec::new();
    for q in m.take_queries() {
        queries.push(DnsQuery { name: q.name().to_string(), wire: q.to_bytes()? });
    }
    Ok(DnsRequest { id: m.id(), queries })
}

/// An answer that gives `address` as the IPv4 address of the name of `owner`.
pub struct AddressRecord {
    pub owner: DnsQuery,
    pub ttl: u32,
    pub address: [u8; 4],
}

/// Whether a DNS message asks or answers.
pub enum DnsMessageKind {
    /// A question to a server.
    Query,
    /// A server's answer.
    Response,
}

/// A DNS message to send: its header fields, the questions it repeats and its
/// address answers.
pub struct DnsResponse {
    pub id: u16,
    pub kind: DnsMessageKind,
    pub op_code: u8,
    pub authoritative: bool,
    pub response_code: u16,
    pub queries: Vec<DnsQuery>,
    pub answers: Vec<AddressRecord>,
}

/// `bytes` begin with the 12-byte DNS header of `r`: its id, the opcode and
/// the response code in their low bits, the AA bit set exactly when `r` is
/// authoritative, the QR bit set exactly when `r` is a response (for an
/// opcode below 16, which leaves that bit alone) and the number of its
/// questions.
pub open spec fn header_of(bytes: Seq<u8>, r: DnsResponse) -> bool {
    &&& bytes.len() >= 12
    &&& be16(bytes[0], bytes[1]) == r.id
    &&& (bytes[2] / 8) % 16 == r.op_code % 16
    &&& ((bytes[2] / 4) % 2 == 1 <==> r.authoritative)
    &&& (r.op_code < 16 ==> (bytes[2] >= 128 <==> r.kind is Response))
    &&& bytes[3] % 16 == r.response_code % 16
    &&& be16(bytes[4], bytes[5]) == r.queries@.len()
}

/// A DNS message to send as plain values: its id; whether it is a response,
/// its opcode, whether it is authoritative and its response code; the wire
/// forms of its questions; and for each address answer the wire form of the
/// question it answers, its TTL and the address.
pub open spec fn response_view(r: DnsResponse) -> (
    u16,
    (bool, u8, bool, u16),
    Seq<Seq<u8>>,
    Seq<(Seq<u8>, u32, Seq<u8>)>,
) {
    (
        r.id,
        (r.kind is Response, r.op_code, r.authoritative, r.response_code),
        query_wires(r.queries@),
        r.answers@.map_values(|a: AddressRecord| (a.owner@.1, a.ttl, a.address@)),
    )
}

/// The wire form of the DNS message given as plain values by `msg` (see
/// `response_view`), or nothing where it cannot be encoded.
pub uninterp spec fn dns_wire_bytes(
    msg: (u16, (bool, u8, bool, u16), Seq<Seq<u8>>, Seq<(Seq<u8>, u32, Seq<u8>)>),
) -> Option<Seq<u8>>;

/// Builds a `hickory_proto::op::Message` from the fields of `r` (the message
/// type, `OpCode::from_u8`, `ResponseCode::from`, `add_query` of the question
/// that `BinDecodable::from_bytes` reads from each question's wire form, and
/// `add_answer` of an A record made with `Record::from_rdata` for each
/// answer, owned by the name of the question it answers) and calls
/// `Message::to_vec`. Claimed: the outcome is a function of `response_view(r)`
/// alone, named `dns_wire_bytes`; and bytes that it returns start with the
/// header that `Header::emit` writes for these fields (`header_of`), since
/// `OpCode` and `ResponseCode` give back the number they were made from,
/// every question is written or the call fails, and the header is placed at
/// offset 0. Not claimed: the bytes after the header, the truncation bit, and
/// on which messages encoding fails.
#[verifier::external_body]
fn encode_dns_message(r: &DnsResponse) -> (res: Result<Vec<u8>, ProtoError>)
    ensures
        match res {
            Ok(b) => dns_wire_bytes(response_view(*r)) == Some(b@) && header_of(b@, *r),
            Err(_) => dns_wire_bytes(response_view(*r)) is None,
        },
{
    let mut m = Message::new();
    let kind = match r.kind { DnsMessageKind::Query => MessageType::Query, DnsMessageKind::Response => MessageType::Response };
    m.set_id(r.id).set_message_type(kind).set_op_code(OpCode::from_u8(r.op_code));
    m.set_authoritative(r.authoritative).set_response_code(<ResponseCode as From<u16>>::from(r.response_code));
    for q in r.queries.iter() {
        m.add_query(Query::from_bytes(&q.wire)?);
    }
    for a in r.answers.iter() {
        let [b0, b1, b2, b3] = a.address;
        m.add_answer(Record::from_rdata(Query::from_bytes(&a.owner.wire)?.name, a.ttl, RData::A(A::new(b0, b1, b2, b3))));
    }
    m.to_vec()
}

/// Why a DNS packet could not be answered.
pub enum DnsError {
    /// The packet is not a DNS message.
    Malformed(ProtoError),
    /// The answer could not be encoded.
    Unencodable(ProtoError),
}

/// Decodes a DNS message.
pub fn parse_dns(packet: &[u8]) -> (r: Result<DnsRequest, DnsError>)
    ensures
        match r {
            Ok(m) => decoded_dns(packet@) == Some(request_view(&m)),
            Err(e) => decoded_dns(packet@) is None && e is Malformed,
        },
{
    match decode_dns_message(packet) {
        Ok(m) => Ok(m),
        Err(e) => Err(DnsError::Malformed(e)),
    }
}

/// Whether `data` decodes as a DNS message.
pub fn is_dns_packet(data: &[u8]) -> (r: bool)
    ensures
        r == decoded_dns(data@) is Some,
{
    parse_dns(data).is_ok()
}

/// The key that a request carries: the one encoded in the name of its first
/// question.
pub open spec fn request_key_spec(names: Seq<Seq<char>>) -> Option<Seq<char>> {
    if names.len() == 0 {
        None
    } else {
        key_from_name_spec(names[0])
    }
}

/// The key of a request can be read: it has no question, or the name of its
/// first question can be decoded.
pub open spec fn request_key_readable(names: Seq<Seq<char>>) -> bool {
    names.len() > 0 ==> key_name_decodable(names[0])
}

/// The key that a DNS request carries in the name of its first question.
pub fn parse_dns_request(request: &DnsRequest) -> (r: Option<String>)
    requires
        request_key_readable(query_names(request.queries@)),
    ensures
        opt_string_view(r) == request_key_spec(query_names(request.queries@)),
{
    if request.queries.len() == 0 {
        None
    } else {
        key_from_query_name(request.queries[0].name())
    }
}

/// `parse_dns_request` where the key can be read; nothing where the name of
/// the first question decodes to bytes that are not UTF-8.
pub fn parse_dns_request_checked(request: &DnsRequest) -> (r: Option<Option<String>>)
    ensures
        r is None <==> !request_key_readable(query_names(request.queries@)),
        r matches Some(k) ==> opt_string_view(k) == request_key_spec(query_names(request.queries@)),
{
    if request.queries.len() > 0 && key_from_query_name_checked(request.queries[0].name()).is_none() {
        return None;
    }
    Some(parse_dns_request(request))
}

fn copy_query(q: &DnsQuery) -> (r: DnsQuery)
    ensures
        r@ == q@,
{
    let wire = q.wire.clone();
    assert(wire@ =~= q.wire@);
    DnsQuery { name: q.name.clone(), wire }
}

/// The TTL of the address answer.
pub const ANSWER_TTL: u32 = 60;

/// The answer to a request with id `id` and questions `questions`, as plain
/// values: a response with the same id and questions, opcode 0,
/// authoritative, response code 0, and one answer giving `address` for the
/// first question with TTL `ANSWER_TTL`.
pub open spec fn answer_message(id: u16, questions: Seq<(Seq<char>, Seq<u8>)>, address: Seq<u8>) -> (
    u16,
    (bool, u8, bool, u16),
    Seq<Seq<u8>>,
    Seq<(Seq<u8>, u32, Seq<u8>)>,
) {
    (
        id,
        (true, 0u8, true, 0u16),
        questions.map_values(|q: (Seq<char>, Seq<u8>)| q.1),
        seq![(questions[0].1, ANSWER_TTL, address)],
    )
}

/// The answer to `request`: a response with the same id and questions (names,
/// record types and classes), authoritative, without error, giving `address`
/// for the name of the first question.
pub fn build_dns_response(request: &DnsRequest, address: [u8; 4]) -> (r: DnsResponse)
    requires
        request.queries@.len() > 0,
    ensures
        r.id == request.id,
        r.kind is Response,
        r.op_code == 0,
        r.authoritative,
        r.response_code == 0,
        r.queries@.len() == request.queries@.len(),
        forall|j: int| 0 <= j < r.queries@.len() ==> #[trigger] r.queries@[j]@ == request.queries@[j]@,
        forall|j: int|
            0 <= j < r.queries@.len() ==> question_type(#[trigger] r.queries@[j]@.1) == question_type(
                request.queries@[j]@.1,
            ) && question_class(r.queries@[j]@.1) == question_class(request.queries@[j]@.1),
        r.answers@.len() == 1,
        r.answers@[0].owner@ == request.queries@[0]@,
        r.answers@[0].ttl == ANSWER_TTL,
        r.answers@[0].address == address,
        response_view(r) == answer_message(request.id, request_view(request).1, address@),
{
    let mut queries: Vec<DnsQuery> = Vec::new();
    let mut i: usize = 0;
    while i < request.queries.len()
        invariant
            0 <= i <= request.queries@.len(),
            queries@.len() == i,
            forall|j: int| 0 <= j < i ==> #[trigger] queries@[j]@ == request.queries@[j]@,
        decreases request.queries@.len() - i,
    {
        queries.push(copy_query(&request.queries[i]));
        i = i + 1;
    }
    let owner = copy_query(&request.queries[0]);
    let mut answers: Vec<AddressRecord> = Vec::new();
    answers.push(AddressRecord { owner, ttl: ANSWER_TTL, address });
    let r = DnsResponse {
        id: request.id,
        kind: DnsMessageKind::Response,
        op_code: 0,
        authoritative: true,
        response_code: 0,
        queries,
        answers,
    };
    proof {
        let m = answer_message(request.id, request_view(request).1, address@);
        assert(query_wires(r.queries@) =~= m.2);
        assert(r.answers@.map_values(|a: AddressRecord| (a.owner@.1, a.ttl, a.address@)) =~= m.3);
    }
    r
}

/// Encodes a DNS message to its wire form. It succeeds exactly where the
/// message can be encoded; the bytes then start with the header of
/// `response`.
pub fn encode_dns_response(response: &DnsResponse) -> (r: Result<Vec<u8>, DnsError>)
    ensures
        r is Ok <==> dns_wire_bytes(response_view(*response)) is Some,
        r matches Ok(bytes) ==> dns_wire_bytes(response_view(*response)) == Some(bytes@)
            && header_of(bytes@, *response),
        r matches Err(e) ==> e is Unencodable,
{
    match encode_dns_message(response) {
        Ok(bytes) => Ok(bytes),
        Err(e) => Err(DnsError::Unencodable(e)),
    }
}

/// What the server does with a DNS packet.
pub enum DnsReply {
    /// The packet carries no key: nothing is sent.
    NoKey,
    /// The name of the first question decodes to bytes that are not UTF-8.
    KeyNotText,
    /// The packet carries `key`; `response` is the encoded answer to send.
    Answer { key: String, response: Vec<u8> },
}

/// `r` is what the server gives for the DNS packet `packet` received on
/// `address`: `Malformed` exactly where the packet does not decode; otherwise
/// `KeyNotText` where the name of the first question cannot be read as a key,
/// `NoKey` where it carries none, and where it carries `k` the answer with key
/// `k` and the wire form of the response built for the request, or
/// `Unencodable` exactly where that response has no wire form.
pub open spec fn dns_reply_matches(packet: Seq<u8>, address: Seq<u8>, r: Result<DnsReply, DnsError>) -> bool {
    &&& (decoded_dns(packet) is None <==> r matches Err(DnsError::Malformed(_)))
    &&& (decoded_dns(packet) matches Some(m) ==> {
        let names = names_of(m.1);
        if !request_key_readable(names) {
            r matches Ok(DnsReply::KeyNotText)
        } else {
            match request_key_spec(names) {
                None => r matches Ok(DnsReply::NoKey),
                Some(k) => match dns_wire_bytes(answer_message(m.0, m.1, address)) {
                    Some(bytes) => r matches Ok(DnsReply::Answer { key, response }) && key@ == k
                        && response@ == bytes,
                    None => r matches Err(DnsError::Unencodable(_)),
                },
            }
        }
    })
}

/// Handles a DNS packet received on `address`: decodes it, reads the key and,
/// where there is one, encodes the answer that gives `address` for the name
/// of the first question.
pub fn answer_dns_packet(packet: &[u8], address: [u8; 4]) -> (r: Result<DnsReply, DnsError>)
    ensures
        dns_reply_matches(packet@, address@, r),
{
    let request = match parse_dns(packet) {
        Ok(request) => request,
        Err(e) => return Err(e),
    };
    assert(names_of(request_view(&request).1) =~= query_names(request.queries@));
    match parse_dns_request_checked(&request) {
        None => Ok(DnsReply::KeyNotText),
        Some(None) => Ok(DnsReply::NoKey),
        Some(Some(key)) => {
            let response = build_dns_response(&request, address);
            match encode_dns_response(&response) {
                Ok(bytes) => Ok(DnsReply::Answer { key, response: bytes }),
                Err(e) => Err(e),
            }
        },
    }
}

} // verus!
