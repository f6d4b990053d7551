use dns_secheck::dns_protocol::{
    answer_dns_packet, build_dns_response, encode_dns_response, is_dns_packet,
    key_from_query_name, key_from_query_name_checked, looks_like_dns_tcp, parse_dns,
    parse_dns_request, parse_dns_request_checked, query_name_for_key, tcp_length_prefix,
    DnsReply, ANSWER_TTL,
};
use hickory_proto::op::{Message, MessageType, ResponseCode};
use hickory_proto::rr::RData;

/// A DNS query for `name` (type A, class IN) with id 0x1234.
fn query_packet(name: &str) -> Vec<u8> {
    let mut p = vec![0x12, 0x34, 0x01, 0x00, 0x00, 0x01, 0x00, 0x00, 0x00, 0x00, 0x00, 0x00];
    for label in name.trim_end_matches('.').split('.') {
        p.push(label.len() as u8);
        p.extend_from_slice(label.as_bytes());
    }
    p.extend_from_slice(&[0, 0, 1, 0, 1]);
    p
}

#[test]
fn query_name_of_key() {
    assert_eq!(query_name_for_key("123456"), "gezdgnbvgy5gq33toq.domain.de.");
}

#[test]
fn key_round_trip_through_name() {
    for key in ["123456", "k", "a.b", "ümlaut"] {
        let name = query_name_for_key(key);
        assert_eq!(key_from_query_name(&name), Some(key.to_string()));
    }
}

#[test]
fn key_from_names_without_key() {
    assert_eq!(key_from_query_name("www.example.com."), None);
    assert_eq!(key_from_query_name("nbswy3dp.domain.de."), None);
    assert_eq!(key_from_query_name("nodots"), None);
    assert_eq!(key_from_query_name(".domain.de."), None);
    // "1:" has nothing after its colon
    assert_eq!(key_from_query_name(&format!("{}.x.", dns_secheck::util::base32::encode("1:"))), None);
}

#[test]
fn key_from_name_not_utf8() {
    assert_eq!(key_from_query_name_checked("777a.domain.de."), None);
    assert_eq!(key_from_query_name_checked("www.example.com."), Some(None));
}

#[test]
fn framing_detection() {
    let packet = query_packet("gezdgnbvgy5gq33toq.domain.de.");
    let mut framed = tcp_length_prefix(packet.len()).to_vec();
    framed.extend_from_slice(&packet);
    assert!(looks_like_dns_tcp(&framed));
    assert!(!looks_like_dns_tcp(&framed[..13]));
    assert!(!looks_like_dns_tcp(&framed[..framed.len() - 1]));
    assert!(!looks_like_dns_tcp(b"123456:ping\n"));
    let mut no_question = framed.clone();
    no_question[7] = 0;
    assert!(!looks_like_dns_tcp(&no_question));
    let mut answered = framed.clone();
    answered[9] = 1;
    assert!(!looks_like_dns_tcp(&answered));
}

#[test]
fn length_prefix_truncates() {
    assert_eq!(tcp_length_prefix(45), [0, 45]);
    assert_eq!(tcp_length_prefix(0x1234), [0x12, 0x34]);
    assert_eq!(tcp_length_prefix(70000), [0x11, 0x70]);
}

#[test]
fn parse_and_read_key() {
    let packet = query_packet("gezdgnbvgy5gq33toq.domain.de.");
    assert!(is_dns_packet(&packet));
    let request = parse_dns(&packet).ok().unwrap();
    assert_eq!(request.id, 0x1234);
    assert_eq!(request.queries.len(), 1);
    assert_eq!(request.queries[0].name(), "gezdgnbvgy5gq33toq.domain.de.");
    assert_eq!(parse_dns_request(&request), Some("123456".to_string()));
    assert_eq!(parse_dns_request_checked(&request), Some(Some("123456".to_string())));
}

#[test]
fn not_dns() {
    assert!(!is_dns_packet(b"123456:ping\n"));
    assert!(parse_dns(b"abc").is_err());
}

#[test]
fn response_answers_first_question() {
    let packet = query_packet("gezdgnbvgy5gq33toq.domain.de.");
    let request = parse_dns(&packet).ok().unwrap();
    let response = build_dns_response(&request, [10, 0, 0, 7]);
    assert_eq!(response.id, 0x1234);
    assert!(matches!(response.kind, dns_secheck::dns_protocol::DnsMessageKind::Response) && response.authoritative);
    assert_eq!(response.answers.len(), 1);
    assert_eq!(response.answers[0].ttl, ANSWER_TTL);
    let bytes = encode_dns_response(&response).ok().unwrap();
    let message = Message::from_vec(&bytes).unwrap();
    assert_eq!(message.id(), 0x1234);
    assert_eq!(message.message_type(), MessageType::Response);
    assert_eq!(message.response_code(), ResponseCode::NoError);
    assert!(message.authoritative());
    assert_eq!(message.queries().len(), 1);
    assert_eq!(message.answers().len(), 1);
    let answer = &message.answers()[0];
    assert_eq!(answer.name().to_string(), "gezdgnbvgy5gq33toq.domain.de.");
    assert_eq!(answer.ttl(), 60);
    match answer.data() {
        RData::A(a) => assert_eq!(a.0.octets(), [10, 0, 0, 7]),
        other => panic!("unexpected answer {:?}", other),
    }
}

#[test]
fn answer_packet_outcomes() {
    let packet = query_packet("gezdgnbvgy5gq33toq.domain.de.");
    match answer_dns_packet(&packet, [1, 2, 3, 4]).ok().unwrap() {
        DnsReply::Answer { key, response } => {
            assert_eq!(key, "123456");
            let message = Message::from_vec(&response).unwrap();
            assert_eq!(message.id(), 0x1234);
        }
        _ => panic!("expected an answer"),
    }
    let other = query_packet("www.example.com.");
    assert!(matches!(answer_dns_packet(&other, [1, 2, 3, 4]).ok().unwrap(), DnsReply::NoKey));
    let bad = query_packet("777a.domain.de.");
    assert!(matches!(answer_dns_packet(&bad, [1, 2, 3, 4]).ok().unwrap(), DnsReply::KeyNotText));
    assert!(answer_dns_packet(b"xyz", [1, 2, 3, 4]).is_err());
}

#[test]
fn encoded_header_carries_the_fields() {
    let response = dns_secheck::dns_protocol::DnsResponse {
        id: 0xbeef,
        kind: dns_secheck::dns_protocol::DnsMessageKind::Query,
        op_code: 5,
        authoritative: false,
        response_code: 3,
        queries: Vec::new(),
        answers: Vec::new(),
    };
    let bytes = encode_dns_response(&response).ok().unwrap();
    assert_eq!(bytes, vec![0xbe, 0xef, 0x28, 0x03, 0, 0, 0, 0, 0, 0, 0, 0]);
}

#[test]
fn encoded_response_header_bits() {
    let packet = query_packet("gezdgnbvgy5gq33toq.domain.de.");
    let request = parse_dns(&packet).ok().unwrap();
    let response = build_dns_response(&request, [10, 0, 0, 7]);
    let bytes = encode_dns_response(&response).ok().unwrap();
    assert_eq!(&bytes[0..2], &[0x12, 0x34]);
    assert_eq!(bytes[2], 0x84);
    assert_eq!(bytes[3] & 0x0f, 0);
    assert_eq!(&bytes[4..6], &[0, 1]);
}

/// A DNS query for `name` with the given record type and class, id 0x0102.
fn typed_query_packet(name: &str, rtype: u16, class: u16) -> Vec<u8> {
    let mut p = vec![0x01, 0x02, 0x01, 0x00, 0x00, 0x01, 0x00, 0x00, 0x00, 0x00, 0x00, 0x00];
    for label in name.trim_end_matches('.').split('.') {
        p.push(label.len() as u8);
        p.extend_from_slice(label.as_bytes());
    }
    p.push(0);
    p.extend_from_slice(&rtype.to_be_bytes());
    p.extend_from_slice(&class.to_be_bytes());
    p
}

#[test]
fn response_repeats_question_type_and_class() {
    let packet = typed_query_packet("gezdgnbvgy5gq33toq.domain.de.", 28, 3);
    let request = parse_dns(&packet).ok().unwrap();
    let response = build_dns_response(&request, [9, 8, 7, 6]);
    let bytes = encode_dns_response(&response).ok().unwrap();
    let message = Message::from_vec(&bytes).unwrap();
    assert_eq!(message.queries().len(), 1);
    let q = &message.queries()[0];
    assert_eq!(u16::from(q.query_type()), 28);
    assert_eq!(u16::from(q.query_class()), 3);
    assert_eq!(q.name().to_string(), "gezdgnbvgy5gq33toq.domain.de.");
}

#[test]
fn answer_packet_sends_the_encoded_answer() {
    let packet = query_packet("gezdgnbvgy5gq33toq.domain.de.");
    let request = parse_dns(&packet).ok().unwrap();
    let expected = encode_dns_response(&build_dns_response(&request, [1, 2, 3, 4])).ok().unwrap();
    match answer_dns_packet(&packet, [1, 2, 3, 4]).ok().unwrap() {
        DnsReply::Answer { key, response } => {
            assert_eq!(key, "123456");
            assert_eq!(response, expected);
            let message = Message::from_vec(&response).unwrap();
            match message.answers()[0].data() {
                RData::A(a) => assert_eq!(a.0.octets(), [1, 2, 3, 4]),
                other => panic!("unexpected answer {:?}", other),
            }
        }
        _ => panic!("expected an answer"),
    }
}
