use dns_secheck::dns_protocol::{tcp_length_prefix, DnsReply};
use dns_secheck::net::{udp_step, UdpStep};
use dns_secheck::net::{handle_generic_message, is_pong, ping_request, GenericReply, TcpSession, TcpStep};

#[test]
fn ping_is_answered() {
    let request = ping_request("123456");
    assert_eq!(request, "123456:ping\n");
    match handle_generic_message(request.as_bytes()) {
        GenericReply::Pong { key } => assert_eq!(key.as_str(), "123456"),
        _ => panic!("expected pong"),
    }
    let reply = GenericReply::Pong { key: dns_secheck::util::TestKey::from_text("1") };
    let bytes = reply.reply_bytes().unwrap();
    assert_eq!(bytes, b"pong\n");
    assert!(is_pong(&bytes));
}

#[test]
fn other_messages() {
    assert!(matches!(handle_generic_message(b"123456:pong\n"), GenericReply::UnknownCommand));
    assert!(matches!(handle_generic_message(b"no colon"), GenericReply::Ignore));
    assert!(matches!(handle_generic_message(b"key:"), GenericReply::Ignore));
    assert!(matches!(handle_generic_message(b":ping"), GenericReply::Ignore));
    match handle_generic_message(b"  12:ping  ") {
        GenericReply::Pong { key } => assert_eq!(key.as_str(), "12"),
        _ => panic!("expected pong"),
    }
    assert_eq!(GenericReply::UnknownCommand.reply_bytes().unwrap(), b"unknown command\n");
    assert!(GenericReply::Ignore.reply_bytes().is_none());
}

#[test]
fn invalid_utf8_is_replaced() {
    assert!(matches!(handle_generic_message(&[0xff, b':', b'p', b'i', b'n', b'g']), GenericReply::Pong { .. }));
}

#[test]
fn pong_check() {
    assert!(is_pong(b"pong\n"));
    assert!(!is_pong(b"pong"));
    assert!(!is_pong(b"ponG\n"));
}

#[test]
fn tcp_session_steps() {
    let mut session = TcpSession::new();
    match session.receive(b"123456:") {
        TcpStep::Generic { message } => assert_eq!(message, b"123456:"),
        _ => panic!("expected generic"),
    }
    match session.receive(b"ping\n") {
        TcpStep::Generic { message } => assert_eq!(message, b"123456:ping\n"),
        _ => panic!("expected generic"),
    }
    assert!(matches!(session.receive(b""), TcpStep::Closed));

    let packet = vec![0x12, 0x34, 1, 0, 0, 1, 0, 0, 0, 0, 0, 0, 1, b'a', 0, 0, 1, 0, 1];
    let mut framed = tcp_length_prefix(packet.len()).to_vec();
    framed.extend_from_slice(&packet);
    let mut session = TcpSession::new();
    match session.receive(&framed[..5]) {
        TcpStep::Generic { .. } => {}
        _ => panic!("expected generic"),
    }
    match session.receive(&framed[5..]) {
        TcpStep::Dns { message } => assert_eq!(message, packet),
        _ => panic!("expected dns"),
    }
}

#[test]
fn udp_datagrams_are_sorted() {
    let mut packet = vec![0x12, 0x34, 0x01, 0x00, 0x00, 0x01, 0x00, 0x00, 0x00, 0x00, 0x00, 0x00];
    for label in ["gezdgnbvgy5gq33toq", "domain", "de"] {
        packet.push(label.len() as u8);
        packet.extend_from_slice(label.as_bytes());
    }
    packet.extend_from_slice(&[0, 0, 1, 0, 1]);
    match udp_step(&packet, [5, 6, 7, 8]) {
        UdpStep::Dns { reply: Ok(DnsReply::Answer { key, response }) } => {
            assert_eq!(key, "123456");
            assert_eq!(&response[0..2], &[0x12, 0x34]);
        }
        _ => panic!("expected a DNS answer"),
    }
    match udp_step(b"654321:ping\n", [5, 6, 7, 8]) {
        UdpStep::Generic { reply: GenericReply::Pong { key } } => assert_eq!(key.as_str(), "654321"),
        _ => panic!("expected a pong"),
    }
    match udp_step(b"hello", [5, 6, 7, 8]) {
        UdpStep::Generic { reply: GenericReply::Ignore } => {}
        _ => panic!("expected nothing to answer"),
    }
}
