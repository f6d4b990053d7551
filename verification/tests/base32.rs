use dns_secheck::util::base32::{decode, decode_checked, encode};

#[test]
fn encode_known_values() {
    assert_eq!(encode("123456:host"), "gezdgnbvgy5gq33toq");
    assert_eq!(encode("hello"), "nbswy3dp");
    assert_eq!(encode("a"), "me");
    assert_eq!(encode(""), "");
}

#[test]
fn decode_round_trip() {
    for s in ["123456:host", "hello", "a", "", "ünïcödé:x"] {
        let e = encode(s);
        assert_eq!(decode(&e).unwrap(), s);
    }
}

#[test]
fn decode_accepts_both_cases() {
    assert_eq!(decode("NBSWY3DP").unwrap(), "hello");
    assert_eq!(decode("nbswy3dp").unwrap(), "hello");
}

#[test]
fn decode_rejects_invalid_text() {
    assert!(decode("nbswy3d").is_err());
    assert!(decode("n!swy3dp").is_err());
    assert!(matches!(decode_checked("n!swy3dp"), Some(Err(_))));
}

#[test]
fn decode_checked_refuses_non_utf8() {
    // "777a" decodes to the bytes ff fe, which are not UTF-8.
    assert!(decode_checked("777a").is_none());
    assert_eq!(decode_checked("me").unwrap().unwrap(), "a");
}

#[test]
fn encode_rfc_vectors() {
    assert_eq!(encode("f"), "my");
    assert_eq!(encode("fo"), "mzxq");
    assert_eq!(encode("foo"), "mzxw6");
    assert_eq!(encode("foob"), "mzxw6yq");
    assert_eq!(encode("fooba"), "mzxw6ytb");
    assert_eq!(encode("foobar"), "mzxw6ytboi");
}

#[test]
fn decode_ignores_ascii_case() {
    for x in ["NbSwY3dP", "mzxw6YTBOI", "me", "nbswy3d"] {
        let d = decode(x).ok();
        assert_eq!(decode(&x.to_uppercase()).ok(), d);
        assert_eq!(decode(&x.to_lowercase()).ok(), d);
    }
    assert_eq!(decode("NbSwY3dP").unwrap(), "hello");
}

#[test]
fn decode_rejects_non_canonical_text() {
    // "mf" would carry set trailing bits: no byte string encodes to it.
    assert!(decode("mf").is_err());
    assert!(decode("m").is_err());
}
