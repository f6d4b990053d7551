use dns_secheck::http_client::malicious_domains_from_body;

#[test]
fn domains_from_json_body() {
    let domains = malicious_domains_from_body(r#"["evil.example", "bad.test"]"#).unwrap();
    assert_eq!(domains, vec!["evil.example".to_string(), "bad.test".to_string()]);
    assert_eq!(malicious_domains_from_body("[]").unwrap(), Vec::<String>::new());
    assert_eq!(malicious_domains_from_body(r#"["a\"b"]"#).unwrap(), vec!["a\"b".to_string()]);
}

#[test]
fn domains_refused_when_not_a_string_array() {
    assert!(malicious_domains_from_body("not json").is_none());
    assert!(malicious_domains_from_body("[1, 2]").is_none());
    assert!(malicious_domains_from_body(r#"{"a": "b"}"#).is_none());
}
