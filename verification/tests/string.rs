use dns_secheck::util::string::split_on_first;

#[test]
fn test_split_on_first() {
    assert_eq!(split_on_first("foo", ':'), (None, None));
    assert_eq!(split_on_first("foo:", ':'), (Some("foo"), None));
    assert_eq!(split_on_first("foo:bar", ':'), (Some("foo"), Some("bar")));
    assert_eq!(
        split_on_first("foo:bar:bar:bar", ':'),
        (Some("foo"), Some("bar:bar:bar"))
    );
}

#[test]
fn split_on_first_empty_head() {
    assert_eq!(split_on_first(":bar", ':'), (Some(""), None));
    assert_eq!(split_on_first("", ':'), (None, None));
    assert_eq!(split_on_first(":", ':'), (Some(""), None));
}

#[test]
fn split_on_first_non_ascii() {
    assert_eq!(split_on_first("äö.ü.ß", '.'), (Some("äö"), Some("ü.ß")));
    assert_eq!(split_on_first("a→b", '→'), (Some("a"), Some("b")));
}
