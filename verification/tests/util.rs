use dns_secheck::util::test_result::timestamp_before_epoch;
use dns_secheck::util::test_report::upserted;
use dns_secheck::util::{Status, TestKey, TestReport, TestResult};

#[test]
fn fresh_keys_are_digits() {
    for _ in 0..20 {
        let key = TestKey::new().unwrap();
        assert_eq!(key.as_str().len(), 6);
        assert!(key.as_str().chars().all(|c| c.is_ascii_digit()));
    }
}

#[test]
fn keys_from_text_and_bytes() {
    assert_eq!(TestKey::from_text("abc").as_str(), "abc");
    assert_eq!(TestKey::from_string("x".to_string()).as_str(), "x");
    assert_eq!(TestKey::from_bytes(b"12").as_str(), "12");
    assert_eq!(TestKey::from_bytes(&[b'a', 0xff]).as_str(), "a\u{fffd}");
}

#[test]
fn reports_grow_by_upsert() {
    let report = upserted(None, TestResult::from_message("first").unwrap());
    assert_eq!(report.results().len(), 1);
    let report = upserted(Some(report), TestResult::from_message("second").unwrap());
    let results: Vec<&str> = report.results().iter().map(|r| r.result()).collect();
    assert_eq!(results, vec!["first", "second"]);
    let mut empty = TestReport::new();
    assert!(empty.results().is_empty());
    empty.push(TestResult::new().unwrap());
    assert_eq!(empty.results()[0].result(), "");
}

#[test]
fn results_are_timestamped_now() {
    let r = TestResult::from_message("x").unwrap();
    assert!(r.timestamp().seconds > 1_600_000_000);
    assert!(r.timestamp().nanos < 2_000_000_000);
}

#[test]
fn status_reports_version() {
    let status = Status::new("1.2.3");
    assert_eq!(status.version(), "1.2.3");
    assert_eq!(status.status(), "ok");
}

#[test]
fn banners() {
    assert_eq!(dns_secheck::version("0.1.0"), "(0.1.0).");
    assert_eq!(
        dns_secheck::legal_note("dns-out", "0.1.0", "A, B"),
        "dns-out (0.1.0). Licensed under AGPL-3.0-only. Copyright © 2026 Polarlabs represented by <A, B>."
    );
}

#[test]
fn keys_from_random_numbers() {
    let key = TestKey::from_random_numbers(&vec![0, 11, 22, 33, 1234567, u64::MAX]);
    assert_eq!(key.as_str(), "012375");
}

#[test]
fn timestamps_after_epoch() {
    let t = dns_secheck::util::test_result::timestamp_after_epoch(1_700_000_000, 5).unwrap();
    assert_eq!((t.seconds, t.nanos), (1_700_000_000, 5));
    assert!(dns_secheck::util::test_result::timestamp_after_epoch(u64::MAX, 0).is_none());
}

#[test]
fn timestamps_before_epoch() {
    let t = timestamp_before_epoch(10, 0).unwrap();
    assert_eq!((t.seconds, t.nanos), (-10, 0));
    let t = timestamp_before_epoch(10, 250_000_000).unwrap();
    assert_eq!((t.seconds, t.nanos), (-11, 750_000_000));
    let t = timestamp_before_epoch(1 << 63, 0).unwrap();
    assert_eq!((t.seconds, t.nanos), (i64::MIN, 0));
    assert!(timestamp_before_epoch(1 << 63, 1).is_none());
}

#[test]
fn keys_of_any_length_from_random_numbers() {
    assert_eq!(TestKey::from_random_numbers(&vec![]).as_str(), "");
    assert_eq!(TestKey::from_random_numbers(&vec![19, 28]).as_str(), "98");
}
