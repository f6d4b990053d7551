use dns_secheck::dns::{
    blocked_a, blocked_cname, check_dns_answers, check_first_a, first_a_record,
    resolution_blocked, AnswerRecord, LookupRecord,
};

#[test]
fn blocked_addresses() {
    assert!(blocked_a("185.242.177.5"));
    assert!(!blocked_a("185.242.177.6"));
    assert!(blocked_cname("block.blue-shield.at."));
    assert!(!blocked_cname("block.blue-shield.at"));
}

#[test]
fn blocked_resolutions() {
    assert!(resolution_blocked(&[]));
    assert!(resolution_blocked(&[
        LookupRecord::Cname("block.blue-shield.at.".to_string()),
        LookupRecord::A("185.242.177.5".to_string()),
    ]));
    assert!(!resolution_blocked(&[
        LookupRecord::A("185.242.177.5".to_string()),
        LookupRecord::A("1.1.1.1".to_string()),
    ]));
    assert!(!resolution_blocked(&[LookupRecord::Other]));
}

#[test]
fn answer_checks() {
    let answers = [AnswerRecord::Other, AnswerRecord::A([1, 2, 3, 4]), AnswerRecord::A([5, 6, 7, 8])];
    assert_eq!(first_a_record(&answers), Some([1, 2, 3, 4]));
    assert!(check_first_a(&answers, [1, 2, 3, 4]).is_ok());
    assert!(check_first_a(&answers, [5, 6, 7, 8]).is_err());
    assert_eq!(first_a_record(&[AnswerRecord::Other]), None);
    assert!(check_dns_answers(&[], [9, 9, 9, 9]).is_ok());
    assert!(check_dns_answers(&answers, [9, 9, 9, 9]).is_err());
}
