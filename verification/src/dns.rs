use vstd::prelude::*;
use vstd::string::*;
use crate::util::text::str_equal;

verus! {

broadcast use vstd::string::group_string_axioms;

/// The address that the blocking resolver answers for a blocked name.
pub open spec fn blocked_address() -> Seq<char> {
    seq!['1', '8', '5', '.', '2', '4', '2', '.', '1', '7', '7', '.', '5']
}

/// The canonical name that the blocking resolver answers for a blocked name.
pub open spec fn blocked_canonical_name() -> Seq<char> {
    seq![
        'b', 'l', 'o', 'c', 'k', '.', 'b', 'l', 'u', 'e', '-', 's', 'h', 'i', 'e', 'l', 'd', '.',
        'a', 't', '.',
    ]
}

/// Whether an A record with address `a` shows a blocked resolution.
pub fn blocked_a(a: &str) -> (r: bool)
    ensures
        r == (a@ == blocked_address()),
{
    let blocked = "185.242.177.5";
    proof {
        reveal_strlit("185.242.177.5");
        assert(blocked@ =~= blocked_address());
    }
    str_equal(a, blocked)
}

/// Whether a CNAME record with target `cname` shows a blocked resolution.
pub fn blocked_cname(cname: &str) -> (r: bool)
    ensures
        r == (cname@ == blocked_canonical_name()),
{
    let blocked = "block.blue-shield.at.";
    proof {
        reveal_strlit("block.blue-shield.at.");
        assert(blocked@ =~= blocked_canonical_name());
    }
    str_equal(cname, blocked)
}

/// A record of a system lookup, as text.
pub enum LookupRecord {
    /// An A record and its address.
    A(String),
    /// A CNAME record and its target.
    Cname(String),
    /// Any other record.
    Other,
}

/// The record shows that the resolution was blocked.
pub open spec fn record_blocked(r: LookupRecord) -> bool {
    match r {
        LookupRecord::A(a) => a@ == blocked_address(),
        LookupRecord::Cname(c) => c@ == blocked_canonical_name(),
        LookupRecord::Other => false,
    }
}

/// How many of `records` show a blocked resolution.
pub open spec fn blocked_count(records: Seq<LookupRecord>) -> nat
    decreases records.len(),
{
    if records.len() == 0 {
        0
    } else {
        blocked_count(records.drop_last()) + if record_blocked(records.last()) {
            1nat
        } else {
            0nat
        }
    }
}

/// Every record is blocked exactly when they all count as blocked.
pub proof fn lemma_blocked_count_all(records: Seq<LookupRecord>)
    ensures
        blocked_count(records) <= records.len(),
        (blocked_count(records) == records.len()) <==> forall|i: int|
            0 <= i < records.len() ==> record_blocked(#[trigger] records[i]),
    decreases records.len(),
{
    if records.len() > 0 {
        let init = records.drop_last();
        lemma_blocked_count_all(init);
        if blocked_count(records) == records.len() {
            assert forall|i: int| 0 <= i < records.len() implies record_blocked(
                #[trigger] records[i],
            ) by {
                if i < records.len() - 1 {
                    assert(records[i] == init[i]);
                }
            }
        }
        if forall|i: int| 0 <= i < records.len() ==> record_blocked(#[trigger] records[i]) {
            assert forall|i: int| 0 <= i < init.len() implies record_blocked(#[trigger] init[i]) by {
                assert(init[i] == records[i]);
            }
            assert(record_blocked(records[records.len() - 1]));
        }
    }
}

/// Whether a lookup was blocked: every record it returned is a blocked one
/// (which holds of a lookup without records).
pub fn resolution_blocked(records: &[LookupRecord]) -> (r: bool)
    ensures
        r == (blocked_count(records@) == records@.len()),
        r <==> forall|i: int| 0 <= i < records@.len() ==> record_blocked(#[trigger] records@[i]),
{
    let mut blocked_n: usize = 0;
    let mut i: usize = 0;
    while i < records.len()
        invariant
            0 <= i <= records@.len(),
            blocked_n == blocked_count(records@.subrange(0, i as int)),
            blocked_n <= i,
        decreases records@.len() - i,
    {
        let b = match &records[i] {
            LookupRecord::A(a) => blocked_a(a.as_str()),
            LookupRecord::Cname(c) => blocked_cname(c.as_str()),
            LookupRecord::Other => false,
        };
        assert(records@.subrange(0, i + 1).drop_last() =~= records@.subrange(0, i as int));
        if b {
            blocked_n = blocked_n + 1;
        }
        i = i + 1;
    }
    assert(records@.subrange(0, i as int) =~= records@);
    proof {
        lemma_blocked_count_all(records@);
    }
    blocked_n == records.len()
}

/// A record of a DNS answer, reduced to what the client checks.
pub enum AnswerRecord {
    /// An A record and its IPv4 address.
    A([u8; 4]),
    /// Any other record.
    Other,
}

/// The address of the first A record among `answers`.
pub open spec fn first_a_spec(answers: Seq<AnswerRecord>) -> Option<[u8; 4]>
    decreases answers.len(),
{
    if answers.len() == 0 {
        None
    } else {
        match answers[0] {
            AnswerRecord::A(a) => Some(a),
            AnswerRecord::Other => first_a_spec(answers.drop_first()),
        }
    }
}

/// The first A record decides: where the record at `k` is an A record and
/// no record before it is one, the result is its address; where no record is
/// an A record, there is none.
pub proof fn lemma_first_a(answers: Seq<AnswerRecord>)
    ensures
        forall|k: int|
            0 <= k < answers.len() && #[trigger] answers[k] is A && (forall|j: int|
                0 <= j < k ==> answers[j] is Other) ==> first_a_spec(answers) == Some(answers[k]->0),
        (forall|j: int| 0 <= j < answers.len() ==> answers[j] is Other) ==> first_a_spec(answers) is None,
    decreases answers.len(),
{
    if answers.len() > 0 {
        let rest = answers.drop_first();
        lemma_first_a(rest);
        assert forall|k: int|
            0 <= k < answers.len() && #[trigger] answers[k] is A && (forall|j: int|
                0 <= j < k ==> answers[j] is Other) implies first_a_spec(answers) == Some(
            answers[k]->0,
        ) by {
            if k > 0 {
                assert(answers[0] is Other);
                assert(rest[k - 1] == answers[k]);
                assert forall|j: int| 0 <= j < k - 1 implies rest[j] is Other by {
                    assert(rest[j] == answers[j + 1]);
                }
            }
        }
        if forall|j: int| 0 <= j < answers.len() ==> answers[j] is Other {
            assert(answers[0] is Other);
            assert forall|j: int| 0 <= j < rest.len() implies rest[j] is Other by {
                assert(rest[j] == answers[j + 1]);
            }
        }
    }
}

/// The address of the first A record among `answers`.
pub fn first_a_record(answers: &[AnswerRecord]) -> (r: Option<[u8; 4]>)
    ensures
        r == first_a_spec(answers@),
{
    let mut i: usize = 0;
    assert(answers@.skip(0) =~= answers@);
    while i < answers.len()
        invariant
            0 <= i <= answers@.len(),
            first_a_spec(answers@) == first_a_spec(answers@.skip(i as int)),
        decreases answers@.len() - i,
    {
        assert(answers@.skip(i as int)[0] == answers@[i as int]);
        assert(answers@.skip(i as int).drop_first() =~= answers@.skip(i + 1));
        match &answers[i] {
            AnswerRecord::A(a) => {
                return Some(*a);
            },
            AnswerRecord::Other => {},
        }
        i = i + 1;
    }
    None
}

/// The resolution that the server gave is not the expected one.
pub struct WrongResolution;

/// Checks that the first A record among `answers` gives `expected`.
pub fn check_first_a(answers: &[AnswerRecord], expected: [u8; 4]) -> (r: Result<(), WrongResolution>)
    requires
        first_a_spec(answers@) is Some,
    ensures
        r is Ok <==> (first_a_spec(answers@) matches Some(a) && a@ == expected@),
{
    match first_a_record(answers) {
        Some(a) => {
            if a[0] == expected[0] && a[1] == expected[1] && a[2] == expected[2] && a[3]
                == expected[3] {
                assert(a@ =~= expected@);
                Ok(())
            } else {
                assert(a@ != expected@) by {
                    if a@ == expected@ {
                        assert(a@[0] == expected@[0] && a@[1] == expected@[1]);
                        assert(a@[2] == expected@[2] && a@[3] == expected@[3]);
                    }
                }
                Err(WrongResolution)
            }
        },
        None => Err(WrongResolution),
    }
}

/// Checks a resolution as a client that accepts an empty answer: no records
/// pass; otherwise the first A record must give `expected`.
pub fn check_dns_answers(answers: &[AnswerRecord], expected: [u8; 4]) -> (r: Result<(), WrongResolution>)
    requires
        answers@.len() == 0 || first_a_spec(answers@) is Some,
    ensures
        r is Ok <==> (answers@.len() == 0 || (first_a_spec(answers@) matches Some(a) && a@
            == expected@)),
{
    if answers.len() == 0 {
        Ok(())
    } else {
        check_first_a(answers, expected)
    }
}

} // verus!
