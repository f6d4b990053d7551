use vstd::prelude::*;
use crate::util::test_result::TestResult;

verus! {

/// The results recorded for one check, in the order they were recorded.
#[derive(Clone)]
pub struct TestReport(Vec<TestResult>);

impl View for TestReport {
    type V = Seq<TestResult>;

    closed spec fn view(&self) -> Seq<TestResult> {
        self.0@
    }
}

impl TestReport {
    /// A report without results.
    pub fn new() -> (r: TestReport)
        ensures
            r@ == Seq::<TestResult>::empty(),
    {
        TestReport(Vec::new())
    }

    /// Records `value` after the results already there.
    pub fn push(&mut self, value: TestResult)
        ensures
            final(self)@ == old(self)@.push(value),
    {
        self.0.push(value);
    }

    /// The recorded results.
    pub fn results(&self) -> (r: &[TestResult])
        ensures
            r@ == self@,
    {
        self.0.as_slice()
    }
}

/// The report that a key holds after `value` is recorded under it: the report
/// it held, with `value` appended, or a report of `value` alone.
pub open spec fn upserted_spec(existing: Option<Seq<TestResult>>, value: TestResult) -> Seq<TestResult> {
    match existing {
        Some(results) => results.push(value),
        None => seq![value],
    }
}

/// Recording a result under a key keeps every result already recorded, in
/// order, and puts the new one after them; a key without a report gets one
/// holding the new result alone.
pub proof fn lemma_upserted_appends(existing: Option<Seq<TestResult>>, value: TestResult)
    ensures
        existing matches Some(old) ==> {
            &&& upserted_spec(existing, value).len() == old.len() + 1
            &&& forall|i: int| 0 <= i < old.len() ==> #[trigger] upserted_spec(existing, value)[i] == old[i]
            &&& upserted_spec(existing, value)[old.len() as int] == value
        },
        existing is None ==> upserted_spec(existing, value).len() == 1 && upserted_spec(existing, value)[0]
            == value,
{
}

/// The report of a key after `value` is recorded under it, given the report
/// that the key held, if any.
pub fn upserted(existing: Option<TestReport>, value: TestResult) -> (r: TestReport)
    ensures
        r@ == upserted_spec(
            match existing {
                Some(report) => Some(report@),
                None => None,
            },
            value,
        ),
{
    let mut report = match existing {
        Some(report) => report,
        None => TestReport::new(),
    };
    report.push(value);
    report
}

} // verus!
