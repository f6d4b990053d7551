pub mod base32;
pub mod status;
pub mod string;
pub mod test_report;
pub mod test_result;
pub mod text;

pub use status::Status;
pub use test_report::TestReport;
pub use test_result::TestResult;

use vstd::prelude::*;
use vstd::utf8::*;
use rand::rngs::{StdRng, SysRng};
use rand::{RngExt, SeedableRng};
use crate::constants::DNS_SECHECK_KEY_LENGTH_USIZE;
use crate::util::text::{ascii_string, from_utf8_lossy, utf8_lossy};

verus! {

broadcast use vstd::utf8::group_utf8_lib;

/// A generator of random numbers.
#[verifier::external_type_specification]
#[verifier::external_body]
pub struct ExStdRng(StdRng);

/// Calls `SeedableRng::try_from_rng` for `rand::rngs::StdRng` with
/// `rand::rngs::SysRng`, the operating system's source of randomness: a
/// generator seeded from it, or nothing where that source reports an error.
/// Nothing is claimed of the generator.
#[verifier::external_body]
fn seeded_rng() -> Option<StdRng> {
    StdRng::try_from_rng(&mut SysRng).ok()
}

/// Calls `RngExt::random_range` with the range `low..high`. Claimed: the
/// result lies in the range (it panics on an empty range, which `requires`
/// leaves out). Which number comes out is left open: it is random.
#[verifier::external_body]
fn random_range(rng: &mut StdRng, low: u32, high: u32) -> (r: u32)
    requires
        low < high,
    ensures
        low <= r < high,
{
    rng.random_range(low..high)
}

/// `c` is one of the ASCII digits `0`-`9`.
pub open spec fn is_ascii_digit(c: char) -> bool {
    48 <= c as u32 <= 57
}

proof fn lemma_ascii_char(c: char)
    requires
        (c as u32) < 128,
    ensures
        c <= '\u{7f}',
        c >= '\0',
{
}

/// The decimal digit for the random number `n`: `n` modulo 10.
pub open spec fn digit_char(n: u64) -> char {
    (48 + n % 10) as char
}

/// The digits for a sequence of random numbers, one for each.
pub open spec fn random_digits(numbers: Seq<u64>) -> Seq<char>
    decreases numbers.len(),
{
    if numbers.len() == 0 {
        Seq::empty()
    } else {
        random_digits(numbers.drop_last()).push(digit_char(numbers.last()))
    }
}

proof fn lemma_random_digits(numbers: Seq<u64>, i: int)
    requires
        0 <= i < numbers.len(),
    ensures
        random_digits(numbers).len() == numbers.len(),
        random_digits(numbers)[i] == digit_char(numbers[i]),
        is_ascii_digit(random_digits(numbers)[i]),
    decreases numbers.len(),
{
    if i < numbers.len() - 1 {
        lemma_random_digits(numbers.drop_last(), i);
    } else {
        lemma_random_digits_len(numbers.drop_last());
    }
}

proof fn lemma_random_digits_len(numbers: Seq<u64>)
    ensures
        random_digits(numbers).len() == numbers.len(),
    decreases numbers.len(),
{
    if numbers.len() > 0 {
        lemma_random_digits_len(numbers.drop_last());
    }
}

/// The key under which the results of one check are recorded.
#[derive(Debug, Clone, PartialEq, Eq, Hash)]
pub struct TestKey(String);

impl View for TestKey {
    type V = Seq<char>;

    closed spec fn view(&self) -> Seq<char> {
        self.0@
    }
}

impl TestKey {
    /// The key whose digits are the given numbers taken modulo 10.
    pub fn from_random_numbers(numbers: &Vec<u64>) -> (r: TestKey)
        ensures
            r@ == random_digits(numbers@),
    {
        let mut bytes: Vec<u8> = Vec::new();
        let ghost mut chars: Seq<char> = Seq::empty();
        let mut i: usize = 0;
        while i < numbers.len()
            invariant
                0 <= i <= numbers@.len(),
                bytes@.len() == i,
                chars == random_digits(numbers@.take(i as int)),
                chars.len() == i,
                forall|j: int| 0 <= j < i ==> bytes@[j] == chars[j] as u8,
            decreases numbers@.len() - i,
        {
            let d: u64 = numbers[i] % 10;
            let b: u8 = (48 + d) as u8;
            bytes.push(b);
            proof {
                assert(numbers@.take(i + 1) =~= numbers@.take(i as int).push(numbers@[i as int]));
                assert(numbers@.take(i + 1).drop_last() =~= numbers@.take(i as int));
                assert(random_digits(numbers@.take(i + 1)) =~= chars.push(digit_char(numbers@[i as int])));
                chars = chars.push(digit_char(numbers@[i as int]));
                lemma_random_digits_len(numbers@.take(i + 1));
            }
            i = i + 1;
        }
        proof {
            assert(numbers@.take(numbers@.len() as int) =~= numbers@);
            assert forall|j: int| 0 <= j < chars.len() implies '\0' <= #[trigger] chars[j]
                <= '\u{7f}' by {
                lemma_random_digits(numbers@, j);
                lemma_ascii_char(chars[j]);
            }
        }
        TestKey(ascii_string(bytes, Ghost(chars)))
    }

    /// A fresh key of random decimal digits, drawn from a generator seeded
    /// from the operating system's source of randomness; nothing where that
    /// source fails.
    pub fn new() -> (r: Option<TestKey>)
        ensures
            r matches Some(k) ==> {
                &&& k@.len() == DNS_SECHECK_KEY_LENGTH_USIZE
                &&& forall|i: int| 0 <= i < k@.len() ==> is_ascii_digit(#[trigger] k@[i])
            },
    {
        let mut rng = match seeded_rng() {
            Some(rng) => rng,
            None => return None,
        };
        let mut numbers: Vec<u64> = Vec::new();
        while numbers.len() < DNS_SECHECK_KEY_LENGTH_USIZE
            invariant
                numbers@.len() <= DNS_SECHECK_KEY_LENGTH_USIZE,
            decreases DNS_SECHECK_KEY_LENGTH_USIZE - numbers@.len(),
        {
            let d = random_range(&mut rng, 0, 10);
            numbers.push(d as u64);
        }
        let key = TestKey::from_random_numbers(&numbers);
        proof {
            lemma_random_digits_len(numbers@);
            assert forall|i: int| 0 <= i < key@.len() implies is_ascii_digit(#[trigger] key@[i]) by {
                lemma_random_digits(numbers@, i);
            }
        }
        Some(key)
    }

    /// The key that is the text `s`.
    pub fn from_text(s: &str) -> (r: TestKey)
        ensures
            r@ == s@,
    {
        TestKey(s.to_owned())
    }

    /// The key that is the string `s`.
    pub fn from_string(s: String) -> (r: TestKey)
        ensures
            r@ == s@,
    {
        TestKey(s)
    }

    /// The key read from `bytes`, invalid UTF-8 replaced.
    pub fn from_bytes(bytes: &[u8]) -> (r: TestKey)
        ensures
            r@ == utf8_lossy(bytes@),
            valid_utf8(bytes@) ==> r@ == decode_utf8(bytes@),
    {
        TestKey(from_utf8_lossy(bytes))
    }

    /// The key as text.
    pub fn as_str(&self) -> (r: &str)
        ensures
            r@ == self@,
    {
        self.0.as_str()
    }
}

} // verus!
