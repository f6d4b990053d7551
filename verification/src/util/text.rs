use vstd::prelude::*;
use vstd::string::*;
use vstd::utf8::*;
use vstd::std_specs::iter::IteratorSpec;

verus! {

broadcast use vstd::string::group_string_axioms, vstd::string::next_postcondition,
    vstd::utf8::group_utf8_lib;

/// `char::is_whitespace`: the characters with the Unicode `White_Space` property.
pub open spec fn is_whitespace_spec(c: char) -> bool {
    let v = c as u32;
    ||| v == 0x20
    ||| 0x09 <= v <= 0x0d
    ||| v == 0x85
    ||| v == 0xa0
    ||| v == 0x1680
    ||| 0x2000 <= v <= 0x200a
    ||| v == 0x2028
    ||| v == 0x2029
    ||| v == 0x202f
    ||| v == 0x205f
    ||| v == 0x3000
}

/// Whether `c` is a whitespace character.
pub fn is_whitespace(c: char) -> (r: bool)
    ensures
        r == is_whitespace_spec(c),
{
    let v = c as u32;
    v == 0x20 || (0x09 <= v && v <= 0x0d) || v == 0x85 || v == 0xa0 || v == 0x1680 || (0x2000
        <= v && v <= 0x200a) || v == 0x2028 || v == 0x2029 || v == 0x202f || v == 0x205f || v
        == 0x3000
}

/// `s[a..b]` is `s` without its leading and trailing whitespace.
pub open spec fn trim_bounds(s: Seq<char>, a: int, b: int) -> bool {
    &&& 0 <= a <= b <= s.len()
    &&& forall|j: int| 0 <= j < a ==> is_whitespace_spec(#[trigger] s[j])
    &&& forall|j: int| b <= j < s.len() ==> is_whitespace_spec(#[trigger] s[j])
    &&& a < b ==> !is_whitespace_spec(s[a]) && !is_whitespace_spec(s[b - 1])
}

/// `s` without its leading and trailing whitespace (`str::trim`).
pub open spec fn trim_spec(s: Seq<char>) -> Seq<char> {
    let (a, b) = choose|a: int, b: int| trim_bounds(s, a, b);
    s.subrange(a, b)
}

/// Any two ways of cutting the whitespace off `s` leave the same text.
pub proof fn lemma_trim_bounds_unique(s: Seq<char>, a1: int, b1: int, a2: int, b2: int)
    requires
        trim_bounds(s, a1, b1),
        trim_bounds(s, a2, b2),
    ensures
        s.subrange(a1, b1) == s.subrange(a2, b2),
{
    if a1 < b1 {
        // the first non-whitespace character bounds both cuts
        assert(!is_whitespace_spec(s[a1]) && !is_whitespace_spec(s[b1 - 1]));
        if a2 < b2 {
            assert(!is_whitespace_spec(s[a2]) && !is_whitespace_spec(s[b2 - 1]));
        } else {
            assert(is_whitespace_spec(s[a1]));
        }
    } else if a2 < b2 {
        assert(!is_whitespace_spec(s[a2]));
        assert(is_whitespace_spec(s[a2]));
    }
    assert(s.subrange(a1, b1) =~= s.subrange(a2, b2));
}

/// A cut that meets `trim_bounds` gives `trim_spec`.
pub proof fn lemma_trim_spec(s: Seq<char>, a: int, b: int)
    requires
        trim_bounds(s, a, b),
    ensures
        trim_spec(s) == s.subrange(a, b),
{
    let (a2, b2) = choose|a: int, b: int| trim_bounds(s, a, b);
    lemma_trim_bounds_unique(s, a, b, a2, b2);
}

/// Removes leading and trailing whitespace, as `str::trim` does.
pub fn trim<'a>(s: &'a str) -> (r: &'a str)
    ensures
        r@ == trim_spec(s@),
{
    let n = s.unicode_len();
    let mut chars = s.chars();
    let mut i: usize = 0;
    let mut start: usize = 0;
    let mut end: usize = 0;
    let mut seen = false;
    loop
        invariant_except_break
            n == s@.len(),
            0 <= i <= n,
            chars.remaining() == s@.skip(i as int),
        invariant
            !seen ==> start == 0 && end == 0 && forall|j: int| 0 <= j < i ==> is_whitespace_spec(
                #[trigger] s@[j],
            ),
            seen ==> start < end <= i && !is_whitespace_spec(s@[start as int]) && !is_whitespace_spec(
                s@[end - 1],
            ),
            seen ==> forall|j: int| 0 <= j < start ==> is_whitespace_spec(#[trigger] s@[j]),
            seen ==> forall|j: int| end <= j < i ==> is_whitespace_spec(#[trigger] s@[j]),
        ensures
            i == n,
        decreases n - i,
    {
        let next = chars.next();
        match next {
            Some(ch) => {
                assert(s@.skip(i as int)[0] == s@[i as int]);
                assert(s@.skip(i as int).drop_first() =~= s@.skip(i + 1));
                if !is_whitespace(ch) {
                    if !seen {
                        start = i;
                        seen = true;
                    }
                    end = i + 1;
                }
                i = i + 1;
            },
            None => {
                assert(s@.skip(i as int).len() == 0);
                break;
            },
        }
    }
    proof {
        assert(trim_bounds(s@, start as int, end as int));
        lemma_trim_spec(s@, start as int, end as int);
    }
    s.substring_char(start, end)
}

/// Whether two strings are equal.
pub fn str_equal(a: &str, b: &str) -> (r: bool)
    ensures
        r == (a@ == b@),
{
    let x = a.as_bytes();
    let y = b.as_bytes();
    if x.len() != y.len() {
        return false;
    }
    let mut i: usize = 0;
    while i < x.len()
        invariant
            x@ == encode_utf8(a@),
            y@ == encode_utf8(b@),
            x@.len() == y@.len(),
            0 <= i <= x@.len(),
            forall|j: int| 0 <= j < i ==> x@[j] == y@[j],
        decreases x@.len() - i,
    {
        if x[i] != y[i] {
            return false;
        }
        i = i + 1;
    }
    proof {
        assert(x@ =~= y@);
        assert(decode_utf8(encode_utf8(a@)) == a@);
        assert(decode_utf8(encode_utf8(b@)) == b@);
    }
    true
}

/// `c` is an ASCII uppercase letter.
pub open spec fn is_ascii_upper(c: char) -> bool {
    65 <= c as u32 <= 90
}

/// `c` is an ASCII lowercase letter.
pub open spec fn is_ascii_lower(c: char) -> bool {
    97 <= c as u32 <= 122
}

/// The ASCII lowercase of `c` (`char::to_ascii_lowercase`).
pub open spec fn ascii_lower_char(c: char) -> char {
    if is_ascii_upper(c) {
        ((c as u32) + 32) as char
    } else {
        c
    }
}

/// The ASCII uppercase of `c` (`char::to_ascii_uppercase`).
pub open spec fn ascii_upper_char(c: char) -> char {
    if is_ascii_lower(c) {
        ((c as u32) - 32) as char
    } else {
        c
    }
}

/// Each character of `s` mapped to its ASCII lowercase.
pub open spec fn ascii_lowercase(s: Seq<char>) -> Seq<char> {
    s.map_values(|c: char| ascii_lower_char(c))
}

/// Each character of `s` mapped to its ASCII uppercase.
pub open spec fn ascii_uppercase(s: Seq<char>) -> Seq<char> {
    s.map_values(|c: char| ascii_upper_char(c))
}

/// What `str::to_lowercase` returns for `s` (Unicode lowercase mapping).
pub uninterp spec fn unicode_lowercase(s: Seq<char>) -> Seq<char>;

/// What `str::to_uppercase` returns for `s` (Unicode uppercase mapping).
pub uninterp spec fn unicode_uppercase(s: Seq<char>) -> Seq<char>;

/// What `String::from_utf8_lossy` returns for `bytes`.
pub uninterp spec fn utf8_lossy(bytes: Seq<u8>) -> Seq<char>;

/// Calls `str::to_lowercase`. Claimed: the result is the Unicode lowercase of
/// `s`, a function of `s` alone; on an ASCII string it is the ASCII lowercase
/// (letters A-Z become a-z, nothing else changes). Not claimed: anything
/// about non-ASCII input.
#[verifier::external_body]
pub(crate) fn to_lowercase(s: &str) -> (r: String)
    ensures
        r@ == unicode_lowercase(s@),
        is_ascii_chars(s@) ==> r@ == ascii_lowercase(s@),
{
    s.to_lowercase()
}

/// Calls `str::to_uppercase`. Claimed: the result is the Unicode uppercase of
/// `s`, a function of `s` alone; on an ASCII string it is the ASCII uppercase.
/// Not claimed: anything about non-ASCII input.
#[verifier::external_body]
pub(crate) fn to_uppercase(s: &str) -> (r: String)
    ensures
        r@ == unicode_uppercase(s@),
        is_ascii_chars(s@) ==> r@ == ascii_uppercase(s@),
{
    s.to_uppercase()
}

/// Calls `String::from_utf8_lossy` and takes the owned string. Claimed: the
/// result is a function of the bytes alone, and on valid UTF-8 it is the
/// decoded text. Not claimed: how invalid sequences are replaced.
#[verifier::external_body]
pub(crate) fn from_utf8_lossy(bytes: &[u8]) -> (r: String)
    ensures
        r@ == utf8_lossy(bytes@),
        valid_utf8(bytes@) ==> r@ == decode_utf8(bytes@),
{
    String::from_utf8_lossy(bytes).into_owned()
}

/// Calls `String::from_utf8`, keeping the string and dropping the error.
/// Claimed: it succeeds exactly on valid UTF-8, with the decoded text.
#[verifier::external_body]
pub(crate) fn string_from_utf8(bytes: Vec<u8>) -> (r: Option<String>)
    ensures
        r is Some <==> valid_utf8(bytes@),
        r matches Some(s) ==> s@ == decode_utf8(bytes@),
{
    String::from_utf8(bytes).ok()
}

/// An ASCII string built from its bytes.
pub(crate) fn ascii_string(bytes: Vec<u8>, Ghost(chars): Ghost<Seq<char>>) -> (r: String)
    requires
        is_ascii_chars(chars),
        bytes@.len() == chars.len(),
        forall|i: int| 0 <= i < chars.len() ==> bytes@[i] == chars[i] as u8,
    ensures
        r@ == chars,
{
    proof {
        assert(bytes@ =~= encode_utf8(chars));
    }
    match string_from_utf8(bytes) {
        Some(s) => s,
        None => {
            proof {
                assert(false);
            }
            String::new()
        },
    }
}

/// The UTF-8 encoding of a concatenation is the concatenation of the encodings.
pub proof fn lemma_encode_utf8_concat(a: Seq<char>, b: Seq<char>)
    ensures
        encode_utf8(a + b) == encode_utf8(a) + encode_utf8(b),
    decreases a.len(),
{
    if a.len() == 0 {
        assert(a + b =~= b);
        assert(encode_utf8(a) =~= Seq::<u8>::empty());
        assert(encode_utf8(a) + encode_utf8(b) =~= encode_utf8(b));
    } else {
        assert((a + b).drop_first() =~= a.drop_first() + b);
        assert((a + b)[0] == a[0]);
        lemma_encode_utf8_concat(a.drop_first(), b);
        assert(encode_utf8(a + b) =~= encode_scalar(a[0] as u32) + encode_utf8(a.drop_first() + b));
        assert(encode_utf8(a) == encode_scalar(a[0] as u32) + encode_utf8(a.drop_first()));
    }
}

/// The view of an optional owned string.
pub open spec fn opt_string_view(o: Option<String>) -> Option<Seq<char>> {
    match o {
        Some(s) => Some(s@),
        None => None,
    }
}

} // verus!
