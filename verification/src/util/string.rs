use vstd::prelude::*;
use vstd::string::*;
use vstd::std_specs::iter::IteratorSpec;

verus! {

broadcast use vstd::string::group_string_axioms, vstd::string::next_postcondition;

/// The view of an optional string slice.
pub open spec fn opt_str_view(o: Option<&str>) -> Option<Seq<char>> {
    match o {
        Some(s) => Some(s@),
        None => None,
    }
}

/// What `split_on_first` returns for `s` and separator `c`: nothing when `c`
/// does not occur in `s`; otherwise the part before the first `c`, and the part
/// after it only when both parts are non-empty.
pub open spec fn split_on_first_spec(s: Seq<char>, c: char) -> (Option<Seq<char>>, Option<Seq<char>>) {
    match s.index_of_first(c) {
        None => (None, None),
        Some(i) => {
            let head = s.subrange(0, i);
            let tail = s.subrange(i + 1, s.len() as int);
            if head.len() > 0 && tail.len() > 0 {
                (Some(head), Some(tail))
            } else {
                (Some(head), None)
            }
        },
    }
}

/// `i` is the position of the first occurrence of `c` in `s`.
pub open spec fn is_first_index(s: Seq<char>, c: char, i: int) -> bool {
    &&& 0 <= i < s.len()
    &&& s[i] == c
    &&& forall|j: int| 0 <= j < i ==> s[j] != c
}

/// The first occurrence of `c` in `s` is found by `index_of_first`.
pub proof fn lemma_index_of_first(s: Seq<char>, c: char, i: int)
    requires
        is_first_index(s, c, i),
    ensures
        s.index_of_first(c) == Some(i),
{
    s.index_of_first_ensures(c);
    match s.index_of_first(c) {
        Some(k) => {
            if k < i {
                assert(s[k] != c);
            } else if k > i {
                assert(s[i] != c);
            }
        },
        None => {
            assert(s.contains(c)) by {
                assert(s[i] == c);
            }
        },
    }
}

/// Without an occurrence of `c`, `index_of_first` finds nothing.
pub proof fn lemma_index_of_first_none(s: Seq<char>, c: char)
    requires
        forall|j: int| 0 <= j < s.len() ==> s[j] != c,
    ensures
        s.index_of_first(c) is None,
{
    s.index_of_first_ensures(c);
}

/// Splits `s` at the first occurrence of `c`.
pub fn split_on_first<'a>(s: &'a str, c: char) -> (r: (Option<&'a str>, Option<&'a str>))
    ensures
        (opt_str_view(r.0), opt_str_view(r.1)) == split_on_first_spec(s@, c),
{
    let n = s.unicode_len();
    let mut chars = s.chars();
    let mut i: usize = 0;
    let mut found = false;
    loop
        invariant_except_break
            n == s@.len(),
            0 <= i <= n,
            chars.remaining() == s@.skip(i as int),
            forall|j: int| 0 <= j < i ==> s@[j] != c,
            !found,
        ensures
            0 <= i <= n,
            forall|j: int| 0 <= j < i ==> s@[j] != c,
            found ==> i < n && s@[i as int] == c,
            !found ==> i == n,
        decreases n - i,
    {
        let next = chars.next();
        match next {
            Some(ch) => {
                assert(s@.skip(i as int)[0] == s@[i as int]);
                if ch == c {
                    found = true;
                    break;
                } else {
                    assert(s@.skip(i as int).drop_first() =~= s@.skip(i + 1));
                    i = i + 1;
                }
            },
            None => {
                assert(s@.skip(i as int).len() == 0);
                break;
            },
        }
    }
    if !found {
        proof {
            lemma_index_of_first_none(s@, c);
        }
        (None, None)
    } else {
        proof {
            lemma_index_of_first(s@, c, i as int);
        }
        let head = s.substring_char(0, i);
        let tail = s.substring_char(i + 1, n);
        if i > 0 && i + 1 < n {
            (Some(head), Some(tail))
        } else {
            (Some(head), None)
        }
    }
}

/// Where `split_on_first` returns both parts, they are `s` cut at its first
/// `c`: the head holds no `c`, and head, `c` and tail make up `s`.
pub proof fn lemma_split_on_first_rejoins(s: Seq<char>, c: char)
    ensures
        split_on_first_spec(s, c) matches (Some(head), Some(tail)) ==> {
            &&& !head.contains(c)
            &&& head + seq![c] + tail == s
        },
        split_on_first_spec(s, c) matches (None, _) ==> !s.contains(c),
{
    s.index_of_first_ensures(c);
    if let Some(i) = s.index_of_first(c) {
        let head = s.subrange(0, i);
        let tail = s.subrange(i + 1, s.len() as int);
        assert(head + seq![c] + tail =~= s);
        if head.contains(c) {
            let j = choose|j: int| 0 <= j < head.len() && head[j] == c;
            assert(s[j] == c);
        }
    }
}

} // verus!
