use vstd::prelude::*;

verus! {

/// What `serde_json` gives for `text` read as a JSON array of strings: the
/// strings in order, or nothing where `text` is not such an array.
pub uninterp spec fn json_string_array(text: Seq<char>) -> Option<Seq<Seq<char>>>;

/// The texts of a sequence of strings.
pub open spec fn string_views(v: Seq<String>) -> Seq<Seq<char>> {
    v.map_values(|s: String| s@)
}

/// Calls `serde_json::from_str::<Vec<String>>` and keeps the list, or nothing
/// where it reports an error. Claimed: the outcome is a function of the text
/// alone (named `json_string_array`). Not claimed: which texts parse, nor how
/// escapes are read.
#[verifier::external_body]
fn parse_json_string_array(text: &str) -> (r: Option<Vec<String>>)
    ensures
        match r {
            Some(v) => json_string_array(text@) == Some(string_views(v@)),
            None => json_string_array(text@) is None,
        },
{
    serde_json::from_str::<Vec<String>>(text).ok()
}

/// The malicious domains listed in the body of the server's answer; nothing
/// where the body is not a JSON array of strings.
pub fn malicious_domains_from_body(body: &str) -> (r: Option<Vec<String>>)
    ensures
        match r {
            Some(v) => json_string_array(body@) == Some(string_views(v@)),
            None => json_string_array(body@) is None,
        },
{
    parse_json_string_array(body)
}

} // verus!
