//! Verified core of the DNS security check: how a test key travels inside a
//! DNS name, how DNS traffic on port 53 is recognised and answered, how the
//! plain "ping" probe is answered, and the decisions that the check's client
//! and server take on what they receive.

pub mod constants;
pub mod dns;
pub mod dns_protocol;
pub mod http_client;
pub mod net;
pub mod util;

pub use dns_protocol::is_dns_packet;

use vstd::prelude::*;
use vstd::string::*;

verus! {

broadcast use vstd::string::group_string_axioms;

/// The note shown before the help text: program name and version, license,
/// copyright and authors.
pub fn legal_note(name: &str, version: &str, authors: &str) -> (r: String)
    ensures
        r@ == name@ + " ("@ + version@ + "). Licensed under "@ + constants::LICENSE@ + ". "@
            + constants::COPYRIGHT@ + " represented by <"@ + authors@ + ">."@,
{
    let mut r = String::from_str(name);
    r.append(" (");
    r.append(version);
    r.append("). Licensed under ");
    r.append(constants::LICENSE);
    r.append(". ");
    r.append(constants::COPYRIGHT);
    r.append(" represented by <");
    r.append(authors);
    r.append(">.");
    r
}

/// The version as shown by `--version`: in parentheses, followed by a full
/// stop.
pub fn version(crate_version: &str) -> (r: String)
    ensures
        r@ == "("@ + crate_version@ + ")."@,
{
    let mut r = String::from_str("(");
    r.append(crate_version);
    r.append(").");
    r
}

} // verus!
