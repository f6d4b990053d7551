use vstd::prelude::*;
use vstd::string::*;

verus! {

broadcast use vstd::string::group_string_axioms;

/// The state that the server reports: `ok`, and the version it runs.
#[derive(Clone)]
pub struct Status {
    status: String,
    version: String,
}

impl Status {
    /// The reported state.
    pub closed spec fn status_view(&self) -> Seq<char> {
        self.status@
    }

    /// The reported version.
    pub closed spec fn version_view(&self) -> Seq<char> {
        self.version@
    }

    /// The status of a server of version `version` that is up.
    pub fn new(version: &str) -> (r: Status)
        ensures
            r.status_view() == seq!['o', 'k'],
            r.version_view() == version@,
    {
        let ok = "ok";
        proof {
            reveal_strlit("ok");
        }
        Status { status: ok.to_owned(), version: version.to_owned() }
    }

    /// The status with state `status` and version `version`, as read back
    /// from a server.
    pub fn from_parts(status: &str, version: &str) -> (r: Status)
        ensures
            r.status_view() == status@,
            r.version_view() == version@,
    {
        Status { status: status.to_owned(), version: version.to_owned() }
    }

    /// The version that the server runs.
    pub fn version(&self) -> (r: &str)
        ensures
            r@ == self.version_view(),
    {
        self.version.as_str()
    }

    /// The reported state.
    pub fn status(&self) -> (r: &str)
        ensures
            r@ == self.status_view(),
    {
        self.status.as_str()
    }
}

} // verus!
