//! The HTTP interface of the service: where its single route is mounted,
//! which query parameter names the object to process, and what it answers.

use vstd::prelude::*;
use vstd::string::*;

verus! {

/// How the web server exposes the processing request.
pub struct RouteTable {
    /// The path the route is mounted at.
    pub base: String,
    /// The query parameter carrying the name of the object to process.
    pub query_param: String,
    /// The body answered once the request has been handled.
    pub response: String,
}

pub open spec fn spec_base() -> Seq<char> {
    seq!['/']
}

pub open spec fn spec_query_param() -> Seq<char> {
    seq!['n']
}

pub open spec fn spec_response() -> Seq<char> {
    seq!['F', 'i', 'n', 'i', 's', 'h', 'e', 'd', '!']
}

/// The server's routes: `GET /?<n>` mounted at `/`, answering `Finished!`
/// after the object named `n` has been handled.
pub fn rocket() -> (r: RouteTable)
    ensures
        r.base@ == spec_base(),
        r.query_param@ == spec_query_param(),
        r.response@ == spec_response(),
{
    proof {
        reveal_strlit("/");
        reveal_strlit("n");
        reveal_strlit("Finished!");
        assert("/"@ =~= spec_base());
        assert("n"@ =~= spec_query_param());
        assert("Finished!"@ =~= spec_response());
    }
    RouteTable {
        base: String::from_str("/"),
        query_param: String::from_str("n"),
        response: String::from_str("Finished!"),
    }
}

} // verus!
