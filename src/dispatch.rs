//! Per-request decisions of the dispatcher: which endpoint to invoke, and
//! the reply the dispatcher gives itself where no endpoint answers.

use vstd::prelude::*;
use crate::params::{pairs_map, ParameterMap};
use crate::table::{tree_match, RouteTable};

verus! {

/// Status of a reply for a path that no route matches.
pub const NOT_FOUND: u16 = 404;

/// Status of a reply for a request whose endpoint failed.
pub const INTERNAL_ERROR: u16 = 500;

/// A status in the success class.
pub open spec fn is_success(status: u16) -> bool {
    200 <= status < 300
}

/// Body of a not-found reply where no not-found template renders.
pub open spec fn not_found_text() -> Seq<char> {
    "Not Found"@
}

/// Body of the reply to a failed endpoint.
pub open spec fn internal_error_text() -> Seq<char> {
    "Internal Server Error"@
}

/// A reply composed by the dispatcher itself.
pub struct Reply {
    pub status: u16,
    pub body: String,
}

/// What to do with a request once its path has been looked up.
pub enum Plan {
    /// Invoke the endpoint in `slot` with the bound parameters.
    Invoke { slot: usize, params: ParameterMap },
    /// No route matches: reply not-found.
    NotFound,
}

/// How an endpoint invocation ended.
pub enum Outcome<R> {
    /// It returned a response.
    Completed(R),
    /// It failed unexpectedly (it panicked or was aborted).
    Faulted,
}

/// Looks `path` up in `table` and decides what to do with the request.
pub fn plan<E>(table: &RouteTable<E>, path: &str) -> (r: Plan)
    requires
        table.wf(),
    ensures
        match tree_match(table.history(), path@) {
            None => r is NotFound,
            Some((slot, pairs)) => r matches Plan::Invoke { slot: s, params } && s == slot
                && params.wf() && params@ == pairs_map(pairs),
        },
        r matches Plan::Invoke { slot, .. } ==> slot < table@.len(),
{
    match table.lookup(path) {
        Some((slot, params)) => Plan::Invoke { slot, params },
        None => Plan::NotFound,
    }
}

/// The reply to a path that no route matches: status not-found, with the
/// rendered not-found template as body where there is one, else a plain text.
pub fn not_found_reply(rendered: Option<String>) -> (r: Reply)
    ensures
        r.status == NOT_FOUND,
        !is_success(r.status),
        match rendered {
            Some(text) => r.body@ == text@,
            None => r.body@ == not_found_text(),
        },
{
    match rendered {
        Some(text) => Reply { status: NOT_FOUND, body: text },
        None => {
            proof {
                reveal_strlit("Not Found");
            }
            Reply { status: NOT_FOUND, body: String::from_str("Not Found") }
        },
    }
}

/// Settles an endpoint's outcome: a response is passed on as it is; a fault
/// becomes the dispatcher's own internal-error reply.
pub fn settle<R>(outcome: Outcome<R>) -> (r: Result<R, Reply>)
    ensures
        match outcome {
            Outcome::Completed(resp) => r == Ok::<R, Reply>(resp),
            Outcome::Faulted => r matches Err(reply) && reply.status == INTERNAL_ERROR
                && !is_success(reply.status) && reply.body@ == internal_error_text(),
        },
{
    match outcome {
        Outcome::Completed(resp) => Ok(resp),
        Outcome::Faulted => {
            proof {
                reveal_strlit("Internal Server Error");
            }
            Err(Reply { status: INTERNAL_ERROR, body: String::from_str("Internal Server Error") })
        },
    }
}

} // verus!
