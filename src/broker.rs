//! The decisions of the request broker and of its clients.
//!
//! The broker reads one line per connection. A line that is not a request is
//! answered with a parse error and nothing is done; a request is carried out
//! once and answered with its outcome.
use vstd::prelude::*;
use crate::protocol::{Request, Response, failure_view, parse_error_response};

verus! {

/// What the broker does with a line it has read.
#[derive(Clone, Debug)]
pub enum BrokerStep {
    /// Carry out the request, then answer with its outcome.
    Execute(Request),
    /// Answer at once, carrying out nothing.
    Reply(Response),
}

/// The broker's step for a line, given the result of parsing it: the parsed
/// request, or the parser's message.
pub fn accept_line(parsed: Result<Request, String>) -> (r: BrokerStep)
    ensures
        parsed matches Ok(req) ==> r matches BrokerStep::Execute(q) && q@ == req@,
        parsed matches Err(e) ==> r matches BrokerStep::Reply(resp) && resp@ == failure_view(
            "parse error: "@ + e@,
        ),
{
    match parsed {
        Ok(req) => BrokerStep::Execute(req),
        Err(e) => BrokerStep::Reply(parse_error_response(e.as_str())),
    }
}

} // verus!
