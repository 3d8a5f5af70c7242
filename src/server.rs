use vstd::prelude::*;
use vstd::string::StringSliceAdditionalSpecFns;
use vstd::utf8::encode_utf8;

use crate::parser::{ParseError, ParseStep};
use crate::request::Request;
use crate::text::{bytes_equal, lower, lower_bytes};

verus! {

/// The bytes `connection`.
pub open spec fn connection_key() -> Seq<u8> {
    seq![99u8, 111, 110, 110, 101, 99, 116, 105, 111, 110]
}

/// The bytes `close`.
pub open spec fn close_token() -> Seq<u8> {
    seq![99u8, 108, 111, 115, 101]
}

/// The request carries `connection: close`, its value compared without regard
/// to ASCII case.
pub open spec fn asks_to_close(req: Request) -> bool {
    exists|i: int|
        0 <= i < req.headers@.len() && encode_utf8(#[trigger] req.headers@[i].0@) == connection_key()
            && lower(encode_utf8(req.headers@[i].1@)) == close_token()
}

/// Whether the request asks for its connection to be closed after it.
pub fn has_request_closed(req: &Request) -> (r: bool)
    ensures
        r == asks_to_close(*req),
{
    let mut i: usize = 0;
    while i < req.headers.len()
        invariant
            i <= req.headers@.len(),
            forall|j: int|
                0 <= j < i ==> !(encode_utf8(#[trigger] req.headers@[j].0@) == connection_key() && lower(
                    encode_utf8(req.headers@[j].1@),
                ) == close_token()),
        decreases req.headers@.len() - i,
    {
        let name = req.headers[i].0.as_str().as_bytes();
        let value = lower_bytes(req.headers[i].1.as_str().as_bytes());
        if bytes_equal(name, &[99u8, 111, 110, 110, 101, 99, 116, 105, 111, 110]) && bytes_equal(
            value.as_slice(),
            &[99u8, 108, 111, 115, 101],
        ) {
            return true;
        }
        i = i + 1;
    }
    false
}

/// What a connection does after one attempt to parse a request.
#[derive(Debug, Clone, Copy, PartialEq, Eq, Structural)]
pub enum Action {
    /// Read more bytes from the peer and try again.
    ReadMore,
    /// Answer the request; then close the connection, or go on to the next request.
    Respond { close_after: bool },
    /// The peer ended the connection between requests: close without a report.
    Close,
    /// Close the connection and report the error.
    CloseWithError(ParseError),
}

/// The keep-alive policy: a request is answered, and the connection stays open
/// unless it asked to close; it ends quietly when the peer left between
/// requests, and with a report on any other error.
pub fn next_action(step: &ParseStep) -> (a: Action)
    ensures
        match step {
            ParseStep::Incomplete => a == Action::ReadMore,
            ParseStep::Complete(req, _) => a == Action::Respond { close_after: asks_to_close(*req) },
            ParseStep::Failed(e) => if *e == ParseError::ConnectionAborted {
                a == Action::Close
            } else {
                a == Action::CloseWithError(*e)
            },
        },
{
    match step {
        ParseStep::Incomplete => Action::ReadMore,
        ParseStep::Complete(req, _) => Action::Respond { close_after: has_request_closed(req) },
        ParseStep::Failed(e) => match e {
            ParseError::ConnectionAborted => Action::Close,
            _ => Action::CloseWithError(*e),
        },
    }
}

} // verus!
