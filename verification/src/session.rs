//! The per-connection protocol state machine. A session sees one CRLF-
//! terminated line of the connection at a time and decides what to do with
//! it: keep reading past empty lines, treat the first non-empty line as the
//! request line, and, once the caller has fetched the requested file, frame
//! exactly one response. Reading the connection and the filesystem is the
//! caller's business; the session only decides.

use vstd::prelude::*;
use vstd::slice::slice_subrange;

use crate::parser::Method;
use crate::parser::ParseError;
use crate::parser::Request;
use crate::parser::parse_http1;
use crate::parser::parse_spec;
use crate::response::not_found_response;
use crate::response::not_found_response_spec;
use crate::response::ok_response;
use crate::response::ok_response_spec;

verus! {

/// A line is empty when it holds nothing beyond its CRLF terminator.
pub open spec fn line_is_empty(line: Seq<u8>) -> bool {
    line.len() <= 2
}

/// `line` without one trailing CRLF terminator, if it carries one.
pub open spec fn strip_crlf(line: Seq<u8>) -> Seq<u8> {
    if line.len() >= 2 && line[line.len() - 2] == 13 && line[line.len() - 1] == 10 {
        line.take(line.len() - 2)
    } else {
        line
    }
}

/// What the session decides about one line.
pub enum LineStep<'a> {
    /// The line carries nothing to act on: read the next one.
    KeepReading,
    /// The line is the request line and parsed: fetch the requested path's
    /// contents, then let the session respond.
    Answer(Request<'a>),
    /// The line is the request line and did not parse: the connection is
    /// beyond saving and is to be dropped without a response.
    Abort(ParseError),
}

/// One connection's state: whether the line before the current one was
/// empty, and whether the one response of this connection has been framed.
pub struct Session {
    pub last_empty: bool,
    pub answered: bool,
}

impl Session {
    /// A fresh session for a newly accepted connection.
    pub fn new() -> (s: Session)
        ensures
            !s.last_empty,
            !s.answered,
    {
        Session { last_empty: false, answered: false }
    }

    /// Judge one line, terminator still attached. Empty lines, and every
    /// line after the response, are passed over; the first non-empty line
    /// is the request line and is parsed without its terminator.
    pub fn on_line<'a>(&mut self, line: &'a [u8]) -> (r: LineStep<'a>)
        ensures
            final(self).answered == old(self).answered,
            final(self).last_empty == line_is_empty(line@),
            match r {
                LineStep::KeepReading => line_is_empty(line@) || old(self).answered,
                LineStep::Answer(req) => !line_is_empty(line@) && !old(self).answered
                    && req.method == Method::GET && parse_spec(strip_crlf(line@)) == Ok::<
                    (Seq<char>, Seq<char>),
                    ParseError,
                >((req.path@, req.version@)),
                LineStep::Abort(e) => !line_is_empty(line@) && !old(self).answered && parse_spec(
                    strip_crlf(line@),
                ) == Err::<(Seq<char>, Seq<char>), ParseError>(e),
            },
    {
        let empty = line.len() <= 2;
        let answered = self.answered;
        self.last_empty = empty;
        if empty || answered {
            LineStep::KeepReading
        } else {
            let content = trim_crlf(line);
            match parse_http1(content) {
                Ok(req) => LineStep::Answer(req),
                Err(e) => LineStep::Abort(e),
            }
        }
    }

    /// Frame the one response of this connection: the file's contents under
    /// a `200 OK` when the requested file was readable, the bare
    /// `404 NOT FOUND` when it was not.
    pub fn respond(&mut self, contents: Option<&[u8]>) -> (r: Vec<u8>)
        requires
            !old(self).answered,
        ensures
            final(self).answered,
            final(self).last_empty == old(self).last_empty,
            match contents {
                Some(body) => r@ == ok_response_spec(body@),
                None => r@ == not_found_response_spec(),
            },
    {
        self.answered = true;
        match contents {
            Some(body) => ok_response(body),
            None => not_found_response(),
        }
    }
}

/// Drop one trailing CRLF terminator from `line`, if it carries one.
fn trim_crlf<'a>(line: &'a [u8]) -> (r: &'a [u8])
    ensures
        r@ == strip_crlf(line@),
{
    let n = line.len();
    if n >= 2 && line[n - 2] == 13 && line[n - 1] == 10 {
        slice_subrange(line, 0, n - 2)
    } else {
        line
    }
}

} // verus!
