use crate::bytes::same_bytes;
use crate::error::{GlacierError, Kind};
use crate::stream::request::{find_byte, first_byte, lemma_first_byte, RequestLine, SP};
use vstd::slice::{slice_subrange, slice_to_vec};
use vstd::prelude::*;
use vstd::std_specs::convert::TryFromSpecImpl;
use vstd::string::*;

verus! {

/// The methods that the engine knows by name.
#[derive(Debug, Clone, Copy, PartialEq, Eq, Structural)]
pub enum RequestMethod {
    Get,
    Post,
}

/// The method that a name stands for: `GET` and `POST` are known, and every
/// other name is a malformed request.
pub open spec fn method_of(name: Seq<u8>) -> Result<RequestMethod, GlacierError> {
    if name == "GET".spec_bytes() {
        Ok(RequestMethod::Get)
    } else if name == "POST".spec_bytes() {
        Ok(RequestMethod::Post)
    } else {
        Err(GlacierError::OkErr(Kind::InRequest))
    }
}

impl TryFrom<&str> for RequestMethod {
    type Error = GlacierError;

    fn try_from(value: &str) -> (method: Result<Self, GlacierError>) {
        method_from_bytes(value.as_bytes())
    }
}

impl TryFromSpecImpl<&str> for RequestMethod {
    open spec fn obeys_try_from_spec() -> bool {
        true
    }

    open spec fn try_from_spec(value: &str) -> Result<Self, GlacierError> {
        method_of(value.spec_bytes())
    }
}

/// The fields of a request line as a value.
pub struct LineView {
    pub method: RequestMethod,
    pub uri: Seq<u8>,
    pub version: Seq<u8>,
}

impl View for RequestLine {
    type V = LineView;

    open spec fn view(&self) -> LineView {
        LineView { method: self.method, uri: self.uri@, version: self.version@ }
    }
}

/// The fields of the request line `s`, which are what its spaces separate: the
/// first must name a known method, the second is the URI, the third is the
/// version, and what follows a third space is ignored. A line with fewer than
/// two spaces is malformed.
pub open spec fn line_of(s: Seq<u8>) -> Result<LineView, GlacierError> {
    let n = s.len() as int;
    match first_byte(s, SP, 0, n) {
        None => Err(GlacierError::OkErr(Kind::InRequest)),
        Some(first) => match first_byte(s, SP, first + 1, n) {
            None => Err(GlacierError::OkErr(Kind::InRequest)),
            Some(second) => {
                let end = match first_byte(s, SP, second + 1, n) {
                    Some(third) => third,
                    None => n,
                };
                match method_of(s.take(first)) {
                    Ok(method) => Ok(
                        LineView {
                            method,
                            uri: s.subrange(first + 1, second),
                            version: s.subrange(second + 1, end),
                        },
                    ),
                    Err(e) => Err(e),
                }
            },
        },
    }
}

/// The method that the bytes `name` stand for.
pub fn method_from_bytes(name: &[u8]) -> (method: Result<RequestMethod, GlacierError>)
    ensures
        method == method_of(name@),
{
    if same_bytes(name, "GET".as_bytes()) {
        Ok(RequestMethod::Get)
    } else if same_bytes(name, "POST".as_bytes()) {
        Ok(RequestMethod::Post)
    } else {
        Err(GlacierError::OkErr(Kind::InRequest))
    }
}

impl RequestLine {
    /// Copies the fields out of a request line.
    pub fn try_from(value: &[u8]) -> (line: Result<Self, GlacierError>)
        ensures
            match line {
                Ok(l) => line_of(value@) == Ok::<LineView, GlacierError>(l@),
                Err(e) => line_of(value@) == Err::<LineView, GlacierError>(e),
            },
    {
        let n = value.len();
        let first = match find_byte(value, SP, 0, n) {
            Some(p) => p,
            None => {
                return Err(GlacierError::OkErr(Kind::InRequest));
            },
        };
        proof {
            lemma_first_byte(value@, SP, 0, n as int);
        }
        let second = match find_byte(value, SP, first + 1, n) {
            Some(p) => p,
            None => {
                return Err(GlacierError::OkErr(Kind::InRequest));
            },
        };
        proof {
            lemma_first_byte(value@, SP, first + 1, n as int);
            lemma_first_byte(value@, SP, second + 1, n as int);
        }
        let end = match find_byte(value, SP, second + 1, n) {
            Some(p) => p,
            None => n,
        };
        let method = match method_from_bytes(slice_subrange(value, 0, first)) {
            Ok(m) => m,
            Err(e) => {
                return Err(e);
            },
        };
        Ok(
            RequestLine {
                method,
                uri: slice_to_vec(slice_subrange(value, first + 1, second)),
                version: slice_to_vec(slice_subrange(value, second + 1, end)),
            },
        )
    }
}

} // verus!
