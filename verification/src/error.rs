use vstd::prelude::*;

verus! {

/// What went wrong, without any detail.
#[derive(Debug, Clone, Copy, PartialEq, Eq, Structural)]
pub enum Kind {
    /// The request is malformed: a request line or a header cannot be parsed.
    InRequest,
    /// The server itself failed.
    InServer,
    /// The transport failed.
    IOErr,
    /// Bytes that had to be read as text are not UTF-8.
    UTF8Error,
    /// No data arrived within the read deadline.
    TimeOutErr,
    /// The peer closed the connection.
    EofErr,
}

/// An error kind together with a human-readable description.
#[derive(Debug, Clone, PartialEq, Eq)]
pub struct ErrInfo {
    pub kind: Kind,
    pub description: String,
}

/// The single error value that every fallible operation of the engine returns.
#[derive(Debug, Clone, PartialEq, Eq)]
pub enum GlacierError {
    /// A failure that is worth a description.
    NotOkErr(ErrInfo),
    /// A failure that is fully described by its kind.
    OkErr(Kind),
    /// Something that was looked up is not there: a cache entry, an expected line.
    Option,
}

impl GlacierError {
    /// The kind carried by this error, `None` for a missing value.
    pub open spec fn kind_spec(self) -> Option<Kind> {
        match self {
            GlacierError::NotOkErr(info) => Some(info.kind),
            GlacierError::OkErr(kind) => Some(kind),
            GlacierError::Option => None,
        }
    }

    /// Whether this error is part of the normal life of a connection: the peer
    /// went away or stayed silent.
    pub open spec fn routine_spec(self) -> bool {
        self.kind_spec() == Some(Kind::EofErr) || self.kind_spec() == Some(Kind::TimeOutErr)
    }

    /// Builds an error of the given kind with a description.
    pub fn new(kind: Kind, description: &str) -> (err: GlacierError)
        ensures
            err matches GlacierError::NotOkErr(info) && info.kind == kind && info.description@
                == description@,
    {
        GlacierError::NotOkErr(ErrInfo { kind, description: description.to_owned() })
    }

    /// The kind carried by this error.
    pub fn kind(&self) -> (kind: Option<Kind>)
        ensures
            kind == self.kind_spec(),
    {
        match self {
            GlacierError::NotOkErr(info) => Some(info.kind),
            GlacierError::OkErr(kind) => Some(*kind),
            GlacierError::Option => None,
        }
    }

    /// Tells end-of-stream and timeouts, which close a connection without being
    /// failures, from every other error.
    pub fn is_routine(&self) -> (routine: bool)
        ensures
            routine == self.routine_spec(),
    {
        match self.kind() {
            Some(Kind::EofErr) => true,
            Some(Kind::TimeOutErr) => true,
            _ => false,
        }
    }
}

} // verus!
