use crate::stream::request::OneRequest;
use crate::stream::response::Response;
use vstd::prelude::*;

verus! {

/// Runs a request through a filter, which hands it on or turns it away.
pub trait FilterExt<E>: Sized {
    /// What `f` makes of the request.
    fn filter_with<F: Fn(OneRequest) -> Result<OneRequest, E>>(self, f: F) -> (passed: Result<
        OneRequest,
        E,
    >)
        requires
            f.requires((self.as_request(),)),
        ensures
            f.ensures((self.as_request(),), passed),
    ;

    /// The request that the filter gets.
    spec fn as_request(self) -> OneRequest;
}

impl<E> FilterExt<E> for OneRequest {
    fn filter_with<F: Fn(OneRequest) -> Result<OneRequest, E>>(self, f: F) -> (passed: Result<
        OneRequest,
        E,
    >) {
        f(self)
    }

    open spec fn as_request(self) -> OneRequest {
        self
    }
}

/// Hands a request to the handler that answers it.
pub trait ApplyExt<E>: Sized {
    /// What `f` answers to the request.
    fn apply<F: Fn(OneRequest) -> Result<Response, E>>(self, f: F) -> (answer: Result<Response, E>)
        requires
            f.requires((self.as_handled(),)),
        ensures
            f.ensures((self.as_handled(),), answer),
    ;

    /// The request that the handler gets.
    spec fn as_handled(self) -> OneRequest;
}

impl<E> ApplyExt<E> for OneRequest {
    fn apply<F: Fn(OneRequest) -> Result<Response, E>>(self, f: F) -> (answer: Result<
        Response,
        E,
    >) {
        f(self)
    }

    open spec fn as_handled(self) -> OneRequest {
        self
    }
}

} // verus!
