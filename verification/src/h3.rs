//! The HTTP/3 service wrapper: it owns the inner service and maps its
//! readiness onto the service error. The QUIC transport and the stream
//! loop live entirely in the IO shell.

use crate::error::HttpServiceError;
use vstd::prelude::*;

verus! {

/// Wraps a request service for serving over HTTP/3. No upgrade or expect
/// services take part on this path.
pub struct H3Service<S> {
    service: S,
}

impl<S> H3Service<S> {
    /// The wrapped service.
    pub closed spec fn spec_service(&self) -> S {
        self.service
    }

    pub fn new(service: S) -> (r: Self)
        ensures
            r.spec_service() == service,
    {
        H3Service { service }
    }

    /// A reference to the wrapped service, for the shell that drives it.
    pub fn service(&self) -> (r: &S)
        ensures
            *r == self.spec_service(),
    {
        &self.service
    }
}

/// Readiness of the HTTP/3 service: the inner service's readiness, with
/// its error mapped to the readiness error.
pub fn h3_ready(inner_ready: bool) -> (r: Result<(), HttpServiceError>)
    ensures
        inner_ready ==> r is Ok,
        !inner_ready ==> r == Result::<(), HttpServiceError>::Err(HttpServiceError::ServiceReady),
{
    if inner_ready {
        Ok(())
    } else {
        Err(HttpServiceError::ServiceReady)
    }
}

} // verus!
