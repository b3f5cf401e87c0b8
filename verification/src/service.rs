//! The uniform service contract: an object that turns a request into a
//! response or an error, and the wrap protocol that layers behaviour
//! around such an object.

use vstd::prelude::*;

verus! {

/// An object that handles a request of type `Req`, producing its response
/// type or its error type.
///
/// Each implementation states its own admissible requests in [`Service::ready`]
/// and its own input/output relation in [`Service::post`]: `call` demands the
/// former and establishes the latter. Combinators compose these relations, so
/// what a stack of wrapped services guarantees is derived, not assumed.
pub trait Service<Req>: Sized {
    type Response;

    type Error;

    /// The requests this service may be called with.
    spec fn ready(&self, req: Req) -> bool;

    /// The input/output relation of this service: which outcomes a call on
    /// `req` may produce.
    spec fn post(&self, req: Req, r: Result<Self::Response, Self::Error>) -> bool;

    /// Handles one request. Distinct calls are independent; the service is
    /// taken by shared reference and keeps no call-to-call state.
    fn call(&self, req: Req) -> (r: Result<Self::Response, Self::Error>)
        requires
            self.ready(req),
        ensures
            self.post(req, r),
    ;
}

/// The middleware protocol: an object that, given an inner service, builds
/// an outer service embedding it.
pub trait Wrap<S>: Sized {
    type Service;

    /// The service this wrap produces around `service`.
    spec fn spec_wrap(self, service: S) -> Self::Service;

    /// Builds the outer service.
    fn wrap(self, service: S) -> (r: Self::Service)
        ensures
            r == self.spec_wrap(service),
    ;
}

} // verus!
