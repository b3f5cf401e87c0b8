//! Structural combinators over services: transform the request, the
//! response, the error or the whole outcome of an inner service, box a
//! service, or choose between two service types at runtime.

use crate::service::Service;
use crate::service::Wrap;
use vstd::prelude::*;

verus! {

/// Rewrites the request before delegating to the inner service.
pub struct MapRequest<S, F> {
    pub inner: S,
    pub f: F,
}

impl<S, F> MapRequest<S, F> {
    pub fn new(inner: S, f: F) -> (r: MapRequest<S, F>)
        ensures
            r == (MapRequest { inner, f }),
    {
        MapRequest { inner, f }
    }
}

impl<S, F, R1, R2> Service<R1> for MapRequest<S, F> where S: Service<R2>, F: Fn(R1) -> R2 {
    type Response = S::Response;

    type Error = S::Error;

    open spec fn ready(&self, req: R1) -> bool {
        &&& call_requires(self.f, (req,))
        &&& forall|r2: R2| call_ensures(self.f, (req,), r2) ==> self.inner.ready(r2)
    }

    open spec fn post(&self, req: R1, r: Result<S::Response, S::Error>) -> bool {
        exists|r2: R2| call_ensures(self.f, (req,), r2) && self.inner.post(r2, r)
    }

    fn call(&self, req: R1) -> (r: Result<S::Response, S::Error>) {
        let req2 = (self.f)(req);
        self.inner.call(req2)
    }
}

/// Rewrites a successful response after the inner service has answered;
/// errors pass through untouched.
pub struct MapResponse<S, F> {
    pub inner: S,
    pub f: F,
}

impl<S, F> MapResponse<S, F> {
    pub fn new(inner: S, f: F) -> (r: MapResponse<S, F>)
        ensures
            r == (MapResponse { inner, f }),
    {
        MapResponse { inner, f }
    }
}

impl<S, F, Req, Res> Service<Req> for MapResponse<S, F> where
    S: Service<Req>,
    F: Fn(S::Response) -> Res,
 {
    type Response = Res;

    type Error = S::Error;

    open spec fn ready(&self, req: Req) -> bool {
        &&& self.inner.ready(req)
        &&& forall|res: S::Response|
            self.inner.post(req, Ok(res)) ==> call_requires(self.f, (res,))
    }

    open spec fn post(&self, req: Req, r: Result<Res, S::Error>) -> bool {
        match r {
            Ok(res2) => exists|res: S::Response|
                self.inner.post(req, Ok(res)) && call_ensures(self.f, (res,), res2),
            Err(e) => self.inner.post(req, Err(e)),
        }
    }

    fn call(&self, req: Req) -> (r: Result<Res, S::Error>) {
        match self.inner.call(req) {
            Ok(res) => Ok((self.f)(res)),
            Err(e) => Err(e),
        }
    }
}

/// Rewrites an error after the inner service has answered; the success
/// path is untouched.
pub struct MapErr<S, F> {
    pub inner: S,
    pub f: F,
}

impl<S, F> MapErr<S, F> {
    pub fn new(inner: S, f: F) -> (r: MapErr<S, F>)
        ensures
            r == (MapErr { inner, f }),
    {
        MapErr { inner, f }
    }
}

impl<S, F, Req, E> Service<Req> for MapErr<S, F> where S: Service<Req>, F: Fn(S::Error) -> E {
    type Response = S::Response;

    type Error = E;

    open spec fn ready(&self, req: Req) -> bool {
        &&& self.inner.ready(req)
        &&& forall|e: S::Error| self.inner.post(req, Err(e)) ==> call_requires(self.f, (e,))
    }

    open spec fn post(&self, req: Req, r: Result<S::Response, E>) -> bool {
        match r {
            Ok(res) => self.inner.post(req, Ok(res)),
            Err(e2) => exists|e: S::Error|
                self.inner.post(req, Err(e)) && call_ensures(self.f, (e,), e2),
        }
    }

    fn call(&self, req: Req) -> (r: Result<S::Response, E>) {
        match self.inner.call(req) {
            Ok(res) => Ok(res),
            Err(e) => Err((self.f)(e)),
        }
    }
}

/// Replaces the inner service's pending computation by a function of it: in
/// this synchronous model, rewrites the complete outcome, success and error
/// at once.
pub struct MapFuture<S, F> {
    pub inner: S,
    pub f: F,
}

impl<S, F> MapFuture<S, F> {
    pub fn new(inner: S, f: F) -> (r: MapFuture<S, F>)
        ensures
            r == (MapFuture { inner, f }),
    {
        MapFuture { inner, f }
    }
}

impl<S, F, Req, Res, E> Service<Req> for MapFuture<S, F> where
    S: Service<Req>,
    F: Fn(Result<S::Response, S::Error>) -> Result<Res, E>,
 {
    type Response = Res;

    type Error = E;

    open spec fn ready(&self, req: Req) -> bool {
        &&& self.inner.ready(req)
        &&& forall|o: Result<S::Response, S::Error>|
            self.inner.post(req, o) ==> call_requires(self.f, (o,))
    }

    open spec fn post(&self, req: Req, r: Result<Res, E>) -> bool {
        exists|o: Result<S::Response, S::Error>|
            self.inner.post(req, o) && call_ensures(self.f, (o,), r)
    }

    fn call(&self, req: Req) -> (r: Result<Res, E>) {
        let out = self.inner.call(req);
        (self.f)(out)
    }
}

/// Runs a second fallible step after a success of the inner service,
/// chaining two stages that share an error type.
pub struct AndThen<S, F> {
    pub inner: S,
    pub f: F,
}

impl<S, F> AndThen<S, F> {
    pub fn new(inner: S, f: F) -> (r: AndThen<S, F>)
        ensures
            r == (AndThen { inner, f }),
    {
        AndThen { inner, f }
    }
}

impl<S, F, Req, Res> Service<Req> for AndThen<S, F> where
    S: Service<Req>,
    F: Fn(S::Response) -> Result<Res, S::Error>,
 {
    type Response = Res;

    type Error = S::Error;

    open spec fn ready(&self, req: Req) -> bool {
        &&& self.inner.ready(req)
        &&& forall|res: S::Response|
            self.inner.post(req, Ok(res)) ==> call_requires(self.f, (res,))
    }

    open spec fn post(&self, req: Req, r: Result<Res, S::Error>) -> bool {
        ||| exists|res: S::Response|
            self.inner.post(req, Ok(res)) && call_ensures(self.f, (res,), r)
        ||| (r matches Err(e) && self.inner.post(req, Err(e)))
    }

    fn call(&self, req: Req) -> (r: Result<Res, S::Error>) {
        match self.inner.call(req) {
            Ok(res) => (self.f)(res),
            Err(e) => Err(e),
        }
    }
}

/// A service moved to the heap: delegation through one uniform indirection.
pub struct BoxService<S> {
    pub inner: Box<S>,
}

impl<S> BoxService<S> {
    pub fn new(inner: S) -> (r: BoxService<S>)
        ensures
            *r.inner == inner,
    {
        BoxService { inner: Box::new(inner) }
    }
}

impl<S, Req> Service<Req> for BoxService<S> where S: Service<Req> {
    type Response = S::Response;

    type Error = S::Error;

    open spec fn ready(&self, req: Req) -> bool {
        self.inner.ready(req)
    }

    open spec fn post(&self, req: Req, r: Result<S::Response, S::Error>) -> bool {
        self.inner.post(req, r)
    }

    fn call(&self, req: Req) -> (r: Result<S::Response, S::Error>) {
        (*self.inner).call(req)
    }
}

/// One of two services; both must answer with the same types. The closed
/// substitute for heterogeneous route tables: distinct concrete services
/// combine into one service type.
pub enum Either<A, B> {
    Left(A),
    Right(B),
}

impl<A, B, Req, Res, E> Service<Req> for Either<A, B> where
    A: Service<Req, Response = Res, Error = E>,
    B: Service<Req, Response = Res, Error = E>,
 {
    type Response = Res;

    type Error = E;

    open spec fn ready(&self, req: Req) -> bool {
        match self {
            Either::Left(a) => a.ready(req),
            Either::Right(b) => b.ready(req),
        }
    }

    open spec fn post(&self, req: Req, r: Result<Res, E>) -> bool {
        match self {
            Either::Left(a) => a.post(req, r),
            Either::Right(b) => b.post(req, r),
        }
    }

    fn call(&self, req: Req) -> (r: Result<Res, E>) {
        match self {
            Either::Left(a) => a.call(req),
            Either::Right(b) => b.call(req),
        }
    }
}

/// A service made from one function: calling the service calls the
/// function.
pub struct ServiceFn<F> {
    pub f: F,
}

/// Wraps a plain function as a service.
pub fn service_fn<F>(f: F) -> (r: ServiceFn<F>)
    ensures
        r == (ServiceFn { f }),
{
    ServiceFn { f }
}

impl<F, Req, Res, E> Service<Req> for ServiceFn<F> where F: Fn(Req) -> Result<Res, E> {
    type Response = Res;

    type Error = E;

    open spec fn ready(&self, req: Req) -> bool {
        call_requires(self.f, (req,))
    }

    open spec fn post(&self, req: Req, r: Result<Res, E>) -> bool {
        call_ensures(self.f, (req,), r)
    }

    fn call(&self, req: Req) -> (r: Result<Res, E>) {
        (self.f)(req)
    }
}

/// Combinator constructors as methods, so services compose by chaining.
pub trait ServiceExt<Req>: Service<Req> {
    /// Rewrites the request before this service sees it.
    fn map_request<F>(self, f: F) -> (r: MapRequest<Self, F>)
        ensures
            r == (MapRequest { inner: self, f }),
    {
        MapRequest { inner: self, f }
    }

    /// Rewrites this service's successful responses.
    fn map_response<F>(self, f: F) -> (r: MapResponse<Self, F>)
        ensures
            r == (MapResponse { inner: self, f }),
    {
        MapResponse { inner: self, f }
    }

    /// Rewrites this service's whole outcome.
    fn map_future<F>(self, f: F) -> (r: MapFuture<Self, F>)
        ensures
            r == (MapFuture { inner: self, f }),
    {
        MapFuture { inner: self, f }
    }

    /// Rewrites this service's errors.
    fn map_err<F>(self, f: F) -> (r: MapErr<Self, F>)
        ensures
            r == (MapErr { inner: self, f }),
    {
        MapErr { inner: self, f }
    }

    /// Runs a second fallible step after this service succeeds.
    fn and_then<F>(self, f: F) -> (r: AndThen<Self, F>)
        ensures
            r == (AndThen { inner: self, f }),
    {
        AndThen { inner: self, f }
    }

    /// Moves this service to the heap.
    fn boxed(self) -> (r: BoxService<Self>)
        ensures
            *r.inner == self,
    {
        BoxService { inner: Box::new(self) }
    }

    /// Layers a middleware wrap around this service.
    fn with<T: Wrap<Self>>(self, wrap: T) -> (r: T::Service)
        ensures
            r == wrap.spec_wrap(self),
    {
        wrap.wrap(self)
    }
}

impl<S, Req> ServiceExt<Req> for S where S: Service<Req> {

}

} // verus!
