//! The two middlewares: inject a value into every request's extension
//! store, and convert every surfaced error into a response so the wrapped
//! service cannot fail.

use crate::error::Never;
use crate::extensions::Extension;
use crate::request::ReqView;
use crate::request::Request;
use crate::service::Service;
use crate::service::Wrap;
use vstd::prelude::*;

verus! {

/// The request with one more extension value stored.
pub open spec fn with_extension(rv: ReqView, e: Extension) -> ReqView {
    ReqView { extensions: rv.extensions.insert(e.kind(), e@), ..rv }
}

/// Wraps a service so that, on each call, a factory-made value is stored in
/// the request's extensions before the inner service runs.
pub struct AddExtension<S, F> {
    pub inner: S,
    pub f: F,
}

impl<S, F> AddExtension<S, F> {
    pub fn new(inner: S, f: F) -> (r: AddExtension<S, F>)
        ensures
            r == (AddExtension { inner, f }),
    {
        AddExtension { inner, f }
    }
}

impl<S, F> Service<Request> for AddExtension<S, F> where
    S: Service<Request>,
    F: Fn() -> Extension,
 {
    type Response = S::Response;

    type Error = S::Error;

    open spec fn ready(&self, req: Request) -> bool {
        &&& req.wf()
        &&& call_requires(self.f, ())
        &&& forall|e: Extension| call_ensures(self.f, (), e) ==> e.wf()
        &&& forall|e: Extension, req2: Request|
            #![trigger call_ensures(self.f, (), e), req2@]
            call_ensures(self.f, (), e) && req2@ == with_extension(req@, e) && req2.wf()
                ==> self.inner.ready(req2)
    }

    open spec fn post(&self, req: Request, r: Result<S::Response, S::Error>) -> bool {
        exists|e: Extension, req2: Request|
            #![trigger call_ensures(self.f, (), e), req2@]
            call_ensures(self.f, (), e) && req2@ == with_extension(req@, e) && req2.wf()
                && self.inner.post(req2, r)
    }

    fn call(&self, req: Request) -> (r: Result<S::Response, S::Error>) {
        let ghost req0 = req;
        let mut req = req;
        let e = (self.f)();
        let ghost ev = e;
        req.extensions.insert(e);
        proof {
            assert(req@ =~~= with_extension(req0@, ev));
        }
        let ghost req2 = req;
        let out = self.inner.call(req);
        proof {
            assert(call_ensures(self.f, (), ev) && req2@ == with_extension(req0@, ev) && req2.wf()
                && self.inner.post(req2, out));
        }
        out
    }
}

/// The wrap that layers [`AddExtension`] around a service.
pub struct AddExtensionWarp<F> {
    pub f: F,
}

impl<F> AddExtensionWarp<F> {
    pub fn new(f: F) -> (r: AddExtensionWarp<F>)
        ensures
            r == (AddExtensionWarp { f }),
    {
        AddExtensionWarp { f }
    }
}

impl<S, F> Wrap<S> for AddExtensionWarp<F> {
    type Service = AddExtension<S, F>;

    open spec fn spec_wrap(self, service: S) -> AddExtension<S, F> {
        AddExtension { inner: service, f: self.f }
    }

    fn wrap(self, service: S) -> (r: AddExtension<S, F>) {
        AddExtension { inner: service, f: self.f }
    }
}

/// Builds the inject-extension wrap around a factory function.
pub fn add_extension<F>(f: F) -> (r: AddExtensionWarp<F>)
    ensures
        r == (AddExtensionWarp { f }),
{
    AddExtensionWarp::new(f)
}

/// Wraps a service whose calls may fail into one whose calls cannot: every
/// surfaced error is turned into a response by the recovery function.
pub struct HandleError<S, F> {
    pub inner: S,
    pub f: F,
}

impl<S, F> HandleError<S, F> {
    pub fn new(inner: S, f: F) -> (r: HandleError<S, F>)
        ensures
            r == (HandleError { inner, f }),
    {
        HandleError { inner, f }
    }
}

impl<S, F, Req> Service<Req> for HandleError<S, F> where
    S: Service<Req>,
    F: Fn(S::Error) -> S::Response,
 {
    type Response = S::Response;

    type Error = Never;

    open spec fn ready(&self, req: Req) -> bool {
        &&& self.inner.ready(req)
        &&& forall|e: S::Error| self.inner.post(req, Err(e)) ==> call_requires(self.f, (e,))
    }

    /// Every call succeeds: with the inner service's own response, or with
    /// the recovery function's image of the inner service's error.
    open spec fn post(&self, req: Req, r: Result<S::Response, Never>) -> bool {
        r matches Ok(res) && {
            ||| self.inner.post(req, Ok(res))
            ||| exists|e: S::Error|
                self.inner.post(req, Err(e)) && call_ensures(self.f, (e,), res)
        }
    }

    fn call(&self, req: Req) -> (r: Result<S::Response, Never>) {
        match self.inner.call(req) {
            Ok(res) => Ok(res),
            Err(e) => Ok((self.f)(e)),
        }
    }
}

impl<S, F> HandleError<S, F> {
    /// Starts one recovery task: the inner service runs, and its
    /// yet-unrecovered outcome is parked in a pending task.
    pub fn call_future<Req>(&self, req: Req) -> (r: HandleErrorFuture<S::Response, S::Error, F>)
        where
            S: Service<Req>,
            F: Fn(S::Error) -> S::Response + Copy,

        requires
            self.inner.ready(req),
            forall|e: S::Error| self.inner.post(req, Err(e)) ==> call_requires(self.f, (e,)),
        ensures
            r matches HandleErrorFuture::Incomplete { out, f } && self.inner.post(req, out) && f
                == self.f && (out matches Err(e) ==> call_requires(f, (e,))),
    {
        let out = self.inner.call(req);
        let f = self.f;
        HandleErrorFuture::Incomplete { out, f }
    }
}

/// The per-call task of the error-handling middleware: pending until its
/// result is taken, complete afterwards. The recovery function runs exactly
/// once per call; resolving a completed task is forbidden, so a stale
/// result can never be handed out.
pub enum HandleErrorFuture<Res, E, F> {
    /// The inner outcome is parked; the recovery function has not run.
    Incomplete { out: Result<Res, E>, f: F },
    /// The result has been taken.
    Complete,
}

impl<Res, E, F: FnOnce(E) -> Res> HandleErrorFuture<Res, E, F> {
    /// Resolves the task, running the recovery function on an error
    /// outcome. The task must still be pending; afterwards it is complete.
    pub fn poll(&mut self) -> (r: Result<Res, Never>)
        requires
            *old(self) matches HandleErrorFuture::Incomplete { out, f } && (out matches Err(e)
                ==> call_requires(f, (e,))),
        ensures
            *final(self) is Complete,
            (*old(self)) matches HandleErrorFuture::Incomplete { out, f } && (r matches Ok(res)
                && {
                ||| out == Ok::<Res, E>(res)
                ||| (out matches Err(e) && call_ensures(f, (e,), res))
            }),
    {
        let mut prev = HandleErrorFuture::Complete;
        core::mem::swap(self, &mut prev);
        match prev {
            HandleErrorFuture::Incomplete { out, f } => {
                match out {
                    Ok(res) => Ok(res),
                    Err(e) => Ok(f(e)),
                }
            },
            HandleErrorFuture::Complete => vstd::pervasive::unreached(),
        }
    }
}

/// The wrap that layers [`HandleError`] around a service.
pub struct HandleErrorWap<F> {
    pub f: F,
}

impl<F> HandleErrorWap<F> {
    pub fn new(f: F) -> (r: HandleErrorWap<F>)
        ensures
            r == (HandleErrorWap { f }),
    {
        HandleErrorWap { f }
    }
}

impl<F, S> Wrap<S> for HandleErrorWap<F> {
    type Service = HandleError<S, F>;

    open spec fn spec_wrap(self, service: S) -> HandleError<S, F> {
        HandleError { inner: service, f: self.f }
    }

    fn wrap(self, service: S) -> (r: HandleError<S, F>) {
        HandleError { inner: service, f: self.f }
    }
}

/// Builds the error-handling wrap around a recovery function.
pub fn handle_error<F>(f: F) -> (r: HandleErrorWap<F>)
    ensures
        r == (HandleErrorWap { f }),
{
    HandleErrorWap::new(f)
}

} // verus!
