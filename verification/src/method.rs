//! Per-path dispatch by HTTP method: eight optional service slots, one per
//! standard method, filled builder-style and read-only afterwards.

use crate::body::BoxBody;
use crate::error::BoxError;
use crate::error::MethodNotAllowed;
use crate::http::Method;
use crate::request::Request;
use crate::response::Response;
use crate::router::RouteFuture;
use crate::service::Service;
use vstd::prelude::*;

verus! {

/// A dispatch table keyed by HTTP method. A request is handed to the slot
/// of its method; a request whose method has no slot resolves to a
/// method-not-allowed error that owns the request.
///
/// Every slot is tested against its own method: in particular, a TRACE
/// request reaches only the TRACE slot.
pub struct MethodRouter<S> {
    get: Option<S>,
    post: Option<S>,
    put: Option<S>,
    delete: Option<S>,
    head: Option<S>,
    patch: Option<S>,
    trace: Option<S>,
    options: Option<S>,
}

impl<S> MethodRouter<S> {
    /// The service registered for `m`, if any.
    pub closed spec fn spec_slot(self, m: Method) -> Option<S> {
        match m {
            Method::Get => self.get,
            Method::Post => self.post,
            Method::Put => self.put,
            Method::Delete => self.delete,
            Method::Head => self.head,
            Method::Patch => self.patch,
            Method::Trace => self.trace,
            Method::Options => self.options,
        }
    }

    /// A table with no slot filled: every request is refused.
    pub fn new() -> (r: MethodRouter<S>)
        ensures
            forall|m: Method| #[trigger] r.spec_slot(m) is None,
    {
        MethodRouter {
            get: None,
            post: None,
            put: None,
            delete: None,
            head: None,
            patch: None,
            trace: None,
            options: None,
        }
    }

    /// Registers (or overwrites) the GET slot.
    pub fn get(self, service: S) -> (r: MethodRouter<S>)
        ensures
            r.spec_slot(Method::Get) == Some(service),
            forall|m: Method| m != Method::Get ==> #[trigger] r.spec_slot(m) == self.spec_slot(m),
    {
        MethodRouter { get: Some(service), ..self }
    }

    /// Registers (or overwrites) the POST slot.
    pub fn post(self, service: S) -> (r: MethodRouter<S>)
        ensures
            r.spec_slot(Method::Post) == Some(service),
            forall|m: Method| m != Method::Post ==> #[trigger] r.spec_slot(m) == self.spec_slot(m),
    {
        MethodRouter { post: Some(service), ..self }
    }

    /// Registers (or overwrites) the PUT slot.
    pub fn put(self, service: S) -> (r: MethodRouter<S>)
        ensures
            r.spec_slot(Method::Put) == Some(service),
            forall|m: Method| m != Method::Put ==> #[trigger] r.spec_slot(m) == self.spec_slot(m),
    {
        MethodRouter { put: Some(service), ..self }
    }

    /// Registers (or overwrites) the DELETE slot.
    pub fn delete(self, service: S) -> (r: MethodRouter<S>)
        ensures
            r.spec_slot(Method::Delete) == Some(service),
            forall|m: Method|
                m != Method::Delete ==> #[trigger] r.spec_slot(m) == self.spec_slot(m),
    {
        MethodRouter { delete: Some(service), ..self }
    }

    /// Registers (or overwrites) the HEAD slot.
    pub fn head(self, service: S) -> (r: MethodRouter<S>)
        ensures
            r.spec_slot(Method::Head) == Some(service),
            forall|m: Method| m != Method::Head ==> #[trigger] r.spec_slot(m) == self.spec_slot(m),
    {
        MethodRouter { head: Some(service), ..self }
    }

    /// Registers (or overwrites) the PATCH slot.
    pub fn patch(self, service: S) -> (r: MethodRouter<S>)
        ensures
            r.spec_slot(Method::Patch) == Some(service),
            forall|m: Method| m != Method::Patch ==> #[trigger] r.spec_slot(m) == self.spec_slot(m),
    {
        MethodRouter { patch: Some(service), ..self }
    }

    /// Registers (or overwrites) the TRACE slot.
    pub fn trace(self, service: S) -> (r: MethodRouter<S>)
        ensures
            r.spec_slot(Method::Trace) == Some(service),
            forall|m: Method| m != Method::Trace ==> #[trigger] r.spec_slot(m) == self.spec_slot(m),
    {
        MethodRouter { trace: Some(service), ..self }
    }

    /// Registers (or overwrites) the OPTIONS slot.
    pub fn options(self, service: S) -> (r: MethodRouter<S>)
        ensures
            r.spec_slot(Method::Options) == Some(service),
            forall|m: Method|
                m != Method::Options ==> #[trigger] r.spec_slot(m) == self.spec_slot(m),
    {
        MethodRouter { options: Some(service), ..self }
    }
}

impl<S: Service<Request, Response = Response<BoxBody>, Error = BoxError>> MethodRouter<S> {
    /// Whether the slot a dispatch of `req` would reach accepts it.
    pub open spec fn slot_ready(self, req: Request) -> bool {
        match self.spec_slot(req@.method) {
            Some(svc) => svc.ready(req),
            None => true,
        }
    }

    /// What a dispatch of `req` may hand back: with no slot for its
    /// method, a pending error task owning `req` unchanged inside a
    /// method-not-allowed error; else a pending task around the slot
    /// service's outcome for the untouched request.
    pub open spec fn dispatch_post(self, req: Request, r: RouteFuture) -> bool {
        match self.spec_slot(req@.method) {
            Some(svc) => r matches RouteFuture::Future { fut } && fut matches Some(out)
                && svc.post(req, out),
            None => r matches RouteFuture::Error { err } && err matches Some(e)
                && e matches BoxError::MethodNotAllowed(mna) && mna.spec_request() == req,
        }
    }

    /// Dispatches one request to the slot of its method.
    pub fn dispatch(&self, req: Request) -> (r: RouteFuture)
        requires
            self.slot_ready(req),
        ensures
            self.dispatch_post(req, r),
            !r.is_completed(),
    {
        let slot = match req.method {
            Method::Get => &self.get,
            Method::Post => &self.post,
            Method::Put => &self.put,
            Method::Delete => &self.delete,
            Method::Head => &self.head,
            Method::Patch => &self.patch,
            Method::Trace => &self.trace,
            Method::Options => &self.options,
        };
        match slot {
            Some(svc) => {
                let out = svc.call(req);
                RouteFuture::Future { fut: Some(out) }
            },
            None => {
                let mna = MethodNotAllowed::new(req);
                RouteFuture::Error { err: Some(BoxError::from_method_not_allowed(mna)) }
            },
        }
    }
}

impl<S: Service<Request, Response = Response<BoxBody>, Error = BoxError>> Service<Request> for MethodRouter<
    S,
> {
    type Response = Response<BoxBody>;

    type Error = BoxError;

    open spec fn ready(&self, req: Request) -> bool {
        self.slot_ready(req)
    }

    open spec fn post(&self, req: Request, r: Result<Response<BoxBody>, BoxError>) -> bool {
        match self.spec_slot(req@.method) {
            Some(svc) => svc.post(req, r),
            None => r matches Err(e) && e matches BoxError::MethodNotAllowed(mna)
                && mna.spec_request() == req,
        }
    }

    fn call(&self, req: Request) -> (r: Result<Response<BoxBody>, BoxError>) {
        let mut fut = self.dispatch(req);
        fut.poll()
    }
}

/// Starts a method table with the GET slot filled.
pub fn get<S>(service: S) -> (r: MethodRouter<S>)
    ensures
        r.spec_slot(Method::Get) == Some(service),
        forall|m: Method| m != Method::Get ==> #[trigger] r.spec_slot(m) is None,
{
    MethodRouter::new().get(service)
}

/// Starts a method table with the POST slot filled.
pub fn post<S>(service: S) -> (r: MethodRouter<S>)
    ensures
        r.spec_slot(Method::Post) == Some(service),
        forall|m: Method| m != Method::Post ==> #[trigger] r.spec_slot(m) is None,
{
    MethodRouter::new().post(service)
}

/// Starts a method table with the PUT slot filled.
pub fn put<S>(service: S) -> (r: MethodRouter<S>)
    ensures
        r.spec_slot(Method::Put) == Some(service),
        forall|m: Method| m != Method::Put ==> #[trigger] r.spec_slot(m) is None,
{
    MethodRouter::new().put(service)
}

/// Starts a method table with the DELETE slot filled.
pub fn delete<S>(service: S) -> (r: MethodRouter<S>)
    ensures
        r.spec_slot(Method::Delete) == Some(service),
        forall|m: Method| m != Method::Delete ==> #[trigger] r.spec_slot(m) is None,
{
    MethodRouter::new().delete(service)
}

/// Starts a method table with the HEAD slot filled.
pub fn head<S>(service: S) -> (r: MethodRouter<S>)
    ensures
        r.spec_slot(Method::Head) == Some(service),
        forall|m: Method| m != Method::Head ==> #[trigger] r.spec_slot(m) is None,
{
    MethodRouter::new().head(service)
}

/// Starts a method table with the PATCH slot filled.
pub fn patch<S>(service: S) -> (r: MethodRouter<S>)
    ensures
        r.spec_slot(Method::Patch) == Some(service),
        forall|m: Method| m != Method::Patch ==> #[trigger] r.spec_slot(m) is None,
{
    MethodRouter::new().patch(service)
}

/// Starts a method table with the TRACE slot filled.
pub fn trace<S>(service: S) -> (r: MethodRouter<S>)
    ensures
        r.spec_slot(Method::Trace) == Some(service),
        forall|m: Method| m != Method::Trace ==> #[trigger] r.spec_slot(m) is None,
{
    MethodRouter::new().trace(service)
}

/// Starts a method table with the OPTIONS slot filled.
pub fn options<S>(service: S) -> (r: MethodRouter<S>)
    ensures
        r.spec_slot(Method::Options) == Some(service),
        forall|m: Method| m != Method::Options ==> #[trigger] r.spec_slot(m) is None,
{
    MethodRouter::new().options(service)
}

} // verus!
