//! The routing errors and the erased service error.
//!
//! Both routing errors own the request they were raised for, so a fallback
//! handler downstream can inspect it and dispatch it again.

use crate::request::ReqView;
use crate::request::Request;
use vstd::prelude::*;

verus! {

/// No route pattern matched the request path.
#[derive(Debug)]
pub struct NotFound {
    request: Request,
}

impl NotFound {
    /// The request this error owns.
    pub closed spec fn spec_request(self) -> Request {
        self.request
    }

    pub fn new(request: Request) -> (r: NotFound)
        ensures
            r.spec_request() == request,
    {
        NotFound { request }
    }

    pub fn request_ref(&self) -> (r: &Request)
        ensures
            *r == self.spec_request(),
    {
        &self.request
    }

    pub fn request_mut(&mut self) -> (r: &mut Request)
        ensures
            *r == old(self).spec_request(),
            final(self).spec_request() == *final(r),
    {
        &mut self.request
    }

    /// Hands the owned request back.
    pub fn into_request(self) -> (r: Request)
        ensures
            r == self.spec_request(),
    {
        self.request
    }

    /// A short displayable description of the error.
    pub fn description(&self) -> (r: &'static str)
        ensures
            r@ == "route not found"@,
    {
        "route not found"
    }
}

/// The path matched a route, but no service is registered for the request's
/// method.
#[derive(Debug)]
pub struct MethodNotAllowed {
    request: Request,
}

impl MethodNotAllowed {
    /// The request this error owns.
    pub closed spec fn spec_request(self) -> Request {
        self.request
    }

    pub fn new(request: Request) -> (r: MethodNotAllowed)
        ensures
            r.spec_request() == request,
    {
        MethodNotAllowed { request }
    }

    pub fn request_ref(&self) -> (r: &Request)
        ensures
            *r == self.spec_request(),
    {
        &self.request
    }

    pub fn request_mut(&mut self) -> (r: &mut Request)
        ensures
            *r == old(self).spec_request(),
            final(self).spec_request() == *final(r),
    {
        &mut self.request
    }

    /// Hands the owned request back.
    pub fn into_request(self) -> (r: Request)
        ensures
            r == self.spec_request(),
    {
        self.request
    }

    /// A short displayable description of the error.
    pub fn description(&self) -> (r: &'static str)
        ensures
            r@ == "method not allowed"@,
    {
        "method not allowed"
    }
}

/// The erased error that routed services surface: one of the two routing
/// errors, or an opaque message from a concrete service.
#[derive(Debug)]
pub enum BoxError {
    NotFound(Box<NotFound>),
    MethodNotAllowed(Box<MethodNotAllowed>),
    Message(Vec<u8>),
}

/// The mathematical value of a [`BoxError`].
pub enum BoxErrorView {
    NotFound(ReqView),
    MethodNotAllowed(ReqView),
    Message(Seq<u8>),
}

impl View for BoxError {
    type V = BoxErrorView;

    open spec fn view(&self) -> BoxErrorView {
        match self {
            BoxError::NotFound(e) => BoxErrorView::NotFound(e.spec_request()@),
            BoxError::MethodNotAllowed(e) => BoxErrorView::MethodNotAllowed(e.spec_request()@),
            BoxError::Message(m) => BoxErrorView::Message(m@),
        }
    }
}

impl BoxError {
    /// Erases a not-found error.
    pub fn from_not_found(e: NotFound) -> (r: BoxError)
        ensures
            r matches BoxError::NotFound(b) && *b == e,
    {
        BoxError::NotFound(Box::new(e))
    }

    /// Erases a method-not-allowed error.
    pub fn from_method_not_allowed(e: MethodNotAllowed) -> (r: BoxError)
        ensures
            r matches BoxError::MethodNotAllowed(b) && *b == e,
    {
        BoxError::MethodNotAllowed(Box::new(e))
    }
}

/// The error type of a service that cannot fail: no constructor is
/// offered, so no value of it is ever made.
#[derive(Debug)]
pub struct Never {
    _private: (),
}

} // verus!
