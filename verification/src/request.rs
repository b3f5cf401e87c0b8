//! The incoming message: method, target, headers, protocol version, the
//! per-request extension store, and a body.

use crate::body::Body;
use crate::body::BoxBody;
use crate::extensions::ExtKind;
use crate::extensions::Extensions;
use crate::extensions::ExtensionView;
use crate::http::HeaderMap;
use crate::http::Method;
use crate::http::Uri;
use crate::http::UriView;
use crate::http::Version;
use crate::http::SLASH;
use vstd::prelude::*;

verus! {

/// A request travelling through the router and the matched service.
#[derive(Debug)]
pub struct Request {
    pub method: Method,
    pub uri: Uri,
    pub headers: HeaderMap,
    pub version: Version,
    pub extensions: Extensions,
    pub body: BoxBody,
}

/// The mathematical value of a [`Request`].
pub struct ReqView {
    pub method: Method,
    pub uri: UriView,
    pub headers: Seq<(Seq<u8>, Seq<u8>)>,
    pub version: Version,
    pub extensions: Map<ExtKind, ExtensionView>,
    pub body_chunks: Seq<Seq<u8>>,
    pub body_failure: Option<Seq<u8>>,
}

impl View for Request {
    type V = ReqView;

    open spec fn view(&self) -> ReqView {
        ReqView {
            method: self.method,
            uri: self.uri@,
            headers: self.headers@,
            version: self.version,
            extensions: self.extensions@,
            body_chunks: self.body.chunks(),
            body_failure: self.body.failure(),
        }
    }
}

impl Request {
    /// The header collection and extension store are well-formed.
    pub open spec fn wf(self) -> bool {
        self.headers.wf() && self.extensions.wf()
    }

    /// A GET request for `/` with the given body and no headers.
    pub fn new(body: BoxBody) -> (r: Request)
        ensures
            r@.method == Method::Get,
            r@.uri.path == seq![SLASH],
            r@.uri.query is None,
            r@.uri.scheme is None,
            r@.uri.authority is None,
            r@.headers == Seq::<(Seq<u8>, Seq<u8>)>::empty(),
            r@.version == Version::Http11,
            r@.extensions == Map::<ExtKind, ExtensionView>::empty(),
            r@.body_chunks == body.chunks(),
            r@.body_failure == body.failure(),
            r.wf(),
    {
        let mut path: Vec<u8> = Vec::new();
        path.push(SLASH);
        proof {
            assert(path@ =~= seq![SLASH]);
        }
        Request {
            method: Method::Get,
            uri: Uri { scheme: None, authority: None, path, query: None },
            headers: HeaderMap::new(),
            version: Version::Http11,
            extensions: Extensions::new(),
            body: body,
        }
    }

    pub fn method(&self) -> (r: &Method)
        ensures
            *r == self@.method,
    {
        &self.method
    }

    pub fn uri(&self) -> (r: &Uri)
        ensures
            r@ == self@.uri,
    {
        &self.uri
    }

    pub fn headers(&self) -> (r: &HeaderMap)
        ensures
            r@ == self@.headers,
    {
        &self.headers
    }

    pub fn version(&self) -> (r: &Version)
        ensures
            *r == self@.version,
    {
        &self.version
    }

    pub fn extensions(&self) -> (r: &Extensions)
        ensures
            r@ == self@.extensions,
            self.wf() ==> r.wf(),
    {
        &self.extensions
    }

    pub fn body(&self) -> (r: &BoxBody)
        ensures
            r.chunks() == self@.body_chunks,
            r.failure() == self@.body_failure,
    {
        &self.body
    }

    /// Hands the body out, discarding the envelope.
    pub fn into_body(self) -> (r: BoxBody)
        ensures
            r.chunks() == self@.body_chunks,
            r.failure() == self@.body_failure,
    {
        self.body
    }
}

} // verus!
