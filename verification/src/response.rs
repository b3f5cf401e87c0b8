//! The outgoing message: a head (status, headers, version, extensions) and a
//! body, with a fallible builder for assembling heads field by field.

use crate::body::BoxBody;
use crate::extensions::ExtKind;
use crate::extensions::Extension;
use crate::extensions::Extensions;
use crate::extensions::ExtensionView;
use crate::http::lower_bytes;
use crate::http::to_lower_bytes;
use crate::http::is_valid_header_name;
use crate::http::is_valid_header_value;
use crate::http::valid_header_name;
use crate::http::valid_header_value;
use crate::http::valid_status;
use crate::http::HeaderMap;
use crate::http::HttpError;
use crate::http::StatusCode;
use crate::http::Version;
use vstd::prelude::*;

verus! {

/// Everything of a response but its body.
#[derive(Debug)]
pub struct Head {
    pub headers: HeaderMap,
    pub version: Version,
    pub status: StatusCode,
    pub extensions: Extensions,
}

/// The mathematical value of a [`Head`].
pub struct HeadView {
    pub headers: Seq<(Seq<u8>, Seq<u8>)>,
    pub version: Version,
    pub status: u16,
    pub extensions: Map<ExtKind, ExtensionView>,
}

impl View for Head {
    type V = HeadView;

    open spec fn view(&self) -> HeadView {
        HeadView {
            headers: self.headers@,
            version: self.version,
            status: self.status.spec_code(),
            extensions: self.extensions@,
        }
    }
}

/// The value of a freshly made head: no headers, HTTP/1.1, status 200 OK,
/// no extensions.
pub open spec fn default_head_view() -> HeadView {
    HeadView {
        headers: Seq::empty(),
        version: Version::Http11,
        status: 200,
        extensions: Map::empty(),
    }
}

impl Head {
    /// The header collection, status and extension store are well-formed.
    pub open spec fn wf(self) -> bool {
        self.headers.wf() && self.status.wf() && self.extensions.wf()
    }

    /// A head with no headers, HTTP/1.1, status 200 OK and no extensions.
    pub fn new() -> (r: Head)
        ensures
            r@ == default_head_view(),
            r.wf(),
    {
        let r = Head {
            headers: HeaderMap::new(),
            version: Version::Http11,
            status: StatusCode::default(),
            extensions: Extensions::new(),
        };
        proof {
            assert(r@ =~~= default_head_view());
        }
        r
    }
}

impl Default for Head {
    fn default() -> (r: Head)
        ensures
            r@ == default_head_view(),
            r.wf(),
    {
        Head::new()
    }
}

/// An outgoing message: a head and a body.
#[derive(Debug)]
pub struct Response<B> {
    pub head: Head,
    pub body: B,
}

impl Response<()> {
    /// Starts a fallible head builder.
    pub fn builder() -> (r: Builder)
        ensures
            r.state() matches Ok(h) && h@ == default_head_view() && h.wf(),
            r.wf(),
    {
        Builder::new()
    }
}

impl<B> Response<B> {
    /// The head is well-formed.
    pub open spec fn wf(self) -> bool {
        self.head.wf()
    }

    /// Wraps `body` under a fresh default head.
    pub fn new(body: B) -> (r: Response<B>)
        ensures
            r.head@ == default_head_view(),
            r.body == body,
            r.wf(),
    {
        Response { head: Head::new(), body }
    }

    /// Assembles a response from an already built head and a body.
    pub fn from_head(head: Head, body: B) -> (r: Response<B>)
        ensures
            r.head == head,
            r.body == body,
    {
        Response { head, body }
    }

    pub fn headers(&self) -> (r: &HeaderMap)
        ensures
            *r == self.head.headers,
    {
        &self.head.headers
    }

    pub fn headers_mut(&mut self) -> (r: &mut HeaderMap)
        ensures
            *r == old(self).head.headers,
            final(self).head.headers == *final(r),
            final(self).head.version == old(self).head.version,
            final(self).head.status == old(self).head.status,
            final(self).head.extensions == old(self).head.extensions,
            final(self).body == old(self).body,
    {
        &mut self.head.headers
    }

    pub fn status(&self) -> (r: &StatusCode)
        ensures
            *r == self.head.status,
    {
        &self.head.status
    }

    pub fn status_mut(&mut self) -> (r: &mut StatusCode)
        ensures
            *r == old(self).head.status,
            final(self).head.status == *final(r),
            final(self).head.headers == old(self).head.headers,
            final(self).head.version == old(self).head.version,
            final(self).head.extensions == old(self).head.extensions,
            final(self).body == old(self).body,
    {
        &mut self.head.status
    }

    pub fn version(&self) -> (r: &Version)
        ensures
            *r == self.head.version,
    {
        &self.head.version
    }

    pub fn version_mut(&mut self) -> (r: &mut Version)
        ensures
            *r == old(self).head.version,
            final(self).head.version == *final(r),
            final(self).head.headers == old(self).head.headers,
            final(self).head.status == old(self).head.status,
            final(self).head.extensions == old(self).head.extensions,
            final(self).body == old(self).body,
    {
        &mut self.head.version
    }

    pub fn extensions(&self) -> (r: &Extensions)
        ensures
            *r == self.head.extensions,
    {
        &self.head.extensions
    }

    pub fn extensions_mut(&mut self) -> (r: &mut Extensions)
        ensures
            *r == old(self).head.extensions,
            final(self).head.extensions == *final(r),
            final(self).head.headers == old(self).head.headers,
            final(self).head.version == old(self).head.version,
            final(self).head.status == old(self).head.status,
            final(self).body == old(self).body,
    {
        &mut self.head.extensions
    }

    pub fn body(&self) -> (r: &B)
        ensures
            *r == self.body,
    {
        &self.body
    }

    pub fn body_mut(&mut self) -> (r: &mut B)
        ensures
            *r == old(self).body,
            final(self).body == *final(r),
            final(self).head == old(self).head,
    {
        &mut self.body
    }

    /// Hands the body out, discarding the head.
    pub fn into_body(self) -> (r: B)
        ensures
            r == self.body,
    {
        self.body
    }

    /// Splits the response into its head and its body.
    pub fn into_head(self) -> (r: (Head, B))
        ensures
            r.0 == self.head,
            r.1 == self.body,
    {
        (self.head, self.body)
    }

    /// Replaces the body by `f` of it, keeping the head.
    pub fn map<F: FnOnce(B) -> U, U>(self, f: F) -> (r: Response<U>)
        requires
            call_requires(f, (self.body,)),
        ensures
            r.head == self.head,
            call_ensures(f, (self.body,), r.body),
    {
        Response { head: self.head, body: f(self.body) }
    }
}

impl<B: Default> Default for Response<B> {
    /// A default response wraps the default body under a default head.
    fn default() -> (r: Response<B>)
        ensures
            r.head@ == default_head_view(),
            r.wf(),
            call_ensures(<B as Default>::default, (), r.body),
    {
        Response::new(B::default())
    }
}

/// Assembles a [`Head`] field by field; the first rejected field turns the
/// builder into that error, which then survives every later step.
#[derive(Debug)]
pub struct Builder {
    inner: Result<Head, HttpError>,
}

impl Builder {
    /// The head built so far, or the first error.
    pub closed spec fn state(self) -> Result<Head, HttpError> {
        self.inner
    }

    /// A head still under construction is well-formed.
    pub closed spec fn wf(self) -> bool {
        self.inner matches Ok(h) ==> h.wf()
    }

    pub fn new() -> (r: Builder)
        ensures
            r.state() matches Ok(h) && h@ == default_head_view() && h.wf(),
            r.wf(),
    {
        Builder { inner: Ok(Head::new()) }
    }

    /// Appends a header field. The name is folded to lower case; an
    /// ill-formed name or value turns the builder into the matching error.
    pub fn header(self, name: Vec<u8>, value: Vec<u8>) -> (r: Builder)
        requires
            self.wf(),
        ensures
            r.wf(),
            self.state() matches Err(e) ==> r.state() == Err::<Head, HttpError>(e),
            (self.state() is Ok && valid_header_name(lower_bytes(name@)) && valid_header_value(
                value@,
            )) ==> (self.state() matches Ok(h) && r.state() matches Ok(h2) && h2@.headers
                == h@.headers.push((lower_bytes(name@), value@)) && h2@.version == h@.version
                && h2@.status == h@.status && h2@.extensions == h@.extensions),
            (self.state() is Ok && !valid_header_name(lower_bytes(name@))) ==> r.state() == Err::<
                Head,
                HttpError,
            >(HttpError::InvalidHeaderName(name)),
            (self.state() is Ok && valid_header_name(lower_bytes(name@)) && !valid_header_value(
                value@,
            )) ==> r.state() == Err::<Head, HttpError>(HttpError::InvalidHeaderValue(value)),
    {
        match self.inner {
            Err(e) => Builder { inner: Err(e) },
            Ok(mut head) => {
                let lname = to_lower_bytes(&name);
                if !is_valid_header_name(&lname) {
                    Builder { inner: Err(HttpError::InvalidHeaderName(name)) }
                } else if !is_valid_header_value(&value) {
                    Builder { inner: Err(HttpError::InvalidHeaderValue(value)) }
                } else {
                    head.headers.append(name, value);
                    Builder { inner: Ok(head) }
                }
            },
        }
    }

    /// Sets the status code; an integer outside the valid range turns the
    /// builder into the matching error.
    pub fn status(self, code: u16) -> (r: Builder)
        requires
            self.wf(),
        ensures
            r.wf(),
            self.state() matches Err(e) ==> r.state() == Err::<Head, HttpError>(e),
            (self.state() is Ok && valid_status(code)) ==> (self.state() matches Ok(h)
                && r.state() matches Ok(h2) && h2@.headers == h@.headers && h2@.version
                == h@.version && h2@.status == code && h2@.extensions == h@.extensions),
            (self.state() is Ok && !valid_status(code)) ==> r.state() == Err::<Head, HttpError>(
                HttpError::InvalidStatus(code),
            ),
    {
        match self.inner {
            Err(e) => Builder { inner: Err(e) },
            Ok(mut head) => {
                match StatusCode::from_u16(code) {
                    Ok(status) => {
                        head.status = status;
                        Builder { inner: Ok(head) }
                    },
                    Err(e) => Builder { inner: Err(e) },
                }
            },
        }
    }

    /// Stores an extension value, replacing any stored value of its kind.
    pub fn extensions(self, value: Extension) -> (r: Builder)
        requires
            self.wf(),
            value.wf(),
        ensures
            r.wf(),
            self.state() matches Err(e) ==> r.state() == Err::<Head, HttpError>(e),
            self.state() is Ok ==> (self.state() matches Ok(h) && r.state() matches Ok(h2)
                && h2@.headers == h@.headers && h2@.version == h@.version && h2@.status
                == h@.status && h2@.extensions == h@.extensions.insert(value.kind(), value@)),
    {
        match self.inner {
            Err(e) => Builder { inner: Err(e) },
            Ok(mut head) => {
                head.extensions.insert(value);
                Builder { inner: Ok(head) }
            },
        }
    }

    /// Borrows the headers assembled so far mutably, if no error occurred.
    pub fn headers_mut(&mut self) -> (r: Option<&mut HeaderMap>)
        ensures
            old(self).state() is Err ==> r is None && *final(self) == *old(self),
            old(self).state() matches Ok(h) ==> (r matches Some(m) && *m == h.headers && (
            final(self).state() matches Ok(h2) && h2.headers == *final(m) && h2.version == h.version
                && h2.status == h.status && h2.extensions == h.extensions)),
    {
        match &mut self.inner {
            Ok(head) => Some(&mut head.headers),
            Err(_) => None,
        }
    }

    /// Borrows the extension store assembled so far mutably, if no error
    /// occurred.
    pub fn extensions_mut(&mut self) -> (r: Option<&mut Extensions>)
        ensures
            old(self).state() is Err ==> r is None && *final(self) == *old(self),
            old(self).state() matches Ok(h) ==> (r matches Some(m) && *m == h.extensions && (
            final(self).state() matches Ok(h2) && h2.extensions == *final(m) && h2.version
                == h.version && h2.status == h.status && h2.headers == h.headers)),
    {
        match &mut self.inner {
            Ok(head) => Some(&mut head.extensions),
            Err(_) => None,
        }
    }

    pub fn headers_ref(&self) -> (r: Option<&HeaderMap>)
        ensures
            self.state() matches Ok(h) ==> (r matches Some(m) && *m == h.headers),
            self.state() is Err ==> r is None,
    {
        match &self.inner {
            Ok(head) => Some(&head.headers),
            Err(_) => None,
        }
    }

    pub fn status_ref(&self) -> (r: Option<&StatusCode>)
        ensures
            self.state() matches Ok(h) ==> (r matches Some(s) && *s == h.status),
            self.state() is Err ==> r is None,
    {
        match &self.inner {
            Ok(head) => Some(&head.status),
            Err(_) => None,
        }
    }

    pub fn version_ref(&self) -> (r: Option<&Version>)
        ensures
            self.state() matches Ok(h) ==> (r matches Some(v) && *v == h.version),
            self.state() is Err ==> r is None,
    {
        match &self.inner {
            Ok(head) => Some(&head.version),
            Err(_) => None,
        }
    }

    pub fn extensions_ref(&self) -> (r: Option<&Extensions>)
        ensures
            self.state() matches Ok(h) ==> (r matches Some(e) && *e == h.extensions),
            self.state() is Err ==> r is None,
    {
        match &self.inner {
            Ok(head) => Some(&head.extensions),
            Err(_) => None,
        }
    }

    /// Closes the builder over a body: the response, or the first error.
    pub fn body<B>(self, body: B) -> (r: Result<Response<B>, HttpError>)
        requires
            self.wf(),
        ensures
            self.state() matches Ok(h) ==> (r matches Ok(resp) && resp.head == h && resp.body
                == body && resp.wf()),
            self.state() matches Err(e) ==> r == Err::<Response<B>, HttpError>(e),
    {
        match self.inner {
            Ok(head) => Ok(Response { head, body }),
            Err(e) => Err(e),
        }
    }
}

/// A value that can stand as a response: the route tables hold services
/// whose results are carried to this one shape.
pub trait IntoResponse: Sized {
    /// Which responses this value may become.
    spec fn response_post(self, r: Response<BoxBody>) -> bool;

    /// Turns the value into a response.
    fn into_response(self) -> (r: Response<BoxBody>)
        ensures
            self.response_post(r),
    ;
}

impl IntoResponse for Response<BoxBody> {
    /// A response stands for itself.
    open spec fn response_post(self, r: Response<BoxBody>) -> bool {
        r == self
    }

    fn into_response(self) -> (r: Response<BoxBody>) {
        self
    }
}

} // verus!
