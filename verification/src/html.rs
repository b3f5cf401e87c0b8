//! A response whose body is HTML text: wrapping a body marks the response
//! with the HTML content type.

use crate::body::Body;
use crate::body::BoxBody;
use crate::extract::content_type_name;
use crate::response::default_head_view;
use crate::response::IntoResponse;
use crate::response::Response;
use vstd::prelude::*;

verus! {

/// A body to be served as HTML.
#[derive(Debug)]
pub struct Html<B>(pub B);

/// Marks `b` as HTML content.
pub fn html<B>(b: B) -> (r: Html<B>)
    ensures
        r == (Html(b)),
{
    Html(b)
}

/// The header value `text/html; charset=utf-8`, as bytes.
pub open spec fn html_content_type() -> Seq<u8> {
    seq![116u8, 101u8, 120u8, 116u8, 47u8, 104u8, 116u8, 109u8, 108u8, 59u8, 32u8, 99u8, 104u8, 97u8, 114u8, 115u8, 101u8, 116u8, 61u8, 117u8, 116u8, 102u8, 45u8, 56u8]
}

fn html_content_type_bytes() -> (r: Vec<u8>)
    ensures
        r@ == html_content_type(),
{
    let mut r: Vec<u8> = Vec::new();
    r.push(116);
    r.push(101);
    r.push(120);
    r.push(116);
    r.push(47);
    r.push(104);
    r.push(116);
    r.push(109);
    r.push(108);
    r.push(59);
    r.push(32);
    r.push(99);
    r.push(104);
    r.push(97);
    r.push(114);
    r.push(115);
    r.push(101);
    r.push(116);
    r.push(61);
    r.push(117);
    r.push(116);
    r.push(102);
    r.push(45);
    r.push(56);
    proof {
        assert(r@ =~= html_content_type());
    }
    r
}

impl<B: Body> IntoResponse for Html<B> {
    /// The response carries the body's content under a fresh head whose
    /// single header declares the HTML content type.
    open spec fn response_post(self, r: Response<BoxBody>) -> bool {
        &&& r.head@.headers == seq![(content_type_name(), html_content_type())]
        &&& r.head@.status == default_head_view().status
        &&& r.head@.version == default_head_view().version
        &&& r.head@.extensions == default_head_view().extensions
        &&& r.body.chunks() == self.0.chunks()
        &&& r.body.failure() == self.0.failure()
        &&& r.wf()
    }

    fn into_response(self) -> (r: Response<BoxBody>) {
        let Html(b) = self;
        let mut resp = Response::new(BoxBody::new(b));
        let name = crate::extract::content_type_name_bytes();
        let value = html_content_type_bytes();
        proof {
            assert(crate::http::lower_bytes(name@) =~= content_type_name());
        }
        resp.head.headers.insert(name, value);
        proof {
            assert(resp.head@.headers =~~= seq![(content_type_name(), html_content_type())]);
        }
        resp
    }
}

} // verus!
