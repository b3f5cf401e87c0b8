//! Extraction helpers: read captured route parameters, header values and
//! content-type information out of a request.

use crate::extensions::ExtKind;
use crate::extensions::Extension;
use crate::http::header_lookup;
use crate::http::lower_bytes;
use crate::http::DIGIT_0;
use crate::http::PLUS;
use crate::http::DIGIT_9;
use crate::params::pairs_map;
use crate::params::Params;
use crate::request::Request;
use crate::router::params_view_of;
use vstd::prelude::*;

verus! {

/// An error while reading a route parameter.
#[derive(Debug)]
pub enum ExtractParamError {
    /// No parameter of this name was captured.
    MissingParam { name: Vec<u8> },
    /// The captured text is not a value of the requested form.
    InvalidParam { name: Vec<u8> },
}

/// An error while reading a request header.
#[derive(Debug)]
pub enum ExtractHeaderError {
    /// No header field of this name is present.
    MissingHeader { name: Vec<u8> },
    /// The header value is not readable text.
    InvalidHeader { name: Vec<u8> },
}

/// The parameters captured while routing, if the request was routed.
pub fn params(request: &Request) -> (r: Option<&Vec<(Vec<u8>, Vec<u8>)>>)
    requires
        request.wf(),
    ensures
        r matches Some(v) ==> request@.extensions.contains_key(ExtKind::Params) && pairs_map(
            v.deep_view(),
        ) == params_view_of(request@),
        r is None ==> !request@.extensions.contains_key(ExtKind::Params),
{
    match request.extensions.get(ExtKind::Params) {
        Some(Extension::Params(p)) => Some(p.get_ref()),
        Some(_) => vstd::pervasive::unreached(),
        None => None,
    }
}

/// The raw captured text of the parameter `name`, if it was bound.
pub fn param_raw<'a>(request: &'a Request, name: &Vec<u8>) -> (r: Option<&'a Vec<u8>>)
    requires
        request.wf(),
    ensures
        r matches Some(v) ==> params_view_of(request@).contains_key(name@) && v@ == params_view_of(
            request@,
        )[name@],
        r is None ==> !params_view_of(request@).contains_key(name@),
{
    match request.extensions.get(ExtKind::Params) {
        Some(Extension::Params(p)) => p.get(name),
        Some(_) => vstd::pervasive::unreached(),
        None => None,
    }
}

/// Whether `s` is a non-empty run of decimal digits.
pub open spec fn all_digits(s: Seq<u8>) -> bool {
    s.len() > 0 && forall|i: int| 0 <= i < s.len() ==> DIGIT_0 <= #[trigger] s[i] <= DIGIT_9
}

/// The number a run of decimal digits denotes.
pub open spec fn digits_value(s: Seq<u8>) -> int
    decreases s.len(),
{
    if s.len() == 0 {
        0
    } else {
        digits_value(s.drop_last()) * 10 + (s.last() - DIGIT_0)
    }
}

/// A run of digits denotes a number.
proof fn lemma_digits_value_nonneg(s: Seq<u8>)
    requires
        forall|j: int| 0 <= j < s.len() ==> DIGIT_0 <= #[trigger] s[j] <= DIGIT_9,
    ensures
        digits_value(s) >= 0,
    decreases s.len(),
{
    if s.len() > 0 {
        lemma_digits_value_nonneg(s.drop_last());
    }
}

/// Appending digits never shrinks the denoted number.
proof fn lemma_digits_value_grows(s: Seq<u8>, i: int)
    requires
        0 <= i <= s.len(),
        forall|j: int| 0 <= j < s.len() ==> DIGIT_0 <= #[trigger] s[j] <= DIGIT_9,
    ensures
        digits_value(s.take(i)) <= digits_value(s),
    decreases s.len() - i,
{
    if i < s.len() {
        assert(s.take(i + 1).drop_last() =~= s.take(i as int));
        assert(s.take(i as int) =~= s.take(i + 1).drop_last());
        assert forall|j: int| 0 <= j < s.take(i as int).len() implies DIGIT_0 <= #[trigger] s.take(
            i as int,
        )[j] <= DIGIT_9 by {
            assert(s.take(i as int)[j] == s[j]);
        }
        lemma_digits_value_nonneg(s.take(i as int));
        assert(digits_value(s.take(i + 1)) == digits_value(s.take(i as int)) * 10 + (s.take(
            i + 1,
        ).last() - DIGIT_0));
        lemma_digits_value_grows(s, i + 1);
    } else {
        assert(s.take(i) =~= s);
    }
}

/// Whether `s` denotes an unsigned decimal number: a non-empty run of
/// digits, optionally led by one plus sign.
pub open spec fn u64_text(s: Seq<u8>) -> bool {
    ||| all_digits(s)
    ||| (s.len() >= 2 && s[0] == PLUS && all_digits(s.skip(1)))
}

/// The number such a text denotes.
pub open spec fn u64_text_value(s: Seq<u8>) -> int {
    if s.len() > 0 && s[0] == PLUS {
        digits_value(s.skip(1))
    } else {
        digits_value(s)
    }
}

/// Reads an unsigned decimal number, an optional leading plus sign
/// included: the denoted value if `v` denotes one that fits, nothing
/// otherwise.
#[verifier::loop_isolation(false)]
pub fn parse_u64(v: &Vec<u8>) -> (r: Option<u64>)
    ensures
        r matches Some(n) ==> u64_text(v@) && n == u64_text_value(v@),
        r is None ==> !u64_text(v@) || u64_text_value(v@) > u64::MAX,
{
    let start: usize = if v.len() > 0 && v[0] == PLUS {
        1
    } else {
        0
    };
    if v.len() == start {
        // Empty, or a lone sign.
        return None;
    }
    let ghost d = v@.skip(start as int);
    proof {
        assert(d.len() > 0);
        if start == 0 {
            assert(d =~= v@);
        } else {
            assert(v@[0int] == PLUS);
            if all_digits(v@) {
                assert(DIGIT_0 <= v@[0int] <= DIGIT_9);
            }
            assert(!all_digits(v@));
        }
        assert(u64_text(v@) == all_digits(d));
        assert(u64_text_value(v@) == digits_value(d));
        assert(d.take(0int) =~= Seq::<u8>::empty());
    }
    let mut acc: u64 = 0;
    let mut i: usize = start;
    while i < v.len()
        invariant
            start <= i <= v@.len(),
            acc == digits_value(d.take(i - start)),
            forall|j: int| 0 <= j < i - start ==> DIGIT_0 <= #[trigger] d[j] <= DIGIT_9,
        decreases v.len() - i,
    {
        let b = v[i];
        proof {
            assert(d[i - start] == v@[i as int]);
        }
        if b < DIGIT_0 || b > DIGIT_9 {
            return None;
        }
        proof {
            assert(d.take(i + 1 - start).drop_last() =~= d.take(i - start));
            assert(d.take(i + 1 - start).last() == d[i - start]);
        }
        let scaled = match acc.checked_mul(10) {
            Some(s) => s,
            None => {
                proof {
                    if all_digits(d) {
                        lemma_digits_value_nonneg(d.take(i - start));
                        lemma_digits_value_grows(d, i + 1 - start);
                    }
                }
                return None;
            },
        };
        let next = match scaled.checked_add((b - DIGIT_0) as u64) {
            Some(s) => s,
            None => {
                proof {
                    if all_digits(d) {
                        lemma_digits_value_nonneg(d.take(i - start));
                        lemma_digits_value_grows(d, i + 1 - start);
                    }
                }
                return None;
            },
        };
        acc = next;
        i += 1;
    }
    proof {
        assert(d.take(i - start) =~= d);
    }
    Some(acc)
}

/// Reads the parameter `name` as an unsigned decimal number, an optional
/// leading plus sign included.
///
/// Returns the missing-parameter error exactly when no such parameter was
/// captured, and the invalid-parameter error exactly when the captured text
/// is not a number that fits.
pub fn param(request: &Request, name: &Vec<u8>) -> (r: Result<u64, ExtractParamError>)
    requires
        request.wf(),
    ensures
        ({
            let ps = params_view_of(request@);
            &&& (r matches Ok(n) ==> ps.contains_key(name@) && u64_text(ps[name@]) && n
                == u64_text_value(ps[name@]))
            &&& (r matches Err(e) ==> match e {
                ExtractParamError::MissingParam { name: n } => n@ == name@ && !ps.contains_key(
                    name@,
                ),
                ExtractParamError::InvalidParam { name: n } => n@ == name@ && ps.contains_key(name@)
                    && (!u64_text(ps[name@]) || u64_text_value(ps[name@]) > u64::MAX),
            })
        }),
{
    match param_raw(request, name) {
        None => Err(ExtractParamError::MissingParam { name: name.clone() }),
        Some(v) => {
            match parse_u64(v) {
                Some(n) => Ok(n),
                None => Err(ExtractParamError::InvalidParam { name: name.clone() }),
            }
        },
    }
}

/// Relies on `core::str::from_utf8`: the bytes decode to text exactly when
/// they are valid UTF-8, and then to their decoding; the text is then
/// copied out with `str::to_owned`.
#[verifier::external_body]
fn utf8_to_string(v: &Vec<u8>) -> (r: Option<String>)
    ensures
        r is Some <==> vstd::utf8::valid_utf8(v@),
        r matches Some(s) ==> s@ == vstd::utf8::decode_utf8(v@),
{
    match core::str::from_utf8(v) {
        Ok(s) => Some(s.to_owned()),
        Err(_) => None,
    }
}

/// Reads the first header field named `name` (case-insensitively) as text.
///
/// Returns the missing-header error exactly when no such field is present,
/// and the invalid-header error exactly when the field's value is not
/// valid text.
pub fn header(request: &Request, name: &Vec<u8>) -> (r: Result<String, ExtractHeaderError>)
    requires
        request.wf(),
    ensures
        ({
            let looked = header_lookup(request@.headers, lower_bytes(name@));
            &&& (r matches Ok(s) ==> looked matches Some(v) && vstd::utf8::valid_utf8(v) && s@
                == vstd::utf8::decode_utf8(v))
            &&& (r matches Err(e) ==> match e {
                ExtractHeaderError::MissingHeader { name: n } => n@ == name@ && looked is None,
                ExtractHeaderError::InvalidHeader { name: n } => n@ == name@ && (
                looked matches Some(v) && !vstd::utf8::valid_utf8(v)),
            })
        }),
{
    match request.headers.get(name) {
        None => Err(ExtractHeaderError::MissingHeader { name: name.clone() }),
        Some(v) => {
            proof {
                assert(v.deep_view() =~= v@);
            }
            match utf8_to_string(v) {
                Some(s) => Ok(s),
                None => Err(ExtractHeaderError::InvalidHeader { name: name.clone() }),
            }
        },
    }
}

/// What a media type's text parses to: its type, its subtype, and its
/// suffix if it carries one; nothing if the text is no media type.
pub uninterp spec fn mime_parts_of(s: Seq<u8>) -> Option<(Seq<u8>, Seq<u8>, Option<Seq<u8>>)>;

/// Relies on `mime::Mime`'s `FromStr`: what a media type parses to depends
/// on its text alone; `type_`, `subtype` and `suffix` hand its parts back.
#[verifier::external_body]
fn parse_mime_parts(value: &Vec<u8>) -> (r: Option<(Vec<u8>, Vec<u8>, Option<Vec<u8>>)>)
    ensures
        r.deep_view() == mime_parts_of(value@),
{
    let text = match core::str::from_utf8(value) {
        Ok(s) => s,
        Err(_) => return None,
    };
    let m: mime::Mime = match text.parse() {
        Ok(m) => m,
        Err(_) => return None,
    };
    let kind = m.type_().as_str().as_bytes().to_vec();
    let sub = m.subtype().as_str().as_bytes().to_vec();
    let suffix = m.suffix().map(|n| n.as_str().as_bytes().to_vec());
    Some((kind, sub, suffix))
}

/// The header name `content-type`, as bytes.
pub open spec fn content_type_name() -> Seq<u8> {
    seq![99u8, 111u8, 110u8, 116u8, 101u8, 110u8, 116u8, 45u8, 116u8, 121u8, 112u8, 101u8]
}

/// The media type `application`, as bytes.
pub open spec fn mime_application() -> Seq<u8> {
    seq![97u8, 112u8, 112u8, 108u8, 105u8, 99u8, 97u8, 116u8, 105u8, 111u8, 110u8]
}

/// The media subtype `json`, as bytes.
pub open spec fn mime_json() -> Seq<u8> {
    seq![106u8, 115u8, 111u8, 110u8]
}

pub fn content_type_name_bytes() -> (r: Vec<u8>)
    ensures
        r@ == content_type_name(),
{
    let mut r: Vec<u8> = Vec::new();
    r.push(99);
    r.push(111);
    r.push(110);
    r.push(116);
    r.push(101);
    r.push(110);
    r.push(116);
    r.push(45);
    r.push(116);
    r.push(121);
    r.push(112);
    r.push(101);
    proof {
        assert(r@ =~= content_type_name());
    }
    r
}

fn mime_application_bytes() -> (r: Vec<u8>)
    ensures
        r@ == mime_application(),
{
    let mut r: Vec<u8> = Vec::new();
    r.push(97);
    r.push(112);
    r.push(112);
    r.push(108);
    r.push(105);
    r.push(99);
    r.push(97);
    r.push(116);
    r.push(105);
    r.push(111);
    r.push(110);
    proof {
        assert(r@ =~= mime_application());
    }
    r
}

fn mime_json_bytes() -> (r: Vec<u8>)
    ensures
        r@ == mime_json(),
{
    let mut r: Vec<u8> = Vec::new();
    r.push(106);
    r.push(115);
    r.push(111);
    r.push(110);
    proof {
        assert(r@ =~= mime_json());
    }
    r
}

/// Whether a request's content-type header names a JSON payload: the media
/// type `application` with subtype `json` or a `json` suffix.
pub open spec fn spec_is_json_content_type(headers: Seq<(Seq<u8>, Seq<u8>)>) -> bool {
    match header_lookup(headers, content_type_name()) {
        Option::None => false,
        Option::Some(v) => match mime_parts_of(v) {
            Option::None => false,
            Option::Some((kind, sub, suffix)) => kind == mime_application() && (sub == mime_json()
                || suffix == Some(mime_json())),
        },
    }
}

/// Decides whether the request declares a JSON payload.
pub fn is_json_content_type(request: &Request) -> (r: bool)
    requires
        request.wf(),
    ensures
        r == spec_is_json_content_type(request@.headers),
{
    let name = content_type_name_bytes();
    proof {
        assert(lower_bytes(name@) =~= content_type_name());
    }
    let value = match request.headers.get(&name) {
        Some(v) => v,
        None => {
            return false;
        },
    };
    proof {
        assert(value.deep_view() =~= value@);
        assert(header_lookup(request@.headers, content_type_name()) == Some(value@));
    }
    let parts = match parse_mime_parts(value) {
        Some(p) => p,
        None => {
            return false;
        },
    };
    proof {
        assert(parts.0.deep_view() =~= parts.0@);
        assert(parts.1.deep_view() =~= parts.1@);
        assert(mime_parts_of(value@) == Some((parts.0@, parts.1@, parts.2.deep_view())));
    }
    let application = mime_application_bytes();
    let json = mime_json_bytes();
    if !crate::http::bytes_eq(&parts.0, &application) {
        return false;
    }
    if crate::http::bytes_eq(&parts.1, &json) {
        return true;
    }
    match &parts.2 {
        Some(suffix) => {
            proof {
                assert(parts.2.deep_view() == Some(suffix@)) by {
                    assert(suffix.deep_view() =~= suffix@);
                }
            }
            crate::http::bytes_eq(suffix, &json)
        },
        None => false,
    }
}

/// Hands the request's body out for streaming consumption, leaving an
/// empty body behind.
pub fn stream(request: &mut Request) -> (r: crate::body::BoxBody)
    ensures
        crate::body::Body::chunks(&r) == old(request)@.body_chunks,
        crate::body::Body::failure(&r) == old(request)@.body_failure,
        final(request)@ == (crate::request::ReqView {
            body_chunks: Seq::empty(),
            body_failure: None,
            ..old(request)@
        }),
        old(request).wf() ==> final(request).wf(),
{
    let mut taken = crate::body::BoxBody::empty();
    core::mem::swap(&mut request.body, &mut taken);
    proof {
        assert(final(request)@ =~~= (crate::request::ReqView {
            body_chunks: Seq::empty(),
            body_failure: None,
            ..old(request)@
        }));
    }
    taken
}

} // verus!
