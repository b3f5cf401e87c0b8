use mtiny::body::Body;
use mtiny::body::BoxBody;
use mtiny::error::BoxError;
use mtiny::extensions::ExtKind;
use mtiny::extensions::Extension;
use mtiny::extract::header;
use mtiny::extract::is_json_content_type;
use mtiny::extract::param;
use mtiny::extract::parse_u64;
use mtiny::extract::stream;
use mtiny::extract::ExtractHeaderError;
use mtiny::extract::ExtractParamError;
use mtiny::html::html;
use mtiny::http::StatusCode;
use mtiny::middleware::add_extension;
use mtiny::middleware::handle_error;
use mtiny::params::Params;
use mtiny::request::Request;
use mtiny::response::IntoResponse;
use mtiny::response::Response;
use mtiny::service::Service;
use mtiny::service::Wrap;
use mtiny::util::service_fn;
use mtiny::util::ServiceExt;

fn resp_with_status(code: u16) -> Response<BoxBody> {
    let mut r = Response::new(BoxBody::empty());
    r.head.status = StatusCode::from_u16(code).unwrap();
    r
}

#[test]
fn handle_error_recovers_every_error() {
    let failing = service_fn(|_req: Request| -> Result<Response<BoxBody>, BoxError> {
        Err(BoxError::Message(b"boom".to_vec()))
    });
    let recovered = failing.with(handle_error(|e: BoxError| -> Response<BoxBody> {
        match e {
            BoxError::Message(m) => {
                let mut r = resp_with_status(500);
                r.body = BoxBody::new(m);
                r
            }
            _ => resp_with_status(500),
        }
    }));
    let out: Result<Response<BoxBody>, mtiny::error::Never> =
        recovered.call(Request::new(BoxBody::empty()));
    match out {
        Ok(resp) => {
            assert_eq!(resp.status().as_u16(), 500);
            let mut body = resp.into_body();
            assert_eq!(body.collect_bytes().unwrap(), b"boom".to_vec());
        }
        Err(_) => unreachable!(),
    }
}

#[test]
fn handle_error_future_resolves_once() {
    let failing = service_fn(|_req: Request| -> Result<Response<BoxBody>, BoxError> {
        Err(BoxError::Message(b"boom".to_vec()))
    });
    let recovered = handle_error(|_e: BoxError| -> Response<BoxBody> { resp_with_status(500) })
        .wrap(failing);
    let mut fut = recovered.call_future(Request::new(BoxBody::empty()));
    let out = fut.poll();
    match out {
        Ok(resp) => assert_eq!(resp.status().as_u16(), 500),
        Err(_) => unreachable!(),
    }
}

#[test]
fn add_extension_injects_context() {
    let inner = service_fn(|req: Request| -> Result<Response<BoxBody>, BoxError> {
        let ctx = match req.extensions.get(ExtKind::Text) {
            Some(Extension::Text(t)) => t.clone(),
            _ => Vec::new(),
        };
        let mut r = resp_with_status(200);
        r.body = BoxBody::new(ctx);
        Ok(r)
    });
    let wrapped = inner.with(add_extension(|| Extension::Text(b"injected".to_vec())));
    let out = wrapped.call(Request::new(BoxBody::empty())).unwrap_or_else(|_| panic!());
    let mut body = out.into_body();
    assert_eq!(body.collect_bytes().unwrap(), b"injected".to_vec());
}

#[test]
fn map_response_and_map_err_rewrite_outcomes() {
    let ok = service_fn(|_req: Request| -> Result<u32, u32> { Ok(7) });
    let doubled = ok.map_response(|n: u32| n * 2);
    assert_eq!(doubled.call(Request::new(BoxBody::empty())), Ok(14));

    let failing = service_fn(|_req: Request| -> Result<u32, u32> { Err(3) });
    let mapped = failing.map_err(|e: u32| e + 100);
    assert_eq!(mapped.call(Request::new(BoxBody::empty())), Err(103));
}

#[test]
fn and_then_chains_fallible_steps() {
    let first = service_fn(|_req: Request| -> Result<u32, u32> { Ok(10) });
    let chained = first.and_then(|n: u32| if n > 5 { Ok(n + 1) } else { Err(0u32) });
    assert_eq!(chained.call(Request::new(BoxBody::empty())), Ok(11));
}

#[test]
fn boxed_service_delegates() {
    let svc = service_fn(|_req: Request| -> Result<u32, u32> { Ok(1) }).boxed();
    assert_eq!(svc.call(Request::new(BoxBody::empty())), Ok(1));
}

#[test]
fn param_parses_numbers_and_reports_errors() {
    let mut params = Params::new();
    params.set(b"id".to_vec(), b"42".to_vec());
    params.set(b"bad".to_vec(), b"4x2".to_vec());
    let mut req = Request::new(BoxBody::empty());
    req.extensions.insert(Extension::Params(params));

    assert_eq!(param(&req, &b"id".to_vec()).unwrap(), 42);
    let mut signed = Params::new();
    signed.set(b"n".to_vec(), b"+42".to_vec());
    let mut req_signed = Request::new(BoxBody::empty());
    req_signed.extensions.insert(Extension::Params(signed));
    assert_eq!(param(&req_signed, &b"n".to_vec()).unwrap(), 42);
    match param(&req, &b"bad".to_vec()) {
        Err(ExtractParamError::InvalidParam { name }) => assert_eq!(name, b"bad".to_vec()),
        _ => panic!("expected the invalid parameter error"),
    }
    match param(&req, &b"absent".to_vec()) {
        Err(ExtractParamError::MissingParam { name }) => assert_eq!(name, b"absent".to_vec()),
        _ => panic!("expected the missing parameter error"),
    }
}

#[test]
fn parse_u64_handles_bounds() {
    assert_eq!(parse_u64(&b"0".to_vec()), Some(0));
    assert_eq!(parse_u64(&b"18446744073709551615".to_vec()), Some(u64::MAX));
    assert_eq!(parse_u64(&b"18446744073709551616".to_vec()), None);
    assert_eq!(parse_u64(&b"".to_vec()), None);
    assert_eq!(parse_u64(&b"12a".to_vec()), None);
}

#[test]
fn parse_u64_accepts_one_leading_plus() {
    assert_eq!(parse_u64(&b"+42".to_vec()), Some(42));
    assert_eq!(parse_u64(&b"+0".to_vec()), Some(0));
    assert_eq!(parse_u64(&b"+".to_vec()), None);
    assert_eq!(parse_u64(&b"++1".to_vec()), None);
    assert_eq!(parse_u64(&b"-42".to_vec()), None);
}

#[test]
fn header_reads_text_and_reports_errors() {
    let mut req = Request::new(BoxBody::empty());
    req.headers.append(b"X-Name".to_vec(), b"ada".to_vec());
    req.headers.append(b"X-Bin".to_vec(), vec![0xff, 0xfe]);

    assert_eq!(header(&req, &b"x-name".to_vec()).unwrap(), "ada".to_string());
    match header(&req, &b"x-bin".to_vec()) {
        Err(ExtractHeaderError::InvalidHeader { name }) => assert_eq!(name, b"x-bin".to_vec()),
        _ => panic!("expected the invalid header error"),
    }
    match header(&req, &b"x-none".to_vec()) {
        Err(ExtractHeaderError::MissingHeader { name }) => assert_eq!(name, b"x-none".to_vec()),
        _ => panic!("expected the missing header error"),
    }
}

#[test]
fn json_content_type_detection() {
    let mut req = Request::new(BoxBody::empty());
    req.headers.append(b"Content-Type".to_vec(), b"application/json".to_vec());
    assert!(is_json_content_type(&req));

    let mut req2 = Request::new(BoxBody::empty());
    req2.headers.append(b"Content-Type".to_vec(), b"text/html".to_vec());
    assert!(!is_json_content_type(&req2));

    let mut req3 = Request::new(BoxBody::empty());
    req3.headers.append(
        b"Content-Type".to_vec(),
        b"application/problem+json; charset=utf-8".to_vec(),
    );
    assert!(is_json_content_type(&req3));

    let req4 = Request::new(BoxBody::empty());
    assert!(!is_json_content_type(&req4));
}

#[test]
fn stream_takes_the_body_out() {
    let mut req = Request::new(BoxBody::new(b"payload".to_vec()));
    let mut body = stream(&mut req);
    assert_eq!(body.collect_bytes().unwrap(), b"payload".to_vec());
    assert!(req.body.poll_next().is_none());
}

#[test]
fn html_marks_content_type() {
    let page = html(b"<p>hi</p>".to_vec());
    let resp = page.into_response();
    assert_eq!(
        resp.headers().get(&b"content-type".to_vec()),
        Some(&b"text/html; charset=utf-8".to_vec())
    );
    assert_eq!(resp.status().as_u16(), 200);
    let mut body = resp.into_body();
    assert_eq!(body.collect_bytes().unwrap(), b"<p>hi</p>".to_vec());
}

#[test]
fn map_request_rewrites_before_dispatch() {
    let inner = service_fn(|req: Request| -> Result<Response<BoxBody>, BoxError> {
        Ok(resp_with_status(if req.uri.path == b"/rewritten".to_vec() {
            200
        } else {
            500
        }))
    });
    let svc = inner.map_request(|mut req: Request| {
        req.uri.path = b"/rewritten".to_vec();
        req
    });
    let out = svc.call(Request::new(BoxBody::empty())).unwrap_or_else(|_| panic!());
    assert_eq!(out.status().as_u16(), 200);
}

#[test]
fn map_future_rewrites_the_whole_outcome() {
    let failing = service_fn(|_req: Request| -> Result<u32, u32> { Err(5) });
    let svc = failing.map_future(|out: Result<u32, u32>| -> Result<u32, u32> {
        match out {
            Ok(n) => Ok(n),
            Err(e) => Ok(e + 1),
        }
    });
    assert_eq!(svc.call(Request::new(BoxBody::empty())), Ok(6));
}
