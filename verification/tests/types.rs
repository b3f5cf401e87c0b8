use mtiny::body::Body;
use mtiny::body::BoxBody;
use mtiny::body::SizeHint;
use mtiny::extensions::ExtKind;
use mtiny::extensions::Extension;
use mtiny::extensions::Extensions;
use mtiny::http::HeaderMap;
use mtiny::http::HttpError;
use mtiny::http::StatusCode;
use mtiny::http::Uri;
use mtiny::params::Params;
use mtiny::response::Builder;
use mtiny::response::Response;

#[test]
fn extensions_second_insert_replaces_and_returns_first() {
    let mut exts = Extensions::new();
    assert!(exts.insert(Extension::Text(b"one".to_vec())).is_none());
    let prev = exts.insert(Extension::Text(b"two".to_vec()));
    match prev {
        Some(Extension::Text(t)) => assert_eq!(t, b"one".to_vec()),
        _ => panic!("expected the first text value back"),
    }
    assert_eq!(exts.len(), 1);
    match exts.get(ExtKind::Text) {
        Some(Extension::Text(t)) => assert_eq!(*t, b"two".to_vec()),
        _ => panic!("expected the second text value stored"),
    }
}

#[test]
fn extensions_kinds_do_not_collide() {
    let mut exts = Extensions::new();
    exts.insert(Extension::Text(b"ctx".to_vec()));
    exts.insert(Extension::Number(7));
    assert_eq!(exts.len(), 2);
    assert!(exts.get(ExtKind::Text).is_some());
    assert!(exts.get(ExtKind::Number).is_some());
    assert!(exts.get(ExtKind::Params).is_none());
    let removed = exts.remove(ExtKind::Number);
    match removed {
        Some(Extension::Number(n)) => assert_eq!(n, 7),
        _ => panic!("expected the number back"),
    }
    assert_eq!(exts.len(), 1);
    exts.clear();
    assert!(exts.is_empty());
}

#[test]
fn params_set_and_get() {
    let mut params = Params::new();
    params.set(b"id".to_vec(), b"1".to_vec());
    params.set(b"name".to_vec(), b"ada".to_vec());
    params.set(b"id".to_vec(), b"2".to_vec());
    assert_eq!(params.len(), 2);
    assert_eq!(params.get(&b"id".to_vec()), Some(&b"2".to_vec()));
    assert_eq!(params.get(&b"name".to_vec()), Some(&b"ada".to_vec()));
    assert_eq!(params.get(&b"missing".to_vec()), None);
    let pairs = params.into_inner();
    assert_eq!(pairs.len(), 2);
}

#[test]
fn header_map_is_case_insensitive() {
    let mut headers = HeaderMap::new();
    headers.append(b"Content-Type".to_vec(), b"text/plain".to_vec());
    assert_eq!(
        headers.get(&b"content-type".to_vec()),
        Some(&b"text/plain".to_vec())
    );
    assert_eq!(
        headers.get(&b"CONTENT-TYPE".to_vec()),
        Some(&b"text/plain".to_vec())
    );
    assert!(headers.get(&b"accept".to_vec()).is_none());
}

#[test]
fn header_map_insert_replaces_all_fields_of_name() {
    let mut headers = HeaderMap::new();
    headers.append(b"x-tag".to_vec(), b"a".to_vec());
    headers.append(b"x-tag".to_vec(), b"b".to_vec());
    headers.append(b"other".to_vec(), b"keep".to_vec());
    assert_eq!(headers.len(), 3);
    headers.insert(b"x-tag".to_vec(), b"c".to_vec());
    assert_eq!(headers.len(), 2);
    assert_eq!(headers.get(&b"x-tag".to_vec()), Some(&b"c".to_vec()));
    assert_eq!(headers.get(&b"other".to_vec()), Some(&b"keep".to_vec()));
}

#[test]
fn status_code_rejects_out_of_range() {
    assert!(StatusCode::from_u16(99).is_err());
    assert!(StatusCode::from_u16(600).is_err());
    let ok = StatusCode::from_u16(418).unwrap();
    assert_eq!(ok.as_u16(), 418);
    assert_eq!(StatusCode::default().as_u16(), 200);
}

#[test]
fn builder_assembles_a_head() {
    let resp: Response<BoxBody> = Builder::new()
        .status(404)
        .header(b"Content-Type".to_vec(), b"text/plain".to_vec())
        .body(BoxBody::empty())
        .unwrap();
    assert_eq!(resp.status().as_u16(), 404);
    assert_eq!(
        resp.headers().get(&b"content-type".to_vec()),
        Some(&b"text/plain".to_vec())
    );
}

#[test]
fn builder_keeps_first_error() {
    let result = Builder::new()
        .status(9999)
        .header(b"ok".to_vec(), b"fine".to_vec())
        .body(BoxBody::empty());
    match result {
        Err(HttpError::InvalidStatus(code)) => assert_eq!(code, 9999),
        _ => panic!("expected the invalid status error"),
    }
}

#[test]
fn builder_rejects_bad_header_name() {
    let result = Builder::new()
        .header(b"bad name".to_vec(), b"v".to_vec())
        .body(BoxBody::empty());
    match result {
        Err(HttpError::InvalidHeaderName(name)) => assert_eq!(name, b"bad name".to_vec()),
        _ => panic!("expected the invalid header name error"),
    }
}

#[test]
fn uri_splits_path_and_query() {
    let uri = Uri::from_path_and_query(b"/a/b?q=1&r=2".to_vec());
    assert_eq!(uri.path, b"/a/b".to_vec());
    assert_eq!(uri.query, Some(b"q=1&r=2".to_vec()));

    let plain = Uri::from_path_and_query(b"/a/b".to_vec());
    assert_eq!(plain.path, b"/a/b".to_vec());
    assert_eq!(plain.query, None);
}

#[test]
fn box_body_yields_chunks_then_ends() {
    let mut body = BoxBody::new(b"hello".to_vec());
    match body.poll_next() {
        Some(Ok(chunk)) => assert_eq!(chunk, b"hello".to_vec()),
        _ => panic!("expected the single chunk"),
    }
    assert!(body.poll_next().is_none());
}

#[test]
fn box_body_reports_terminal_error() {
    let mut body = BoxBody::failing(b"boom".to_vec());
    match body.poll_next() {
        Some(Err(m)) => assert_eq!(m, b"boom".to_vec()),
        _ => panic!("expected the terminal error"),
    }
    assert!(body.poll_next().is_none());
    assert!(BoxBody::failing(b"boom".to_vec()).collect_bytes().is_err());
}

#[test]
fn body_size_hint_is_exact_for_vectors() {
    let body = b"12345".to_vec();
    let hint: SizeHint = body.size_hint();
    assert_eq!(hint.lower, 5);
    assert_eq!(hint.upper, Some(5));
    let empty = BoxBody::empty();
    let hint2 = empty.size_hint();
    assert_eq!(hint2.lower, 0);
    assert_eq!(hint2.upper, Some(0));
}

#[test]
fn response_map_keeps_head() {
    let mut resp = Response::new(b"abc".to_vec());
    resp.head.status = StatusCode::from_u16(302).unwrap();
    let mapped = resp.map(|body| body.len());
    assert_eq!(mapped.status().as_u16(), 302);
    assert_eq!(*mapped.body(), 3);
}

#[test]
fn response_mut_accessors_update_in_place() {
    let mut resp: Response<BoxBody> = Response::new(BoxBody::empty());
    *resp.status_mut() = StatusCode::from_u16(301).unwrap();
    resp.headers_mut()
        .append(b"Location".to_vec(), b"/new".to_vec());
    resp.extensions_mut().insert(Extension::Number(9));
    assert_eq!(resp.status().as_u16(), 301);
    assert_eq!(
        resp.headers().get(&b"location".to_vec()),
        Some(&b"/new".to_vec())
    );
    assert!(resp.extensions().get(ExtKind::Number).is_some());
}

#[test]
fn extensions_get_mut_updates_stored_value() {
    let mut exts = Extensions::new();
    exts.insert(Extension::Number(1));
    match exts.get_mut(ExtKind::Number) {
        Some(slot) => *slot = Extension::Number(2),
        None => panic!("expected the stored number"),
    }
    match exts.get(ExtKind::Number) {
        Some(Extension::Number(n)) => assert_eq!(*n, 2),
        _ => panic!("expected the replaced number"),
    }
    assert!(exts.get_mut(ExtKind::Text).is_none());
}

#[test]
fn builder_mut_accessors_reach_the_head() {
    let mut builder = Builder::new().status(204);
    if let Some(headers) = builder.headers_mut() {
        headers.append(b"X-Extra".to_vec(), b"1".to_vec());
    } else {
        panic!("expected a headers borrow");
    }
    let resp: Response<BoxBody> = builder.body(BoxBody::empty()).unwrap();
    assert_eq!(resp.status().as_u16(), 204);
    assert_eq!(resp.headers().get(&b"x-extra".to_vec()), Some(&b"1".to_vec()));
}

#[test]
fn builder_accepts_token_header_names() {
    let resp: Response<BoxBody> = Builder::new()
        .header(b"X-Probe.v2+tag".to_vec(), b"ok".to_vec())
        .body(BoxBody::empty())
        .unwrap();
    assert_eq!(
        resp.headers().get(&b"x-probe.v2+tag".to_vec()),
        Some(&b"ok".to_vec())
    );
}
