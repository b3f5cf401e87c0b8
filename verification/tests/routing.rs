use mtiny::body::Body;
use mtiny::pattern::compile;
use mtiny::pattern::compile_nest;
use mtiny::pattern::is_pattern_ok;
use mtiny::body::BoxBody;
use mtiny::error::BoxError;
use mtiny::extract::param_raw;
use mtiny::http::Method;
use mtiny::http::StatusCode;
use mtiny::method::MethodRouter;
use mtiny::request::Request;
use mtiny::response::Response;
use mtiny::router::Router;
use mtiny::service::Service;
use mtiny::util::service_fn;
use mtiny::util::Either;

fn resp_with_status(code: u16) -> Response<BoxBody> {
    let mut r = Response::new(BoxBody::empty());
    r.head.status = StatusCode::from_u16(code).unwrap();
    r
}

fn request_for(path: &[u8]) -> Request {
    let mut req = Request::new(BoxBody::empty());
    req.uri.path = path.to_vec();
    req
}

#[test]
fn router_exact_route_dispatches() {
    let router = Router::new().route(
        &b"/a".to_vec(),
        service_fn(|_req: Request| -> Result<Response<BoxBody>, BoxError> {
            Ok(resp_with_status(201))
        }),
    );
    let out = router.call(request_for(b"/a"));
    match out {
        Ok(resp) => assert_eq!(resp.status().as_u16(), 201),
        Err(_) => panic!("expected a dispatched response"),
    }
}

#[test]
fn router_no_match_returns_not_found_with_request() {
    let router = Router::new().route(
        &b"/a".to_vec(),
        service_fn(|_req: Request| -> Result<Response<BoxBody>, BoxError> {
            Ok(resp_with_status(201))
        }),
    );
    let mut req = request_for(b"/zzz");
    req.method = Method::Post;
    req.headers.append(b"X-Probe".to_vec(), b"kept".to_vec());
    let out = router.call(req);
    match out {
        Err(BoxError::NotFound(nf)) => {
            let back = nf.into_request();
            assert_eq!(*back.method(), Method::Post);
            assert_eq!(back.uri.path, b"/zzz".to_vec());
            assert_eq!(
                back.headers.get(&b"x-probe".to_vec()),
                Some(&b"kept".to_vec())
            );
        }
        _ => panic!("expected the not-found error owning the request"),
    }
}

#[test]
fn router_literal_wins_over_param() {
    let router = Router::new()
        .route(
            &b"/user/me".to_vec(),
            Either::Left(service_fn(
                |_req: Request| -> Result<Response<BoxBody>, BoxError> {
                    Ok(resp_with_status(201))
                },
            )),
        )
        .route(
            &b"/user/:id".to_vec(),
            Either::Right(service_fn(
                |req: Request| -> Result<Response<BoxBody>, BoxError> {
                    let id = param_raw(&req, &b"id".to_vec()).cloned().unwrap_or_default();
                    let mut resp = resp_with_status(202);
                    resp.body = BoxBody::new(id);
                    Ok(resp)
                },
            )),
        );
    let out_literal = router.call(request_for(b"/user/me")).unwrap_or_else(|_| panic!());
    assert_eq!(out_literal.status().as_u16(), 201);

    let out_param = router.call(request_for(b"/user/alice")).unwrap_or_else(|_| panic!());
    assert_eq!(out_param.status().as_u16(), 202);
    let mut body = out_param.into_body();
    assert_eq!(body.collect_bytes().unwrap(), b"alice".to_vec());
}

#[test]
fn router_round_trip_with_nested_mount() {
    // One exact route and one nested mount; the mount sees the rewritten
    // path and the untouched query string.
    let router = Router::new()
        .route(
            &b"/a".to_vec(),
            Either::Left(service_fn(
                |_req: Request| -> Result<Response<BoxBody>, BoxError> {
                    Ok(resp_with_status(201))
                },
            )),
        )
        .nest(
            &b"/b".to_vec(),
            Either::Right(service_fn(
                |req: Request| -> Result<Response<BoxBody>, BoxError> {
                    let mut seen = req.uri.path.clone();
                    if let Some(q) = &req.uri.query {
                        seen.push(b'?');
                        seen.extend_from_slice(q);
                    }
                    let mut resp = resp_with_status(200);
                    resp.body = BoxBody::new(seen);
                    Ok(resp)
                },
            )),
        );

    let out_a = router.call(request_for(b"/a")).unwrap_or_else(|_| panic!());
    assert_eq!(out_a.status().as_u16(), 201);

    let mut req = request_for(b"/b/x/y");
    req.uri.query = Some(b"q=1".to_vec());
    let out_b = router.call(req).unwrap_or_else(|_| panic!());
    assert_eq!(out_b.status().as_u16(), 200);
    let mut body = out_b.into_body();
    assert_eq!(body.collect_bytes().unwrap(), b"/x/y?q=1".to_vec());
}

#[test]
fn router_nested_mount_empty_suffix_keeps_separator() {
    let router = Router::new().nest(
        &b"/b".to_vec(),
        service_fn(|req: Request| -> Result<Response<BoxBody>, BoxError> {
            let mut resp = resp_with_status(200);
            resp.body = BoxBody::new(req.uri.path.clone());
            Ok(resp)
        }),
    );
    let out = router.call(request_for(b"/b/")).unwrap_or_else(|_| panic!());
    let mut body = out.into_body();
    assert_eq!(body.collect_bytes().unwrap(), b"/".to_vec());
}

#[test]
fn router_nested_mount_merges_prefix_params() {
    let router = Router::new().nest(
        &b"/users/:name".to_vec(),
        service_fn(|req: Request| -> Result<Response<BoxBody>, BoxError> {
            let name = param_raw(&req, &b"name".to_vec()).cloned().unwrap_or_default();
            let mut seen = name;
            seen.push(b' ');
            seen.extend_from_slice(&req.uri.path);
            let mut resp = resp_with_status(200);
            resp.body = BoxBody::new(seen);
            Ok(resp)
        }),
    );
    let out = router.call(request_for(b"/users/ada/files")).unwrap_or_else(|_| panic!());
    let mut body = out.into_body();
    assert_eq!(body.collect_bytes().unwrap(), b"ada /files".to_vec());
}

#[test]
fn router_trailing_wildcard_matches_any_suffix() {
    let router = Router::new().route(
        &b"/files/*".to_vec(),
        service_fn(|req: Request| -> Result<Response<BoxBody>, BoxError> {
            // The internal tail capture is consumed, not exposed.
            let count = match mtiny::extract::params(&req) {
                Some(pairs) => pairs.len(),
                None => 0,
            };
            Ok(resp_with_status(if count == 0 { 204 } else { 500 }))
        }),
    );
    let out = router.call(request_for(b"/files/a/b")).unwrap_or_else(|_| panic!());
    assert_eq!(out.status().as_u16(), 204);
}

#[test]
fn router_named_wildcard_exposes_remainder() {
    let router = Router::new().route(
        &b"/files/*rest".to_vec(),
        service_fn(|req: Request| -> Result<Response<BoxBody>, BoxError> {
            let rest = param_raw(&req, &b"rest".to_vec()).cloned().unwrap_or_default();
            let mut resp = resp_with_status(200);
            resp.body = BoxBody::new(rest);
            Ok(resp)
        }),
    );
    let out = router.call(request_for(b"/files/a/b")).unwrap_or_else(|_| panic!());
    let mut body = out.into_body();
    assert_eq!(body.collect_bytes().unwrap(), b"/a/b".to_vec());
}

#[test]
fn method_router_dispatches_by_method() {
    let table = MethodRouter::new()
        .get(Either::Left(service_fn(
            |_req: Request| -> Result<Response<BoxBody>, BoxError> {
                Ok(resp_with_status(201))
            },
        )))
        .post(Either::Right(service_fn(
            |_req: Request| -> Result<Response<BoxBody>, BoxError> {
                Ok(resp_with_status(202))
            },
        )));

    let get_req = request_for(b"/");
    let out_get = table.call(get_req).unwrap_or_else(|_| panic!());
    assert_eq!(out_get.status().as_u16(), 201);

    let mut post_req = request_for(b"/");
    post_req.method = Method::Post;
    let out_post = table.call(post_req).unwrap_or_else(|_| panic!());
    assert_eq!(out_post.status().as_u16(), 202);
}

#[test]
fn method_router_unregistered_method_not_allowed() {
    let table = MethodRouter::new()
        .get(Either::Left(service_fn(
            |_req: Request| -> Result<Response<BoxBody>, BoxError> {
                Ok(resp_with_status(201))
            },
        )))
        .post(Either::Right(service_fn(
            |_req: Request| -> Result<Response<BoxBody>, BoxError> {
                Ok(resp_with_status(202))
            },
        )));
    let mut req = request_for(b"/thing");
    req.method = Method::Put;
    req.headers.append(b"X-Probe".to_vec(), b"kept".to_vec());
    match table.call(req) {
        Err(BoxError::MethodNotAllowed(mna)) => {
            let back = mna.into_request();
            assert_eq!(*back.method(), Method::Put);
            assert_eq!(back.uri.path, b"/thing".to_vec());
            assert_eq!(
                back.headers.get(&b"x-probe".to_vec()),
                Some(&b"kept".to_vec())
            );
        }
        _ => panic!("expected the method-not-allowed error owning the request"),
    }
}

#[test]
fn method_router_trace_reaches_trace_slot() {
    let table = MethodRouter::new()
        .patch(Either::Left(service_fn(
            |_req: Request| -> Result<Response<BoxBody>, BoxError> {
                Ok(resp_with_status(211))
            },
        )))
        .trace(Either::Right(service_fn(
            |_req: Request| -> Result<Response<BoxBody>, BoxError> {
                Ok(resp_with_status(212))
            },
        )));
    let mut req = request_for(b"/");
    req.method = Method::Trace;
    let out = table.call(req).unwrap_or_else(|_| panic!());
    assert_eq!(out.status().as_u16(), 212);
}

#[test]
fn route_future_polls_once() {
    let router = Router::new().route(
        &b"/a".to_vec(),
        service_fn(|_req: Request| -> Result<Response<BoxBody>, BoxError> {
            Ok(resp_with_status(201))
        }),
    );
    let mut fut = router.dispatch(request_for(b"/a"));
    let out = fut.poll();
    assert_eq!(out.unwrap_or_else(|_| panic!()).status().as_u16(), 201);
}

#[test]
fn router_param_wins_over_wildcard() {
    let router = Router::new()
        .route(
            &b"/x/:a".to_vec(),
            Either::Left(service_fn(
                |_req: Request| -> Result<Response<BoxBody>, BoxError> {
                    Ok(resp_with_status(201))
                },
            )),
        )
        .route(
            &b"/x/*rest".to_vec(),
            Either::Right(service_fn(
                |_req: Request| -> Result<Response<BoxBody>, BoxError> {
                    Ok(resp_with_status(202))
                },
            )),
        );
    let one_segment = router.call(request_for(b"/x/y")).unwrap_or_else(|_| panic!());
    assert_eq!(one_segment.status().as_u16(), 201);
    let deeper = router.call(request_for(b"/x/y/z")).unwrap_or_else(|_| panic!());
    assert_eq!(deeper.status().as_u16(), 202);
}

#[test]
fn pattern_checks_decide_admissibility_and_conflicts() {
    assert!(is_pattern_ok(&b"/a/:id/*rest".to_vec()));
    assert!(is_pattern_ok(&b"/".to_vec()));
    assert!(!is_pattern_ok(&b"no-slash".to_vec()));
    assert!(!is_pattern_ok(&b"/a/*mid/b".to_vec()));
    assert!(!is_pattern_ok(&b"/a/:".to_vec()));
    assert!(!is_pattern_ok(&b"/a/:_inner_tail".to_vec()));

    let a = compile(&b"/user/:id".to_vec());
    let b = compile(&b"/user/:name".to_vec());
    let c = compile(&b"/user/me".to_vec());
    assert!(a.conflicts_with(&b));
    assert!(!a.conflicts_with(&c));
    assert!(!a.has_tail());
    assert!(compile_nest(&b"/api".to_vec()).has_tail());

    let router = Router::new().route(
        &b"/user/:id".to_vec(),
        service_fn(|_req: Request| -> Result<Response<BoxBody>, BoxError> {
            Ok(resp_with_status(200))
        }),
    );
    assert!(router.conflicts_with_route(&b));
    assert!(!router.conflicts_with_route(&c));
}
