//! The path router: a table of compiled patterns, each bound to a terminal
//! endpoint or to a nested (prefix-mounted) sub-service, with dispatch by
//! pattern specificity, parameter capture and path rewriting for mounts.

use crate::body::BoxBody;
use crate::error::BoxError;
use crate::error::NotFound;
use crate::extensions::ExtKind;
use crate::extensions::Extension;
use crate::extensions::ExtensionView;
use crate::http::UriView;
use crate::params::pairs_map;
use crate::params::Params;
use crate::pattern::compile;
use crate::pattern::nest_pattern_of;
use crate::pattern::pat_captures;
use crate::pattern::pat_matches;
use crate::pattern::pattern_of;
use crate::pattern::pattern_ok;
use crate::pattern::rank_lt;
use crate::pattern::ranks;
use crate::pattern::reserved_tail;
use crate::pattern::reserved_tail_name;
use crate::pattern::same_shape;
use crate::pattern::Pattern;
use crate::pattern::PatternView;
use crate::pattern::SegPatView;
use crate::request::ReqView;
use crate::request::Request;
use crate::response::Response;
use crate::service::Service;
use vstd::prelude::*;

verus! {

/// The one-shot task a router dispatch hands back: either the matched
/// service's computation, or an immediate routing error. Its value is taken
/// exactly once; polling a completed task is forbidden.
pub enum RouteFuture {
    /// Forwards the matched service's outcome.
    Future { fut: Option<Result<Response<BoxBody>, BoxError>> },
    /// Resolves at once to a routing error.
    Error { err: Option<BoxError> },
}

impl RouteFuture {
    /// Whether the task's value has already been taken.
    pub open spec fn is_completed(self) -> bool {
        match self {
            RouteFuture::Future { fut } => fut is None,
            RouteFuture::Error { err } => err is None,
        }
    }

    /// The outcome a pending task will resolve to.
    pub open spec fn pending_outcome(self) -> Result<Response<BoxBody>, BoxError> {
        match self {
            RouteFuture::Future { fut } => fut->Some_0,
            RouteFuture::Error { err } => Err(err->Some_0),
        }
    }

    /// Resolves the task, taking its value. The task must not have been
    /// polled to completion before; afterwards it is completed.
    pub fn poll(&mut self) -> (r: Result<Response<BoxBody>, BoxError>)
        requires
            !old(self).is_completed(),
        ensures
            final(self).is_completed(),
            r == old(self).pending_outcome(),
    {
        match self {
            RouteFuture::Future { fut } => {
                let out = fut.take();
                match out {
                    Some(v) => v,
                    None => vstd::pervasive::unreached(),
                }
            },
            RouteFuture::Error { err } => {
                let out = err.take();
                match out {
                    Some(e) => Err(e),
                    None => vstd::pervasive::unreached(),
                }
            },
        }
    }
}

/// The route parameters a request carries, the empty mapping if none.
pub open spec fn params_view_of(r: ReqView) -> Map<Seq<u8>, Seq<u8>> {
    if r.extensions.contains_key(ExtKind::Params) {
        match r.extensions[ExtKind::Params] {
            ExtensionView::Params(m) => m,
            _ => Map::empty(),
        }
    } else {
        Map::empty()
    }
}

/// The request with `caps` merged into its route parameters: new captures
/// win over equally named old ones, all else is untouched.
pub open spec fn with_params(r: ReqView, caps: Map<Seq<u8>, Seq<u8>>) -> ReqView {
    ReqView {
        extensions: r.extensions.insert(
            ExtKind::Params,
            ExtensionView::Params(params_view_of(r).union_prefer_right(caps)),
        ),
        ..r
    }
}

/// The request with its path replaced, the query string and every other
/// part kept verbatim.
pub open spec fn with_path(r: ReqView, path: Seq<u8>) -> ReqView {
    ReqView { uri: UriView { path, ..r.uri }, ..r }
}

/// The captures a match exposes to user code: everything but the reserved
/// tail capture.
pub open spec fn visible_captures(pat: PatternView, path: Seq<u8>) -> Map<Seq<u8>, Seq<u8>> {
    pairs_map(pat_captures(pat, path).filter(|c: (Seq<u8>, Seq<u8>)| c.0 != reserved_tail()))
}

/// The reserved tail capture of a match: the unmatched remainder of the
/// path, beginning with its separator.
pub open spec fn tail_capture(pat: PatternView, path: Seq<u8>) -> Seq<u8> {
    pairs_map(pat_captures(pat, path))[reserved_tail()]
}

/// Splits raw captures into the ones exposed to user code and the reserved
/// tail capture, if one was made.
#[verifier::loop_isolation(false)]
pub fn get_params(captures: Vec<(Vec<u8>, Vec<u8>)>) -> (r: (Vec<(Vec<u8>, Vec<u8>)>, Option<
    Vec<u8>,
>))
    ensures
        r.0.deep_view() == captures.deep_view().filter(
            |c: (Seq<u8>, Seq<u8>)| c.0 != reserved_tail(),
        ),
        r.1 is Some <==> pairs_map(captures.deep_view()).contains_key(reserved_tail()),
        r.1 matches Some(t) ==> t@ == pairs_map(captures.deep_view())[reserved_tail()],
{
    let reserved = reserved_tail_name();
    let ghost s = captures.deep_view();
    let ghost keep = |c: (Seq<u8>, Seq<u8>)| c.0 != reserved_tail();
    let mut visible: Vec<(Vec<u8>, Vec<u8>)> = Vec::new();
    let mut tail: Option<Vec<u8>> = None;
    let mut i: usize = 0;
    proof {
        assert(s.take(0int) =~~= Seq::<(Seq<u8>, Seq<u8>)>::empty());
        reveal(Seq::filter);
        assert(visible.deep_view() =~~= s.take(0int).filter(keep));
    }
    while i < captures.len()
        invariant
            i <= captures.len(),
            keep == (|c: (Seq<u8>, Seq<u8>)| c.0 != reserved_tail()),
            visible.deep_view() == s.take(i as int).filter(keep),
            tail is Some <==> pairs_map(s.take(i as int)).contains_key(reserved_tail()),
            tail matches Some(t) ==> t@ == pairs_map(s.take(i as int))[reserved_tail()],
        decreases captures.len() - i,
    {
        proof {
            assert(s.take(i + 1).drop_last() =~~= s.take(i as int));
            assert(s.take(i + 1).last() == s[i as int]);
            assert(s[i as int].0 =~= captures@[i as int].0@);
            assert(s[i as int].1 =~= captures@[i as int].1@);
            reveal(Seq::filter);
        }
        let name = captures[i].0.clone();
        let value = captures[i].1.clone();
        proof {
            assert(name@ =~= captures@[i as int].0@);
            assert(value@ =~= captures@[i as int].1@);
        }
        if crate::http::bytes_eq(&name, &reserved) {
            tail = Some(value);
            proof {
                assert(visible.deep_view() =~~= s.take(i + 1).filter(keep));
            }
        } else {
            visible.push((name, value));
            proof {
                assert(visible.deep_view() =~~= s.take(i + 1).filter(keep));
            }
        }
        i += 1;
    }
    proof {
        assert(s.take(i as int) =~~= s);
    }
    (visible, tail)
}

/// Merges captured parameters into the request's parameter extension: the
/// captures win over equally named earlier parameters, and every other part
/// of the request stays untouched.
#[verifier::loop_isolation(false)]
pub fn insert_params(request: &mut Request, captures: Vec<(Vec<u8>, Vec<u8>)>)
    requires
        old(request).wf(),
    ensures
        final(request)@ == with_params(old(request)@, pairs_map(captures.deep_view())),
        final(request).wf(),
{
    let ghost orig = request@;
    let mut params = match request.extensions.remove(ExtKind::Params) {
        Some(Extension::Params(p)) => p,
        Some(_) => vstd::pervasive::unreached(),
        None => Params::new(),
    };
    proof {
        assert(params@ == params_view_of(orig));
        assert(params.wf());
    }
    let ghost s = captures.deep_view();
    let mut i: usize = 0;
    proof {
        assert(s.take(0int) =~~= Seq::<(Seq<u8>, Seq<u8>)>::empty());
        assert(params@ =~= params_view_of(orig).union_prefer_right(pairs_map(s.take(0int))));
    }
    while i < captures.len()
        invariant
            i <= captures.len(),
            params@ == params_view_of(orig).union_prefer_right(pairs_map(s.take(i as int))),
            params.wf(),
        decreases captures.len() - i,
    {
        proof {
            assert(s.take(i + 1).drop_last() =~~= s.take(i as int));
            assert(s.take(i + 1).last() == s[i as int]);
        }
        let name = captures[i].0.clone();
        let value = captures[i].1.clone();
        proof {
            assert(name@ =~= captures@[i as int].0@);
            assert(value@ =~= captures@[i as int].1@);
            assert(s[i as int].0 == name@ && s[i as int].1 == value@);
        }
        params.set(name, value);
        proof {
            assert(pairs_map(s.take(i + 1)) == pairs_map(s.take(i as int)).insert(
                s[i as int].0,
                s[i as int].1,
            ));
            assert(params@ =~= params_view_of(orig).union_prefer_right(pairs_map(s.take(i + 1))));
        }
        i += 1;
    }
    proof {
        assert(s.take(i as int) =~~= s);
    }
    request.extensions.insert(Extension::Params(params));
    proof {
        assert(final(request).extensions@ =~= orig.extensions.insert(
            ExtKind::Params,
            ExtensionView::Params(params_view_of(orig).union_prefer_right(pairs_map(s))),
        ));
        assert(final(request)@ =~~= with_params(orig, pairs_map(s)));
    }
}

/// Rewrites the request's path to the captured remainder of a nested
/// mount, keeping the query string and every other part verbatim.
pub fn modify_path_and_query(request: &mut Request, path: Vec<u8>)
    ensures
        final(request)@ == with_path(old(request)@, path@),
        old(request).wf() ==> final(request).wf(),
{
    request.uri.path = path;
    proof {
        assert(final(request)@ =~~= with_path(old(request)@, path@));
    }
}

/// One registered route target: a terminal service, or a mounted
/// sub-service that receives the unmatched remainder of the path.
pub enum Endpoint<S> {
    /// The service handles the exactly matched path.
    Full(S),
    /// The service is mounted under a prefix: the request is forwarded with
    /// its path rewritten to the captured remainder.
    Nest(S),
}

/// A path-pattern dispatch table. Routes are registered at construction
/// time; dispatch finds the most specific matching pattern, merges its
/// captures into the request's parameters, rewrites the path for nested
/// mounts, and forwards the request to the route's service.
pub struct Router<S> {
    routes: Vec<(Pattern, Endpoint<S>)>,
}

impl<S> Router<S> {
    /// The registered routes, in registration order.
    pub closed spec fn spec_routes(self) -> Seq<(Pattern, Endpoint<S>)> {
        self.routes@
    }

    /// Every registered pattern is of a bounded size, names no parameter by
    /// the reserved tail name, carries the reserved tail exactly on nested
    /// mounts, and no two patterns share a shape.
    pub open spec fn wf(self) -> bool {
        &&& forall|i: int|
            0 <= i < self.spec_routes().len() ==> {
                let pat = (#[trigger] self.spec_routes()[i]).0@;
                &&& pat.segs.len() + 1 <= usize::MAX
                &&& (forall|k: int|
                    0 <= k < pat.segs.len() ==> ((#[trigger] pat.segs[k])
                        matches SegPatView::Param(n) ==> n != reserved_tail()))
                &&& (self.spec_routes()[i].1 is Nest ==> pat.tail == Some(reserved_tail()))
            }
        &&& forall|i: int, j: int|
            0 <= i < j < self.spec_routes().len() ==> !same_shape(
                (#[trigger] self.spec_routes()[i]).0@,
                (#[trigger] self.spec_routes()[j]).0@,
            )
    }

    /// An empty router: every request is unrouted.
    pub fn new() -> (r: Router<S>)
        ensures
            r.spec_routes().len() == 0,
            r.wf(),
    {
        Router { routes: Vec::new() }
    }

    /// Whether the route at `i` matches `path`.
    pub open spec fn matches_at(self, i: int, path: Seq<u8>) -> bool {
        0 <= i < self.spec_routes().len() && pat_matches(self.spec_routes()[i].0@, path)
    }

    /// Whether any route matches `path`.
    pub open spec fn has_match(self, path: Seq<u8>) -> bool {
        exists|i: int| #[trigger] self.matches_at(i, path)
    }

    /// Whether the route at `i` is the most specific match for `path`.
    pub open spec fn is_best(self, i: int, path: Seq<u8>) -> bool {
        &&& self.matches_at(i, path)
        &&& forall|j: int|
            #[trigger] self.matches_at(j, path) && j != i ==> rank_lt(
                ranks(self.spec_routes()[i].0@),
                ranks(self.spec_routes()[j].0@),
            )
    }

    /// The request the route at `i` forwards: captures merged into the
    /// parameters, and for a nested mount the path rewritten to the
    /// captured remainder.
    pub open spec fn rewritten(self, i: int, rv: ReqView) -> ReqView {
        let pat = self.spec_routes()[i].0@;
        let merged = with_params(rv, visible_captures(pat, rv.uri.path));
        match self.spec_routes()[i].1 {
            Endpoint::Full(_) => merged,
            Endpoint::Nest(_) => with_path(merged, tail_capture(pat, rv.uri.path)),
        }
    }

    fn add_route(self, pattern: Pattern, endpoint: Endpoint<S>) -> (r: Router<S>)
        requires
            self.wf(),
            pattern@.segs.len() + 1 <= usize::MAX,
            forall|k: int|
                0 <= k < pattern@.segs.len() ==> ((#[trigger] pattern@.segs[k])
                    matches SegPatView::Param(n) ==> n != reserved_tail()),
            endpoint is Nest ==> pattern@.tail == Some(reserved_tail()),
            forall|j: int|
                0 <= j < self.spec_routes().len() ==> !same_shape(
                    pattern@,
                    (#[trigger] self.spec_routes()[j]).0@,
                ),
        ensures
            r.wf(),
            r.spec_routes() == self.spec_routes().push((pattern, endpoint)),
    {
        let ghost pv = pattern@;
        let mut routes = self.routes;
        routes.push((pattern, endpoint));
        let r = Router { routes };
        proof {
            assert(r.spec_routes() =~= self.spec_routes().push((pattern, endpoint)));
            assert forall|i: int, j: int|
                0 <= i < j < r.spec_routes().len() implies !same_shape(
                (#[trigger] r.spec_routes()[i]).0@,
                (#[trigger] r.spec_routes()[j]).0@,
            ) by {
                if j == r.spec_routes().len() - 1 {
                    assert(!same_shape(pv, self.spec_routes()[i].0@));
                    lemma_same_shape_sym(self.spec_routes()[i].0@, pv);
                } else {
                    assert(!same_shape(self.spec_routes()[i].0@, self.spec_routes()[j].0@));
                }
            }
        }
        r
    }
}

/// Shape sharing is symmetric.
pub proof fn lemma_same_shape_sym(a: PatternView, b: PatternView)
    ensures
        same_shape(a, b) == same_shape(b, a),
{
    if same_shape(a, b) {
        assert forall|i: int| 0 <= i < b.segs.len() implies crate::pattern::seg_shape_eq(
            #[trigger] b.segs[i],
            a.segs[i],
        ) by {
            assert(crate::pattern::seg_shape_eq(a.segs[i], b.segs[i]));
        }
    }
    if same_shape(b, a) {
        assert forall|i: int| 0 <= i < a.segs.len() implies crate::pattern::seg_shape_eq(
            #[trigger] a.segs[i],
            b.segs[i],
        ) by {
            assert(crate::pattern::seg_shape_eq(b.segs[i], a.segs[i]));
        }
    }
}

impl<S> Router<S> {
    /// Registers a terminal route: a request whose path the pattern
    /// matches, and no more specific pattern, is forwarded to `service`.
    ///
    /// The path must be an admissible pattern that no registered route
    /// shares a shape with; a trailing bare `*` is rewritten to carry the
    /// reserved tail name, so such a route matches any suffix without
    /// exposing it.
    pub fn route(self, path: &Vec<u8>, service: S) -> (r: Router<S>)
        requires
            self.wf(),
            path@.len() < usize::MAX,
            pattern_ok(path@),
            forall|j: int|
                0 <= j < self.spec_routes().len() ==> !same_shape(
                    pattern_of(path@),
                    (#[trigger] self.spec_routes()[j]).0@,
                ),
        ensures
            r.wf(),
            r.spec_routes().len() == self.spec_routes().len() + 1,
            forall|j: int|
                0 <= j < self.spec_routes().len() ==> #[trigger] r.spec_routes()[j]
                    == self.spec_routes()[j],
            r.spec_routes().last().0@ == pattern_of(path@),
            r.spec_routes().last().1 == Endpoint::Full(service),
    {
        proof {
            crate::pattern::lemma_pattern_of_wf(path@);
        }
        let pattern = compile(path);
        let r = self.add_route(pattern, Endpoint::Full(service));
        r
    }

    /// Mounts `service` under a prefix: a request at the prefix is
    /// forwarded with its path rewritten to the captured remainder (at
    /// least the separator), the query string kept verbatim.
    ///
    /// The prefix must be an admissible pattern without a tail segment.
    pub fn nest(self, path: &Vec<u8>, service: S) -> (r: Router<S>)
        requires
            self.wf(),
            path@.len() < usize::MAX,
            pattern_ok(path@),
            pattern_of(path@).tail is None,
            forall|j: int|
                0 <= j < self.spec_routes().len() ==> !same_shape(
                    nest_pattern_of(path@),
                    (#[trigger] self.spec_routes()[j]).0@,
                ),
        ensures
            r.wf(),
            r.spec_routes().len() == self.spec_routes().len() + 1,
            forall|j: int|
                0 <= j < self.spec_routes().len() ==> #[trigger] r.spec_routes()[j]
                    == self.spec_routes()[j],
            r.spec_routes().last().0@ == nest_pattern_of(path@),
            r.spec_routes().last().1 == Endpoint::Nest(service),
    {
        proof {
            crate::pattern::lemma_pattern_of_wf(path@);
            crate::pattern::lemma_nest_pattern_of_wf(path@);
        }
        let pattern = crate::pattern::compile_nest(path);
        let r = self.add_route(pattern, Endpoint::Nest(service));
        r
    }

    /// Decides whether `pattern` shares a shape with any registered route,
    /// so that an unverified caller can test the no-conflict condition the
    /// route builders demand and fail fast.
    #[verifier::loop_isolation(false)]
    pub fn conflicts_with_route(&self, pattern: &Pattern) -> (r: bool)
        ensures
            r == exists|j: int|
                0 <= j < self.spec_routes().len() && same_shape(
                    pattern@,
                    (#[trigger] self.spec_routes()[j]).0@,
                ),
    {
        let mut i: usize = 0;
        while i < self.routes.len()
            invariant
                i <= self.routes.len(),
                forall|j: int|
                    0 <= j < i ==> !same_shape(pattern@, (#[trigger] self.spec_routes()[j]).0@),
            decreases self.routes.len() - i,
        {
            if pattern.conflicts_with(&self.routes[i].0) {
                proof {
                    assert(same_shape(pattern@, self.spec_routes()[i as int].0@));
                }
                return true;
            }
            i += 1;
        }
        false
    }
}

impl<S: Service<Request, Response = Response<BoxBody>, Error = BoxError>> Router<S> {
    /// The service bound at route `i`.
    pub open spec fn service_at(self, i: int) -> S {
        match self.spec_routes()[i].1 {
            Endpoint::Full(svc) => svc,
            Endpoint::Nest(svc) => svc,
        }
    }

    /// Whether every service a dispatch of `req` may forward to accepts
    /// the forwarded request.
    pub open spec fn routes_ready(self, req: Request) -> bool {
        forall|i: int, req2: Request|
            #![trigger self.service_at(i).ready(req2)]
            self.is_best(i, req@.uri.path) && req2@ == self.rewritten(i, req@) && req2.wf()
                ==> self.service_at(i).ready(req2)
    }

    /// The forwarded request and outcome of a dispatch that matched route
    /// `i`: `req2` is `req` as route `i` rewrites it, and `out` an outcome
    /// the route's service admits for it.
    pub open spec fn forwarded_ok(
        self,
        i: int,
        req: Request,
        req2: Request,
        out: Result<Response<BoxBody>, BoxError>,
    ) -> bool {
        &&& self.is_best(i, req@.uri.path)
        &&& req2@ == self.rewritten(i, req@)
        &&& req2.wf()
        &&& self.service_at(i).post(req2, out)
    }

    /// What a dispatch of `req` may hand back: with no matching route, a
    /// pending error task owning `req` unchanged inside a not-found error;
    /// else a pending task around the best-matching service's outcome.
    pub open spec fn dispatch_post(self, req: Request, r: RouteFuture) -> bool {
        &&& !self.has_match(req@.uri.path) ==> (r matches RouteFuture::Error { err }
            && err matches Some(e) && e matches BoxError::NotFound(nf) && nf.spec_request() == req)
        &&& self.has_match(req@.uri.path) ==> exists|i: int, req2: Request, out: Result<
            Response<BoxBody>,
            BoxError,
        >|
            #[trigger] self.forwarded_ok(i, req, req2, out) && r == (RouteFuture::Future {
                fut: Some(out),
            })
    }

    /// Dispatches one request: finds the most specific matching route,
    /// merges the visible captures into the request's parameters, rewrites
    /// the path for a nested mount, and forwards; with no match, wraps the
    /// request in a not-found error.
    #[verifier::loop_isolation(false)]
    #[verifier::rlimit(90)]
    pub fn dispatch(&self, req: Request) -> (r: RouteFuture)
        requires
            self.wf(),
            req.wf(),
            self.routes_ready(req),
        ensures
            self.dispatch_post(req, r),
            !r.is_completed(),
    {
        let ghost path_v = req@.uri.path;
        let path = req.uri.path.clone();
        proof {
            assert(path@ =~= path_v);
        }
        let mut best: usize = 0;
        let mut found = false;
        let mut best_caps: Vec<(Vec<u8>, Vec<u8>)> = Vec::new();
        let mut i: usize = 0;
        while i < self.routes.len()
            invariant
                i <= self.routes.len(),
                found ==> {
                    &&& best < i
                    &&& self.matches_at(best as int, path_v)
                    &&& best_caps.deep_view() == pat_captures(
                        self.spec_routes()[best as int].0@,
                        path_v,
                    )
                    &&& forall|j: int|
                        #[trigger] self.matches_at(j, path_v) && j < i && j != best ==> rank_lt(
                            ranks(self.spec_routes()[best as int].0@),
                            ranks(self.spec_routes()[j].0@),
                        )
                },
                !found ==> forall|j: int| 0 <= j < i ==> !self.matches_at(j, path_v),
            decreases self.routes.len() - i,
        {
            match self.routes[i].0.match_path(&path) {
                Some(caps) => {
                    if !found {
                        found = true;
                        best = i;
                        best_caps = caps;
                    } else {
                        let ghost bi = best as int;
                        let ghost pi = self.spec_routes()[i as int].0@;
                        let ghost pb = self.spec_routes()[bi].0@;
                        proof {
                            assert(!same_shape(pb, pi));
                            crate::pattern::lemma_comatch_ordered(pb, pi, path_v);
                        }
                        if self.routes[i].0.more_specific(&self.routes[best].0) {
                            proof {
                                assert forall|j: int|
                                    #[trigger] self.matches_at(j, path_v) && j < i + 1 && j != i
                                        as int implies rank_lt(
                                    ranks(pi),
                                    ranks(self.spec_routes()[j].0@),
                                ) by {
                                    if j != bi {
                                        crate::pattern::lemma_rank_lt_trans(
                                            ranks(pi),
                                            ranks(pb),
                                            ranks(self.spec_routes()[j].0@),
                                        );
                                    }
                                }
                            }
                            best = i;
                            best_caps = caps;
                        } else {
                            proof {
                                assert(rank_lt(ranks(pb), ranks(pi)));
                            }
                        }
                    }
                },
                None => {},
            }
            i += 1;
        }
        if !found {
            proof {
                assert(!self.has_match(path_v));
            }
            let nf = NotFound::new(req);
            return RouteFuture::Error { err: Some(BoxError::from_not_found(nf)) };
        }
        let ghost bi = best as int;
        let ghost pat = self.spec_routes()[bi].0@;
        proof {
            assert(self.is_best(bi, path_v));
        }
        let (visible, tail_opt) = get_params(best_caps);
        proof {
            assert(pairs_map(visible.deep_view()) == visible_captures(pat, path_v));
        }
        let ghost req0 = req;
        let mut req = req;
        insert_params(&mut req, visible);
        match &self.routes[best].1 {
            Endpoint::Full(svc) => {
                proof {
                    assert(req@ == self.rewritten(bi, req0@));
                }
                let ghost req2 = req;
                proof {
                    assert(self.service_at(bi).ready(req2));
                }
                let out = svc.call(req);
                proof {
                    assert(self.forwarded_ok(bi, req0, req2, out));
                }
                RouteFuture::Future { fut: Some(out) }
            },
            Endpoint::Nest(svc) => {
                proof {
                    assert(pat.tail == Some(reserved_tail()));
                    lemma_tail_capture_present(pat, path_v);
                }
                let tail = match tail_opt {
                    Some(t) => t,
                    None => vstd::pervasive::unreached(),
                };
                proof {
                    assert(tail@ == tail_capture(pat, path_v));
                }
                modify_path_and_query(&mut req, tail);
                proof {
                    assert(req@ == self.rewritten(bi, req0@));
                }
                let ghost req2 = req;
                proof {
                    assert(self.service_at(bi).ready(req2));
                }
                let out = svc.call(req);
                proof {
                    assert(self.forwarded_ok(bi, req0, req2, out));
                }
                RouteFuture::Future { fut: Some(out) }
            },
        }
    }
}

/// A matched pattern with a tail binds its tail name: the capture list ends
/// with the tail pair.
pub proof fn lemma_tail_capture_present(pat: PatternView, path: Seq<u8>)
    requires
        pat_matches(pat, path),
        pat.tail is Some,
    ensures
        pairs_map(pat_captures(pat, path)).contains_key(pat.tail->Some_0),
        ({
            let caps = pat_captures(pat, path);
            caps.len() > 0 && caps.last().0 == pat.tail->Some_0
        }),
{
    lemma_captures_tail_last(pat.segs, pat.tail, path);
    let caps = pat_captures(pat, path);
    assert(pairs_map(caps) == pairs_map(caps.drop_last()).insert(caps.last().0, caps.last().1));
}

/// For a matching pattern with a tail, the last capture is the tail pair.
proof fn lemma_captures_tail_last(segs: Seq<SegPatView>, tail: Option<Seq<u8>>, p: Seq<u8>)
    requires
        crate::pattern::segs_match(segs, tail, p),
        tail is Some,
    ensures
        crate::pattern::segs_captures(segs, tail, p).len() > 0,
        crate::pattern::segs_captures(segs, tail, p).last().0 == tail->Some_0,
    decreases segs.len(),
{
    if segs.len() > 0 {
        let rest = p.drop_first();
        let n = crate::pattern::first_seg_len(rest);
        lemma_captures_tail_last(segs.drop_first(), tail, rest.skip(n));
    }
}

impl<S: Service<Request, Response = Response<BoxBody>, Error = BoxError>> Service<Request> for Router<
    S,
> {
    type Response = Response<BoxBody>;

    type Error = BoxError;

    open spec fn ready(&self, req: Request) -> bool {
        self.wf() && req.wf() && self.routes_ready(req)
    }

    open spec fn post(&self, req: Request, r: Result<Response<BoxBody>, BoxError>) -> bool {
        &&& !self.has_match(req@.uri.path) ==> (r matches Err(e) && e matches BoxError::NotFound(nf)
            && nf.spec_request() == req)
        &&& self.has_match(req@.uri.path) ==> exists|i: int, req2: Request|
            #[trigger] self.forwarded_ok(i, req, req2, r)
    }

    fn call(&self, req: Request) -> (r: Result<Response<BoxBody>, BoxError>) {
        let ghost req0 = req;
        let mut fut = self.dispatch(req);
        let ghost fut0 = fut;
        let out = fut.poll();
        proof {
            if self.has_match(req0@.uri.path) {
                let (i, req2, o) = choose|i: int, req2: Request, o: Result<
                    Response<BoxBody>,
                    BoxError,
                >|
                    #[trigger] self.forwarded_ok(i, req0, req2, o) && fut0 == (RouteFuture::Future {
                        fut: Some(o),
                    });
                assert(out == o);
                assert(self.forwarded_ok(i, req0, req2, out));
            }
        }
        out
    }
}

/// A literal segment always wins over a parameter segment at the same
/// position: when two registered routes match one path, their patterns
/// agree in kind before position `k`, and there the first holds a literal
/// where the second holds a parameter, the second is never the dispatched
/// route.
pub proof fn lemma_literal_route_wins<S>(r: Router<S>, i: int, j: int, path: Seq<u8>, k: int)
    requires
        r.matches_at(i, path),
        r.matches_at(j, path),
        i != j,
        ranks(r.spec_routes()[i].0@).take(k) == ranks(r.spec_routes()[j].0@).take(k),
        0 <= k < r.spec_routes()[i].0@.segs.len(),
        k < r.spec_routes()[j].0@.segs.len(),
        r.spec_routes()[i].0@.segs[k] is Literal,
        r.spec_routes()[j].0@.segs[k] is Param,
    ensures
        !r.is_best(j, path),
{
    let pi = r.spec_routes()[i].0@;
    let pj = r.spec_routes()[j].0@;
    crate::pattern::lemma_literal_beats_param(pi, pj, k);
    if r.is_best(j, path) {
        assert(rank_lt(ranks(pj), ranks(pi)));
        crate::pattern::lemma_rank_lt_asym(ranks(pi), ranks(pj));
    }
}

/// The tail capture of a match is the unmatched remainder of the path: a
/// suffix of it that begins with the separator — the bare separator when
/// the remainder is empty.
pub proof fn lemma_tail_capture_shape(pat: PatternView, path: Seq<u8>)
    requires
        pat_matches(pat, path),
        pat.tail is Some,
    ensures
        ({
            let t = pat_captures(pat, path).last().1;
            t.len() >= 1 && t[0] == crate::http::SLASH && t.is_suffix_of(path)
        }),
{
    lemma_captures_tail_value(pat.segs, pat.tail, path);
    let t = crate::pattern::segs_captures(pat.segs, pat.tail, path).last().1;
    assert(t =~= path.skip(path.len() - t.len()));
}

/// For a matching pattern with a tail, the last capture's value is the
/// whole remainder: non-empty, led by the separator, a suffix of the path.
proof fn lemma_captures_tail_value(segs: Seq<SegPatView>, tail: Option<Seq<u8>>, p: Seq<u8>)
    requires
        crate::pattern::segs_match(segs, tail, p),
        tail is Some,
    ensures
        ({
            let caps = crate::pattern::segs_captures(segs, tail, p);
            &&& caps.len() > 0
            &&& caps.last().1.len() >= 1
            &&& caps.last().1[0] == crate::http::SLASH
            &&& caps.last().1.len() <= p.len()
            &&& caps.last().1 == p.skip(p.len() - caps.last().1.len())
        }),
    decreases segs.len(),
{
    if segs.len() == 0 {
        let caps = crate::pattern::segs_captures(segs, tail, p);
        assert(caps.last().1 == p);
        assert(p.skip(0int) =~= p);
    } else {
        let rest = p.drop_first();
        let n = crate::pattern::first_seg_len(rest);
        crate::pattern::lemma_first_seg_len(rest);
        lemma_captures_tail_value(segs.drop_first(), tail, rest.skip(n));
        let caps = crate::pattern::segs_captures(segs, tail, p);
        let sub = crate::pattern::segs_captures(segs.drop_first(), tail, rest.skip(n));
        assert(caps.last() == sub.last());
        let t = sub.last().1;
        assert(t == rest.skip(n).skip(rest.skip(n).len() - t.len()));
        assert(rest.skip(n).skip(rest.skip(n).len() - t.len()) =~= p.skip(p.len() - t.len()));
    }
}


/// The parameters a dispatched route forwards: every visible capture is
/// bound to its captured text, every parameter the request already carried
/// and the match did not recapture is kept, and the reserved tail name is
/// never among them.
pub proof fn lemma_forwarded_params(pat: PatternView, path: Seq<u8>, rv: ReqView)
    ensures
        !visible_captures(pat, path).contains_key(reserved_tail()),
        ({
            let caps = visible_captures(pat, path);
            let merged = params_view_of(with_params(rv, caps));
            &&& forall|k: Seq<u8>|
                caps.contains_key(k) ==> merged.contains_key(k) && merged[k] == caps[k]
            &&& forall|k: Seq<u8>|
                params_view_of(rv).contains_key(k) && !caps.contains_key(k)
                    ==> merged.contains_key(k) && merged[k] == params_view_of(rv)[k]
        }),
{
    let keep = |c: (Seq<u8>, Seq<u8>)| c.0 != reserved_tail();
    let fs = pat_captures(pat, path).filter(keep);
    if visible_captures(pat, path).contains_key(reserved_tail()) {
        crate::params::lemma_pairs_map_key(fs, reserved_tail());
        let i = choose|i: int| 0 <= i < fs.len() && (#[trigger] fs[i]).0 == reserved_tail();
        pat_captures(pat, path).lemma_filter_pred(keep, i);
    }
    let caps = visible_captures(pat, path);
    let merged = params_view_of(with_params(rv, caps));
    assert(merged == params_view_of(rv).union_prefer_right(caps));
}

/// An exact route always receives its path: when the route at `i` carries
/// only literal segments and no tail, and it matches the request path, it
/// is the dispatched route.
pub proof fn lemma_exact_route_is_best<S>(r: Router<S>, i: int, path: Seq<u8>)
    requires
        r.wf(),
        r.matches_at(i, path),
        r.spec_routes()[i].0@.tail is None,
        forall|k: int|
            0 <= k < r.spec_routes()[i].0@.segs.len() ==> (#[trigger] r.spec_routes()[i].0@.segs[
            k]) is Literal,
    ensures
        r.is_best(i, path),
{
    assert forall|j: int| #[trigger] r.matches_at(j, path) && j != i implies rank_lt(
        ranks(r.spec_routes()[i].0@),
        ranks(r.spec_routes()[j].0@),
    ) by {
        let pi = r.spec_routes()[i].0@;
        let pj = r.spec_routes()[j].0@;
        assert(!same_shape(pi, pj)) by {
            if i < j {
                assert(!same_shape(r.spec_routes()[i].0@, r.spec_routes()[j].0@));
            } else {
                assert(!same_shape(r.spec_routes()[j].0@, r.spec_routes()[i].0@));
                lemma_same_shape_sym(pj, pi);
            }
        }
        crate::pattern::lemma_all_literal_most_specific(pi, pj, path);
    }
}

} // verus!
