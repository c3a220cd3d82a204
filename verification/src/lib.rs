//! An embeddable HTTP server library: typed URL routes are compiled at
//! registration time, incoming request text is parsed and matched against the
//! registered routes in insertion order, matched parameters are extracted and
//! validated, and responses are serialized to wire form. The surrounding
//! process owns the sockets and worker pool and drives these functions.
pub mod error;
pub mod matching;
pub mod request;
pub mod response;
pub mod route;

use vstd::prelude::*;

use crate::error::{HttpError, RegisterError};
use crate::matching::{
    captures_from, class_matches, lemma_capture_parts, match_segments, parts_view, segs_match,
};
use crate::request::{
    Request, digits_fit_i32, digits_value, i32_parsable, int_token_digits, req_body, req_headers,
    req_method, req_uri, request_wf,
};
use crate::route::{
    CompileError, HttpMethod, ParamType, Route, distinct_names, params_of, params_view,
    pattern_names, pattern_ok, str_eq,
};

verus! {

/// The route answers to this method and its pattern matches this path.
pub open spec fn route_matches(route: Route, method: HttpMethod, path: Seq<char>) -> bool {
    route.method == method && segs_match(route.segments@, path)
}

/// Index of the first route at or after `i` that matches, scanning in
/// insertion order.
pub open spec fn lookup_from<H>(
    routes: Seq<(Route, H)>,
    i: int,
    method: HttpMethod,
    path: Seq<char>,
) -> Option<int>
    decreases routes.len() - i,
{
    if !(0 <= i && i < routes.len()) {
        None
    } else if route_matches(routes[i].0, method, path) {
        Some(i)
    } else {
        lookup_from(routes, i + 1, method, path)
    }
}

/// Index of the earliest registered route that matches.
pub open spec fn lookup_spec<H>(
    routes: Seq<(Route, H)>,
    method: HttpMethod,
    path: Seq<char>,
) -> Option<int> {
    lookup_from(routes, 0, method, path)
}

/// A route with this method and pattern is already registered.
pub open spec fn has_route<H>(
    routes: Seq<(Route, H)>,
    method: HttpMethod,
    pattern: Seq<char>,
) -> bool {
    exists|i: int|
        0 <= i < routes.len() && (#[trigger] routes[i]).0.method == method
            && routes[i].0.pattern@ == pattern
}

pub open spec fn routes_wf<H>(routes: Seq<(Route, H)>) -> bool {
    forall|i: int| 0 <= i < routes.len() ==> (#[trigger] routes[i]).0.wf()
}

/// What lookup returns: either the index of the earliest match with
/// everything before it failing to match, or a report that nothing matches.
pub proof fn lemma_lookup_first_match<H>(
    routes: Seq<(Route, H)>,
    i: int,
    method: HttpMethod,
    path: Seq<char>,
)
    requires
        0 <= i <= routes.len(),
    ensures
        match lookup_from(routes, i, method, path) {
            Some(j) => i <= j < routes.len() && route_matches(routes[j].0, method, path)
                && forall|x: int|
                i <= x < j ==> !route_matches((#[trigger] routes[x]).0, method, path),
            None => forall|x: int|
                i <= x < routes.len() ==> !route_matches((#[trigger] routes[x]).0, method, path),
        },
    decreases routes.len() - i,
{
    if i < routes.len() && !route_matches(routes[i].0, method, path) {
        lemma_lookup_first_match(routes, i + 1, method, path);
    }
}

/// When exactly one registered route matches a path, lookup returns it.
pub proof fn lemma_lookup_unique<H>(
    routes: Seq<(Route, H)>,
    method: HttpMethod,
    path: Seq<char>,
    i: int,
)
    requires
        0 <= i < routes.len(),
        route_matches(routes[i].0, method, path),
        forall|j: int|
            0 <= j < routes.len() && j != i ==> !route_matches(
                (#[trigger] routes[j]).0,
                method,
                path,
            ),
    ensures
        lookup_spec(routes, method, path) == Some(i),
{
    lemma_lookup_first_match(routes, 0, method, path);
}

/// When several routes match a path, lookup returns the earliest registered
/// one.
pub proof fn lemma_lookup_earliest<H>(
    routes: Seq<(Route, H)>,
    method: HttpMethod,
    path: Seq<char>,
    i: int,
)
    requires
        0 <= i < routes.len(),
        route_matches(routes[i].0, method, path),
    ensures
        lookup_spec(routes, method, path) matches Some(j) && j <= i && route_matches(
            routes[j].0,
            method,
            path,
        ),
        forall|x: int|
            0 <= x < lookup_spec(routes, method, path).unwrap() ==> !route_matches(
                (#[trigger] routes[x]).0,
                method,
                path,
            ),
{
    lemma_lookup_first_match(routes, 0, method, path);
}

/// What registering a route leaves behind: on success the compiled route and
/// its handler are appended and nothing else changes; otherwise the exact
/// error for a bad pattern or a duplicate.
pub open spec fn register_result<H>(
    pre: HttpServer<H>,
    endpoint: Seq<char>,
    method: HttpMethod,
    handler: H,
    r: Result<HttpServer<H>, RegisterError>,
) -> bool {
    match r {
        Ok(s) => {
            &&& pattern_ok(endpoint)
            &&& distinct_names(pattern_names(endpoint))
            &&& !has_route(pre.routes@, method, endpoint)
            &&& s.port == pre.port
            &&& s.workers == pre.workers
            &&& s.routes@.len() == pre.routes@.len() + 1
            &&& forall|i: int| 0 <= i < pre.routes@.len() ==> s.routes@[i] == pre.routes@[i]
            &&& s.routes@.last().0.method == method
            &&& s.routes@.last().0.pattern@ == endpoint
            &&& s.routes@.last().0.wf()
            &&& s.routes@.last().1 == handler
        },
        Err(RegisterError::DuplicateRoute) => pattern_ok(endpoint) && distinct_names(
            pattern_names(endpoint),
        ) && has_route(pre.routes@, method, endpoint),
        Err(RegisterError::Compile(CompileError::UnknownParamType)) => !pattern_ok(endpoint),
        Err(RegisterError::Compile(CompileError::DuplicateParamName)) => pattern_ok(endpoint)
            && !distinct_names(pattern_names(endpoint)),
    }
}

/// Registering a route and then registering the same method and pattern
/// again always fails with `DuplicateRoute` on the second call.
pub proof fn lemma_duplicate_registration<H>(
    s0: HttpServer<H>,
    endpoint: Seq<char>,
    method: HttpMethod,
    h1: H,
    h2: H,
    s1: HttpServer<H>,
    r2: Result<HttpServer<H>, RegisterError>,
)
    requires
        register_result(s0, endpoint, method, h1, Ok(s1)),
        register_result(s1, endpoint, method, h2, r2),
    ensures
        r2 == Err::<HttpServer<H>, RegisterError>(RegisterError::DuplicateRoute),
{
    let last = s1.routes@.len() - 1;
    assert((s1.routes@[last]).0.method == method && s1.routes@[last].0.pattern@ == endpoint);
    assert(has_route(s1.routes@, method, endpoint));
    match r2 {
        Ok(_) => {
            assert(false);
        },
        Err(RegisterError::DuplicateRoute) => {},
        Err(RegisterError::Compile(_)) => {
            assert(false);
        },
    }
}

/// Every parameter of the route whose declared type is `int` captured a value
/// that fits an `i32`.
pub open spec fn int_params_fit(route: Route, parts: Seq<Seq<char>>) -> bool {
    forall|j: int|
        0 <= j < params_of(route.segments@).len() && (#[trigger] params_of(route.segments@)[j]).1
            == ParamType::Int ==> digits_value(parts[j]) <= 2147483647
}

/// `bound` is the matched route's parameter names bound, in declaration
/// order, to the parts of a valid capture of the path, every `int` value in
/// range.
pub open spec fn params_bound(
    route: Route,
    path: Seq<char>,
    bound: Seq<(Seq<char>, Seq<char>)>,
) -> bool {
    exists|parts: Seq<Seq<char>>|
        {
            &&& #[trigger] captures_from(route.segments@, 0, path, 0, parts)
            &&& int_params_fit(route, parts)
            &&& bound.len() == parts.len()
            &&& bound.len() == params_of(route.segments@).len()
            &&& forall|j: int|
                0 <= j < bound.len() ==> #[trigger] bound[j] == (
                    params_of(route.segments@)[j].0,
                    parts[j],
                )
        }
}

/// The server under construction and, once launched by the surrounding
/// process, the read-only registry its workers consult: the port to bind, the
/// registered routes with their handlers in insertion order, and the worker
/// pool size.
pub struct HttpServer<H> {
    pub port: i16,
    pub routes: Vec<(Route, H)>,
    pub workers: usize,
}

impl<H> HttpServer<H> {
    pub open spec fn wf(&self) -> bool {
        routes_wf(self.routes@)
    }

    /// A server for the given port, with no routes and the default pool of 16
    /// workers.
    pub fn bind(port: i16) -> (s: HttpServer<H>)
        ensures
            s.port == port,
            s.workers == 16,
            s.routes@.len() == 0,
            s.wf(),
    {
        HttpServer { port, routes: Vec::new(), workers: 16 }
    }

    /// The same server with the worker pool size replaced.
    pub fn workers(self, workers: usize) -> (s: HttpServer<H>)
        ensures
            s.port == self.port,
            s.workers == workers,
            s.routes@ == self.routes@,
    {
        HttpServer { workers, ..self }
    }

    /// Register a GET route.
    pub fn get(self, endpoint: &str, handler: H) -> (r: Result<HttpServer<H>, RegisterError>)
        ensures
            register_result(self, endpoint@, HttpMethod::Get, handler, r),
            self.wf() ==> match r {
                Ok(s) => s.wf(),
                Err(_) => true,
            },
    {
        self.route(endpoint, HttpMethod::Get, handler)
    }

    /// Register a POST route.
    pub fn post(self, endpoint: &str, handler: H) -> (r: Result<HttpServer<H>, RegisterError>)
        ensures
            register_result(self, endpoint@, HttpMethod::Post, handler, r),
            self.wf() ==> match r {
                Ok(s) => s.wf(),
                Err(_) => true,
            },
    {
        self.route(endpoint, HttpMethod::Post, handler)
    }

    /// Compile the pattern and append the route, refusing bad patterns and
    /// duplicate (method, pattern) pairs.
    fn route(self, endpoint: &str, method: HttpMethod, handler: H) -> (r: Result<
        HttpServer<H>,
        RegisterError,
    >)
        ensures
            register_result(self, endpoint@, method, handler, r),
            self.wf() ==> match r {
                Ok(s) => s.wf(),
                Err(_) => true,
            },
    {
        let ep = String::from_str(endpoint);
        match Route::new(&ep, method) {
            Err(e) => Err(RegisterError::Compile(e)),
            Ok(rt) => {
                let n = self.routes.len();
                let mut i: usize = 0;
                while i < n
                    invariant
                        0 <= i <= n,
                        n == self.routes@.len(),
                        pattern_ok(endpoint@),
                        distinct_names(pattern_names(endpoint@)),
                        forall|j: int|
                            0 <= j < i ==> !((#[trigger] self.routes@[j]).0.method == method
                                && self.routes@[j].0.pattern@ == endpoint@),
                    decreases n - i,
                {
                    if self.routes[i].0.method == method && str_eq(
                        self.routes[i].0.pattern.as_str(),
                        endpoint,
                    ) {
                        proof {
                            assert((self.routes@[i as int]).0.method == method
                                && self.routes@[i as int].0.pattern@ == endpoint@);
                            assert(has_route(self.routes@, method, endpoint@));
                        }
                        return Err(RegisterError::DuplicateRoute);
                    }
                    i += 1;
                }
                let mut this = self;
                this.routes.push((rt, handler));
                Ok(this)
            },
        }
    }

    /// Find the earliest registered route whose method and pattern match,
    /// returning its index and the parts its placeholders captured.
    pub fn lookup(&self, method: HttpMethod, path: &str) -> (r: Option<(usize, Vec<String>)>)
        ensures
            match r {
                Some((i, parts)) => {
                    &&& lookup_spec(self.routes@, method, path@) == Some(i as int)
                    &&& i < self.routes@.len()
                    &&& captures_from(
                        self.routes@[i as int].0.segments@,
                        0,
                        path@,
                        0,
                        parts_view(parts@),
                    )
                },
                None => lookup_spec(self.routes@, method, path@) is None,
            },
    {
        let n = self.routes.len();
        let mut i: usize = 0;
        while i < n
            invariant
                0 <= i <= n,
                n == self.routes@.len(),
                lookup_from(self.routes@, 0, method, path@) == lookup_from(
                    self.routes@,
                    i as int,
                    method,
                    path@,
                ),
            decreases n - i,
        {
            if self.routes[i].0.method == method {
                match match_segments(&self.routes[i].0.segments, path) {
                    Some(parts) => {
                        proof {
                            assert(segs_match(self.routes@[i as int].0.segments@, path@));
                            assert(route_matches(self.routes@[i as int].0, method, path@));
                        }
                        return Some((i, parts));
                    },
                    None => {
                        assert(!route_matches(self.routes@[i as int].0, method, path@));
                    },
                }
            } else {
                assert(!route_matches(self.routes@[i as int].0, method, path@));
            }
            i += 1;
        }
        None
    }

    /// Serve one request's routing: parse the raw text, find the earliest
    /// matching route, and extract and validate its typed parameters. Each
    /// failure reports the error its connection degrades to.
    pub fn dispatch(&self, raw: &str) -> (r: Result<(usize, Request), HttpError>)
        requires
            self.wf(),
        ensures
            match r {
                Ok((i, req)) => {
                    &&& request_wf(raw@)
                    &&& lookup_spec(self.routes@, req_method(raw@), req_uri(raw@)) == Some(
                        i as int,
                    )
                    &&& i < self.routes@.len()
                    &&& req.method == req_method(raw@)
                    &&& req.uri@ == req_uri(raw@)
                    &&& crate::request::hdrs_view(req.headers@) == req_headers(raw@)
                    &&& req.body@ == req_body(raw@)
                    &&& params_bound(
                        self.routes@[i as int].0,
                        req_uri(raw@),
                        crate::request::hdrs_view(req.params@),
                    )
                    &&& forall|j: int|
                        0 <= j < req.params@.len() && (#[trigger] params_of(
                            self.routes@[i as int].0.segments@,
                        )[j]).1 == ParamType::Int ==> i32_parsable(req.params@[j].1@)
                },
                Err(HttpError::BadRequest) => !request_wf(raw@),
                Err(HttpError::NotFound) => request_wf(raw@) && lookup_spec(
                    self.routes@,
                    req_method(raw@),
                    req_uri(raw@),
                ) is None,
                Err(HttpError::ParseError) => {
                    &&& request_wf(raw@)
                    &&& lookup_spec(self.routes@, req_method(raw@), req_uri(raw@)) matches Some(i)
                        && exists|parts: Seq<Seq<char>>|
                        #[trigger] captures_from(
                            self.routes@[i].0.segments@,
                            0,
                            req_uri(raw@),
                            0,
                            parts,
                        ) && !int_params_fit(self.routes@[i].0, parts)
                },
                Err(HttpError::HandlerFailure) => false,
            },
    {
        let req = match Request::new(raw) {
            Ok(req) => req,
            Err(e) => {
                return Err(e);
            },
        };
        let looked = self.lookup(req.method, req.uri.as_str());
        let (idx, parts) = match looked {
            Some(pair) => pair,
            None => {
                return Err(HttpError::NotFound);
            },
        };
        let route = &self.routes[idx].0;
        let ghost uri = req_uri(raw@);
        let ghost gparts = parts_view(parts@);
        proof {
            lemma_capture_parts(route.segments@, 0, uri, 0, gparts);
            assert(route.segments@.skip(0) =~= route.segments@);
            assert(params_view(route.params@).len() == route.params@.len());
        }
        let m = route.params.len();
        let mut bound: Vec<(String, String)> = Vec::new();
        let mut j: usize = 0;
        while j < m
            invariant
                0 <= j <= m,
                request_wf(raw@),
                uri == req_uri(raw@),
                idx < self.routes@.len(),
                *route == self.routes@[idx as int].0,
                lookup_spec(self.routes@, req_method(raw@), req_uri(raw@)) == Some(idx as int),
                m == route.params@.len(),
                m == parts@.len(),
                gparts == parts_view(parts@),
                m == params_of(route.segments@).len(),
                params_view(route.params@) == params_of(route.segments@),
                captures_from(route.segments@, 0, uri, 0, gparts),
                forall|x: int|
                    0 <= x < m ==> class_matches(
                        params_of(route.segments@)[x].1,
                        #[trigger] gparts[x],
                    ),
                bound@.len() == j,
                forall|x: int|
                    0 <= x < j ==> #[trigger] crate::request::hdrs_view(bound@)[x] == (
                        params_of(route.segments@)[x].0,
                        gparts[x],
                    ),
                forall|x: int|
                    0 <= x < j && (#[trigger] params_of(route.segments@)[x]).1 == ParamType::Int
                        ==> digits_value(gparts[x]) <= 2147483647,
            decreases m - j,
        {
            proof {
                assert(params_view(route.params@)[j as int] == (
                    route.params@[j as int].0@,
                    route.params@[j as int].1,
                ));
                assert(gparts[j as int] == parts@[j as int]@);
            }
            let is_int = match route.params[j].1 {
                ParamType::Int => true,
                _ => false,
            };
            if is_int {
                if !digits_fit_i32(parts[j].as_str()) {
                    proof {
                        assert(params_of(route.segments@)[j as int].1 == ParamType::Int);
                        assert(digits_value(gparts[j as int]) > 2147483647);
                        assert(!int_params_fit(*route, gparts));
                        assert(captures_from(
                            self.routes@[idx as int].0.segments@,
                            0,
                            req_uri(raw@),
                            0,
                            gparts,
                        ));
                    }
                    return Err(HttpError::ParseError);
                }
            }
            let ghost old_bound = bound@;
            bound.push((route.params[j].0.clone(), parts[j].clone()));
            proof {
                assert forall|x: int|
                    0 <= x < j + 1 implies #[trigger] crate::request::hdrs_view(bound@)[x] == (
                    params_of(route.segments@)[x].0,
                    gparts[x],
                ) by {
                    if x < j {
                        assert(crate::request::hdrs_view(bound@)[x] == crate::request::hdrs_view(
                            old_bound,
                        )[x]);
                    } else {
                        assert(crate::request::hdrs_view(bound@)[x] == (
                            bound@[x].0@,
                            bound@[x].1@,
                        ));
                    }
                }
            }
            j += 1;
        }
        proof {
            assert forall|x: int|
                0 <= x < m && (#[trigger] params_of(route.segments@)[x]).1
                    == ParamType::Int implies i32_parsable(
                crate::request::hdrs_view(bound@)[x].1,
            ) by {
                assert(crate::request::hdrs_view(bound@)[x].1 == gparts[x]);
                assert(class_matches(ParamType::Int, gparts[x]));
                assert(int_token_digits(gparts[x]) == gparts[x]);
            }
            assert(params_bound(*route, uri, crate::request::hdrs_view(bound@)));
        }
        let mut req2 = req;
        req2.params = bound;
        Ok((idx, req2))
    }
}

} // verus!
