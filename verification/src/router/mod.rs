//! An ergonomic routing layer.
//!
//! [`Router`] dispatches a request to one of several handlers by HTTP method and
//! path pattern. A `Router` *is* a [`Handler`].
//!
//! Path patterns are split on `/`. A `:name` segment captures one path segment
//! (read it back with [`Request::param`]); a trailing `*name` captures the rest
//! of the path. Everything else matches literally. Leading and trailing slashes
//! are ignored, so `/a/b`, `a/b`, and `/a/b/` all match the pattern `/a/b`.
pub mod response;

pub use self::response::IntoResponse;
use crate::handler::Handler;
use crate::proto::headers::Fields;
use crate::proto::method::{Method, MethodModel};
use crate::proto::request::{path_of, Request, RequestModel};
use crate::proto::response::{status_response, Response, ResponseModel};
use crate::proto::status::{standard, StatusCode};
use crate::text::{
    chars_of, chars_strip_prefix, chars_trim_end_char, concat, join_texts, law_split_undoes_joining,
    law_strip_prefix, list_contains, owned, split, split_texts, str_eq, strip_prefix, text_of,
    texts, trim_end_char,
};
use vstd::prelude::*;

verus! {

broadcast use vstd::seq::group_seq_axioms;

// ---------------------------------------------------------------------------
// Patterns
// ---------------------------------------------------------------------------

/// One segment of a compiled route pattern.
enum Seg {
    /// A literal segment that must match exactly.
    Lit(String),
    /// `:name` — captures a single path segment.
    Param(String),
    /// `*name` — captures the remainder of the path.
    Wildcard(String),
}

/// The model of a segment of a pattern.
pub enum SegModel {
    Lit(Seq<char>),
    Param(Seq<char>),
    Wildcard(Seq<char>),
}

impl Seg {
    spec fn model(self) -> SegModel {
        match self {
            Seg::Lit(s) => SegModel::Lit(s@),
            Seg::Param(s) => SegModel::Param(s@),
            Seg::Wildcard(s) => SegModel::Wildcard(s@),
        }
    }
}

spec fn seg_models(v: Seq<Seg>) -> Seq<SegModel> {
    v.map_values(|s: Seg| s.model())
}

/// A text without leading slashes.
pub open spec fn trim_slashes_start(s: Seq<char>) -> Seq<char>
    decreases s.len(),
{
    if s.len() > 0 && s[0] == '/' {
        trim_slashes_start(s.skip(1))
    } else {
        s
    }
}

/// The segments of a path or pattern; leading and trailing slashes are ignored.
pub open spec fn segments_of(path: Seq<char>) -> Seq<Seq<char>> {
    let t = trim_end_char(trim_slashes_start(path), '/');
    if t.len() == 0 {
        Seq::empty()
    } else {
        split(t, '/')
    }
}

/// What a segment of a pattern means.
pub open spec fn seg_of(seg: Seq<char>) -> SegModel {
    match strip_prefix(seg, ":"@) {
        Some(name) => SegModel::Param(name),
        None => match strip_prefix(seg, "*"@) {
            Some(name) => SegModel::Wildcard(
                if name.len() == 0 {
                    "*"@
                } else {
                    name
                },
            ),
            None => SegModel::Lit(seg),
        },
    }
}

/// The compiled form of a pattern.
pub open spec fn pattern_of(pattern: Seq<char>) -> Seq<SegModel> {
    segments_of(pattern).map_values(|s: Seq<char>| seg_of(s))
}

/// What a pattern captures of a path; nothing if it does not match.
pub open spec fn captured(segs: Seq<SegModel>, path: Seq<Seq<char>>) -> Option<Fields>
    decreases segs.len(),
{
    if segs.len() == 0 {
        // A pattern without a wildcard must consume the whole path.
        if path.len() == 0 {
            Some(Seq::empty())
        } else {
            None
        }
    } else {
        match segs[0] {
            SegModel::Lit(lit) => if path.len() > 0 && path[0] == lit {
                captured(segs.skip(1), path.skip(1))
            } else {
                None
            },
            SegModel::Param(name) => if path.len() > 0 {
                match captured(segs.skip(1), path.skip(1)) {
                    Some(rest) => Some(seq![(name, path[0])] + rest),
                    None => None,
                }
            } else {
                None
            },
            // Captures everything left, including nothing.
            SegModel::Wildcard(name) => Some(seq![(name, concat(path, "/"@))]),
        }
    }
}

/// Split a path (or pattern) into segments, ignoring leading/trailing slashes.
pub fn segments(path: &str) -> (r: Vec<String>)
    ensures
        texts(r@) == segments_of(path@),
{
    let c = chars_of(path);
    let n: usize = c.len();
    let mut i: usize = 0;
    proof {
        assert(c@.skip(0) =~= c@);
    }
    while i < n && c[i] == '/'
        invariant
            i <= n == c@.len(),
            trim_slashes_start(c@.skip(i as int)) == trim_slashes_start(c@),
        decreases n - i,
    {
        proof {
            assert(c@.skip(i as int)[0] == c@[i as int]);
            assert(c@.skip(i as int).skip(1) =~= c@.skip(i + 1));
        }
        i += 1;
    }
    let t = chars_trim_end_char(crate::bytes::tail(c.as_slice(), i), '/');
    if t.len() == 0 {
        let r: Vec<String> = Vec::new();
        proof {
            assert(texts(r@) =~= Seq::empty());
        }
        r
    } else {
        split_texts(t, '/')
    }
}

fn seg(s: &str) -> (r: Seg)
    ensures
        r.model() == seg_of(s@),
{
    let c = chars_of(s);
    if let Some(name) = chars_strip_prefix(c.as_slice(), ":") {
        return Seg::Param(text_of(name));
    }
    if let Some(name) = chars_strip_prefix(c.as_slice(), "*") {
        return if name.len() == 0 {
            Seg::Wildcard(owned("*"))
        } else {
            Seg::Wildcard(text_of(name))
        };
    }
    Seg::Lit(owned(s))
}

/// Compile a route pattern into segments.
fn parse_pattern(pattern: &str) -> (r: Vec<Seg>)
    ensures
        seg_models(r@) == pattern_of(pattern@),
{
    let parts = segments(pattern);
    let ghost all = pattern_of(pattern@);
    let mut out: Vec<Seg> = Vec::new();
    let mut i: usize = 0;
    proof {
        assert(seg_models(out@) =~= all.take(0));
    }
    while i < parts.len()
        invariant
            i <= parts@.len() == all.len(),
            all == pattern_of(pattern@),
            texts(parts@) == segments_of(pattern@),
            seg_models(out@) == all.take(i as int),
        decreases parts.len() - i,
    {
        let ghost before = out@;
        let s = seg(parts[i].as_str());
        out.push(s);
        proof {
            assert(seg_models(out@) =~= seg_models(before).push(s.model()));
            assert(segments_of(pattern@)[i as int] == parts@[i as int]@);
            assert(all.take(i + 1) =~= all.take(i as int).push(all[i as int]));
        }
        i += 1;
    }
    proof {
        assert(all.take(all.len() as int) =~= all);
    }
    out
}

/// The model of captured parameters.
pub open spec fn params_of(v: Seq<(String, String)>) -> Fields {
    v.map_values(|p: (String, String)| (p.0@, p.1@))
}

/// Match the (already-split) request path against a pattern, returning the
/// captured parameters on success (none when the pattern has none).
fn matches_path(segs: &Vec<Seg>, path: &Vec<String>) -> (r: Option<Vec<(String, String)>>)
    ensures
        match (r, captured(seg_models(segs@), texts(path@))) {
            (Some(v), Some(f)) => params_of(v@) == f,
            (None, None) => true,
            _ => false,
        },
{
    let ghost all = seg_models(segs@);
    let ghost p = texts(path@);
    let mut params: Vec<(String, String)> = Vec::new();
    let mut i: usize = 0;
    proof {
        assert(all.skip(0) =~= all);
        assert(p.skip(0) =~= p);
        if let Some(rest) = captured(all, p) {
            assert(params_of(params@) + rest =~= rest);
        }
    }
    while i < segs.len()
        invariant
            i <= segs@.len(),
            i <= path@.len(),
            all == seg_models(segs@),
            p == texts(path@),
            match captured(all.skip(i as int), p.skip(i as int)) {
                Some(rest) => captured(all, p) == Some(params_of(params@) + rest),
                None => captured(all, p) is None,
            },
        decreases segs.len() - i,
    {
        let ghost before = params@;
        proof {
            assert(all.skip(i as int)[0] == segs@[i as int].model());
            assert(all.skip(i as int).skip(1) =~= all.skip(i + 1));
            if i < path@.len() {
                assert(p.skip(i as int).skip(1) =~= p.skip(i + 1));
                assert(p.skip(i as int)[0] == path@[i as int]@);
            }
        }
        match &segs[i] {
            Seg::Lit(lit) => {
                if i >= path.len() || !str_eq(path[i].as_str(), lit.as_str()) {
                    return None;
                }
            },
            Seg::Param(name) => {
                if i >= path.len() {
                    return None;
                }
                let n = owned(name.as_str());
                let v = owned(path[i].as_str());
                params.push((n, v));
                proof {
                    assert(params_of(params@) =~= params_of(before).push((n@, v@)));
                    if let Some(rest) = captured(all.skip(i + 1), p.skip(i + 1)) {
                        assert(params_of(before) + (seq![(n@, v@)] + rest) =~= params_of(params@)
                            + rest);
                    }
                }
            },
            Seg::Wildcard(name) => {
                let n = owned(name.as_str());
                let v = join_texts(path, i, "/");
                params.push((n, v));
                proof {
                    assert(params_of(params@) =~= params_of(before).push((n@, v@)));
                    assert(params_of(before) + seq![(n@, v@)] =~= params_of(params@));
                }
                return Some(params);
            },
        }
        i += 1;
    }
    proof {
        assert(all.skip(i as int) =~= Seq::empty());
        assert(params_of(params@) + Seq::<(Seq<char>, Seq<char>)>::empty() =~= params_of(params@));
    }
    if i == path.len() {
        proof {
            assert(p.skip(i as int) =~= Seq::empty());
        }
        Some(params)
    } else {
        None
    }
}

// ---------------------------------------------------------------------------
// Routes
// ---------------------------------------------------------------------------

/// A route handler.
pub trait RouteHandler: Send + Sync {
    /// Invoke the handler and coerce its return value into a [`Response`].
    fn call(&self, req: &Request) -> Response;
}

struct Route<R: RouteHandler> {
    method: Method,
    segs: Vec<Seg>,
    handler: R,
}

/// The model of a route.
pub struct RouteModel<R> {
    pub method: MethodModel,
    pub segs: Seq<SegModel>,
    pub handler: R,
}

/// The model of a router.
#[verifier::ext_equal]
pub struct RouterModel<R> {
    pub routes: Seq<RouteModel<R>>,
    pub fallback: Option<R>,
}

/// Whether a route is the one for a request: its pattern and its method match.
pub open spec fn takes<R>(route: RouteModel<R>, path: Seq<Seq<char>>, method: MethodModel) -> bool {
    captured(route.segs, path) is Some && route.method == method
}

/// The first route for a request.
pub open spec fn first_taking<R>(
    routes: Seq<RouteModel<R>>,
    path: Seq<Seq<char>>,
    method: MethodModel,
) -> Option<int>
    decreases routes.len(),
{
    if routes.len() == 0 {
        None
    } else {
        match first_taking(routes.drop_last(), path, method) {
            Some(i) => Some(i),
            None => if takes(routes.last(), path, method) {
                Some(routes.len() - 1)
            } else {
                None
            },
        }
    }
}

/// The methods whose routes match a path, each once, in the order of the routes.
pub open spec fn allowed_methods<R>(routes: Seq<RouteModel<R>>, path: Seq<Seq<char>>, method: MethodModel) -> Seq<
    Seq<char>,
>
    decreases routes.len(),
{
    if routes.len() == 0 {
        Seq::empty()
    } else {
        let a = allowed_methods(routes.drop_last(), path, method);
        let r = routes.last();
        if captured(r.segs, path) is Some && r.method != method && !a.contains(r.method.token()) {
            a.push(r.method.token())
        } else {
            a
        }
    }
}

/// What a router does with a request.
pub enum Choice {
    /// Run the route with this index on the request with these parameters, or on
    /// the request as it is if there are none.
    Run(int, Fields),
    /// The path is there, but only for these methods.
    NotAllowed(Seq<Seq<char>>),
    /// No route matches the path.
    Unmatched,
}

/// What a router does with a request.
pub open spec fn choice<R>(m: RouterModel<R>, req: RequestModel) -> Choice {
    let path = segments_of(path_of(req.target));
    match first_taking(m.routes, path, req.method) {
        Some(i) => Choice::Run(i, captured(m.routes[i].segs, path)->0),
        None => {
            let a = allowed_methods(m.routes, path, req.method);
            if a.len() > 0 {
                Choice::NotAllowed(a)
            } else {
                Choice::Unmatched
            }
        },
    }
}

/// The answer to a method that a path does not allow.
pub open spec fn not_allowed(methods: Seq<Seq<char>>) -> ResponseModel {
    let r = status_response(standard(405));
    ResponseModel { headers: r.headers.push(("Allow"@, concat(methods, ", "@))), ..r }
}

/// Whether a route handler may answer a request with a response.
pub open spec fn replies<R: RouteHandler>(h: R, req: RequestModel, resp: ResponseModel) -> bool {
    exists|q: Request, a: Response|
        q@ == req && a@ == resp && #[trigger] call_ensures(R::call, (&h, &q), a)
}

/// Whether a router may answer a request with a response.
pub open spec fn routed<R: RouteHandler>(m: RouterModel<R>, req: RequestModel, resp: ResponseModel) -> bool {
    match choice(m, req) {
        Choice::Run(i, params) => replies(
            m.routes[i].handler,
            if params.len() == 0 {
                req
            } else {
                RequestModel { params, ..req }
            },
            resp,
        ),
        Choice::NotAllowed(methods) => resp == not_allowed(methods),
        Choice::Unmatched => match m.fallback {
            Some(h) => replies(h, req, resp),
            None => resp == status_response(standard(404)),
        },
    }
}

/// A request router: match by method and path, dispatch to a handler.
///
/// See the [module docs](self) for the pattern syntax. Build one with
/// [`Router::new`], add routes with the per-method builders (or the generic
/// [`route`](Router::route)), and optionally set a [`fallback`](Router::fallback)
/// for unmatched paths. The result implements [`Handler`].
pub struct Router<R: RouteHandler> {
    routes: Vec<Route<R>>,
    fallback: Option<R>,
}

spec fn route_models<R: RouteHandler>(v: Seq<Route<R>>) -> Seq<RouteModel<R>> {
    v.map_values(
        |r: Route<R>|
            RouteModel { method: r.method@, segs: seg_models(r.segs@), handler: r.handler },
    )
}

impl<R: RouteHandler> View for Router<R> {
    type V = RouterModel<R>;

    closed spec fn view(&self) -> RouterModel<R> {
        RouterModel { routes: route_models(self.routes@), fallback: self.fallback }
    }
}

impl<R: RouteHandler> Default for Router<R> {
    fn default() -> (r: Router<R>)
        ensures
            r@ == (RouterModel::<R> { routes: Seq::empty(), fallback: None }),
    {
        Router::new()
    }
}

impl<R: RouteHandler> Router<R> {
    /// An empty router. Without any routes (or a fallback) it answers `404`.
    pub fn new() -> (r: Router<R>)
        ensures
            r@ == (RouterModel::<R> { routes: Seq::empty(), fallback: None }),
    {
        let r = Router { routes: Vec::new(), fallback: None };
        proof {
            assert(r@.routes =~= Seq::empty());
        }
        r
    }

    /// Register `handler` for `method` requests matching `pattern`.
    pub fn route(self, method: Method, pattern: &str, handler: R) -> (r: Router<R>)
        ensures
            r@ == (RouterModel {
                routes: self@.routes.push(
                    RouteModel { method: method@, segs: pattern_of(pattern@), handler },
                ),
                ..self@
            }),
    {
        let ghost before = self@;
        let Router { routes, fallback } = self;
        let mut routes = routes;
        let segs = parse_pattern(pattern);
        routes.push(Route { method, segs, handler });
        let r = Router { routes, fallback };
        proof {
            assert(r@.routes =~= before.routes.push(
                RouteModel { method: method@, segs: pattern_of(pattern@), handler },
            ));
        }
        r
    }

    /// Register a `GET` route.
    pub fn get(self, pattern: &str, handler: R) -> (r: Router<R>)
        ensures
            r@ == (RouterModel {
                routes: self@.routes.push(
                    RouteModel { method: MethodModel::Get, segs: pattern_of(pattern@), handler },
                ),
                ..self@
            }),
    {
        self.route(Method::Get, pattern, handler)
    }

    /// Register a `POST` route.
    pub fn post(self, pattern: &str, handler: R) -> (r: Router<R>)
        ensures
            r@ == (RouterModel {
                routes: self@.routes.push(
                    RouteModel { method: MethodModel::Post, segs: pattern_of(pattern@), handler },
                ),
                ..self@
            }),
    {
        self.route(Method::Post, pattern, handler)
    }

    /// Register a `PUT` route.
    pub fn put(self, pattern: &str, handler: R) -> (r: Router<R>)
        ensures
            r@ == (RouterModel {
                routes: self@.routes.push(
                    RouteModel { method: MethodModel::Put, segs: pattern_of(pattern@), handler },
                ),
                ..self@
            }),
    {
        self.route(Method::Put, pattern, handler)
    }

    /// Register a `DELETE` route.
    pub fn delete(self, pattern: &str, handler: R) -> (r: Router<R>)
        ensures
            r@ == (RouterModel {
                routes: self@.routes.push(
                    RouteModel { method: MethodModel::Delete, segs: pattern_of(pattern@), handler },
                ),
                ..self@
            }),
    {
        self.route(Method::Delete, pattern, handler)
    }

    /// Register a `PATCH` route.
    pub fn patch(self, pattern: &str, handler: R) -> (r: Router<R>)
        ensures
            r@ == (RouterModel {
                routes: self@.routes.push(
                    RouteModel { method: MethodModel::Patch, segs: pattern_of(pattern@), handler },
                ),
                ..self@
            }),
    {
        self.route(Method::Patch, pattern, handler)
    }

    /// Register a `HEAD` route.
    pub fn head(self, pattern: &str, handler: R) -> (r: Router<R>)
        ensures
            r@ == (RouterModel {
                routes: self@.routes.push(
                    RouteModel { method: MethodModel::Head, segs: pattern_of(pattern@), handler },
                ),
                ..self@
            }),
    {
        self.route(Method::Head, pattern, handler)
    }

    /// Register an `OPTIONS` route.
    pub fn options(self, pattern: &str, handler: R) -> (r: Router<R>)
        ensures
            r@ == (RouterModel {
                routes: self@.routes.push(
                    RouteModel { method: MethodModel::Options, segs: pattern_of(pattern@), handler },
                ),
                ..self@
            }),
    {
        self.route(Method::Options, pattern, handler)
    }

    /// Set the handler invoked when no route matches the path (otherwise `404`).
    pub fn fallback(self, handler: R) -> (r: Router<R>)
        ensures
            r@ == (RouterModel { fallback: Some(handler), ..self@ }),
    {
        Router { routes: self.routes, fallback: Some(handler) }
    }

    /// Match the request and run the chosen handler. Returns `405 Method Not
    /// Allowed` (with an `Allow` header) when the path matches but the method
    /// does not, and otherwise the fallback or a `404`.
    pub fn dispatch(&self, req: &Request) -> (r: Response)
        ensures
            routed(self@, req@, r@),
    {
        let path = segments(req.path());
        let ghost all = self@.routes;
        let ghost p = segments_of(path_of(req@.target));
        let mut allowed: Vec<String> = Vec::new();
        let mut i: usize = 0;
        proof {
            assert(all.take(0) =~= Seq::empty());
            assert(texts(allowed@) =~= Seq::empty());
        }
        while i < self.routes.len()
            invariant
                i <= self.routes@.len() == all.len(),
                all == self@.routes,
                p == segments_of(path_of(req@.target)),
                texts(path@) == p,
                first_taking(all.take(i as int), p, req@.method) is None,
                texts(allowed@) == allowed_methods(all.take(i as int), p, req@.method),
            decreases self.routes.len() - i,
        {
            let route = &self.routes[i];
            proof {
                assert(all.take(i + 1).drop_last() =~= all.take(i as int));
                assert(all.take(i + 1).last() == all[i as int]);
            }
            if let Some(params) = matches_path(&route.segs, &path) {
                if route.method == *req.method() {
                    proof {
                        lemma_first_taking(all, i + 1, p, req@.method);
                        assert(all.take(all.len() as int) =~= all);
                    }
                    if params.len() == 0 {
                        let a = route.handler.call(req);
                        proof {
                            assert(replies(all[i as int].handler, req@, a@));
                        }
                        return a;
                    }
                    // Inject captured params for `Request::param`. Only routes
                    // with captures pay for the clone.
                    let mut target = req.clone();
                    target.set_params(params);
                    let a = route.handler.call(&target);
                    proof {
                        assert(replies(all[i as int].handler, target@, a@));
                    }
                    return a;
                }
                let token = route.method.as_str();
                if !list_contains(&allowed, token) {
                    let ghost before = allowed@;
                    let t = owned(token);
                    allowed.push(t);
                    proof {
                        assert(texts(allowed@) =~= texts(before).push(t@));
                    }
                }
            }
            i += 1;
        }
        proof {
            assert(all.take(all.len() as int) =~= all);
        }
        if allowed.len() > 0 {
            proof {
                assert(texts(allowed@).skip(0) =~= texts(allowed@));
            }
            return Response::status(StatusCode::method_not_allowed()).header(
                "Allow",
                join_texts(&allowed, 0, ", "),
            );
        }
        match &self.fallback {
            Some(handler) => {
                let a = handler.call(req);
                proof {
                    assert(replies(*handler, req@, a@));
                }
                a
            },
            None => Response::status(StatusCode::not_found()),
        }
    }
}

/// A route that is first among some stays first when more follow.
proof fn lemma_first_taking<R>(
    routes: Seq<RouteModel<R>>,
    k: int,
    path: Seq<Seq<char>>,
    method: MethodModel,
)
    requires
        0 <= k <= routes.len(),
        first_taking(routes.take(k), path, method) is Some,
    ensures
        first_taking(routes, path, method) == first_taking(routes.take(k), path, method),
    decreases routes.len(),
{
    if k == routes.len() {
        assert(routes.take(k) =~= routes);
    } else {
        assert(routes.drop_last().take(k) =~= routes.take(k));
        lemma_first_taking(routes.drop_last(), k, path, method);
    }
}

impl<R: RouteHandler> Handler for Router<R> {
    fn handle(&self, req: &Request) -> (r: Response)
        ensures
            routed(self@, req@, r@),
    {
        self.dispatch(req)
    }
}

// ---------------------------------------------------------------------------
// Laws
// ---------------------------------------------------------------------------

/// Leading and trailing slashes do not matter, in paths and in patterns.
pub proof fn law_outer_slashes_do_not_matter(path: Seq<char>)
    ensures
        segments_of(seq!['/'] + path) == segments_of(path),
        segments_of(path.push('/')) == segments_of(path),
        pattern_of(seq!['/'] + path) == pattern_of(path),
        pattern_of(path.push('/')) == pattern_of(path),
{
    assert((seq!['/'] + path).skip(1) =~= path);
    lemma_trailing_slash(path);
    let t = trim_slashes_start(path);
    assert(t.push('/').drop_last() =~= t);
}

proof fn lemma_trailing_slash(path: Seq<char>)
    ensures
        trim_slashes_start(path.push('/')) == if trim_slashes_start(path).len() == 0 {
            Seq::empty()
        } else {
            trim_slashes_start(path).push('/')
        },
    decreases path.len(),
{
    reveal_with_fuel(trim_slashes_start, 2);
    if path.len() == 0 {
        assert(path.push('/').skip(1) =~= Seq::empty());
    } else if path[0] != '/' {
        assert(path.push('/')[0] == path[0]);
    } else {
        assert(path.push('/').skip(1) =~= path.skip(1).push('/'));
        lemma_trailing_slash(path.skip(1));
    }
}

/// Routes are tried in order: the one that runs is the first whose pattern and
/// method match, and if none runs then none matches.
pub proof fn law_first_route_wins<R>(
    routes: Seq<RouteModel<R>>,
    path: Seq<Seq<char>>,
    method: MethodModel,
)
    ensures
        match first_taking(routes, path, method) {
            Some(i) => 0 <= i < routes.len() && takes(routes[i], path, method) && forall|j: int|
                0 <= j < i ==> !takes(#[trigger] routes[j], path, method),
            None => forall|j: int|
                0 <= j < routes.len() ==> !takes(#[trigger] routes[j], path, method),
        },
    decreases routes.len(),
{
    if routes.len() > 0 {
        law_first_route_wins(routes.drop_last(), path, method);
        assert forall|j: int| 0 <= j < routes.len() - 1 implies routes.drop_last()[j]
            == #[trigger] routes[j] by {}
    }
}

/// A path that no route matches under any method allows none.
pub proof fn law_unknown_path_allows_nothing<R>(
    routes: Seq<RouteModel<R>>,
    path: Seq<Seq<char>>,
    method: MethodModel,
)
    requires
        forall|j: int| 0 <= j < routes.len() ==> captured(#[trigger] routes[j].segs, path) is None,
    ensures
        allowed_methods(routes, path, method).len() == 0,
        first_taking(routes, path, method) is None,
    decreases routes.len(),
{
    if routes.len() > 0 {
        assert(captured(routes[routes.len() - 1].segs, path) is None);
        assert forall|j: int| 0 <= j < routes.drop_last().len() implies captured(
            #[trigger] routes.drop_last()[j].segs,
            path,
        ) is None by {
            assert(captured(routes[j].segs, path) is None);
        }
        law_unknown_path_allows_nothing(routes.drop_last(), path, method);
    }
}

/// Whether a pattern has a wildcard.
pub open spec fn wild(segs: Seq<SegModel>) -> bool {
    exists|i: int| 0 <= i < segs.len() && (#[trigger] segs[i]) is Wildcard
}

/// A pattern without a wildcard matches the paths with as many segments, of which
/// each stands where it does in the pattern if that is a literal.
pub proof fn law_segments_match_one_by_one(segs: Seq<SegModel>, path: Seq<Seq<char>>)
    requires
        !wild(segs),
    ensures
        captured(segs, path) is Some <==> path.len() == segs.len() && forall|i: int|
            0 <= i < segs.len() ==> (#[trigger] segs[i] matches SegModel::Lit(l) ==> path[i] == l),
    decreases segs.len(),
{
    if segs.len() > 0 {
        let s = segs.skip(1);
        assert(!(segs[0] is Wildcard));
        assert forall|i: int| 0 <= i < s.len() implies !((#[trigger] s[i]) is Wildcard) by {
            assert(s[i] == segs[i + 1]);
        }
        if path.len() > 0 {
            let p = path.skip(1);
            law_segments_match_one_by_one(s, p);
            if captured(segs, path) is Some {
                assert forall|i: int| 0 <= i < segs.len() implies (
                #[trigger] segs[i] matches SegModel::Lit(l) ==> path[i] == l) by {
                    if i > 0 {
                        assert(s[i - 1] == segs[i]);
                        assert(p[i - 1] == path[i]);
                    }
                }
            }
            if path.len() == segs.len() && forall|i: int|
                0 <= i < segs.len() ==> (#[trigger] segs[i] matches SegModel::Lit(l) ==> path[i]
                    == l) {
                assert forall|i: int| 0 <= i < s.len() implies (
                #[trigger] s[i] matches SegModel::Lit(l) ==> p[i] == l) by {
                    assert(s[i] == segs[i + 1]);
                    assert(p[i] == path[i + 1]);
                }
                assert(segs[0] matches SegModel::Lit(l) ==> path[0] == l);
            }
        }
    }
}

/// A pattern that ends in a wildcard matches whatever follows what the rest of it
/// matches, and captures all of that, joined by slashes.
pub proof fn law_wildcard_takes_the_rest(
    segs: Seq<SegModel>,
    name: Seq<char>,
    path: Seq<Seq<char>>,
    rest: Seq<Seq<char>>,
)
    requires
        !wild(segs),
        path.len() == segs.len(),
    ensures
        captured(segs.push(SegModel::Wildcard(name)), path + rest) == match captured(segs, path) {
            Some(f) => Some(f.push((name, concat(rest, "/"@)))),
            None => None,
        },
    decreases segs.len(),
{
    let all = segs.push(SegModel::Wildcard(name));
    let p = path + rest;
    if segs.len() == 0 {
        assert(p =~= rest);
        assert(captured(segs, path)->0.push((name, concat(rest, "/"@))) =~= seq![
            (name, concat(rest, "/"@)),
        ]);
    } else {
        let s = segs.skip(1);
        assert(!(segs[0] is Wildcard));
        assert forall|i: int| 0 <= i < s.len() implies !((#[trigger] s[i]) is Wildcard) by {
            assert(s[i] == segs[i + 1]);
        }
        law_wildcard_takes_the_rest(s, name, path.skip(1), rest);
        assert(all.skip(1) =~= s.push(SegModel::Wildcard(name)));
        assert(p.skip(1) =~= path.skip(1) + rest);
        assert(all[0] == segs[0]);
        assert(p[0] == path[0]);
        if let Some(f) = captured(s, path.skip(1)) {
            if let SegModel::Param(n) = segs[0] {
                let last = (name, concat(rest, "/"@));
                assert(seq![(n, path[0])] + f.push(last) =~= (seq![(n, path[0])] + f).push(last));
            }
        }
    }
}

/// A pattern that ends in a parameter captures the last segment under its name,
/// behind what the rest of it captures; one that ends in a literal captures
/// nothing more, and matches only if the last segment is that literal.
pub proof fn law_segments_are_captured_in_order(
    segs: Seq<SegModel>,
    path: Seq<Seq<char>>,
    text: Seq<char>,
    last: Seq<char>,
)
    requires
        !wild(segs),
    ensures
        captured(segs.push(SegModel::Param(text)), path.push(last)) == match captured(segs, path) {
            Some(f) => Some(f.push((text, last))),
            None => None,
        },
        captured(segs.push(SegModel::Lit(text)), path.push(last)) == if last == text {
            captured(segs, path)
        } else {
            None
        },
        captured(Seq::empty(), Seq::empty()) == Some(Seq::<(Seq<char>, Seq<char>)>::empty()),
    decreases segs.len(),
{
    reveal_with_fuel(captured, 2);
    let a = segs.push(SegModel::Param(text));
    let b = segs.push(SegModel::Lit(text));
    let p = path.push(last);
    if segs.len() == 0 {
        assert(a.skip(1) =~= segs);
        assert(b.skip(1) =~= segs);
        assert(p[0] == if path.len() == 0 {
            last
        } else {
            path[0]
        });
        if path.len() == 0 {
            assert(p.skip(1) =~= path);
            let none = Seq::<(Seq<char>, Seq<char>)>::empty();
            assert(seq![(text, last)] + none =~= none.push((text, last)));
        } else {
            assert(p.skip(1).len() > 0);
        }
    } else {
        let s = segs.skip(1);
        assert(!(segs[0] is Wildcard));
        assert forall|i: int| 0 <= i < s.len() implies !((#[trigger] s[i]) is Wildcard) by {
            assert(s[i] == segs[i + 1]);
        }
        assert(a.skip(1) =~= s.push(SegModel::Param(text)));
        assert(b.skip(1) =~= s.push(SegModel::Lit(text)));
        assert(a[0] == segs[0] && b[0] == segs[0]);
        if path.len() == 0 {
            assert(p.skip(1) =~= Seq::empty());
            law_too_short_paths_do_not_match(s.push(SegModel::Param(text)), Seq::empty());
            law_too_short_paths_do_not_match(s.push(SegModel::Lit(text)), Seq::empty());
        } else {
            law_segments_are_captured_in_order(s, path.skip(1), text, last);
            assert(p.skip(1) =~= path.skip(1).push(last));
            assert(p[0] == path[0]);
            if let Some(f) = captured(s, path.skip(1)) {
                if let SegModel::Param(n) = segs[0] {
                    assert(seq![(n, path[0])] + f.push((text, last)) =~= (seq![(n, path[0])]
                        + f).push((text, last)));
                }
            }
        }
    }
}

/// A path with fewer segments than a pattern without a wildcard does not match it,
/// nor does one with more.
pub proof fn law_too_short_paths_do_not_match(segs: Seq<SegModel>, path: Seq<Seq<char>>)
    requires
        !wild(segs),
        path.len() != segs.len(),
    ensures
        captured(segs, path) is None,
{
    law_segments_match_one_by_one(segs, path);
}

/// Names that can stand between slashes.
pub open spec fn plain_names(names: Seq<Seq<char>>) -> bool {
    forall|i: int| 0 <= i < names.len() ==> (#[trigger] names[i]).len() > 0 && !names[i].contains('/')
}

/// Names joined by slashes are the segments of what results.
pub proof fn law_segments_of_joined_names(names: Seq<Seq<char>>)
    requires
        plain_names(names),
    ensures
        segments_of(concat(names, "/"@)) == names,
        segments_of("/"@ + concat(names, "/"@)) == names,
{
    reveal_strlit("/");
    assert("/"@ =~= seq!['/']);
    let c = concat(names, "/"@);
    law_outer_slashes_do_not_matter(c);
    if names.len() == 0 {
        assert(trim_end_char(c, '/').len() == 0);
        assert(names =~= Seq::empty());
    } else {
        lemma_joined_ends(names);
        law_split_undoes_joining(names, '/');
    }
}

proof fn lemma_joined_ends(names: Seq<Seq<char>>)
    requires
        plain_names(names),
        names.len() > 0,
        "/"@ == seq!['/'],
    ensures
        ({
            let c = concat(names, "/"@);
            c.len() > 0 && c[0] != '/' && c.last() != '/'
        }),
    decreases names.len(),
{
    let last = names[names.len() - 1];
    assert(last.contains(last[last.len() - 1]));
    assert(last.contains(last[0]));
    if names.len() > 1 {
        let rest = names.drop_last();
        assert forall|i: int| 0 <= i < rest.len() implies (#[trigger] rest[i]).len() > 0
            && !rest[i].contains('/') by {
            assert(rest[i] == names[i]);
        }
        lemma_joined_ends(rest);
        assert(concat(names, "/"@).last() == last.last());
        assert(concat(names, "/"@)[0] == concat(rest, "/"@)[0]);
    }
}

/// A segment that begins with a colon is a parameter of the name that follows, one
/// that begins with a star is a wildcard, and any other is a literal.
pub proof fn law_pattern_segments(name: Seq<char>)
    ensures
        seg_of(":"@ + name) == SegModel::Param(name),
        name.len() > 0 ==> seg_of("*"@ + name) == SegModel::Wildcard(name),
        seg_of("*"@) == SegModel::Wildcard("*"@),
        name.len() > 0 && name[0] != ':' && name[0] != '*' ==> seg_of(name) == SegModel::Lit(name),
{
    reveal_strlit(":");
    reveal_strlit("*");
    law_strip_prefix(":"@, name);
    law_strip_prefix("*"@, name);
    let s = "*"@ + name;
    assert(s[0] == '*');
    if strip_prefix(s, ":"@) is Some {
        law_strip_prefix(":"@, s);
        assert(s[0] == ':');
    }
    if strip_prefix("*"@, ":"@) is Some {
        law_strip_prefix(":"@, "*"@);
        assert("*"@[0] == ':');
    }
    let none = Seq::<char>::empty();
    law_strip_prefix("*"@, none);
    assert("*"@ + none =~= "*"@);
    if name.len() > 0 && name[0] != ':' && name[0] != '*' {
        if strip_prefix(name, ":"@) is Some {
            assert(name[0] == ':');
        }
        if strip_prefix(name, "*"@) is Some {
            assert(name[0] == '*');
        }
    }
}

/// A route for names that are all literals takes the requests for just those names
/// in the path, under its method, and no others.
pub proof fn law_literal_route<R>(
    handler: R,
    method: MethodModel,
    names: Seq<Seq<char>>,
    asked: Seq<Seq<char>>,
    req: RequestModel,
)
    requires
        plain_names(names),
        plain_names(asked),
        forall|i: int|
            0 <= i < names.len() ==> (#[trigger] names[i])[0] != ':' && names[i][0] != '*',
        path_of(req.target) == "/"@ + concat(asked, "/"@),
    ensures
        ({
            let m = RouterModel {
                routes: seq![
                    RouteModel { method, segs: pattern_of("/"@ + concat(names, "/"@)), handler },
                ],
                fallback: None,
            };
            &&& asked == names && req.method == method ==> choice(m, req) == Choice::Run(
                0,
                Seq::empty(),
            )
            &&& asked == names && req.method != method ==> choice(m, req) == Choice::NotAllowed(
                seq![method.token()],
            )
            &&& asked != names ==> choice(m, req) == Choice::Unmatched
        }),
{
    law_segments_of_joined_names(names);
    law_segments_of_joined_names(asked);
    let segs = pattern_of("/"@ + concat(names, "/"@));
    assert forall|i: int| 0 <= i < names.len() implies #[trigger] segs[i] == SegModel::Lit(
        names[i],
    ) by {
        law_pattern_segments(names[i]);
    }
    law_segments_match_one_by_one(segs, asked);
    if asked == names {
        assert(captured(segs, asked) is Some);
        lemma_literals_capture_nothing(segs, asked);
    } else if captured(segs, asked) is Some {
        assert forall|i: int| 0 <= i < names.len() implies asked[i] == names[i] by {
            assert(segs[i] matches SegModel::Lit(l) ==> asked[i] == l);
        }
        assert(asked =~= names);
    }
    let routes = seq![RouteModel { method, segs, handler }];
    assert(routes.drop_last() =~= Seq::empty());
    reveal_with_fuel(first_taking, 2);
    reveal_with_fuel(allowed_methods, 2);
    assert(Seq::<Seq<char>>::empty().push(method.token()) =~= seq![method.token()]);
}

proof fn lemma_literals_capture_nothing(segs: Seq<SegModel>, path: Seq<Seq<char>>)
    requires
        forall|i: int| 0 <= i < segs.len() ==> (#[trigger] segs[i]) is Lit,
        captured(segs, path) is Some,
    ensures
        captured(segs, path) == Some(Seq::<(Seq<char>, Seq<char>)>::empty()),
    decreases segs.len(),
{
    if segs.len() > 0 {
        assert(segs[0] is Lit);
        assert forall|i: int| 0 <= i < segs.skip(1).len() implies (#[trigger] segs.skip(1)[i]) is Lit by {
            assert(segs.skip(1)[i] == segs[i + 1]);
        }
        lemma_literals_capture_nothing(segs.skip(1), path.skip(1));
    }
}

/// The methods that are named for a path are those of the routes that match it and
/// have another method than the request, each once.
pub proof fn law_allowed_methods<R>(
    routes: Seq<RouteModel<R>>,
    path: Seq<Seq<char>>,
    method: MethodModel,
    token: Seq<char>,
)
    ensures
        allowed_methods(routes, path, method).contains(token) <==> exists|i: int|
            0 <= i < routes.len() && captured((#[trigger] routes[i]).segs, path) is Some
                && routes[i].method != method && routes[i].method.token() == token,
        allowed_methods(routes, path, method).no_duplicates(),
    decreases routes.len(),
{
    if routes.len() > 0 {
        let rest = routes.drop_last();
        let a = allowed_methods(rest, path, method);
        let r = routes.last();
        law_allowed_methods(rest, path, method, token);
        law_allowed_methods(rest, path, method, r.method.token());
        let b = allowed_methods(routes, path, method);
        if b.contains(token) {
            if a.contains(token) {
                let i = choose|i: int|
                    0 <= i < rest.len() && captured((#[trigger] rest[i]).segs, path) is Some
                        && rest[i].method != method && rest[i].method.token() == token;
                assert(routes[i] == rest[i]);
            } else {
                let k = choose|k: int| 0 <= k < b.len() && b[k] == token;
                if k < a.len() {
                    assert(a[k] == token);
                }
                assert(routes[routes.len() - 1] == r);
            }
        }
        if exists|i: int|
            0 <= i < routes.len() && captured((#[trigger] routes[i]).segs, path) is Some
                && routes[i].method != method && routes[i].method.token() == token {
            let i = choose|i: int|
                0 <= i < routes.len() && captured((#[trigger] routes[i]).segs, path) is Some
                    && routes[i].method != method && routes[i].method.token() == token;
            if i < rest.len() {
                assert(rest[i] == routes[i]);
                let k = choose|k: int| 0 <= k < a.len() && a[k] == token;
                assert(b[k] == token);
            } else if a.contains(token) {
                let k = choose|k: int| 0 <= k < a.len() && a[k] == token;
                assert(b[k] == token);
            } else {
                assert(b[a.len() as int] == token);
            }
        }
    }
}

/// A path that is there under other methods is answered with `405` and the methods
/// it is there under; one that is not there at all goes to the fallback, or is
/// answered with `404`.
pub proof fn law_what_no_route_takes<R: RouteHandler>(
    m: RouterModel<R>,
    req: RequestModel,
    resp: ResponseModel,
)
    requires
        routed(m, req, resp),
        ({
            let path = segments_of(path_of(req.target));
            forall|i: int|
                0 <= i < m.routes.len() ==> !((#[trigger] m.routes[i]).method == req.method
                    && captured(m.routes[i].segs, path) is Some)
        }),
    ensures
        ({
            let path = segments_of(path_of(req.target));
            let there = exists|i: int|
                0 <= i < m.routes.len() && captured((#[trigger] m.routes[i]).segs, path) is Some;
            &&& there ==> resp.status.code == 405
            &&& !there && m.fallback is None ==> resp.status.code == 404
            &&& !there && m.fallback is Some ==> replies(m.fallback->0, req, resp)
        }),
{
    let path = segments_of(path_of(req.target));
    law_first_route_wins(m.routes, path, req.method);
    let a = allowed_methods(m.routes, path, req.method);
    if exists|i: int|
        0 <= i < m.routes.len() && captured((#[trigger] m.routes[i]).segs, path) is Some {
        let i = choose|i: int|
            0 <= i < m.routes.len() && captured((#[trigger] m.routes[i]).segs, path) is Some;
        let t = m.routes[i].method.token();
        law_allowed_methods(m.routes, path, req.method, t);
        assert(a.contains(t));
        assert(a.len() > 0);
    } else if a.len() > 0 {
        law_allowed_methods(m.routes, path, req.method, a[0]);
        assert(a.contains(a[0]));
    }
}

} // verus!
