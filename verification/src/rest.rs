//! The REST API router: registered routes with `{param}` path segments,
//! method matching (HEAD served by GET), the `Allow` list, and login and
//! capability checks.

use vstd::prelude::*;
use crate::text::{
    chars_eq, chars_of, contains_string, copy_string, insert_sorted, keyed_by_last, last_wins,
    pair_views, sorted_strict, split_nonempty, split_nonempty_exec, string_of, strs, strs_ref,
    lower_seq, to_upper, trim, trim_chars, trim_end_char, trim_end_char_exec, upper_seq, views,
    KeyedList,
};

verus! {

#[derive(Debug, Clone)]
pub enum AuthRequirement {
    Public,
    Authenticated,
    Capability(String),
}

#[derive(Debug, Clone)]
pub struct RestRoute {
    pub path: String,
    pub methods: Vec<String>,
    pub summary: String,
    pub auth_requirement: AuthRequirement,
}

pub enum RequirementView {
    Public,
    Authenticated,
    Capability(Seq<char>),
}

pub struct RouteView {
    pub path: Seq<char>,
    pub methods: Seq<Seq<char>>,
    pub summary: Seq<char>,
    pub auth: RequirementView,
}

pub open spec fn requirement_view(a: AuthRequirement) -> RequirementView {
    match a {
        AuthRequirement::Public => RequirementView::Public,
        AuthRequirement::Authenticated => RequirementView::Authenticated,
        AuthRequirement::Capability(c) => RequirementView::Capability(c@),
    }
}

impl View for RestRoute {
    type V = RouteView;

    open spec fn view(&self) -> RouteView {
        RouteView {
            path: self.path@,
            methods: strs(self.methods@),
            summary: self.summary@,
            auth: requirement_view(self.auth_requirement),
        }
    }
}

pub open spec fn route_views(v: Seq<RestRoute>) -> Seq<RouteView> {
    v.map_values(|r: RestRoute| r@)
}

// ------------------------------------------------------------------
// Paths and methods
// ------------------------------------------------------------------

/// Trimmed, rooted at `/`, trailing slashes dropped (but `/` stays).
pub open spec fn rest_normalize(p: Seq<char>) -> Seq<char> {
    let t = trim(p);
    if t.len() == 0 {
        seq!['/']
    } else {
        let pre = if t[0] == '/' {
            t
        } else {
            seq!['/'] + t
        };
        if pre.len() > 1 {
            trim_end_char(pre, '/')
        } else {
            pre
        }
    }
}

/// A method as compared: trimmed and upper-cased.
pub open spec fn canon_method(m: Seq<char>) -> Seq<char> {
    upper_seq(trim(m))
}

/// `{name}` with a non-empty name.
pub open spec fn param_name(seg: Seq<char>) -> Option<Seq<char>> {
    if seg.len() >= 3 && seg[0] == '{' && seg.last() == '}' {
        Some(seg.subrange(1, seg.len() - 1))
    } else {
        None
    }
}

/// Pairs pattern segments with path segments: a `{name}` segment binds
/// the path segment, any other must equal it.
pub open spec fn bind_segments(pat: Seq<Seq<char>>, path: Seq<Seq<char>>) -> Option<Seq<(Seq<char>, Seq<char>)>>
    decreases pat.len(),
{
    if pat.len() == 0 {
        Some(Seq::empty())
    } else {
        match bind_segments(pat.drop_last(), path.drop_last()) {
            None => None,
            Some(ps) => match param_name(pat.last()) {
                Some(n) => Some(ps.push((n, path.last()))),
                None => if pat.last() == path.last() {
                    Some(ps)
                } else {
                    None
                },
            },
        }
    }
}

/// The parameters a pattern binds in a path, in segment order, when the
/// path matches it.
pub open spec fn path_params(pattern: Seq<char>, path: Seq<char>) -> Option<Seq<(Seq<char>, Seq<char>)>> {
    let a = split_nonempty(pattern, '/');
    let b = split_nonempty(path, '/');
    if a.len() != b.len() {
        None
    } else {
        bind_segments(a, b)
    }
}

pub open spec fn route_params(r: RouteView, path: Seq<char>) -> Option<Seq<(Seq<char>, Seq<char>)>> {
    path_params(rest_normalize(r.path), path)
}

/// The route serves method `m` (HEAD is served by GET).
pub open spec fn serves(methods: Seq<Seq<char>>, m: Seq<char>) -> bool
    decreases methods.len(),
{
    if methods.len() == 0 {
        false
    } else {
        serves(methods.drop_last(), m) || canon_method(methods.last()) == m || (m == "HEAD"@
            && canon_method(methods.last()) == "GET"@)
    }
}

pub open spec fn route_methods(methods: Seq<Seq<char>>) -> Set<Seq<char>>
    decreases methods.len(),
{
    if methods.len() == 0 {
        Set::empty()
    } else {
        route_methods(methods.drop_last()).insert(canon_method(methods.last()))
    }
}

/// The methods of every route whose pattern matches the path.
pub open spec fn path_methods(routes: Seq<RouteView>, p: Seq<char>) -> Set<Seq<char>>
    decreases routes.len(),
{
    if routes.len() == 0 {
        Set::empty()
    } else if route_params(routes.last(), p) is Some {
        path_methods(routes.drop_last(), p).union(route_methods(routes.last().methods))
    } else {
        path_methods(routes.drop_last(), p)
    }
}

pub open spec fn any_route(routes: Seq<RouteView>, p: Seq<char>) -> bool
    decreases routes.len(),
{
    if routes.len() == 0 {
        false
    } else {
        any_route(routes.drop_last(), p) || route_params(routes.last(), p) is Some
    }
}

/// The `Allow` set: the matching routes' methods, HEAD when GET is among
/// them, OPTIONS when any route matches.
pub open spec fn allow_set(routes: Seq<RouteView>, p: Seq<char>) -> Set<Seq<char>> {
    let s = path_methods(routes, p);
    let s1 = if s.contains("GET"@) {
        s.insert("HEAD"@)
    } else {
        s
    };
    if any_route(routes, p) {
        s1.insert("OPTIONS"@)
    } else {
        s1
    }
}

/// The first route that matches the path and serves the method.
pub open spec fn first_route(routes: Seq<RouteView>, p: Seq<char>, m: Seq<char>) -> Option<int>
    decreases routes.len(),
{
    if routes.len() == 0 {
        None
    } else {
        match first_route(routes.drop_last(), p, m) {
            Some(i) => Some(i),
            None => if route_params(routes.last(), p) is Some && serves(routes.last().methods, m) {
                Some(routes.len() - 1)
            } else {
                None
            },
        }
    }
}

pub proof fn lemma_first_route(routes: Seq<RouteView>, p: Seq<char>, m: Seq<char>)
    ensures
        first_route(routes, p, m) matches Some(i) ==> 0 <= i < routes.len() && route_params(
            routes[i],
            p,
        ) is Some,
    decreases routes.len(),
{
    if routes.len() > 0 {
        lemma_first_route(routes.drop_last(), p, m);
    }
}

/// A route that serves GET also serves HEAD.
pub proof fn lemma_head_served_by_get(methods: Seq<Seq<char>>)
    ensures
        serves(methods, "GET"@) ==> serves(methods, "HEAD"@),
    decreases methods.len(),
{
    if methods.len() > 0 {
        lemma_head_served_by_get(methods.drop_last());
    }
}

/// Whenever some route matches the path, OPTIONS is in the `Allow` set,
/// and HEAD is whenever GET is.
pub proof fn lemma_allow_set(routes: Seq<RouteView>, p: Seq<char>)
    ensures
        any_route(routes, p) ==> allow_set(routes, p).contains("OPTIONS"@),
        allow_set(routes, p).contains("GET"@) ==> allow_set(routes, p).contains("HEAD"@),
{
    reveal_strlit("GET");
    reveal_strlit("HEAD");
    reveal_strlit("OPTIONS");
    assert("GET"@.len() != "HEAD"@.len() && "GET"@.len() != "OPTIONS"@.len());
    assert("GET"@ != "HEAD"@ && "GET"@ != "OPTIONS"@);
}

// ------------------------------------------------------------------
// Requests and responses
// ------------------------------------------------------------------

#[derive(Debug, Clone)]
pub struct RestRequest {
    pub method: String,
    pub path: String,
    pub authenticated: bool,
    pub capabilities: Vec<String>,
}

impl RestRequest {
    /// An anonymous request without capabilities.
    pub fn new(method: &str, path: &str) -> (r: Self)
        ensures
            r.method@ == method@,
            r.path@ == path@,
            !r.authenticated,
            r.capabilities@.len() == 0,
    {
        RestRequest {
            method: string_of(&chars_of(method)),
            path: string_of(&chars_of(path)),
            authenticated: false,
            capabilities: Vec::new(),
        }
    }
}

/// The JSON body of a REST response.
#[derive(Debug, Clone)]
pub enum RestBody {
    /// `{"code", "message"}`.
    Error { code: String, message: String },
    /// `{"code", "message", "allow"}` (405).
    MethodNotAllowed { code: String, message: String, allow: Vec<String> },
    /// `{"route", "method": "OPTIONS", "allow", "params": {}, "ok": true}`.
    Options { route: String, allow: Vec<String> },
    /// `{"route", "method", "params", "ok": true}`.
    Success { route: String, method: String, params: KeyedList<String> },
}

impl RestBody {
    /// The `allow` list, where the body has one.
    pub fn allow(&self) -> (r: Option<&Vec<String>>)
        ensures
            match self {
                RestBody::MethodNotAllowed { allow, .. } => r == Some(allow),
                RestBody::Options { allow, .. } => r == Some(allow),
                _ => r is None,
            },
    {
        match self {
            RestBody::MethodNotAllowed { allow, .. } => Some(allow),
            RestBody::Options { allow, .. } => Some(allow),
            _ => None,
        }
    }

    /// The `method` field, where the body has one.
    pub fn method(&self) -> (r: Option<String>)
        ensures
            match self {
                RestBody::Options { .. } => r matches Some(m) && m@ == "OPTIONS"@,
                RestBody::Success { method, .. } => r matches Some(m) && m@ == method@,
                _ => r is None,
            },
    {
        match self {
            RestBody::Options { .. } => Some(string_of(&chars_of("OPTIONS"))),
            RestBody::Success { method, .. } => Some(copy_string(method)),
            _ => None,
        }
    }

    /// The `route` field, where the body has one.
    pub fn route(&self) -> (r: Option<&String>)
        ensures
            match self {
                RestBody::Options { route, .. } => r == Some(route),
                RestBody::Success { route, .. } => r == Some(route),
                _ => r is None,
            },
    {
        match self {
            RestBody::Options { route, .. } => Some(route),
            RestBody::Success { route, .. } => Some(route),
            _ => None,
        }
    }

    /// A path parameter of a successful dispatch.
    pub fn param(&self, name: &str) -> (r: Option<&String>)
        ensures
            match self {
                RestBody::Success { params, .. } => match crate::text::first_key(
                    params.entries@,
                    name@,
                ) {
                    Some(i) => r == Some(&params.entries@[i].1),
                    None => r is None,
                },
                _ => r is None,
            },
    {
        match self {
            RestBody::Success { params, .. } => params.get(name),
            _ => None,
        }
    }
}

#[derive(Debug, Clone)]
pub struct RestDispatchResult {
    pub status_code: u16,
    pub body: RestBody,
    pub error_code: Option<String>,
}

pub enum RestDecision {
    NoRoute,
    Options,
    NotAllowed,
    Rejected { status: u16, code: Seq<char>, message: Seq<char> },
    Accepted { route: int },
}

pub open spec fn not_logged_in() -> RestDecision {
    RestDecision::Rejected {
        status: 401,
        code: "rest_not_logged_in"@,
        message: "You are not currently logged in."@,
    }
}

/// No matching path (404); OPTIONS; no matching route serving the method
/// (405); then the first such route's login (401) and capability (403)
/// checks.
pub open spec fn rest_decision(
    routes: Seq<RouteView>,
    method: Seq<char>,
    path: Seq<char>,
    authenticated: bool,
    capabilities: Seq<Seq<char>>,
) -> RestDecision {
    let m = canon_method(method);
    let p = rest_normalize(path);
    if !any_route(routes, p) {
        RestDecision::NoRoute
    } else if m == "OPTIONS"@ {
        RestDecision::Options
    } else {
        match first_route(routes, p, m) {
            None => RestDecision::NotAllowed,
            Some(i) => match routes[i].auth {
                RequirementView::Public => RestDecision::Accepted { route: i },
                RequirementView::Authenticated => if !authenticated {
                    not_logged_in()
                } else {
                    RestDecision::Accepted { route: i }
                },
                RequirementView::Capability(c) => if !authenticated {
                    not_logged_in()
                } else if !capabilities.contains(c) {
                    RestDecision::Rejected {
                        status: 403,
                        code: "rest_forbidden"@,
                        message: "Sorry, you are not allowed to do that."@,
                    }
                } else {
                    RestDecision::Accepted { route: i }
                },
            },
        }
    }
}

pub open spec fn no_route_message() -> Seq<char> {
    "No route was found matching the URL and request method."@
}

pub open spec fn allow_list(allow: Vec<String>, routes: Seq<RouteView>, p: Seq<char>) -> bool {
    sorted_strict(strs(allow@)) && strs(allow@).to_set() == allow_set(routes, p)
}

/// The response that answers a request.
pub open spec fn rest_answers(
    r: RestDispatchResult,
    routes: Seq<RouteView>,
    method: Seq<char>,
    path: Seq<char>,
    authenticated: bool,
    capabilities: Seq<Seq<char>>,
) -> bool {
    let m = canon_method(method);
    let p = rest_normalize(path);
    match rest_decision(routes, method, path, authenticated, capabilities) {
        RestDecision::NoRoute => {
            &&& r.status_code == 404
            &&& r.error_code matches Some(e) && e@ == "rest_no_route"@
            &&& r.body matches RestBody::Error { code, message } && code@ == "rest_no_route"@
                && message@ == no_route_message()
        },
        RestDecision::Options => {
            &&& r.status_code == 200
            &&& r.error_code is None
            &&& r.body matches RestBody::Options { route, allow } && route@ == p && allow_list(
                allow,
                routes,
                p,
            )
        },
        RestDecision::NotAllowed => {
            &&& r.status_code == 405
            &&& r.error_code matches Some(e) && e@ == "rest_no_route"@
            &&& r.body matches RestBody::MethodNotAllowed { code, message, allow } && code@
                == "rest_no_route"@ && message@ == no_route_message() && allow_list(allow, routes, p)
        },
        RestDecision::Rejected { status, code, message } => {
            &&& r.status_code == status
            &&& r.error_code matches Some(e) && e@ == code
            &&& r.body matches RestBody::Error { code: c, message: msg } && c@ == code && msg@
                == message
        },
        RestDecision::Accepted { route: i } => {
            &&& r.status_code == 200
            &&& r.error_code is None
            &&& r.body matches RestBody::Success { route, method: rm, params } && route@ == p && rm@
                == m && keyed_by_last(params.entries@, route_params(routes[i], p)->0)
        },
    }
}

fn rest_error(status_code: u16, code: &str, message: &str) -> (r: RestDispatchResult)
    ensures
        r.status_code == status_code,
        r.error_code matches Some(e) && e@ == code@,
        r.body matches RestBody::Error { code: c, message: m } && c@ == code@ && m@ == message@,
{
    RestDispatchResult {
        status_code,
        body: RestBody::Error {
            code: string_of(&chars_of(code)),
            message: string_of(&chars_of(message)),
        },
        error_code: Some(string_of(&chars_of(code))),
    }
}

fn normalize_path(path: &[char]) -> (r: Vec<char>)
    ensures
        r@ == rest_normalize(path@),
{
    let t = trim_chars(path);
    if t.len() == 0 {
        let mut r: Vec<char> = Vec::new();
        r.push('/');
        assert(r@ =~= seq!['/']);
        return r;
    }
    let pre: Vec<char> = if t[0] == '/' {
        t
    } else {
        let mut v: Vec<char> = Vec::new();
        v.push('/');
        let mut k: usize = 0;
        while k < t.len()
            invariant
                k <= t@.len(),
                v@ == seq!['/'] + t@.subrange(0, k as int),
            decreases t@.len() - k,
        {
            v.push(t[k]);
            k += 1;
            assert(v@ =~= seq!['/'] + t@.subrange(0, k as int));
        }
        assert(t@.subrange(0, k as int) =~= t@);
        v
    };
    if pre.len() > 1 {
        trim_end_char_exec(&pre, '/')
    } else {
        pre
    }
}

fn param_name_exec(seg: &[char]) -> (r: Option<Vec<char>>)
    ensures
        match r {
            Some(n) => param_name(seg@) == Some(n@),
            None => param_name(seg@) is None,
        },
{
    let n = seg.len();
    if n >= 3 && seg[0] == '{' && seg[n - 1] == '}' {
        Some(crate::text::copy_range(seg, 1, n - 1))
    } else {
        None
    }
}

proof fn lemma_bind_none(pat: Seq<Seq<char>>, path: Seq<Seq<char>>, k: int)
    requires
        0 <= k <= pat.len(),
        pat.len() == path.len(),
        bind_segments(pat.subrange(0, k), path.subrange(0, k)) is None,
    ensures
        bind_segments(pat, path) is None,
    decreases pat.len() - k,
{
    if k < pat.len() {
        assert(pat.subrange(0, k + 1).drop_last() =~= pat.subrange(0, k));
        assert(path.subrange(0, k + 1).drop_last() =~= path.subrange(0, k));
        lemma_bind_none(pat, path, k + 1);
    } else {
        assert(pat.subrange(0, k) =~= pat);
        assert(path.subrange(0, k) =~= path);
    }
}

fn path_params_exec(pattern: &[char], path: &[char]) -> (r: Option<Vec<(String, String)>>)
    ensures
        match r {
            Some(ps) => path_params(pattern@, path@) == Some(pair_views(ps@)),
            None => path_params(pattern@, path@) is None,
        },
{
    let a = split_nonempty_exec(pattern, '/');
    let b = split_nonempty_exec(path, '/');
    if a.len() != b.len() {
        return None;
    }
    let ghost av = views(a@);
    let ghost bv = views(b@);
    let mut out: Vec<(String, String)> = Vec::new();
    let mut i: usize = 0;
    assert(pair_views(out@) =~= Seq::<(Seq<char>, Seq<char>)>::empty());
    assert(av.subrange(0, 0) =~= Seq::<Seq<char>>::empty());
    while i < a.len()
        invariant
            av == views(a@),
            bv == views(b@),
            av == split_nonempty(pattern@, '/'),
            bv == split_nonempty(path@, '/'),
            a@.len() == b@.len(),
            i <= a@.len(),
            bind_segments(av.subrange(0, i as int), bv.subrange(0, i as int)) == Some(
                pair_views(out@),
            ),
        decreases a@.len() - i,
    {
        let ghost pa = av.subrange(0, i + 1);
        let ghost pb = bv.subrange(0, i + 1);
        assert(pa.drop_last() =~= av.subrange(0, i as int));
        assert(pb.drop_last() =~= bv.subrange(0, i as int));
        assert(pa.last() == a@[i as int]@);
        assert(pb.last() == b@[i as int]@);
        match param_name_exec(&a[i]) {
            Some(n) => {
                let ghost before = out@;
                out.push((string_of(&n), string_of(&b[i])));
                assert(pair_views(out@) =~= pair_views(before).push((n@, b@[i as int]@)));
            },
            None => {
                if !chars_eq(&a[i], &b[i]) {
                    proof {
                        lemma_bind_none(av, bv, i + 1);
                    }
                    return None;
                }
            },
        }
        i += 1;
    }
    assert(av.subrange(0, i as int) =~= av);
    assert(bv.subrange(0, i as int) =~= bv);
    Some(out)
}

fn canon_method_exec(m: &[char]) -> (r: Vec<char>)
    ensures
        r@ == canon_method(m@),
{
    to_upper(&trim_chars(m))
}

fn serves_exec(methods: &Vec<String>, m: &[char]) -> (r: bool)
    ensures
        r == serves(strs(methods@), m@),
{
    let ghost ms = strs(methods@);
    let head = chars_of("HEAD");
    let get = chars_of("GET");
    let mut found = false;
    let mut k: usize = 0;
    assert(ms.subrange(0, 0) =~= Seq::<Seq<char>>::empty());
    while k < methods.len()
        invariant
            ms == strs(methods@),
            head@ == "HEAD"@,
            get@ == "GET"@,
            k <= methods@.len(),
            found == serves(ms.subrange(0, k as int), m@),
        decreases methods@.len() - k,
    {
        assert(ms.subrange(0, k + 1).drop_last() =~= ms.subrange(0, k as int));
        assert(ms.subrange(0, k + 1).last() == methods@[k as int]@);
        let c = canon_method_exec(&chars_of(methods[k].as_str()));
        if chars_eq(&c, m) || (chars_eq(m, &head) && chars_eq(&c, &get)) {
            found = true;
        }
        k += 1;
    }
    assert(ms.subrange(0, k as int) =~= ms);
    found
}

/// Adds the canonical methods of a route to a sorted `Allow` list.
fn add_methods(allow: &mut Vec<String>, methods: &Vec<String>)
    requires
        sorted_strict(strs(old(allow)@)),
    ensures
        sorted_strict(strs(final(allow)@)),
        strs(final(allow)@).to_set() == strs(old(allow)@).to_set().union(
            route_methods(strs(methods@)),
        ),
{
    let ghost ms = strs(methods@);
    let ghost start = strs(allow@).to_set();
    let mut k: usize = 0;
    assert(ms.subrange(0, 0) =~= Seq::<Seq<char>>::empty());
    assert(start.union(Set::empty()) =~= start);
    while k < methods.len()
        invariant
            ms == strs(methods@),
            k <= methods@.len(),
            sorted_strict(strs(allow@)),
            strs(allow@).to_set() == start.union(route_methods(ms.subrange(0, k as int))),
        decreases methods@.len() - k,
    {
        assert(ms.subrange(0, k + 1).drop_last() =~= ms.subrange(0, k as int));
        assert(ms.subrange(0, k + 1).last() == methods@[k as int]@);
        let c = canon_method_exec(&chars_of(methods[k].as_str()));
        insert_sorted(allow, &c);
        k += 1;
        assert(strs(allow@).to_set() =~= start.union(route_methods(ms.subrange(0, k as int))));
    }
    assert(ms.subrange(0, k as int) =~= ms);
}

fn copy_strings(v: &Vec<String>) -> (r: Vec<String>)
    ensures
        strs(r@) == strs(v@),
{
    let mut r: Vec<String> = Vec::new();
    let mut k: usize = 0;
    while k < v.len()
        invariant
            k <= v@.len(),
            strs(r@) == strs(v@.subrange(0, k as int)),
        decreases v@.len() - k,
    {
        let ghost before = r@;
        r.push(copy_string(&v[k]));
        assert(strs(r@) =~= strs(before).push(v@[k as int]@));
        assert(v@.subrange(0, k + 1) =~= v@.subrange(0, k as int).push(v@[k as int]));
        k += 1;
    }
    assert(v@.subrange(0, k as int) =~= v@);
    r
}

#[derive(Debug, Clone)]
pub struct RestRouteRegistry {
    routes: Vec<RestRoute>,
}

impl RestRouteRegistry {
    /// The registered routes, in registration order.
    pub closed spec fn routes(&self) -> Seq<RouteView> {
        route_views(self.routes@)
    }

    pub fn new() -> (r: Self)
        ensures
            r.routes() == Seq::<RouteView>::empty(),
    {
        let r = RestRouteRegistry { routes: Vec::new() };
        assert(r.routes() =~= Seq::<RouteView>::empty());
        r
    }

    pub fn register(&mut self, path: &str, methods: &[&str], summary: &str, auth_requirement: AuthRequirement)
        ensures
            final(self).routes() == old(self).routes().push(
                RouteView {
                    path: path@,
                    methods: strs_ref(methods@),
                    summary: summary@,
                    auth: requirement_view(auth_requirement),
                },
            ),
    {
        let mut ms: Vec<String> = Vec::new();
        let mut k: usize = 0;
        while k < methods.len()
            invariant
                k <= methods@.len(),
                strs(ms@) == strs_ref(methods@.subrange(0, k as int)),
            decreases methods@.len() - k,
        {
            let ghost before = ms@;
            ms.push(string_of(&chars_of(methods[k])));
            assert(strs(ms@) =~= strs(before).push(methods@[k as int]@));
            assert(strs_ref(methods@.subrange(0, k + 1)) =~= strs_ref(methods@.subrange(0, k as int)).push(
                methods@[k as int]@,
            ));
            k += 1;
        }
        assert(methods@.subrange(0, k as int) =~= methods@);
        let ghost before = self.routes@;
        self.routes.push(
            RestRoute {
                path: string_of(&chars_of(path)),
                methods: ms,
                summary: string_of(&chars_of(summary)),
                auth_requirement,
            },
        );
        assert(self.routes() =~= route_views(before).push(self.routes@.last()@));
    }

    pub fn all(&self) -> (r: &[RestRoute])
        ensures
            route_views(r@) == self.routes(),
    {
        self.routes.as_slice()
    }

    /// Routes a request (see `rest_decision` and `rest_answers`).
    pub fn dispatch(&self, request: &RestRequest) -> (r: RestDispatchResult)
        ensures
            rest_answers(
                r,
                self.routes(),
                request.method@,
                request.path@,
                request.authenticated,
                strs(request.capabilities@),
            ),
    {
        let ghost routes = self.routes();
        let m = canon_method_exec(&chars_of(request.method.as_str()));
        let p = normalize_path(&chars_of(request.path.as_str()));
        let mut allow: Vec<String> = Vec::new();
        let mut any = false;
        let mut chosen: Option<(usize, Vec<(String, String)>)> = None;
        let mut k: usize = 0;
        assert(routes.subrange(0, 0) =~= Seq::<RouteView>::empty());
        assert(strs(allow@).to_set() =~= Set::<Seq<char>>::empty());
        while k < self.routes.len()
            invariant
                routes == self.routes(),
                m@ == canon_method(request.method@),
                p@ == rest_normalize(request.path@),
                k <= self.routes@.len(),
                sorted_strict(strs(allow@)),
                strs(allow@).to_set() == path_methods(routes.subrange(0, k as int), p@),
                any == any_route(routes.subrange(0, k as int), p@),
                match chosen {
                    Some((i, ps)) => first_route(routes.subrange(0, k as int), p@, m@) == Some(
                        i as int,
                    ) && i < k && route_params(routes[i as int], p@) == Some(pair_views(ps@)),
                    None => first_route(routes.subrange(0, k as int), p@, m@) is None,
                },
            decreases self.routes@.len() - k,
        {
            let ghost pre = routes.subrange(0, k as int);
            let ghost post = routes.subrange(0, k + 1);
            assert(post.drop_last() =~= pre);
            assert(post.last() == self.routes@[k as int]@);
            let route = &self.routes[k];
            let pattern = normalize_path(&chars_of(route.path.as_str()));
            match path_params_exec(&pattern, &p) {
                Some(ps) => {
                    any = true;
                    add_methods(&mut allow, &route.methods);
                    if chosen.is_none() && serves_exec(&route.methods, &m) {
                        chosen = Some((k, ps));
                    }
                },
                None => {},
            }
            proof {
                if chosen is Some {
                    let i = (chosen->0).0;
                    assert(routes[i as int] == post[i as int]);
                }
            }
            k += 1;
        }
        assert(routes.subrange(0, k as int) =~= routes);
        if !any {
            return rest_error(404, "rest_no_route", "No route was found matching the URL and request method.");
        }
        let get = chars_of("GET");
        if contains_string(&allow, &get) {
            insert_sorted(&mut allow, &chars_of("HEAD"));
        }
        insert_sorted(&mut allow, &chars_of("OPTIONS"));
        if chars_eq(&m, &chars_of("OPTIONS")) {
            return RestDispatchResult {
                status_code: 200,
                body: RestBody::Options { route: string_of(&p), allow },
                error_code: None,
            };
        }
        let (i, ps) = match chosen {
            Some(c) => c,
            None => {
                return RestDispatchResult {
                    status_code: 405,
                    body: RestBody::MethodNotAllowed {
                        code: string_of(&chars_of("rest_no_route")),
                        message: string_of(
                            &chars_of("No route was found matching the URL and request method."),
                        ),
                        allow,
                    },
                    error_code: Some(string_of(&chars_of("rest_no_route"))),
                };
            },
        };
        let route = &self.routes[i];
        assert(routes[i as int] == route@);
        match &route.auth_requirement {
            AuthRequirement::Public => {},
            AuthRequirement::Authenticated => {
                if !request.authenticated {
                    return rest_error(401, "rest_not_logged_in", "You are not currently logged in.");
                }
            },
            AuthRequirement::Capability(c) => {
                if !request.authenticated {
                    return rest_error(401, "rest_not_logged_in", "You are not currently logged in.");
                }
                if !contains_string(&request.capabilities, &chars_of(c.as_str())) {
                    return rest_error(403, "rest_forbidden", "Sorry, you are not allowed to do that.");
                }
            },
        }
        let params = last_wins(&ps);
        RestDispatchResult {
            status_code: 200,
            body: RestBody::Success { route: string_of(&p), method: string_of(&m), params },
            error_code: None,
        }
    }
}

impl Default for RestRouteRegistry {
    fn default() -> (r: Self)
        ensures
            r.routes() == Seq::<RouteView>::empty(),
    {
        RestRouteRegistry::new()
    }
}

// ------------------------------------------------------------------
// Seed routes and the contract document
// ------------------------------------------------------------------

pub open spec fn route_entry(path: Seq<char>, method: Seq<char>, summary: Seq<char>, auth: RequirementView) -> RouteView {
    RouteView { path, methods: seq![method], summary, auth }
}

/// The core REST routes served.
pub open spec fn core_route_list() -> Seq<RouteView> {
    seq![
        route_entry("/wp-json"@, "GET"@, "REST root index"@, RequirementView::Public),
        route_entry("/wp-json/wp/v2/posts"@, "GET"@, "List posts"@, RequirementView::Public),
        route_entry("/wp-json/wp/v2/posts"@, "POST"@, "Create post"@, RequirementView::Capability("edit_posts"@)),
        route_entry("/wp-json/wp/v2/posts/{id}"@, "GET"@, "Read post"@, RequirementView::Public),
        route_entry("/wp-json/wp/v2/posts/{id}"@, "DELETE"@, "Delete post"@, RequirementView::Capability("delete_posts"@)),
        route_entry("/wp-json/wp/v2/comments"@, "GET"@, "List comments"@, RequirementView::Public),
        route_entry("/wp-json/wp/v2/comments/{id}"@, "DELETE"@, "Delete comment"@, RequirementView::Capability("moderate_comments"@)),
        route_entry("/wp-json/wp/v2/categories"@, "GET"@, "List categories"@, RequirementView::Public),
        route_entry("/wp-json/wp/v2/users/me"@, "GET"@, "Current user profile"@, RequirementView::Authenticated),
        route_entry("/wp-json/wp/v2/settings"@, "GET"@, "Read site settings"@, RequirementView::Capability("manage_options"@)),
    ]
}

fn capability(name: &str) -> (r: AuthRequirement)
    ensures
        requirement_view(r) == RequirementView::Capability(name@),
{
    AuthRequirement::Capability(string_of(&chars_of(name)))
}

pub fn core_seed_routes() -> (r: RestRouteRegistry)
    ensures
        r.routes() == core_route_list(),
{
    let mut registry = RestRouteRegistry::new();
    registry.register("/wp-json", &["GET"], "REST root index", AuthRequirement::Public);
    registry.register("/wp-json/wp/v2/posts", &["GET"], "List posts", AuthRequirement::Public);
    registry.register("/wp-json/wp/v2/posts", &["POST"], "Create post", capability("edit_posts"));
    registry.register("/wp-json/wp/v2/posts/{id}", &["GET"], "Read post", AuthRequirement::Public);
    registry.register("/wp-json/wp/v2/posts/{id}", &["DELETE"], "Delete post", capability("delete_posts"));
    registry.register("/wp-json/wp/v2/comments", &["GET"], "List comments", AuthRequirement::Public);
    registry.register("/wp-json/wp/v2/comments/{id}", &["DELETE"], "Delete comment", capability("moderate_comments"));
    registry.register("/wp-json/wp/v2/categories", &["GET"], "List categories", AuthRequirement::Public);
    registry.register("/wp-json/wp/v2/users/me", &["GET"], "Current user profile", AuthRequirement::Authenticated);
    registry.register("/wp-json/wp/v2/settings", &["GET"], "Read site settings", capability("manage_options"));
    proof {
        reveal_strlit("GET");
        reveal_strlit("POST");
        reveal_strlit("DELETE");
    }
    assert(registry.routes() =~= core_route_list()) by {
        assert forall|i: int| 0 <= i < core_route_list().len() implies registry.routes()[i].methods
            =~= core_route_list()[i].methods by {
        }
    }
    registry
}

/// `public`, `authenticated` or `capability:{name}`.
pub open spec fn auth_text(a: RequirementView) -> Seq<char> {
    match a {
        RequirementView::Public => "public"@,
        RequirementView::Authenticated => "authenticated"@,
        RequirementView::Capability(c) => "capability:"@ + c,
    }
}

fn format_auth_requirement(a: &AuthRequirement) -> (r: String)
    ensures
        r@ == auth_text(requirement_view(*a)),
{
    match a {
        AuthRequirement::Public => string_of(&chars_of("public")),
        AuthRequirement::Authenticated => string_of(&chars_of("authenticated")),
        AuthRequirement::Capability(c) => {
            let mut v = chars_of("capability:");
            crate::text::append_str(&mut v, c.as_str());
            string_of(&v)
        },
    }
}

pub open spec fn route_paths(routes: Seq<RouteView>) -> Set<Seq<char>>
    decreases routes.len(),
{
    if routes.len() == 0 {
        Set::empty()
    } else {
        route_paths(routes.drop_last()).insert(routes.last().path)
    }
}

pub open spec fn lowered_methods(ms: Seq<Seq<char>>) -> Set<Seq<char>>
    decreases ms.len(),
{
    if ms.len() == 0 {
        Set::empty()
    } else {
        lowered_methods(ms.drop_last()).insert(lower_seq(ms.last()))
    }
}

/// The lower-cased methods registered under exactly this path.
pub open spec fn path_method_keys(routes: Seq<RouteView>, p: Seq<char>) -> Set<Seq<char>>
    decreases routes.len(),
{
    if routes.len() == 0 {
        Set::empty()
    } else if routes.last().path == p {
        path_method_keys(routes.drop_last(), p).union(lowered_methods(routes.last().methods))
    } else {
        path_method_keys(routes.drop_last(), p)
    }
}

pub open spec fn has_lowered(ms: Seq<Seq<char>>, k: Seq<char>) -> bool
    decreases ms.len(),
{
    if ms.len() == 0 {
        false
    } else {
        has_lowered(ms.drop_last(), k) || lower_seq(ms.last()) == k
    }
}

/// (summary, auth text) of the last route registering method `k` under
/// path `p`: later registrations overwrite earlier ones.
pub open spec fn doc_operation(routes: Seq<RouteView>, p: Seq<char>, k: Seq<char>) -> Option<(Seq<char>, Seq<char>)>
    decreases routes.len(),
{
    if routes.len() == 0 {
        None
    } else if routes.last().path == p && has_lowered(routes.last().methods, k) {
        Some((routes.last().summary, auth_text(routes.last().auth)))
    } else {
        doc_operation(routes.drop_last(), p, k)
    }
}

#[derive(Debug, Clone)]
pub struct PathOperation {
    pub method: String,
    pub summary: String,
    pub auth_requirement: String,
}

#[derive(Debug, Clone)]
pub struct PathItem {
    pub path: String,
    pub operations: Vec<PathOperation>,
}

/// The OpenAPI-style description of the registered routes.
#[derive(Debug, Clone)]
pub struct ContractDocument {
    pub openapi: String,
    pub title: String,
    pub version: String,
    pub paths: Vec<PathItem>,
}

pub open spec fn op_methods(ops: Seq<PathOperation>) -> Seq<Seq<char>> {
    ops.map_values(|o: PathOperation| o.method@)
}

pub open spec fn item_paths(items: Seq<PathItem>) -> Seq<Seq<char>> {
    items.map_values(|i: PathItem| i.path@)
}

/// Paths sorted, each registered path once; under each, its lower-cased
/// methods sorted, each once, with the operation registered last.
pub open spec fn documents(d: ContractDocument, routes: Seq<RouteView>) -> bool {
    &&& d.openapi@ == "3.0.0"@
    &&& d.title@ == "wp-rs REST contract"@
    &&& d.version@ == "0.1.0"@
    &&& sorted_strict(item_paths(d.paths@))
    &&& item_paths(d.paths@).to_set() == route_paths(routes)
    &&& forall|i: int|
        0 <= i < d.paths@.len() ==> {
            let item = #[trigger] d.paths@[i];
            &&& sorted_strict(op_methods(item.operations@))
            &&& op_methods(item.operations@).to_set() == path_method_keys(routes, item.path@)
            &&& forall|j: int|
                0 <= j < item.operations@.len() ==> doc_operation(
                    routes,
                    item.path@,
                    (#[trigger] item.operations@[j]).method@,
                ) == Some((item.operations@[j].summary@, item.operations@[j].auth_requirement@))
        }
}

impl ContractDocument {
    /// The operation documented for a path and a lower-case method.
    pub fn operation(&self, path: &str, method: &str) -> (r: Option<&PathOperation>)
        ensures
            r matches Some(op) ==> op.method@ == method@ && exists|i: int|
                0 <= i < self.paths@.len() && (#[trigger] self.paths@[i]).path@ == path@
                    && self.paths@[i].operations@.contains(*op),
            r is None ==> forall|i: int, j: int|
                #![trigger self.paths@[i].operations@[j]]
                0 <= i < self.paths@.len() && self.paths@[i].path@ == path@ && 0 <= j
                    < self.paths@[i].operations@.len() ==> self.paths@[i].operations@[j].method@
                    != method@,
    {
        let p = chars_of(path);
        let m = chars_of(method);
        let mut i: usize = 0;
        while i < self.paths.len()
            invariant
                p@ == path@,
                m@ == method@,
                i <= self.paths@.len(),
                forall|a: int, j: int|
                    #![trigger self.paths@[a].operations@[j]]
                    0 <= a < i && self.paths@[a].path@ == path@ && 0 <= j
                        < self.paths@[a].operations@.len() ==> self.paths@[a].operations@[j].method@
                        != method@,
            decreases self.paths@.len() - i,
        {
            let item = &self.paths[i];
            if chars_eq(&chars_of(item.path.as_str()), &p) {
                let mut j: usize = 0;
                while j < item.operations.len()
                    invariant
                        p@ == path@,
                        m@ == method@,
                        item.path@ == path@,
                        *item == self.paths@[i as int],
                        i < self.paths@.len(),
                        j <= item.operations@.len(),
                        forall|b: int| 0 <= b < j ==> item.operations@[b].method@ != method@,
                    decreases item.operations@.len() - j,
                {
                    if chars_eq(&chars_of(item.operations[j].method.as_str()), &m) {
                        assert(self.paths@[i as int].operations@.contains(item.operations@[j as int]));
                        return Some(&item.operations[j]);
                    }
                    j += 1;
                }
            }
            i += 1;
        }
        None
    }
}

impl RestRouteRegistry {
    fn find_operation(&self, p: &[char], k: &[char]) -> (r: Option<PathOperation>)
        ensures
            match r {
                Some(op) => doc_operation(self.routes(), p@, k@) == Some((op.summary@, op.auth_requirement@))
                    && op.method@ == k@,
                None => doc_operation(self.routes(), p@, k@) is None,
            },
    {
        let ghost routes = self.routes();
        let mut found: Option<PathOperation> = None;
        let mut i: usize = 0;
        assert(routes.subrange(0, 0) =~= Seq::<RouteView>::empty());
        while i < self.routes.len()
            invariant
                routes == self.routes(),
                i <= self.routes@.len(),
                match found {
                    Some(op) => doc_operation(routes.subrange(0, i as int), p@, k@) == Some(
                        (op.summary@, op.auth_requirement@),
                    ) && op.method@ == k@,
                    None => doc_operation(routes.subrange(0, i as int), p@, k@) is None,
                },
            decreases self.routes@.len() - i,
        {
            assert(routes.subrange(0, i + 1).drop_last() =~= routes.subrange(0, i as int));
            assert(routes.subrange(0, i + 1).last() == self.routes@[i as int]@);
            let route = &self.routes[i];
            if chars_eq(&chars_of(route.path.as_str()), p) {
                let ghost ms = strs(route.methods@);
                let mut has = false;
                let mut j: usize = 0;
                assert(ms.subrange(0, 0) =~= Seq::<Seq<char>>::empty());
                while j < route.methods.len()
                    invariant
                        ms == strs(route.methods@),
                        j <= route.methods@.len(),
                        has == has_lowered(ms.subrange(0, j as int), k@),
                    decreases route.methods@.len() - j,
                {
                    assert(ms.subrange(0, j + 1).drop_last() =~= ms.subrange(0, j as int));
                    assert(ms.subrange(0, j + 1).last() == route.methods@[j as int]@);
                    let low = crate::text::to_lower(&chars_of(route.methods[j].as_str()));
                    if chars_eq(&low, k) {
                        has = true;
                    }
                    j += 1;
                }
                assert(ms.subrange(0, j as int) =~= ms);
                if has {
                    found = Some(
                        PathOperation {
                            method: string_of(k),
                            summary: copy_string(&route.summary),
                            auth_requirement: format_auth_requirement(&route.auth_requirement),
                        },
                    );
                }
            }
            i += 1;
        }
        assert(routes.subrange(0, i as int) =~= routes);
        found
    }

    fn method_keys(&self, p: &[char]) -> (r: Vec<String>)
        ensures
            sorted_strict(strs(r@)),
            strs(r@).to_set() == path_method_keys(self.routes(), p@),
    {
        let ghost routes = self.routes();
        let mut keys: Vec<String> = Vec::new();
        let mut i: usize = 0;
        assert(routes.subrange(0, 0) =~= Seq::<RouteView>::empty());
        assert(strs(keys@).to_set() =~= Set::<Seq<char>>::empty());
        while i < self.routes.len()
            invariant
                routes == self.routes(),
                i <= self.routes@.len(),
                sorted_strict(strs(keys@)),
                strs(keys@).to_set() == path_method_keys(routes.subrange(0, i as int), p@),
            decreases self.routes@.len() - i,
        {
            assert(routes.subrange(0, i + 1).drop_last() =~= routes.subrange(0, i as int));
            assert(routes.subrange(0, i + 1).last() == self.routes@[i as int]@);
            let route = &self.routes[i];
            if chars_eq(&chars_of(route.path.as_str()), p) {
                let ghost ms = strs(route.methods@);
                let ghost start = strs(keys@).to_set();
                let mut j: usize = 0;
                assert(ms.subrange(0, 0) =~= Seq::<Seq<char>>::empty());
                assert(start.union(Set::empty()) =~= start);
                while j < route.methods.len()
                    invariant
                        ms == strs(route.methods@),
                        j <= route.methods@.len(),
                        sorted_strict(strs(keys@)),
                        strs(keys@).to_set() == start.union(lowered_methods(ms.subrange(0, j as int))),
                    decreases route.methods@.len() - j,
                {
                    assert(ms.subrange(0, j + 1).drop_last() =~= ms.subrange(0, j as int));
                    assert(ms.subrange(0, j + 1).last() == route.methods@[j as int]@);
                    let low = crate::text::to_lower(&chars_of(route.methods[j].as_str()));
                    insert_sorted(&mut keys, &low);
                    j += 1;
                    assert(strs(keys@).to_set() =~= start.union(lowered_methods(ms.subrange(0, j as int))));
                }
                assert(ms.subrange(0, j as int) =~= ms);
            }
            i += 1;
        }
        assert(routes.subrange(0, i as int) =~= routes);
        keys
    }

    /// Every registered path with its operations (see `documents`).
    pub fn contract_document(&self) -> (r: ContractDocument)
        ensures
            documents(r, self.routes()),
    {
        let ghost routes = self.routes();
        let mut names: Vec<String> = Vec::new();
        let mut i: usize = 0;
        assert(routes.subrange(0, 0) =~= Seq::<RouteView>::empty());
        assert(strs(names@).to_set() =~= Set::<Seq<char>>::empty());
        while i < self.routes.len()
            invariant
                routes == self.routes(),
                i <= self.routes@.len(),
                sorted_strict(strs(names@)),
                strs(names@).to_set() == route_paths(routes.subrange(0, i as int)),
            decreases self.routes@.len() - i,
        {
            assert(routes.subrange(0, i + 1).drop_last() =~= routes.subrange(0, i as int));
            assert(routes.subrange(0, i + 1).last() == self.routes@[i as int]@);
            insert_sorted(&mut names, &chars_of(self.routes[i].path.as_str()));
            i += 1;
        }
        assert(routes.subrange(0, i as int) =~= routes);
        let mut items: Vec<PathItem> = Vec::new();
        let mut a: usize = 0;
        while a < names.len()
            invariant
                routes == self.routes(),
                a <= names@.len(),
                items@.len() == a,
                forall|x: int| 0 <= x < a ==> (#[trigger] items@[x]).path@ == names@[x]@,
                forall|x: int|
                    0 <= x < a ==> {
                        let item = #[trigger] items@[x];
                        &&& sorted_strict(op_methods(item.operations@))
                        &&& op_methods(item.operations@).to_set() == path_method_keys(routes, item.path@)
                        &&& forall|j: int|
                            0 <= j < item.operations@.len() ==> doc_operation(
                                routes,
                                item.path@,
                                (#[trigger] item.operations@[j]).method@,
                            ) == Some(
                                (item.operations@[j].summary@, item.operations@[j].auth_requirement@),
                            )
                    },
            decreases names@.len() - a,
        {
            let p = chars_of(names[a].as_str());
            let keys = self.method_keys(&p);
            let mut ops: Vec<PathOperation> = Vec::new();
            let mut b: usize = 0;
            while b < keys.len()
                invariant
                    routes == self.routes(),
                    p@ == names@[a as int]@,
                    b <= keys@.len(),
                    sorted_strict(strs(keys@)),
                    strs(keys@).to_set() == path_method_keys(routes, p@),
                    op_methods(ops@) == strs(keys@).subrange(0, b as int),
                    forall|j: int|
                        0 <= j < ops@.len() ==> doc_operation(routes, p@, (#[trigger] ops@[j]).method@)
                            == Some((ops@[j].summary@, ops@[j].auth_requirement@)),
                decreases keys@.len() - b,
            {
                let k = chars_of(keys[b].as_str());
                proof {
                    lemma_doc_operation_exists(routes, p@, k@);
                    assert(strs(keys@).contains(strs(keys@)[b as int]));
                }
                match self.find_operation(&p, &k) {
                    Some(op) => {
                        let ghost before = ops@;
                        ops.push(op);
                        assert(op_methods(ops@) =~= op_methods(before).push(k@));
                        assert(strs(keys@).subrange(0, b + 1) =~= strs(keys@).subrange(0, b as int).push(
                            k@,
                        ));
                    },
                    None => {
                        assert(false);
                    },
                }
                b += 1;
            }
            assert(strs(keys@).subrange(0, b as int) =~= strs(keys@));
            items.push(PathItem { path: string_of(&p), operations: ops });
            a += 1;
        }
        assert(item_paths(items@) =~= strs(names@));
        ContractDocument {
            openapi: string_of(&chars_of("3.0.0")),
            title: string_of(&chars_of("wp-rs REST contract")),
            version: string_of(&chars_of("0.1.0")),
            paths: items,
        }
    }
}

/// Every documented method key of a path has an operation.
proof fn lemma_doc_operation_exists(routes: Seq<RouteView>, p: Seq<char>, k: Seq<char>)
    ensures
        path_method_keys(routes, p).contains(k) ==> doc_operation(routes, p, k) is Some,
    decreases routes.len(),
{
    if routes.len() > 0 {
        lemma_doc_operation_exists(routes.drop_last(), p, k);
        if routes.last().path == p && lowered_methods(routes.last().methods).contains(k) {
            lemma_lowered_has(routes.last().methods, k);
        }
    }
}

proof fn lemma_lowered_has(ms: Seq<Seq<char>>, k: Seq<char>)
    ensures
        lowered_methods(ms).contains(k) ==> has_lowered(ms, k),
    decreases ms.len(),
{
    if ms.len() > 0 {
        lemma_lowered_has(ms.drop_last(), k);
    }
}

} // verus!
