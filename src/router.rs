//! The route table: registration with last-registration-wins, merging,
//! nesting under a prefix, and dispatch of a method and path.
use vstd::prelude::*;
use crate::text::{views, bytes_eq};
use crate::pattern::{Seg, Pattern, Segment, Bindings, wf_pattern, path_matches, path_segments, segments_spec, starts_with_slash, bindings_spec, nest_spec, validate_spec, PatternError, compile, compile_spec};

verus! {

/// A request method.
#[derive(Clone, Copy, Debug, PartialEq, Eq, Structural)]
pub enum Method {
    Get,
    Post,
    Put,
    Delete,
    Patch,
    Head,
    Options,
}

/// How strongly a segment kind binds: literals before captures before wildcards.
pub open spec fn kind_rank(s: Seg) -> int {
    match s {
        Seg::Lit(_) => 2,
        Seg::Cap(_) => 1,
        Seg::Wild(_) => 0,
    }
}

/// Whether pattern `a` is at least as specific as pattern `b`: at the first
/// position where their segment kinds differ, `a` has the stronger kind.
pub open spec fn at_least(a: Seq<Seg>, b: Seq<Seg>) -> bool
    decreases a.len(),
{
    if a.len() == 0 {
        b.len() == 0
    } else if b.len() == 0 {
        true
    } else if kind_rank(a[0]) != kind_rank(b[0]) {
        kind_rank(a[0]) > kind_rank(b[0])
    } else {
        at_least(a.drop_first(), b.drop_first())
    }
}

/// Any two patterns are comparable.
pub proof fn lemma_at_least_total(a: Seq<Seg>, b: Seq<Seg>)
    ensures
        at_least(a, b) || at_least(b, a),
    decreases a.len(),
{
    if a.len() > 0 && b.len() > 0 && kind_rank(a[0]) == kind_rank(b[0]) {
        lemma_at_least_total(a.drop_first(), b.drop_first());
    }
}

/// Specificity is transitive.
pub proof fn lemma_at_least_trans(a: Seq<Seg>, b: Seq<Seg>, c: Seq<Seg>)
    requires
        at_least(a, b),
        at_least(b, c),
    ensures
        at_least(a, c),
    decreases a.len(),
{
    if a.len() > 0 && b.len() > 0 && c.len() > 0 && kind_rank(a[0]) == kind_rank(b[0])
        && kind_rank(b[0]) == kind_rank(c[0]) {
        lemma_at_least_trans(a.drop_first(), b.drop_first(), c.drop_first());
    }
}

/// A segment with its name left out: what decides which paths it matches.
pub open spec fn seg_shape(s: Seg) -> Seg {
    match s {
        Seg::Lit(t) => Seg::Lit(t),
        Seg::Cap(_) => Seg::Cap(Seq::empty()),
        Seg::Wild(_) => Seg::Wild(Seq::empty()),
    }
}

/// A pattern with its names left out; two routes with one method and one
/// shape are the same route.
pub open spec fn shape(p: Seq<Seg>) -> Seq<Seg> {
    p.map_values(|s: Seg| seg_shape(s))
}

/// The abstract form of one route: method, pattern and handler.
pub type RouteView = (Method, Seq<Seg>, usize);

/// One registered route. `handler` identifies the handler to invoke.
#[derive(Debug)]
pub struct Route {
    pub method: Method,
    pub pattern: Pattern,
    pub handler: usize,
}

impl View for Route {
    type V = RouteView;

    open spec fn view(&self) -> RouteView {
        (self.method, self.pattern@, self.handler)
    }
}

/// Whether two routes have one method and one pattern shape.
pub open spec fn same_key(a: RouteView, b: RouteView) -> bool {
    a.0 == b.0 && shape(a.1) == shape(b.1)
}

/// The route table.
#[derive(Debug)]
pub struct Router {
    pub routes: Vec<Route>,
}

/// Well-formed tables: every pattern is well formed and no two routes share a key.
pub open spec fn wf_table(t: Seq<RouteView>) -> bool {
    &&& forall|i: int| 0 <= i < t.len() ==> wf_pattern(#[trigger] t[i].1)
    &&& forall|i: int, j: int|
        0 <= i < j < t.len() ==> !same_key(#[trigger] t[i], #[trigger] t[j])
}

/// The index of the route that shares a key with `r`, if any.
pub open spec fn key_index(t: Seq<RouteView>, r: RouteView) -> Option<int> {
    if exists|i: int| 0 <= i < t.len() && same_key(t[i], r) {
        Some(choose|i: int| 0 <= i < t.len() && same_key(t[i], r))
    } else {
        None
    }
}

/// The table after registering `r`: it takes the place of the route with
/// its key, or is added at the end.
pub open spec fn register_spec(t: Seq<RouteView>, r: RouteView) -> Seq<RouteView> {
    match key_index(t, r) {
        Some(i) => t.update(i, r),
        None => t.push(r),
    }
}

/// The table after registering each route of `rs` in order.
pub open spec fn register_all(t: Seq<RouteView>, rs: Seq<RouteView>) -> Seq<RouteView>
    decreases rs.len(),
{
    if rs.len() == 0 {
        t
    } else {
        register_spec(register_all(t, rs.drop_last()), rs.last())
    }
}

impl View for Router {
    type V = Seq<RouteView>;

    open spec fn view(&self) -> Seq<RouteView> {
        self.routes@.map_values(|r: Route| r@)
    }
}

/// What dispatch decides for a request.
#[derive(Debug)]
pub enum Outcome {
    /// The route at index `route` takes the request.
    Matched { route: usize, handler: usize, bindings: Bindings },
    /// Some route matches the path, none with this method; `allow` lists theirs.
    MethodNotAllowed { allow: Vec<Method> },
    /// No route matches the path.
    NotFound,
}

/// Whether some route of the table matches the path.
pub open spec fn path_known(t: Seq<RouteView>, path: Seq<u8>) -> bool {
    exists|i: int| 0 <= i < t.len() && path_matches(#[trigger] t[i].1, path)
}

/// Whether some route of the table takes this method and path.
pub open spec fn route_known(t: Seq<RouteView>, m: Method, path: Seq<u8>) -> bool {
    exists|i: int| 0 <= i < t.len() && #[trigger] t[i].0 == m && path_matches(t[i].1, path)
}

/// The methods of the routes that match the path.
pub open spec fn allowed(t: Seq<RouteView>, path: Seq<u8>) -> Set<Method> {
    Set::new(|m: Method| route_known(t, m, path))
}

/// Whether route `i` is the most specific route of the table for this method and path.
pub open spec fn best_route(t: Seq<RouteView>, m: Method, path: Seq<u8>, i: int) -> bool {
    &&& 0 <= i < t.len()
    &&& t[i].0 == m
    &&& path_matches(t[i].1, path)
    &&& forall|j: int|
        0 <= j < t.len() && #[trigger] t[j].0 == m && path_matches(t[j].1, path) ==> at_least(
            t[i].1,
            t[j].1,
        )
}

fn same_shape_exec(a: &Pattern, b: &Pattern) -> (r: bool)
    ensures
        r == (shape(a@) == shape(b@)),
{
    if a.segments.len() != b.segments.len() {
        assert(shape(a@).len() != shape(b@).len());
        return false;
    }
    let mut i: usize = 0;
    while i < a.segments.len()
        invariant
            a@.len() == b@.len(),
            i <= a@.len(),
            forall|k: int| 0 <= k < i ==> seg_shape(#[trigger] a@[k]) == seg_shape(b@[k]),
        decreases a.segments.len() - i,
    {
        let same = match (&a.segments[i], &b.segments[i]) {
            (Segment::Literal(x), Segment::Literal(y)) => bytes_eq(x.as_slice(), y.as_slice()),
            (Segment::Capture(_), Segment::Capture(_)) => true,
            (Segment::Wildcard(_), Segment::Wildcard(_)) => true,
            _ => false,
        };
        if !same {
            assert(shape(a@)[i as int] != shape(b@)[i as int]);
            return false;
        }
        i = i + 1;
    }
    assert(shape(a@) =~= shape(b@));
    true
}

impl Router {
    /// An empty table.
    pub fn new() -> (r: Router)
        ensures
            r@ == Seq::<RouteView>::empty(),
            wf_table(r@),
    {
        let r = Router { routes: Vec::new() };
        assert(r@ =~= Seq::<RouteView>::empty());
        r
    }

    /// Registers `handler` for `method` and `pattern`. A route with the same
    /// method and pattern shape is replaced; the result says whether one was.
    pub fn register(&mut self, method: Method, pattern: Pattern, handler: usize) -> (replaced: bool)
        requires
            wf_table(old(self)@),
            wf_pattern(pattern@),
        ensures
            final(self)@ == register_spec(old(self)@, (method, pattern@, handler)),
            replaced == key_index(old(self)@, (method, pattern@, handler)) is Some,
            wf_table(final(self)@),
    {
        let ghost r: RouteView = (method, pattern@, handler);
        let ghost t = self@;
        let mut i: usize = 0;
        while i < self.routes.len()
            invariant
                t == self@,
                t == old(self)@,
                wf_table(t),
                wf_pattern(pattern@),
                r == (method, pattern@, handler),
                i <= t.len(),
                forall|k: int| 0 <= k < i ==> !same_key(#[trigger] t[k], r),
            decreases self.routes.len() - i,
        {
            if self.routes[i].method == method && same_shape_exec(&self.routes[i].pattern, &pattern) {
                proof {
                    assert(same_key(t[i as int], r));
                    let j = choose|j: int| 0 <= j < t.len() && same_key(t[j], r);
                    if j != i {
                        if j < i {
                            assert(!same_key(t[j], t[i as int]));
                        } else {
                            assert(!same_key(t[i as int], t[j]));
                        }
                    }
                    assert(key_index(t, r) == Some(i as int));
                }
                self.routes[i] = Route { method, pattern, handler };
                proof {
                    assert(self@ =~= t.update(i as int, r));
                    assert forall|x: int, y: int|
                        0 <= x < y < self@.len() implies !same_key(#[trigger] self@[x], #[trigger] self@[y]) by {
                        if x == i {
                            assert(!same_key(t[i as int], t[y]));
                        } else if y == i {
                            assert(!same_key(t[x], t[i as int]));
                        }
                    }
                }
                return true;
            }
            i = i + 1;
        }
        self.routes.push(Route { method, pattern, handler });
        assert(self@ =~= t.push(r));
        false
    }
}

fn kind_rank_exec(s: &Segment) -> (r: u8)
    ensures
        r as int == kind_rank(s@),
{
    match s {
        Segment::Literal(_) => 2,
        Segment::Capture(_) => 1,
        Segment::Wildcard(_) => 0,
    }
}

/// Whether pattern `a` is at least as specific as pattern `b`.
pub fn at_least_exec(a: &Pattern, b: &Pattern) -> (r: bool)
    ensures
        r == at_least(a@, b@),
{
    let mut i: usize = 0;
    let n = a.segments.len();
    let m = b.segments.len();
    assert(a@.subrange(0, n as int) =~= a@);
    assert(b@.subrange(0, m as int) =~= b@);
    while i < n && i < m
        invariant
            n == a@.len(),
            m == b@.len(),
            i <= n,
            i <= m,
            at_least(a@, b@) == at_least(a@.subrange(i as int, n as int), b@.subrange(i as int, m as int)),
        decreases n - i,
    {
        let ra = kind_rank_exec(&a.segments[i]);
        let rb = kind_rank_exec(&b.segments[i]);
        let ghost sa = a@.subrange(i as int, n as int);
        let ghost sb = b@.subrange(i as int, m as int);
        assert(sa[0] == a@[i as int]);
        assert(sb[0] == b@[i as int]);
        if ra != rb {
            return ra > rb;
        }
        assert(sa.drop_first() =~= a@.subrange(i as int + 1, n as int));
        assert(sb.drop_first() =~= b@.subrange(i as int + 1, m as int));
        i = i + 1;
    }
    i == m
}

fn contains_method(v: &Vec<Method>, m: Method) -> (r: bool)
    ensures
        r == v@.contains(m),
{
    let mut i: usize = 0;
    while i < v.len()
        invariant
            i <= v@.len(),
            forall|k: int| 0 <= k < i ==> v@[k] != m,
        decreases v.len() - i,
    {
        if v[i] == m {
            return true;
        }
        i = i + 1;
    }
    false
}

impl Router {
    /// Decides which route takes a request for `method` and `path`: the most
    /// specific route for that method whose pattern matches; otherwise 405
    /// with the methods that do match the path; otherwise 404.
    pub fn dispatch(&self, method: Method, path: &[u8]) -> (r: Outcome)
        ensures
            r is NotFound <==> !path_known(self@, path@),
            r is MethodNotAllowed <==> path_known(self@, path@) && !route_known(self@, method, path@),
            r is Matched <==> route_known(self@, method, path@),
            r matches Outcome::MethodNotAllowed { allow } ==> allow@.no_duplicates() && forall|m: Method|
                allow@.contains(m) <==> route_known(self@, m, path@),
            r matches Outcome::Matched { route, handler, bindings } ==> best_route(
                self@,
                method,
                path@,
                route as int,
            ) && handler == self@[route as int].2 && bindings@ == bindings_spec(
                self@[route as int].1,
                segments_spec(path@),
            ),
    {
        let ghost t = self@;
        let segs = match path_segments(path) {
            Some(x) => x,
            None => {
                assert(!path_known(t, path@));
                return Outcome::NotFound;
            },
        };
        let ghost xs = views(segs@);
        let mut best: Option<(usize, Bindings)> = None;
        let mut allow: Vec<Method> = Vec::new();
        let mut any: bool = false;
        let mut i: usize = 0;
        while i < self.routes.len()
            invariant
                t == self@,
                xs == views(segs@),
                xs == segments_spec(path@),
                starts_with_slash(path@),
                i <= t.len(),
                any <==> exists|k: int| 0 <= k < i && path_matches(#[trigger] t[k].1, path@),
                allow@.no_duplicates(),
                forall|m: Method|
                    allow@.contains(m) <==> exists|k: int|
                        0 <= k < i && #[trigger] t[k].0 == m && path_matches(t[k].1, path@),
                best is None <==> !exists|k: int|
                    0 <= k < i && #[trigger] t[k].0 == method && path_matches(t[k].1, path@),
                best matches Some(bb) ==> bb.0 < i && t[bb.0 as int].0 == method && path_matches(
                    t[bb.0 as int].1,
                    path@,
                ) && bb.1@ == bindings_spec(t[bb.0 as int].1, xs) && forall|k: int|
                    0 <= k < i && #[trigger] t[k].0 == method && path_matches(t[k].1, path@)
                        ==> at_least(t[bb.0 as int].1, t[k].1),
            decreases self.routes.len() - i,
        {
            let route = &self.routes[i];
            match route.pattern.match_segments(&segs) {
                None => {
                    assert(!path_matches(t[i as int].1, path@));
                },
                Some(bs) => {
                    assert(path_matches(t[i as int].1, path@));
                    any = true;
                    let ghost before = allow@;
                    if !contains_method(&allow, route.method) {
                        allow.push(route.method);
                        proof {
                            assert forall|x: int, y: int| 0 <= x < y < allow@.len() implies allow@[x] != allow@[y] by {
                                if y == allow@.len() - 1 {
                                    assert(before.contains(allow@[x]));
                                }
                            }
                            assert forall|m: Method| #[trigger] allow@.contains(m) <==> (before.contains(m) || m == route.method) by {
                                assert(allow@ == before.push(route.method));
                                if m == route.method {
                                    assert(allow@[allow@.len() - 1] == m);
                                }
                                if before.contains(m) {
                                    let w = choose|w: int| 0 <= w < before.len() && before[w] == m;
                                    assert(allow@[w] == m);
                                }
                                if allow@.contains(m) && m != route.method {
                                    let w = choose|w: int| 0 <= w < allow@.len() && allow@[w] == m;
                                    assert(before[w] == m);
                                }
                            }
                        }
                    }
                    proof {
                        assert(allow@.contains(route.method));
                        assert forall|m: Method| #[trigger] allow@.contains(m) <==> exists|k: int|
                            0 <= k < i + 1 && #[trigger] t[k].0 == m && path_matches(t[k].1, path@) by {
                            if m == route.method {
                                assert(t[i as int].0 == m && path_matches(t[i as int].1, path@));
                            }
                        }
                    }
                    if route.method == method {
                        let take = match &best {
                            None => true,
                            Some(bb) => !at_least_exec(&self.routes[bb.0].pattern, &route.pattern),
                        };
                        if take {
                            proof {
                                lemma_at_least_total(t[i as int].1, t[i as int].1);
                                if let Some(bb) = best {
                                    lemma_at_least_total(t[bb.0 as int].1, t[i as int].1);
                                    assert forall|k: int|
                                        0 <= k < i && #[trigger] t[k].0 == method && path_matches(t[k].1, path@)
                                        implies at_least(t[i as int].1, t[k].1) by {
                                        lemma_at_least_trans(t[i as int].1, t[bb.0 as int].1, t[k].1);
                                    }
                                }
                            }
                            best = Some((i, bs));
                        }
                    }
                },
            }
            i = i + 1;
        }
        match best {
            Some(bb) => Outcome::Matched { route: bb.0, handler: self.routes[bb.0].handler, bindings: bb.1 },
            None => {
                if any {
                    Outcome::MethodNotAllowed { allow }
                } else {
                    Outcome::NotFound
                }
            },
        }
    }
}

/// The routes of `sub` with each pattern placed under `prefix`.
pub open spec fn nested_table(prefix: Seq<Seg>, sub: Seq<RouteView>) -> Seq<RouteView> {
    sub.map_values(|r: RouteView| (r.0, nest_spec(prefix, r.1), r.2))
}

/// The views of a sequence of routes.
pub open spec fn route_views(v: Seq<Route>) -> Seq<RouteView> {
    v.map_values(|r: Route| r@)
}

proof fn lemma_register_all_step(t: Seq<RouteView>, rs: Seq<RouteView>, i: int)
    requires
        0 <= i < rs.len(),
    ensures
        register_all(t, rs.subrange(0, i + 1)) == register_spec(register_all(t, rs.subrange(0, i)), rs[i]),
{
    assert(rs.subrange(0, i + 1).drop_last() =~= rs.subrange(0, i));
}

impl Router {
    /// Registers a copy of every route of `routes`, in order.
    fn register_each(&mut self, routes: &Vec<Route>)
        requires
            wf_table(old(self)@),
            forall|i: int| 0 <= i < routes@.len() ==> wf_pattern(#[trigger] routes@[i]@.1),
        ensures
            final(self)@ == register_all(old(self)@, route_views(routes@)),
            wf_table(final(self)@),
    {
        let ghost rv = route_views(routes@);
        assert(rv.subrange(0, 0) =~= Seq::<RouteView>::empty());
        let mut i: usize = 0;
        while i < routes.len()
            invariant
                rv == route_views(routes@),
                i <= routes@.len(),
                forall|k: int| 0 <= k < routes@.len() ==> wf_pattern(#[trigger] routes@[k]@.1),
                wf_table(self@),
                self@ == register_all(old(self)@, rv.subrange(0, i as int)),
            decreases routes.len() - i,
        {
            let r = &routes[i];
            let p = r.pattern.copy();
            assert(routes@[i as int]@.1 == r.pattern@);
            self.register(r.method, p, r.handler);
            proof {
                lemma_register_all_step(old(self)@, rv, i as int);
            }
            i = i + 1;
        }
        assert(rv.subrange(0, i as int) =~= rv);
    }

    /// Adds every route of `other`, in its order; where both have a route
    /// with one method and pattern shape, the one of `other` wins.
    pub fn merge(&mut self, other: &Router)
        requires
            wf_table(old(self)@),
            wf_table(other@),
        ensures
            final(self)@ == register_all(old(self)@, other@),
            wf_table(final(self)@),
    {
        assert(route_views(other.routes@) == other@);
        assert forall|i: int| 0 <= i < other.routes@.len() implies wf_pattern(#[trigger] other.routes@[i]@.1) by {
            assert(other@[i].1 == other.routes@[i]@.1);
        }
        self.register_each(&other.routes);
    }

    /// Adds every route of `sub` with its pattern placed under `prefix`.
    /// Fails, and leaves the table as it was, where a placed pattern would
    /// repeat a name or hold a wildcard before its end.
    pub fn nest(&mut self, prefix: &Pattern, sub: &Router) -> (r: Result<(), PatternError>)
        requires
            wf_table(old(self)@),
            wf_table(sub@),
            wf_pattern(prefix@),
        ensures
            r is Ok <==> forall|i: int|
                0 <= i < sub@.len() ==> validate_spec(nest_spec(prefix@, #[trigger] sub@[i].1)) is Ok,
            r is Ok ==> final(self)@ == register_all(old(self)@, nested_table(prefix@, sub@)),
            r matches Err(e) ==> final(self)@ == old(self)@ && exists|i: int|
                0 <= i < sub@.len() && validate_spec(nest_spec(prefix@, #[trigger] sub@[i].1))
                    == Err::<Seq<Seg>, PatternError>(e),
            wf_table(final(self)@),
    {
        let ghost nt = nested_table(prefix@, sub@);
        assert(self@ == old(self)@);
        let mut placed: Vec<Route> = Vec::new();
        let mut i: usize = 0;
        while i < sub.routes.len()
            invariant
                nt == nested_table(prefix@, sub@),
                self@ == old(self)@,
                wf_table(old(self)@),
                wf_table(sub@),
                wf_pattern(prefix@),
                i <= sub@.len(),
                route_views(placed@) == nt.subrange(0, i as int),
                forall|k: int| 0 <= k < i ==> validate_spec(nest_spec(prefix@, #[trigger] sub@[k].1)) is Ok,
                forall|k: int| 0 <= k < placed@.len() ==> wf_pattern(#[trigger] placed@[k]@.1),
            decreases sub.routes.len() - i,
        {
            let sr = &sub.routes[i];
            assert(sub@[i as int] == sr@);
            match sr.pattern.nested(prefix) {
                Ok(q) => {
                    proof {
                        assert(wf_pattern(sub@[i as int].1));
                        let np = nest_spec(prefix@, sr.pattern@);
                        assert(np.len() >= 1);
                        assert(q@ == np);
                    }
                    let ghost before = placed@;
                    let route = Route { method: sr.method, pattern: q, handler: sr.handler };
                    placed.push(route);
                    assert(placed@ == before.push(route));
                    assert(route_views(placed@) =~= route_views(before).push(route@));
                    assert(route_views(placed@) =~= nt.subrange(0, i as int + 1));
                },
                Err(e) => {
                    assert(validate_spec(nest_spec(prefix@, sub@[i as int].1)) == Err::<Seq<Seg>, PatternError>(e));
                    assert(self@ == old(self)@);
                    return Err(e);
                },
            }
            i = i + 1;
        }
        assert(nt.subrange(0, i as int) =~= nt);
        self.register_each(&placed);
        Ok(())
    }
}

impl Router {
    /// Compiles `pattern` and registers `handler` for it and `method`; the
    /// result says whether a route was replaced.
    pub fn route(&mut self, method: Method, pattern: &[u8], handler: usize) -> (r: Result<bool, PatternError>)
        requires
            wf_table(old(self)@),
        ensures
            wf_table(final(self)@),
            r is Ok <==> compile_spec(pattern@) is Ok,
            r matches Err(e) ==> compile_spec(pattern@) == Err::<Seq<Seg>, PatternError>(e) && final(self)@ == old(
                self,
            )@,
            r is Ok ==> final(self)@ == register_spec(old(self)@, (method, compile_spec(pattern@)->Ok_0, handler)),
    {
        match compile(pattern) {
            Ok(p) => Ok(self.register(method, p, handler)),
            Err(e) => Err(e),
        }
    }
}

/// A registered route whose pattern matches a path, and which every other
/// route of its method matching that path ranks strictly below, is the one
/// dispatch chooses for that method and path.
pub proof fn lemma_registered_route_chosen(t: Seq<RouteView>, i: int, path: Seq<u8>, k: int)
    requires
        0 <= i < t.len(),
        path_matches(t[i].1, path),
        forall|j: int|
            0 <= j < t.len() && j != i && #[trigger] t[j].0 == t[i].0 && path_matches(t[j].1, path) ==> !at_least(
                t[j].1,
                t[i].1,
            ),
        best_route(t, t[i].0, path, k),
    ensures
        k == i,
        route_known(t, t[i].0, path),
{
    assert(t[i].0 == t[i].0);
}

} // verus!
