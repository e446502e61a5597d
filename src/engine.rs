//! The request decision: route a request, resolve the chosen handler's
//! extractors, and either answer at once (404, 405, a rejection) or name the
//! handler to invoke with its arguments.
use vstd::prelude::*;
use crate::pattern::{segments_spec, bindings_spec};
use crate::router::{Router, Method, Outcome, wf_table, path_known, route_known, best_route, register_spec, key_index};
use crate::pattern::{PatternError, compile_spec, Seg};
use crate::request::{Request, Rejection};
use crate::extract::{Extractor, Source, Value, ValueV, SourceV, Mode, Ctx, ConfigError, resolve, resolve_spec, check_extractors, body_count, extractor_views, results_view, body_view, state_views, state_spec, state_lookup};
use crate::response::{Response, ResponseV, not_found, not_found_spec, method_not_allowed, method_not_allowed_spec, rejection_response, rejection_spec};

verus! {

/// A router, the extractors that each handler declares (`handlers[h]`
/// lists the arguments of handler `h`), and the shared state by key.
#[derive(Debug)]
pub struct App {
    pub router: Router,
    pub handlers: Vec<Vec<Extractor>>,
    pub states: Vec<(u64, Value)>,
}

/// Whether every state that the extractors `es` name is registered.
pub open spec fn states_cover(states: Seq<(u64, ValueV)>, es: Seq<(SourceV, Mode)>) -> bool {
    forall|i: int| 0 <= i < es.len() ==> match #[trigger] es[i].0 {
        SourceV::State(k) => state_spec(states, k) is Some,
        _ => true,
    }
}

fn check_states(states: &Vec<(u64, Value)>, es: &Vec<Extractor>) -> (r: bool)
    ensures
        r == states_cover(state_views(states@), extractor_views(es@)),
{
    let ghost ev = extractor_views(es@);
    let mut i: usize = 0;
    while i < es.len()
        invariant
            ev == extractor_views(es@),
            i <= es@.len(),
            forall|k: int| 0 <= k < i ==> match #[trigger] ev[k].0 {
                SourceV::State(key) => state_spec(state_views(states@), key) is Some,
                _ => true,
            },
        decreases es.len() - i,
    {
        assert(ev[i as int] == es@[i as int]@);
        if let Source::State(k) = &es[i].source {
            if state_lookup(states, *k).is_none() {
                assert(ev[i as int].0 == SourceV::State(*k));
                return false;
            }
        }
        i = i + 1;
    }
    true
}

/// Why a route could not be added.
#[derive(Clone, Copy, Debug, PartialEq, Eq, Structural)]
pub enum RouteError {
    /// The pattern text was refused.
    Pattern(PatternError),
    /// No handler has this number.
    UnknownHandler,
}

/// What to do with a request.
#[derive(Debug)]
pub enum Decision {
    /// Answer with this response; no handler runs.
    Respond(Response),
    /// Invoke handler `handler` with these arguments, in declaration order.
    Invoke { handler: usize, args: Vec<Result<Value, Rejection>> },
}

/// Whether the decision is to answer with a response whose form is `rv`.
pub open spec fn responds(d: Decision, rv: ResponseV) -> bool {
    match d {
        Decision::Respond(r) => r@ == rv,
        _ => false,
    }
}

/// Whether the decision is to invoke handler `h` with arguments of forms `vs`.
pub open spec fn invokes(d: Decision, h: usize, vs: Seq<Result<ValueV, Rejection>>) -> bool {
    match d {
        Decision::Invoke { handler, args } => handler == h && results_view(args@) == vs,
        _ => false,
    }
}

/// What a handler's extractors give, and the body left, on the best route `i`.
pub open spec fn resolve_on(app: App, req: Request, i: int) -> (
    Result<Seq<Result<ValueV, Rejection>>, Rejection>,
    Option<Seq<u8>>,
) {
    let c = Ctx {
        headers: crate::text::pair_views(req.headers@),
        query: req.query@,
        bindings: bindings_spec(app.router@[i].1, segments_spec(req.path@)),
        states: state_views(app.states@),
    };
    resolve_spec(c, body_view(req.body), extractor_views(app.handlers@[app.router@[i].2 as int]@))
}

impl App {
    /// Well formed: a well-formed table whose routes name declared handlers,
    /// each taking the body at most once.
    pub open spec fn wf(&self) -> bool {
        &&& wf_table(self.router@)
        &&& forall|i: int| 0 <= i < self.router@.len() ==> #[trigger] self.router@[i].2 < self.handlers@.len()
        &&& forall|h: int| 0 <= h < self.handlers@.len() ==> body_count(extractor_views(#[trigger] self.handlers@[h]@)) <= 1
        &&& forall|h: int| 0 <= h < self.handlers@.len() ==> states_cover(state_views(self.states@), extractor_views(#[trigger] self.handlers@[h]@))
    }

    /// An application without routes or handlers.
    pub fn new() -> (r: App)
        ensures
            r.wf(),
            r.router@ == Seq::<(Method, Seq<crate::pattern::Seg>, usize)>::empty(),
            r.handlers@.len() == 0,
    {
        App { router: Router::new(), handlers: Vec::new(), states: Vec::new() }
    }

    /// Registers shared state under `key`; a later registration of the same
    /// key takes its place.
    pub fn add_state(&mut self, key: u64, value: Value)
        requires
            old(self).wf(),
        ensures
            final(self).wf(),
            final(self).router == old(self).router,
            final(self).handlers == old(self).handlers,
            state_views(final(self).states@) == state_views(old(self).states@).push((key, value@)),
    {
        let ghost v = value@;
        self.states.push((key, value));
        proof {
            let old_s = state_views(old(self).states@);
            let new_s = state_views(self.states@);
            assert(new_s =~= old_s.push((key, v)));
            assert(new_s.drop_last() =~= old_s);
            assert forall|h: int| 0 <= h < self.handlers@.len() implies states_cover(new_s, extractor_views(#[trigger] self.handlers@[h]@)) by {
                let es = extractor_views(self.handlers@[h]@);
                assert(states_cover(old_s, es));
                assert forall|i: int| 0 <= i < es.len() implies match #[trigger] es[i].0 {
                    SourceV::State(k) => state_spec(new_s, k) is Some,
                    _ => true,
                } by {
                    if let SourceV::State(k) = es[i].0 {
                        assert(state_spec(old_s, k) is Some);
                    }
                }
            }
        }
    }

    /// Declares a handler by its extractors and gives its number. Refused
    /// where more than one extractor takes the body.
    pub fn add_handler(&mut self, es: Vec<Extractor>) -> (r: Result<usize, ConfigError>)
        requires
            old(self).wf(),
        ensures
            final(self).wf(),
            final(self).router@ == old(self).router@,
            final(self).states == old(self).states,
            r is Ok <==> body_count(extractor_views(es@)) <= 1 && states_cover(state_views(old(self).states@), extractor_views(es@)),
            r == Err::<usize, ConfigError>(ConfigError::BodyTakenTwice) <==> body_count(extractor_views(es@)) > 1,
            r matches Ok(h) ==> h == old(self).handlers@.len() && final(self).handlers@ == old(self).handlers@.push(es),
            r is Err ==> final(self).handlers@ == old(self).handlers@,
    {
        match check_extractors(&es) {
            Ok(()) => {
                if !check_states(&self.states, &es) {
                    return Err(ConfigError::StateNotRegistered);
                }
                let h = self.handlers.len();
                self.handlers.push(es);
                proof {
                    assert forall|i: int| 0 <= i < self.router@.len() implies #[trigger] self.router@[i].2 < self.handlers@.len() by {
                        assert(old(self).router@[i].2 < old(self).handlers@.len());
                    }
                    assert forall|g: int| 0 <= g < self.handlers@.len() implies body_count(extractor_views(#[trigger] self.handlers@[g]@)) <= 1 by {
                        if g < h {
                            assert(self.handlers@[g] == old(self).handlers@[g]);
                        }
                    }
                }
                Ok(h)
            },
            Err(e) => Err(e),
        }
    }

    /// Decides what a request gets: 404 where no route matches its path,
    /// 405 with the allowed methods where none takes its method, the
    /// converted rejection where a required extractor of the chosen handler
    /// rejects, and otherwise that handler with its arguments.
    pub fn decide(&self, req: &mut Request) -> (d: Decision)
        requires
            self.wf(),
        ensures
            !path_known(self.router@, old(req).path@) ==> responds(d, not_found_spec()),
            path_known(self.router@, old(req).path@) && !route_known(self.router@, old(req).method, old(req).path@)
                ==> exists|ms: Seq<Method>|
                ms.no_duplicates() && (forall|m: Method| ms.contains(m) <==> route_known(self.router@, m, old(req).path@))
                    && responds(d, method_not_allowed_spec(ms)),
            route_known(self.router@, old(req).method, old(req).path@) ==> exists|i: int|
                best_route(self.router@, old(req).method, old(req).path@, i) && body_view(final(req).body)
                    == resolve_on(*self, *old(req), i).1 && match resolve_on(*self, *old(req), i).0 {
                    Err(e) => responds(d, rejection_spec(e)),
                    Ok(vs) => invokes(d, self.router@[i].2, vs),
                },
    {
        match self.router.dispatch(req.method, req.path.as_slice()) {
            Outcome::NotFound => Decision::Respond(not_found()),
            Outcome::MethodNotAllowed { allow } => Decision::Respond(method_not_allowed(&allow)),
            Outcome::Matched { route, handler, bindings } => {
                assert(self.router@[route as int].2 < self.handlers@.len());
                match resolve(req, &bindings, &self.states, &self.handlers[handler]) {
                    Err(e) => Decision::Respond(rejection_response(e)),
                    Ok(args) => Decision::Invoke { handler, args },
                }
            },
        }
    }
}

impl App {
    /// Routes `method` and `pattern` to the declared handler `handler`; the
    /// result says whether a route was replaced.
    pub fn route(&mut self, method: Method, pattern: &[u8], handler: usize) -> (r: Result<bool, RouteError>)
        requires
            old(self).wf(),
        ensures
            final(self).wf(),
            final(self).handlers == old(self).handlers,
            handler >= old(self).handlers@.len() ==> r == Err::<bool, RouteError>(RouteError::UnknownHandler),
            r is Err ==> final(self).router@ == old(self).router@,
            handler < old(self).handlers@.len() ==> {
                &&& (r is Ok <==> compile_spec(pattern@) is Ok)
                &&& (r matches Err(RouteError::Pattern(e)) ==> compile_spec(pattern@) == Err::<Seq<Seg>, PatternError>(e))
                &&& (r is Ok ==> final(self).router@ == register_spec(old(self).router@, (method, compile_spec(pattern@)->Ok_0, handler)))
            },
    {
        if handler >= self.handlers.len() {
            return Err(RouteError::UnknownHandler);
        }
        let r = self.router.route(method, pattern, handler);
        proof {
            let t = old(self).router@;
            assert forall|i: int| 0 <= i < self.router@.len() implies #[trigger] self.router@[i].2 < self.handlers@.len() by {
                if r is Ok {
                    let nr = (method, compile_spec(pattern@)->Ok_0, handler);
                    match key_index(t, nr) {
                        Some(k) => {
                            if i != k {
                                assert(self.router@[i] == t[i]);
                            }
                        },
                        None => {
                            if i < t.len() {
                                assert(self.router@[i] == t[i]);
                            }
                        },
                    }
                }
            }
        }
        match r {
            Ok(b) => Ok(b),
            Err(e) => Err(RouteError::Pattern(e)),
        }
    }
}

} // verus!
