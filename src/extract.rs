//! Extractors: declared per route, resolved in order against a request,
//! each either required (a rejection stops the request) or wrapped (the
//! handler receives the rejection).
use vstd::prelude::*;
use crate::text::{lookup, lookup_spec, pair_views, copy_range};
use crate::pattern::Bindings;
use crate::response::{content_type, content_type_exec, application_json, application_json_exec};
use crate::request::{parse_query, Request, Rejection, header_spec, form_pairs, cookie_pairs_spec, cookie_header, required, text_result};

verus! {

/// An ASCII decimal digit.
pub open spec fn is_digit(b: u8) -> bool {
    48 <= b <= 57
}

/// Every byte is a decimal digit.
pub open spec fn all_digits(s: Seq<u8>) -> bool {
    forall|i: int| 0 <= i < s.len() ==> is_digit(#[trigger] s[i])
}

/// The number that a string of decimal digits denotes.
pub open spec fn dec_value(s: Seq<u8>) -> nat
    decreases s.len(),
{
    if s.len() == 0 {
        0
    } else {
        dec_value(s.drop_last()) * 10 + (s.last() - 48) as nat
    }
}

/// What reading `s` as a `u64` gives: its value, for a non-empty string of
/// digits whose value fits; otherwise a type mismatch.
pub open spec fn parse_u64_spec(s: Seq<u8>) -> Result<u64, Rejection> {
    if s.len() > 0 && all_digits(s) && dec_value(s) <= u64::MAX {
        Ok(dec_value(s) as u64)
    } else {
        Err(Rejection::TypeMismatch)
    }
}

proof fn lemma_dec_grows(s: Seq<u8>, i: int)
    requires
        0 <= i <= s.len(),
        all_digits(s),
    ensures
        dec_value(s.subrange(0, i)) <= dec_value(s),
    decreases s.len() - i,
{
    if i < s.len() {
        let t = s.subrange(0, i + 1);
        assert(t.drop_last() =~= s.subrange(0, i));
        assert(is_digit(s[i]));
        lemma_dec_grows(s, i + 1);
    } else {
        assert(s.subrange(0, i) =~= s);
    }
}

/// Reads decimal text as a `u64`.
pub fn parse_u64(s: &[u8]) -> (r: Result<u64, Rejection>)
    ensures
        r == parse_u64_spec(s@),
{
    if s.len() == 0 {
        return Err(Rejection::TypeMismatch);
    }
    let mut i: usize = 0;
    while i < s.len()
        invariant
            i <= s@.len(),
            forall|k: int| 0 <= k < i ==> is_digit(#[trigger] s@[k]),
        decreases s.len() - i,
    {
        if s[i] < 48 || s[i] > 57 {
            assert(!all_digits(s@));
            return Err(Rejection::TypeMismatch);
        }
        i = i + 1;
    }
    assert(all_digits(s@));
    let mut v: u64 = 0;
    let mut j: usize = 0;
    assert(s@.subrange(0, 0) =~= Seq::<u8>::empty());
    while j < s.len()
        invariant
            j <= s@.len(),
            all_digits(s@),
            v as nat == dec_value(s@.subrange(0, j as int)),
        decreases s.len() - j,
    {
        let d: u64 = (s[j] - 48) as u64;
        assert(s@.subrange(0, j as int + 1).drop_last() =~= s@.subrange(0, j as int));
        assert(is_digit(s@[j as int]));
        if v > (u64::MAX - d) / 10 {
            proof {
                assert(v * 10 + d > u64::MAX) by (nonlinear_arith)
                    requires v > (u64::MAX - d) / 10, d <= 9;
                lemma_dec_grows(s@, j as int + 1);
            }
            return Err(Rejection::TypeMismatch);
        }
        assert(v * 10 + d <= u64::MAX) by (nonlinear_arith)
            requires v <= (u64::MAX - d) / 10, d <= 9;
        v = v * 10 + d;
        j = j + 1;
    }
    assert(s@.subrange(0, j as int) =~= s@);
    Ok(v)
}

/// The content type of a URL-encoded form.
pub open spec fn form_type() -> Seq<u8> {
    seq![97u8, 112u8, 112u8, 108u8, 105u8, 99u8, 97u8, 116u8, 105u8, 111u8, 110u8, 47u8, 120u8, 45u8, 119u8, 119u8, 119u8, 45u8, 102u8, 111u8, 114u8, 109u8, 45u8, 117u8, 114u8, 108u8, 101u8, 110u8, 99u8, 111u8, 100u8, 101u8, 100u8]
}

fn form_type_exec() -> (r: Vec<u8>)
    ensures
        r@ == form_type(),
{
    let r: Vec<u8> = vec![97u8, 112u8, 112u8, 108u8, 105u8, 99u8, 97u8, 116u8, 105u8, 111u8, 110u8, 47u8, 120u8, 45u8, 119u8, 119u8, 119u8, 45u8, 102u8, 111u8, 114u8, 109u8, 45u8, 117u8, 114u8, 108u8, 101u8, 110u8, 99u8, 111u8, 100u8, 101u8, 100u8];
    assert(r@ =~= form_type());
    r
}

/// Where an extractor reads its value.
#[derive(Debug)]
pub enum Source {
    /// A header, by name compared without case.
    Header(Vec<u8>),
    /// A query key.
    Query(Vec<u8>),
    /// A cookie of the `Cookie` header.
    Cookie(Vec<u8>),
    /// A path binding, as text.
    PathText(Vec<u8>),
    /// A path binding, read as a `u64`.
    PathNumber(Vec<u8>),
    /// The whole body, as bytes; it can be taken once per request.
    Body,
    /// The shared state registered under this key.
    State(u64),
    /// A field of a URL-encoded form body; takes the body.
    FormField(Vec<u8>),
    /// A JSON body, as its bytes for the codec to decode; takes the body.
    Json,
}

pub ghost enum SourceV {
    Header(Seq<u8>),
    Query(Seq<u8>),
    Cookie(Seq<u8>),
    PathText(Seq<u8>),
    PathNumber(Seq<u8>),
    Body,
    State(u64),
    FormField(Seq<u8>),
    Json,
}

impl View for Source {
    type V = SourceV;

    open spec fn view(&self) -> SourceV {
        match self {
            Source::Header(n) => SourceV::Header(n@),
            Source::Query(n) => SourceV::Query(n@),
            Source::Cookie(n) => SourceV::Cookie(n@),
            Source::PathText(n) => SourceV::PathText(n@),
            Source::PathNumber(n) => SourceV::PathNumber(n@),
            Source::Body => SourceV::Body,
            Source::State(k) => SourceV::State(*k),
            Source::FormField(n) => SourceV::FormField(n@),
            Source::Json => SourceV::Json,
        }
    }
}

/// What happens when an extractor rejects.
#[derive(Clone, Copy, Debug, PartialEq, Eq, Structural)]
pub enum Mode {
    /// The request stops with the rejection; the handler does not run.
    Required,
    /// The handler receives the rejection in place of the value.
    Wrapped,
}

/// One declared handler argument.
#[derive(Debug)]
pub struct Extractor {
    pub source: Source,
    pub mode: Mode,
}

impl View for Extractor {
    type V = (SourceV, Mode);

    open spec fn view(&self) -> (SourceV, Mode) {
        (self.source@, self.mode)
    }
}

/// An extracted value.
#[derive(Debug)]
pub enum Value {
    Text(Vec<u8>),
    Number(u64),
}

pub ghost enum ValueV {
    Text(Seq<u8>),
    Number(u64),
}

impl View for Value {
    type V = ValueV;

    open spec fn view(&self) -> ValueV {
        match self {
            Value::Text(t) => ValueV::Text(t@),
            Value::Number(n) => ValueV::Number(*n),
        }
    }
}

/// What the extractors read of a request, besides its body.
pub ghost struct Ctx {
    pub headers: Seq<(Seq<u8>, Seq<u8>)>,
    pub query: Seq<u8>,
    pub bindings: Seq<(Seq<u8>, Seq<u8>)>,
    pub states: Seq<(u64, ValueV)>,
}

/// What the extractors read of `req`, its bindings `b` and the shared state.
pub open spec fn ctx_of(req: Request, b: Bindings, states: Seq<(u64, Value)>) -> Ctx {
    Ctx { headers: pair_views(req.headers@), query: req.query@, bindings: b@, states: state_views(states) }
}

/// The views of a list of keyed state values.
pub open spec fn state_views(v: Seq<(u64, Value)>) -> Seq<(u64, ValueV)> {
    v.map_values(|p: (u64, Value)| (p.0, p.1@))
}

/// The state registered under `k`; where a key repeats, the last one.
pub open spec fn state_spec(s: Seq<(u64, ValueV)>, k: u64) -> Option<ValueV>
    decreases s.len(),
{
    if s.len() == 0 {
        None
    } else if s.last().0 == k {
        Some(s.last().1)
    } else {
        state_spec(s.drop_last(), k)
    }
}

impl Value {
    /// A copy of this value.
    pub fn copy(&self) -> (r: Value)
        ensures
            r@ == self@,
    {
        match self {
            Value::Text(t) => {
                let c = copy_range(t.as_slice(), 0, t.len());
                assert(c@ =~= t@);
                Value::Text(c)
            },
            Value::Number(n) => Value::Number(*n),
        }
    }
}

/// Finds the state registered under `k`.
pub fn state_lookup(states: &Vec<(u64, Value)>, k: u64) -> (r: Option<&Value>)
    ensures
        r matches Some(v) ==> state_spec(state_views(states@), k) == Some(v@),
        r is None ==> state_spec(state_views(states@), k) is None,
{
    let mut i: usize = states.len();
    assert(state_views(states@).subrange(0, i as int) =~= state_views(states@));
    while i > 0
        invariant
            i <= states@.len(),
            state_spec(state_views(states@), k) == state_spec(state_views(states@).subrange(0, i as int), k),
        decreases i,
    {
        let ghost pre = state_views(states@).subrange(0, i as int);
        assert(pre.drop_last() == state_views(states@).subrange(0, i as int - 1));
        if states[i - 1].0 == k {
            return Some(&states[i - 1].1);
        }
        i = i - 1;
    }
    None
}

/// The view of a body that may have been taken.
pub open spec fn body_view(b: Option<Vec<u8>>) -> Option<Seq<u8>> {
    match b {
        Some(v) => Some(v@),
        None => None,
    }
}

/// A text result as an extracted value.
pub open spec fn as_text(r: Result<Seq<u8>, Rejection>) -> Result<ValueV, Rejection> {
    match r {
        Ok(t) => Ok(ValueV::Text(t)),
        Err(e) => Err(e),
    }
}

/// What one extractor gives, and the body left after it.
pub open spec fn extract_spec(c: Ctx, body: Option<Seq<u8>>, s: SourceV) -> (Result<ValueV, Rejection>, Option<Seq<u8>>) {
    match s {
        SourceV::Header(n) => (as_text(required(header_spec(c.headers, n))), body),
        SourceV::Query(k) => (as_text(required(lookup_spec(form_pairs(c.query), k))), body),
        SourceV::Cookie(n) => (
            match header_spec(c.headers, cookie_header()) {
                Some(h) => as_text(required(lookup_spec(cookie_pairs_spec(h), n))),
                None => Err(Rejection::MissingField),
            },
            body,
        ),
        SourceV::PathText(n) => (as_text(required(lookup_spec(c.bindings, n))), body),
        SourceV::PathNumber(n) => (
            match lookup_spec(c.bindings, n) {
                Some(t) => match parse_u64_spec(t) {
                    Ok(v) => Ok(ValueV::Number(v)),
                    Err(e) => Err(e),
                },
                None => Err(Rejection::MissingField),
            },
            body,
        ),
        SourceV::Body => match body {
            Some(b) => (Ok(ValueV::Text(b)), None),
            None => (Err(Rejection::BodyAlreadyConsumed), None),
        },
        SourceV::FormField(n) => match body {
            Some(b) => (
                if header_spec(c.headers, content_type()) == Some(form_type()) {
                    as_text(required(lookup_spec(form_pairs(b), n)))
                } else {
                    Err(Rejection::DecodeError)
                },
                None,
            ),
            None => (Err(Rejection::BodyAlreadyConsumed), None),
        },
        SourceV::Json => match body {
            Some(b) => (
                if header_spec(c.headers, content_type()) == Some(application_json()) {
                    Ok(ValueV::Text(b))
                } else {
                    Err(Rejection::DecodeError)
                },
                None,
            ),
            None => (Err(Rejection::BodyAlreadyConsumed), None),
        },
        SourceV::State(k) => (
            match state_spec(c.states, k) {
                Some(v) => Ok(v),
                None => Err(Rejection::StateNotRegistered),
            },
            body,
        ),
    }
}

/// The view of one extraction result.
pub open spec fn result_view(r: Result<Value, Rejection>) -> Result<ValueV, Rejection> {
    match r {
        Ok(v) => Ok(v@),
        Err(e) => Err(e),
    }
}

/// The views of extraction results.
pub open spec fn results_view(v: Seq<Result<Value, Rejection>>) -> Seq<Result<ValueV, Rejection>> {
    v.map_values(|r: Result<Value, Rejection>| result_view(r))
}

/// The views of declared extractors.
pub open spec fn extractor_views(v: Seq<Extractor>) -> Seq<(SourceV, Mode)> {
    v.map_values(|e: Extractor| e@)
}

/// Resolving the extractors `es` in order: each result is kept, until a
/// required one rejects, which stops the resolution with that rejection.
/// Also gives the body left after them.
pub open spec fn resolve_spec(c: Ctx, body: Option<Seq<u8>>, es: Seq<(SourceV, Mode)>) -> (
    Result<Seq<Result<ValueV, Rejection>>, Rejection>,
    Option<Seq<u8>>,
)
    decreases es.len(),
{
    if es.len() == 0 {
        (Ok(Seq::empty()), body)
    } else {
        let (prev, b) = resolve_spec(c, body, es.drop_last());
        match prev {
            Err(e) => (Err(e), b),
            Ok(vs) => {
                let (x, b2) = extract_spec(c, b, es.last().0);
                match x {
                    Err(e) => if es.last().1 == Mode::Required {
                        (Err(e), b2)
                    } else {
                        (Ok(vs.push(x)), b2)
                    },
                    Ok(_) => (Ok(vs.push(x)), b2),
                }
            },
        }
    }
}

fn text_value(r: Result<Vec<u8>, Rejection>) -> (o: Result<Value, Rejection>)
    ensures
        result_view(o) == as_text(text_result(r)),
{
    match r {
        Ok(t) => Ok(Value::Text(t)),
        Err(e) => Err(e),
    }
}

fn binding_text(b: &Bindings, n: &[u8]) -> (r: Result<Vec<u8>, Rejection>)
    ensures
        text_result(r) == required(lookup_spec(b@, n@)),
{
    match b.get(n) {
        Some(v) => {
            let c = copy_range(v.as_slice(), 0, v.len());
            assert(c@ =~= v@);
            Ok(c)
        },
        None => Err(Rejection::MissingField),
    }
}

/// Runs one extractor against the request.
pub fn extract(req: &mut Request, b: &Bindings, states: &Vec<(u64, Value)>, s: &Source) -> (r: Result<Value, Rejection>)
    ensures
        (result_view(r), body_view(final(req).body)) == extract_spec(
            ctx_of(*old(req), *b, states@),
            body_view(old(req).body),
            s@,
        ),
        final(req).headers == old(req).headers,
        final(req).query == old(req).query,
        final(req).method == old(req).method,
        final(req).path == old(req).path,
{
    match s {
        Source::Header(n) => text_value(req.header(n.as_slice())),
        Source::Query(k) => text_value(req.query_param(k.as_slice())),
        Source::Cookie(n) => text_value(req.cookie(n.as_slice())),
        Source::PathText(n) => text_value(binding_text(b, n.as_slice())),
        Source::PathNumber(n) => match b.get(n.as_slice()) {
            Some(t) => match parse_u64(t.as_slice()) {
                Ok(v) => Ok(Value::Number(v)),
                Err(e) => Err(e),
            },
            None => Err(Rejection::MissingField),
        },
        Source::Body => match req.take_body() {
            Ok(t) => Ok(Value::Text(t)),
            Err(e) => Err(e),
        },
        Source::FormField(n) => match req.take_body() {
            Ok(t) => {
                let ct = content_type_exec();
                let is_form = match req.header(ct.as_slice()) {
                    Ok(v) => crate::text::bytes_eq(v.as_slice(), form_type_exec().as_slice()),
                    Err(_) => false,
                };
                if is_form {
                    let ps = parse_query(t.as_slice());
                    text_value(match lookup(&ps, n.as_slice()) {
                        Some(v) => {
                            let c = copy_range(v.as_slice(), 0, v.len());
                            assert(c@ =~= v@);
                            Ok(c)
                        },
                        None => Err(Rejection::MissingField),
                    })
                } else {
                    Err(Rejection::DecodeError)
                }
            },
            Err(e) => Err(e),
        },
        Source::Json => match req.take_body() {
            Ok(t) => {
                let ct = content_type_exec();
                let is_json = match req.header(ct.as_slice()) {
                    Ok(v) => crate::text::bytes_eq(v.as_slice(), application_json_exec().as_slice()),
                    Err(_) => false,
                };
                if is_json {
                    Ok(Value::Text(t))
                } else {
                    Err(Rejection::DecodeError)
                }
            },
            Err(e) => Err(e),
        },
        Source::State(k) => match state_lookup(states, *k) {
            Some(v) => Ok(v.copy()),
            None => Err(Rejection::StateNotRegistered),
        },
    }
}

/// Resolves a route's extractors in order. A required extractor that
/// rejects stops the request with its rejection; a wrapped one hands its
/// rejection on in place of the value.
pub fn resolve(req: &mut Request, b: &Bindings, states: &Vec<(u64, Value)>, es: &Vec<Extractor>) -> (r: Result<Vec<Result<Value, Rejection>>, Rejection>)
    ensures
        resolve_spec(ctx_of(*old(req), *b, states@), body_view(old(req).body), extractor_views(es@)) == (
            match r {
                Ok(vs) => Ok(results_view(vs@)),
                Err(e) => Err(e),
            },
            body_view(final(req).body),
        ),
        final(req).headers == old(req).headers,
        final(req).query == old(req).query,
        final(req).method == old(req).method,
        final(req).path == old(req).path,
{
    let ghost c = ctx_of(*req, *b, states@);
    let ghost ev = extractor_views(es@);
    let mut out: Vec<Result<Value, Rejection>> = Vec::new();
    let mut i: usize = 0;
    assert(ev.subrange(0, 0) =~= Seq::<(SourceV, Mode)>::empty());
    assert(results_view(out@) =~= Seq::<Result<ValueV, Rejection>>::empty());
    while i < es.len()
        invariant
            c == ctx_of(*req, *b, states@),
            ev == extractor_views(es@),
            i <= es@.len(),
            req.headers == old(req).headers,
            req.query == old(req).query,
            req.method == old(req).method,
            req.path == old(req).path,
            resolve_spec(c, body_view(old(req).body), ev.subrange(0, i as int)) == (
                Ok::<Seq<Result<ValueV, Rejection>>, Rejection>(results_view(out@)),
                body_view(req.body),
            ),
        decreases es.len() - i,
    {
        assert(ev.subrange(0, i as int + 1).drop_last() =~= ev.subrange(0, i as int));
        assert(ev[i as int] == es@[i as int]@);
        let x = extract(req, b, states, &es[i].source);
        if let Err(e) = x {
            if es[i].mode == Mode::Required {
                proof {
                    lemma_resolve_stopped(c, body_view(old(req).body), ev, i as int + 1);
                }
                return Err(e);
            }
        }
        let ghost before = out@;
        let ghost xv = result_view(x);
        out.push(x);
        assert(results_view(out@) =~= results_view(before).push(xv));
        i = i + 1;
    }
    assert(ev.subrange(0, i as int) =~= ev);
    Ok(out)
}

proof fn lemma_resolve_stopped(c: Ctx, body: Option<Seq<u8>>, es: Seq<(SourceV, Mode)>, i: int)
    requires
        0 <= i <= es.len(),
        resolve_spec(c, body, es.subrange(0, i)).0 is Err,
    ensures
        resolve_spec(c, body, es) == resolve_spec(c, body, es.subrange(0, i)),
    decreases es.len() - i,
{
    if i < es.len() {
        assert(es.subrange(0, i + 1).drop_last() =~= es.subrange(0, i));
        lemma_resolve_stopped(c, body, es, i + 1);
    } else {
        assert(es.subrange(0, i) =~= es);
    }
}

/// Whether an extractor takes the body.
pub open spec fn takes_body(s: SourceV) -> bool {
    s is Body || s is FormField || s is Json
}

/// How many extractors take the body.
pub open spec fn body_count(es: Seq<(SourceV, Mode)>) -> nat
    decreases es.len(),
{
    if es.len() == 0 {
        0
    } else {
        body_count(es.drop_last()) + if takes_body(es.last().0) { 1nat } else { 0nat }
    }
}

/// A route's extractors were declared in a way that cannot work.
#[derive(Clone, Copy, Debug, PartialEq, Eq, Structural)]
pub enum ConfigError {
    /// More than one extractor takes the body.
    BodyTakenTwice,
    /// An extractor names shared state that was not registered first.
    StateNotRegistered,
}

/// Checks, when a route is declared, that at most one extractor takes the body.
pub fn check_extractors(es: &Vec<Extractor>) -> (r: Result<(), ConfigError>)
    ensures
        r is Ok <==> body_count(extractor_views(es@)) <= 1,
        r matches Err(e) ==> e == ConfigError::BodyTakenTwice,
{
    let ghost ev = extractor_views(es@);
    let mut n: usize = 0;
    let mut i: usize = 0;
    assert(ev.subrange(0, 0) =~= Seq::<(SourceV, Mode)>::empty());
    while i < es.len()
        invariant
            ev == extractor_views(es@),
            i <= es@.len(),
            n <= 1,
            n as nat == body_count(ev.subrange(0, i as int)),
        decreases es.len() - i,
    {
        assert(ev.subrange(0, i as int + 1).drop_last() =~= ev.subrange(0, i as int));
        assert(ev[i as int] == es@[i as int]@);
        if matches!(es[i].source, Source::Body | Source::FormField(_) | Source::Json) {
            if n == 1 {
                proof {
                    lemma_body_count_grows(ev, i as int + 1);
                }
                return Err(ConfigError::BodyTakenTwice);
            }
            n = n + 1;
        }
        i = i + 1;
    }
    assert(ev.subrange(0, i as int) =~= ev);
    Ok(())
}

proof fn lemma_body_count_grows(es: Seq<(SourceV, Mode)>, i: int)
    requires
        0 <= i <= es.len(),
    ensures
        body_count(es.subrange(0, i)) <= body_count(es),
    decreases es.len() - i,
{
    if i < es.len() {
        assert(es.subrange(0, i + 1).drop_last() =~= es.subrange(0, i));
        lemma_body_count_grows(es, i + 1);
    } else {
        assert(es.subrange(0, i) =~= es);
    }
}

/// The body can be taken once: a second extractor that takes it is
/// rejected, whatever the first one got.
pub proof fn lemma_body_taken_once(c: Ctx, body: Option<Seq<u8>>)
    ensures
        extract_spec(c, extract_spec(c, body, SourceV::Body).1, SourceV::Body).0 == Err::<ValueV, Rejection>(
            Rejection::BodyAlreadyConsumed,
        ),
{
}

proof fn lemma_resolve_prefix(c: Ctx, body: Option<Seq<u8>>, es: Seq<(SourceV, Mode)>, j: int)
    requires
        0 <= j <= es.len(),
        resolve_spec(c, body, es).0 is Ok,
    ensures
        resolve_spec(c, body, es.subrange(0, j)).0 is Ok,
        resolve_spec(c, body, es).0->Ok_0.len() == es.len(),
        resolve_spec(c, body, es.subrange(0, j)).0->Ok_0 == resolve_spec(c, body, es).0->Ok_0.subrange(0, j),
    decreases es.len(),
{
    if es.len() == 0 {
        assert(es.subrange(0, j) =~= es);
    } else {
        let p = es.drop_last();
        let ws = resolve_spec(c, body, es).0->Ok_0;
        assert(resolve_spec(c, body, p).0 is Ok);
        lemma_resolve_prefix(c, body, p, if j < es.len() { j } else { p.len() as int });
        if j == es.len() {
            assert(es.subrange(0, j) =~= es);
            assert(ws.subrange(0, j) =~= ws);
        } else {
            assert(es.subrange(0, j) =~= p.subrange(0, j));
            assert(ws.subrange(0, j) =~= resolve_spec(c, body, p).0->Ok_0.subrange(0, j));
        }
    }
}

/// A required extractor that rejects, reached with every earlier one
/// resolved, stops the whole resolution with its rejection: the handler
/// does not run, whatever extractors follow.
pub proof fn lemma_required_rejection_stops(
    c: Ctx,
    body: Option<Seq<u8>>,
    es: Seq<(SourceV, Mode)>,
    i: int,
    vs: Seq<Result<ValueV, Rejection>>,
    b: Option<Seq<u8>>,
)
    requires
        0 <= i < es.len(),
        resolve_spec(c, body, es.subrange(0, i)) == (Ok::<Seq<Result<ValueV, Rejection>>, Rejection>(vs), b),
        es[i].1 == Mode::Required,
        extract_spec(c, b, es[i].0).0 is Err,
    ensures
        resolve_spec(c, body, es).0 == Err::<Seq<Result<ValueV, Rejection>>, Rejection>(
            extract_spec(c, b, es[i].0).0->Err_0,
        ),
{
    assert(es.subrange(0, i + 1).drop_last() =~= es.subrange(0, i));
    lemma_resolve_stopped(c, body, es, i + 1);
}

/// A wrapped extractor that rejects, reached with every earlier one
/// resolved, does not stop the resolution, and the handler receives the
/// rejection in its place.
pub proof fn lemma_wrapped_rejection_kept(
    c: Ctx,
    body: Option<Seq<u8>>,
    es: Seq<(SourceV, Mode)>,
    i: int,
    vs: Seq<Result<ValueV, Rejection>>,
    b: Option<Seq<u8>>,
)
    requires
        0 <= i < es.len(),
        resolve_spec(c, body, es.subrange(0, i)) == (Ok::<Seq<Result<ValueV, Rejection>>, Rejection>(vs), b),
        es[i].1 == Mode::Wrapped,
        extract_spec(c, b, es[i].0).0 is Err,
    ensures
        resolve_spec(c, body, es.subrange(0, i + 1)).0 == Ok::<Seq<Result<ValueV, Rejection>>, Rejection>(
            vs.push(extract_spec(c, b, es[i].0).0),
        ),
        resolve_spec(c, body, es).0 is Ok ==> resolve_spec(c, body, es).0->Ok_0[i] == extract_spec(
            c,
            b,
            es[i].0,
        ).0,
{
    assert(es.subrange(0, i + 1).drop_last() =~= es.subrange(0, i));
    if resolve_spec(c, body, es).0 is Ok {
        lemma_resolve_prefix(c, body, es, i + 1);
        lemma_resolve_prefix(c, body, es.subrange(0, i), 0);
        let ws = resolve_spec(c, body, es).0->Ok_0;
        assert(ws.subrange(0, i + 1)[i] == ws[i]);
        assert(vs.push(extract_spec(c, b, es[i].0).0)[i] == extract_spec(c, b, es[i].0).0);
    }
}

/// A header that the request lacks gives a missing-field rejection, with
/// the body left as it was.
pub proof fn lemma_missing_header(c: Ctx, body: Option<Seq<u8>>, name: Seq<u8>)
    requires
        header_spec(c.headers, name) is None,
    ensures
        extract_spec(c, body, SourceV::Header(name)) == (Err::<ValueV, Rejection>(Rejection::MissingField), body),
{
}

/// A query key that the query string lacks gives a missing-field rejection,
/// with the body left as it was.
pub proof fn lemma_missing_query_key(c: Ctx, body: Option<Seq<u8>>, key: Seq<u8>)
    requires
        lookup_spec(form_pairs(c.query), key) is None,
    ensures
        extract_spec(c, body, SourceV::Query(key)) == (Err::<ValueV, Rejection>(Rejection::MissingField), body),
{
}

proof fn lemma_body_gone(c: Ctx, body: Option<Seq<u8>>, es: Seq<(SourceV, Mode)>, i: int, k: int)
    requires
        0 <= i < k <= es.len(),
        takes_body(es[i].0),
        resolve_spec(c, body, es.subrange(0, k)).0 is Ok,
    ensures
        resolve_spec(c, body, es.subrange(0, k)).1 is None,
    decreases k,
{
    assert(es.subrange(0, k).drop_last() =~= es.subrange(0, k - 1));
    if k > i + 1 {
        lemma_body_gone(c, body, es, i, k - 1);
    }
}

proof fn lemma_body_count_one(es: Seq<(SourceV, Mode)>, i: int)
    requires
        0 <= i < es.len(),
        takes_body(es[i].0),
    ensures
        body_count(es) >= 1,
    decreases es.len(),
{
    if i < es.len() - 1 {
        lemma_body_count_one(es.drop_last(), i);
    }
}

proof fn lemma_body_count_two(es: Seq<(SourceV, Mode)>, i: int, j: int)
    requires
        0 <= i < j < es.len(),
        takes_body(es[i].0),
        takes_body(es[j].0),
    ensures
        body_count(es) >= 2,
    decreases es.len(),
{
    if j == es.len() - 1 {
        lemma_body_count_one(es.drop_last(), i);
    } else {
        lemma_body_count_two(es.drop_last(), i, j);
    }
}

/// The body can be taken once. Two extractors that take it are refused when
/// the handler is declared; and where a resolution reaches the second one
/// anyway, it is rejected as already consumed.
pub proof fn lemma_second_body_rejected(c: Ctx, body: Option<Seq<u8>>, es: Seq<(SourceV, Mode)>, i: int, j: int)
    requires
        0 <= i < j < es.len(),
        takes_body(es[i].0),
        takes_body(es[j].0),
    ensures
        body_count(es) > 1,
        resolve_spec(c, body, es).0 is Ok ==> resolve_spec(c, body, es).0->Ok_0[j] == Err::<ValueV, Rejection>(
            Rejection::BodyAlreadyConsumed,
        ),
        extract_spec(c, extract_spec(c, body, es[i].0).1, es[j].0).0 == Err::<ValueV, Rejection>(
            Rejection::BodyAlreadyConsumed,
        ),
{
    lemma_body_count_two(es, i, j);
    if resolve_spec(c, body, es).0 is Ok {
        let ws = resolve_spec(c, body, es).0->Ok_0;
        lemma_resolve_prefix(c, body, es, j);
        lemma_resolve_prefix(c, body, es, j + 1);
        lemma_body_gone(c, body, es, i, j);
        assert(es.subrange(0, j + 1).drop_last() =~= es.subrange(0, j));
        assert(ws.subrange(0, j + 1)[j] == ws[j]);
    }
}

} // verus!
