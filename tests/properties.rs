use route_engine::engine::{App, Decision, RouteError};
use route_engine::extract::{check_extractors, parse_u64, ConfigError, Extractor, Mode, Source, Value};
use route_engine::pattern::{compile, path_segments, PatternError};
use route_engine::pipeline::{Event, Layer, Pipeline};
use route_engine::request::{parse_cookies, parse_query, Rejection, Request};
use route_engine::response::{method_not_allowed, not_found, rejection_response, unhandled_error, AppError, Response};
use route_engine::router::{Method, Outcome, Router};
use std::cell::Cell;

fn text(v: &[u8]) -> String {
    String::from_utf8(v.to_vec()).unwrap()
}

fn header_value(r: &Response, name: &str) -> Option<String> {
    r.headers.iter().rev().find(|(n, _)| n.eq_ignore_ascii_case(name.as_bytes())).map(|(_, v)| text(v))
}

fn matched_handler(o: &Outcome) -> Option<usize> {
    match o {
        Outcome::Matched { handler, .. } => Some(*handler),
        _ => None,
    }
}

#[test]
fn dispatch_reaches_each_registered_route() {
    let mut r = Router::new();
    r.route(Method::Get, b"/users", 1).unwrap();
    r.route(Method::Post, b"/users", 2).unwrap();
    r.route(Method::Get, b"/users/{id}", 3).unwrap();
    r.route(Method::Delete, b"/users/{id}", 4).unwrap();
    assert_eq!(matched_handler(&r.dispatch(Method::Get, b"/users")), Some(1));
    assert_eq!(matched_handler(&r.dispatch(Method::Post, b"/users")), Some(2));
    assert_eq!(matched_handler(&r.dispatch(Method::Get, b"/users/7")), Some(3));
    assert_eq!(matched_handler(&r.dispatch(Method::Delete, b"/users/7")), Some(4));
}

#[test]
fn handler_invoked_exactly_once() {
    let mut app = App::new();
    let h = app.add_handler(vec![]).unwrap();
    app.route(Method::Get, b"/count", h).unwrap();
    let calls = Cell::new(0);
    let mut req = Request::new(Method::Get, b"/count");
    if let Decision::Invoke { handler, .. } = app.decide(&mut req) {
        assert_eq!(handler, h);
        calls.set(calls.get() + 1);
    }
    assert_eq!(calls.get(), 1);
}

#[test]
fn wrong_method_gives_405_with_allow() {
    let mut r = Router::new();
    r.route(Method::Get, b"/items", 0).unwrap();
    r.route(Method::Put, b"/items", 1).unwrap();
    match r.dispatch(Method::Post, b"/items") {
        Outcome::MethodNotAllowed { allow } => {
            assert_eq!(allow, vec![Method::Get, Method::Put]);
            let resp = method_not_allowed(&allow);
            assert_eq!(resp.status, 405);
            assert_eq!(header_value(&resp, "allow").as_deref(), Some("GET,PUT"));
        },
        other => panic!("expected 405, got {:?}", other),
    }
}

#[test]
fn allow_lists_each_method_once() {
    let mut r = Router::new();
    r.route(Method::Get, b"/a/{x}", 0).unwrap();
    r.route(Method::Get, b"/a/b", 1).unwrap();
    match r.dispatch(Method::Post, b"/a/b") {
        Outcome::MethodNotAllowed { allow } => assert_eq!(allow, vec![Method::Get]),
        other => panic!("expected 405, got {:?}", other),
    }
}

#[test]
fn unknown_path_gives_404() {
    let mut r = Router::new();
    r.route(Method::Get, b"/known", 0).unwrap();
    assert!(matches!(r.dispatch(Method::Get, b"/unknown"), Outcome::NotFound));
    assert!(matches!(r.dispatch(Method::Get, b"no-slash"), Outcome::NotFound));
    assert!(matches!(Router::new().dispatch(Method::Get, b"/"), Outcome::NotFound));
    let resp = not_found();
    assert_eq!(resp.status, 404);
    assert!(resp.body.is_empty());
}

#[test]
fn bindings_of_two_captures() {
    let p = compile(b"/products/{id}/categories/{id_category}").unwrap();
    let segs = path_segments(b"/products/1/categories/2").unwrap();
    let b = p.match_segments(&segs).unwrap();
    assert_eq!(b.pairs.len(), 2);
    assert_eq!(b.get(b"id").map(|v| text(v)).as_deref(), Some("1"));
    assert_eq!(b.get(b"id_category").map(|v| text(v)).as_deref(), Some("2"));
    assert!(b.get(b"other").is_none());
}

#[test]
fn query_as_mapping() {
    let pairs = parse_query(b"name=Eko");
    assert_eq!(pairs, vec![(b"name".to_vec(), b"Eko".to_vec())]);
    let req = Request::new(Method::Get, b"/get?name=Eko");
    assert_eq!(req.query_param(b"name"), Ok(b"Eko".to_vec()));
}

#[test]
fn query_duplicate_key_last_wins() {
    let req = Request::new(Method::Get, b"/get?a=1&&b&a=2");
    assert_eq!(req.query_param(b"a"), Ok(b"2".to_vec()));
    assert_eq!(req.query_param(b"b"), Ok(vec![]));
    assert_eq!(parse_query(b"a=1&&b&a=2").len(), 3);
    assert_eq!(parse_query(b"").len(), 0);
}

#[test]
fn missing_query_key_gives_400() {
    let mut app = App::new();
    let h = app.add_handler(vec![Extractor { source: Source::Query(b"name".to_vec()), mode: Mode::Required }]).unwrap();
    app.route(Method::Get, b"/get", h).unwrap();
    let mut req = Request::new(Method::Get, b"/get?other=1");
    match app.decide(&mut req) {
        Decision::Respond(r) => {
            assert_eq!(r.status, 400);
            assert_eq!(text(&r.body), "Missing field");
        },
        Decision::Invoke { .. } => panic!("handler must not run"),
    }
}

fn probe_pipeline(n: usize) -> Pipeline {
    let mut p = Pipeline::new();
    for _ in 0..n {
        p.install(Layer::Observe);
    }
    p
}

#[test]
fn layers_nest_in_reverse_installation_order() {
    let p = probe_pipeline(3);
    let (_, trace) = p.run(Request::new(Method::Get, b"/"), |_q: Request| not_found());
    assert_eq!(
        trace,
        vec![
            Event::Enter(2),
            Event::Enter(1),
            Event::Enter(0),
            Event::Handler,
            Event::Exit(0),
            Event::Exit(1),
            Event::Exit(2),
        ]
    );
}

#[test]
fn response_headers_added_inside_out() {
    let mut p = Pipeline::new();
    p.install(Layer::SetResponseHeader(b"x-first".to_vec(), b"1".to_vec()));
    p.install(Layer::SetResponseHeader(b"x-second".to_vec(), b"2".to_vec()));
    let (r, _) = p.run(Request::new(Method::Get, b"/"), |_q: Request| not_found());
    assert_eq!(r.status, 404);
    assert_eq!(r.headers, vec![(b"x-first".to_vec(), b"1".to_vec()), (b"x-second".to_vec(), b"2".to_vec())]);
}

#[test]
fn short_circuit_skips_inner_layers_and_router() {
    let inner_calls = Cell::new(0);
    let mut p = Pipeline::new();
    p.install(Layer::Observe);
    p.install(Layer::ShortCircuit(401, b"denied".to_vec()));
    p.install(Layer::Observe);
    let (r, trace) = p.run(Request::new(Method::Get, b"/"), |_q: Request| {
        inner_calls.set(inner_calls.get() + 1);
        not_found()
    });
    assert_eq!(inner_calls.get(), 0);
    assert_eq!(r.status, 401);
    assert_eq!(text(&r.body), "denied");
    assert_eq!(trace, vec![Event::Enter(2), Event::Enter(1), Event::Exit(1), Event::Exit(2)]);
    assert!(!trace.contains(&Event::Enter(0)));
}

#[test]
fn request_header_layer_reaches_handler() {
    let mut p = Pipeline::new();
    p.install(Layer::SetRequestHeader(b"X-Request-Id".to_vec(), b"12345".to_vec()));
    let (r, _) = p.run(Request::new(Method::Get, b"/"), |q: Request| {
        let mut resp = not_found();
        resp.body = q.header(b"x-request-id").unwrap();
        resp
    });
    assert_eq!(text(&r.body), "12345");
}

#[test]
fn wrapped_rejection_reaches_handler() {
    let mut app = App::new();
    let h = app.add_handler(vec![Extractor { source: Source::Header(b"token".to_vec()), mode: Mode::Wrapped }]).unwrap();
    app.route(Method::Get, b"/w", h).unwrap();
    let mut req = Request::new(Method::Get, b"/w");
    match app.decide(&mut req) {
        Decision::Invoke { args, .. } => assert_eq!(args.len(), 1),
        Decision::Respond(_) => panic!("wrapped rejection must reach the handler"),
    }
    let mut req = Request::new(Method::Get, b"/w");
    if let Decision::Invoke { args, .. } = app.decide(&mut req) {
        assert!(matches!(args[0], Err(Rejection::MissingField)));
    }
}

#[test]
fn required_missing_header_gives_400() {
    let mut app = App::new();
    let h = app.add_handler(vec![Extractor { source: Source::Header(b"token".to_vec()), mode: Mode::Required }]).unwrap();
    app.route(Method::Get, b"/r", h).unwrap();
    let mut req = Request::new(Method::Get, b"/r");
    match app.decide(&mut req) {
        Decision::Respond(r) => assert_eq!(r.status, 400),
        Decision::Invoke { .. } => panic!("handler must not run"),
    }
}

#[test]
fn body_taken_once() {
    let mut req = Request::new(Method::Post, b"/b");
    req.set_body(b"payload".to_vec());
    assert_eq!(req.take_body(), Ok(b"payload".to_vec()));
    assert_eq!(req.take_body(), Err(Rejection::BodyAlreadyConsumed));
}

#[test]
fn two_body_extractors_refused_at_registration() {
    let es = vec![
        Extractor { source: Source::Body, mode: Mode::Required },
        Extractor { source: Source::Body, mode: Mode::Wrapped },
    ];
    assert_eq!(check_extractors(&es), Err(ConfigError::BodyTakenTwice));
    let mut app = App::new();
    assert_eq!(app.add_handler(es), Err(ConfigError::BodyTakenTwice));
    assert_eq!(app.handlers.len(), 0);
}

#[test]
fn literal_beats_capture_regardless_of_order() {
    let mut r = Router::new();
    r.route(Method::Get, b"/products/{id}", 1).unwrap();
    r.route(Method::Get, b"/products/new", 2).unwrap();
    assert_eq!(matched_handler(&r.dispatch(Method::Get, b"/products/new")), Some(2));
    assert_eq!(matched_handler(&r.dispatch(Method::Get, b"/products/5")), Some(1));
    let mut s = Router::new();
    s.route(Method::Get, b"/products/new", 2).unwrap();
    s.route(Method::Get, b"/products/{id}", 1).unwrap();
    assert_eq!(matched_handler(&s.dispatch(Method::Get, b"/products/new")), Some(2));
}

#[test]
fn capture_beats_wildcard() {
    let mut r = Router::new();
    r.route(Method::Get, b"/files/{*rest}", 1).unwrap();
    r.route(Method::Get, b"/files/{name}", 2).unwrap();
    assert_eq!(matched_handler(&r.dispatch(Method::Get, b"/files/a")), Some(2));
    match r.dispatch(Method::Get, b"/files/a/b/c") {
        Outcome::Matched { handler, bindings, .. } => {
            assert_eq!(handler, 1);
            assert_eq!(bindings.get(b"rest").map(|v| text(v)).as_deref(), Some("a/b/c"));
        },
        other => panic!("expected a match, got {:?}", other),
    }
}

#[test]
fn last_registration_wins() {
    let mut r = Router::new();
    assert_eq!(r.route(Method::Get, b"/x/{a}", 1), Ok(false));
    assert_eq!(r.route(Method::Get, b"/x/{b}", 2), Ok(true));
    assert_eq!(r.routes.len(), 1);
    assert_eq!(matched_handler(&r.dispatch(Method::Get, b"/x/1")), Some(2));
}

#[test]
fn trailing_slash_stripped_once() {
    let mut r = Router::new();
    r.route(Method::Get, b"/a", 1).unwrap();
    assert_eq!(matched_handler(&r.dispatch(Method::Get, b"/a/")), Some(1));
    assert!(matches!(r.dispatch(Method::Get, b"/a//"), Outcome::NotFound));
    assert_eq!(path_segments(b"/").unwrap(), vec![Vec::<u8>::new()]);
}

#[test]
fn pattern_errors() {
    assert_eq!(compile(b"no-slash").err(), Some(PatternError::MissingLeadingSlash));
    assert_eq!(compile(b"/a/{}").err(), Some(PatternError::MalformedSegment));
    assert_eq!(compile(b"/a/b{c}").err(), Some(PatternError::MalformedSegment));
    assert_eq!(compile(b"/{*rest}/x").err(), Some(PatternError::WildcardNotLast));
    assert_eq!(compile(b"/{id}/{id}").err(), Some(PatternError::DuplicateName));
    assert!(compile(b"/{id}/x/{*rest}").is_ok());
}

#[test]
fn nest_refuses_repeated_name() {
    let mut sub = Router::new();
    sub.route(Method::Get, b"/{id}", 0).unwrap();
    let prefix = compile(b"/users/{id}").unwrap();
    let mut r = Router::new();
    assert_eq!(r.nest(&prefix, &sub), Err(PatternError::DuplicateName));
    assert_eq!(r.routes.len(), 0);
}

#[test]
fn nest_of_root_route_is_prefix() {
    let mut sub = Router::new();
    sub.route(Method::Get, b"/", 5).unwrap();
    let prefix = compile(b"/api").unwrap();
    let mut r = Router::new();
    r.nest(&prefix, &sub).unwrap();
    assert_eq!(matched_handler(&r.dispatch(Method::Get, b"/api")), Some(5));
}

#[test]
fn unknown_handler_refused() {
    let mut app = App::new();
    assert_eq!(app.route(Method::Get, b"/x", 0), Err(RouteError::UnknownHandler));
    app.add_handler(vec![]).unwrap();
    assert_eq!(app.route(Method::Get, b"x", 0), Err(RouteError::Pattern(PatternError::MissingLeadingSlash)));
}

#[test]
fn path_number_parse() {
    assert_eq!(parse_u64(b"42"), Ok(42));
    assert_eq!(parse_u64(b"18446744073709551615"), Ok(u64::MAX));
    assert_eq!(parse_u64(b"18446744073709551616"), Err(Rejection::TypeMismatch));
    assert_eq!(parse_u64(b""), Err(Rejection::TypeMismatch));
    assert_eq!(parse_u64(b"4x"), Err(Rejection::TypeMismatch));
    let mut app = App::new();
    let h = app.add_handler(vec![Extractor { source: Source::PathNumber(b"id".to_vec()), mode: Mode::Required }]).unwrap();
    app.route(Method::Get, b"/n/{id}", h).unwrap();
    let mut req = Request::new(Method::Get, b"/n/17");
    match app.decide(&mut req) {
        Decision::Invoke { args, .. } => assert!(matches!(args[0], Ok(Value::Number(17)))),
        other => panic!("expected a handler, got {:?}", other),
    }
    let mut req = Request::new(Method::Get, b"/n/abc");
    match app.decide(&mut req) {
        Decision::Respond(r) => {
            assert_eq!(r.status, 400);
            assert_eq!(text(&r.body), "Type mismatch");
        },
        other => panic!("expected 400, got {:?}", other),
    }
}

#[test]
fn cookie_parsing() {
    let pairs = parse_cookies(b"a=1;  b=2; flag");
    assert_eq!(
        pairs,
        vec![(b"a".to_vec(), b"1".to_vec()), (b"b".to_vec(), b"2".to_vec()), (b"flag".to_vec(), vec![])]
    );
    let mut req = Request::new(Method::Get, b"/");
    assert_eq!(req.cookie(b"a"), Err(Rejection::MissingField));
    req.add_header(b"COOKIE", b"a=1; b=2");
    assert_eq!(req.cookie(b"b"), Ok(b"2".to_vec()));
    assert_eq!(req.cookie(b"c"), Err(Rejection::MissingField));
}

#[test]
fn header_names_compare_without_case() {
    let mut req = Request::new(Method::Get, b"/");
    req.add_header(b"X-Owner", b"Ekotaro");
    assert_eq!(req.header(b"x-owner"), Ok(b"Ekotaro".to_vec()));
    assert_eq!(req.header(b"X-OWNER"), Ok(b"Ekotaro".to_vec()));
    assert_eq!(req.header(b"missing"), Err(Rejection::MissingField));
}

#[test]
fn rejection_and_error_statuses() {
    assert_eq!(rejection_response(Rejection::MissingField).status, 400);
    assert_eq!(rejection_response(Rejection::TypeMismatch).status, 400);
    let d = rejection_response(Rejection::DecodeError);
    assert_eq!(d.status, 400);
    assert_eq!(text(&d.body), "Failed to decode body");
    assert_eq!(rejection_response(Rejection::BodyAlreadyConsumed).status, 500);
    let u = unhandled_error();
    assert_eq!(u.status, 500);
    assert_eq!(text(&u.body), "Internal Server Error");
    assert_eq!(header_value(&u, "content-type").as_deref(), Some("text/plain; charset=utf-8"));
}

#[test]
fn form_without_form_content_type_is_decode_error() {
    let mut app = App::new();
    let h = app.add_handler(vec![Extractor { source: Source::FormField(b"username".to_vec()), mode: Mode::Required }]).unwrap();
    app.route(Method::Post, b"/form", h).unwrap();
    let mut req = Request::new(Method::Post, b"/form");
    req.add_header(b"content-type", b"application/json");
    req.set_body(b"{\"username\":\"Ekotaro\"}".to_vec());
    match app.decide(&mut req) {
        Decision::Respond(r) => {
            assert_eq!(r.status, 400);
            assert_eq!(text(&r.body), "Failed to decode body");
        },
        other => panic!("expected 400, got {:?}", other),
    }
    assert!(req.body.is_none());
}

#[test]
fn form_field_and_body_refused_together() {
    let es = vec![
        Extractor { source: Source::FormField(b"a".to_vec()), mode: Mode::Required },
        Extractor { source: Source::Body, mode: Mode::Required },
    ];
    assert_eq!(check_extractors(&es), Err(ConfigError::BodyTakenTwice));
}

#[test]
fn query_values_are_percent_decoded() {
    let req = Request::new(Method::Get, b"/get?name=Eko%20K&a+b=c+d");
    assert_eq!(req.query_param(b"name"), Ok(b"Eko K".to_vec()));
    assert_eq!(req.query_param(b"a b"), Ok(b"c d".to_vec()));
    assert_eq!(parse_query(b"x=%41"), vec![(b"x".to_vec(), b"A".to_vec())]);
}

#[test]
fn set_request_header_replaces_existing_value() {
    let mut p = Pipeline::new();
    p.install(Layer::SetRequestHeader(b"X-Request-Id".to_vec(), b"12345".to_vec()));
    p.install(Layer::SetRequestHeader(b"X-Request-Id".to_vec(), b"12345".to_vec()));
    let mut req = Request::new(Method::Get, b"/");
    req.add_header(b"X-Request-Id", b"a");
    req.add_header(b"Accept", b"*/*");
    let (r, _) = p.run(req, |q: Request| {
        let ids: Vec<Vec<u8>> = q.headers.iter().filter(|(n, _)| n == b"x-request-id").map(|(_, v)| v.clone()).collect();
        assert_eq!(ids, vec![b"12345".to_vec()]);
        assert_eq!(q.headers.len(), 2);
        let mut resp = not_found();
        resp.body = q.header(b"X-Request-Id").unwrap();
        resp
    });
    assert_eq!(text(&r.body), "12345");
}

#[test]
fn json_source_checks_content_type() {
    let mut app = App::new();
    let h = app.add_handler(vec![Extractor { source: Source::Json, mode: Mode::Wrapped }]).unwrap();
    app.route(Method::Post, b"/j", h).unwrap();
    let mut req = Request::new(Method::Post, b"/j");
    req.add_header(b"Content-Type", b"application/json");
    req.set_body(b"{}".to_vec());
    match app.decide(&mut req) {
        Decision::Invoke { args, .. } => assert!(matches!(&args[0], Ok(Value::Text(t)) if t == b"{}")),
        other => panic!("expected a handler, got {:?}", other),
    }
    let mut req = Request::new(Method::Post, b"/j");
    req.set_body(b"{}".to_vec());
    match app.decide(&mut req) {
        Decision::Invoke { args, .. } => assert!(matches!(args[0], Err(Rejection::DecodeError))),
        other => panic!("expected a handler, got {:?}", other),
    }
}

#[test]
fn app_error_code_taken_as_u16() {
    let r = AppError { code: 65936, message: b"x".to_vec() }.into_response();
    assert_eq!(r.status, 400);
    assert_eq!(text(&r.body), "x");
    assert_eq!(header_value(&r, "content-type").as_deref(), Some("text/plain; charset=utf-8"));
}
