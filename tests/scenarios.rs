use route_engine::engine::{App, Decision};
use route_engine::extract::{ConfigError, Extractor, Mode, Source, Value};
use route_engine::pipeline::{Layer, Pipeline};
use route_engine::request::{Rejection, Request};
use route_engine::response::{convert_result, AppError, BodyPart, Reply, Response};
use route_engine::router::{Method, Router};

fn text_reply(t: &str) -> Reply {
    Reply { status: None, headers: vec![], cookies: vec![], body: BodyPart::Text(t.as_bytes().to_vec()) }
}

fn json_reply(t: &str) -> Reply {
    Reply { status: None, headers: vec![], cookies: vec![], body: BodyPart::Json(t.as_bytes().to_vec()) }
}

fn body_text(r: &Response) -> String {
    String::from_utf8(r.body.clone()).unwrap()
}

fn header_value(r: &Response, name: &str) -> Option<String> {
    r.headers
        .iter()
        .rev()
        .find(|(n, _)| n.eq_ignore_ascii_case(name.as_bytes()))
        .map(|(_, v)| String::from_utf8(v.clone()).unwrap())
}

fn arg_text(v: &Result<Value, Rejection>) -> String {
    match v {
        Ok(Value::Text(t)) => String::from_utf8(t.clone()).unwrap(),
        other => panic!("not text: {:?}", other),
    }
}

fn method_text(m: Method) -> &'static str {
    match m {
        Method::Get => "GET",
        Method::Post => "POST",
        Method::Put => "PUT",
        Method::Delete => "DELETE",
        Method::Patch => "PATCH",
        Method::Head => "HEAD",
        Method::Options => "OPTIONS",
    }
}

fn app_with(extractors: Vec<Extractor>, routes: &[(Method, &str)]) -> App {
    let mut app = App::new();
    let h = app.add_handler(extractors).unwrap();
    for (m, p) in routes {
        app.route(*m, p.as_bytes(), h).unwrap();
    }
    app
}

/// Decides the request and, where a handler is due, hands it the request
/// and its arguments.
fn serve<H: Fn(&Request, &[Result<Value, Rejection>]) -> Reply>(app: &App, mut req: Request, handler: H) -> Response {
    match app.decide(&mut req) {
        Decision::Respond(r) => r,
        Decision::Invoke { args, .. } => handler(&req, &args).into_response(),
    }
}

fn get(target: &str) -> Request {
    Request::new(Method::Get, target.as_bytes())
}

fn post(target: &str) -> Request {
    Request::new(Method::Post, target.as_bytes())
}

fn required(source: Source) -> Extractor {
    Extractor { source, mode: Mode::Required }
}

#[test]
fn text_axum() {
    let app = app_with(vec![], &[(Method::Get, "/")]);
    let r = serve(&app, get("/"), |_, _| text_reply("Hello, world!"));
    assert_eq!(r.status, 200);
    assert_eq!(body_text(&r), "Hello, world!");
}

#[test]
fn test_method_routing() {
    let app = app_with(vec![], &[(Method::Get, "/get"), (Method::Post, "/post")]);
    let r = serve(&app, get("/get"), |_, _| text_reply("Hello, world!"));
    assert_eq!(r.status, 200);
    assert_eq!(body_text(&r), "Hello, world!");
    let r = serve(&app, post("/post"), |_, _| text_reply("Hello, world!"));
    assert_eq!(r.status, 200);
    assert_eq!(body_text(&r), "Hello, world!");
}

#[test]
fn test_request() {
    let app = app_with(vec![], &[(Method::Get, "/get"), (Method::Post, "/post")]);
    let hello = |req: &Request, _: &[Result<Value, Rejection>]| text_reply(&format!("Hello {}", method_text(req.method)));
    let r = serve(&app, get("/get"), hello);
    assert_eq!(r.status, 200);
    assert_eq!(body_text(&r), "Hello GET");
    let r = serve(&app, post("/post"), hello);
    assert_eq!(r.status, 200);
    assert_eq!(body_text(&r), "Hello POST");
}

#[test]
fn test_uri() {
    let app = app_with(vec![], &[(Method::Get, "/get"), (Method::Post, "/post")]);
    let hello = |req: &Request, _: &[Result<Value, Rejection>]| {
        let path = String::from_utf8(req.path.clone()).unwrap();
        text_reply(&format!("Hello {} http://localhost{}", method_text(req.method), path))
    };
    let r = serve(&app, get("/get"), hello);
    assert_eq!(r.status, 200);
    assert_eq!(body_text(&r), "Hello GET http://localhost/get");
    let r = serve(&app, post("/post"), hello);
    assert_eq!(r.status, 200);
    assert_eq!(body_text(&r), "Hello POST http://localhost/post");
}

#[test]
fn test_query() {
    let app = app_with(vec![required(Source::Query(b"name".to_vec()))], &[(Method::Get, "/get")]);
    let r = serve(&app, get("/get?name=Eko"), |_, a| text_reply(&format!("Hello {}", arg_text(&a[0]))));
    assert_eq!(r.status, 200);
    assert_eq!(body_text(&r), "Hello Eko");
}

#[test]
fn test_header() {
    let app = app_with(vec![required(Source::Header(b"name".to_vec()))], &[(Method::Get, "/get")]);
    let mut req = get("/get");
    req.add_header(b"name", b"Eko");
    let r = serve(&app, req, |_, a| text_reply(&format!("Hello {}", arg_text(&a[0]))));
    assert_eq!(r.status, 200);
    assert_eq!(body_text(&r), "Hello Eko");
}

#[test]
fn test_path_parameter() {
    let app = app_with(
        vec![required(Source::PathText(b"id".to_vec())), required(Source::PathText(b"id_category".to_vec()))],
        &[(Method::Get, "/products/{id}/categories/{id_category}")],
    );
    let r = serve(&app, get("/products/1/categories/2"), |_, a| {
        text_reply(&format!("Product {}, Category {}", arg_text(&a[0]), arg_text(&a[1])))
    });
    assert_eq!(r.status, 200);
    assert_eq!(body_text(&r), "Product 1, Category 2");
}

#[test]
fn test_body_string() {
    let app = app_with(vec![required(Source::Body)], &[(Method::Get, "/post")]);
    let mut req = get("/post");
    req.set_body(b"This is body".to_vec());
    let r = serve(&app, req, |_, a| text_reply(&format!("Body {}", arg_text(&a[0]))));
    assert_eq!(r.status, 200);
    assert_eq!(body_text(&r), "Body This is body");
}

#[test]
fn test_response() {
    let app = app_with(vec![], &[(Method::Get, "/get")]);
    let r = serve(&app, get("/get"), |req, _| {
        let mut reply = text_reply(&format!("Hello {}", method_text(req.method)));
        reply.status = Some(200);
        reply.headers.push((b"X-owner".to_vec(), b"Ekotaro".to_vec()));
        reply
    });
    assert_eq!(r.status, 200);
    assert_eq!(body_text(&r), "Hello GET");
    assert_eq!(header_value(&r, "X-owner").as_deref(), Some("Ekotaro"));
}

#[test]
fn test_response_json() {
    let app = app_with(vec![], &[(Method::Get, "/get")]);
    let r = serve(&app, get("/get"), |_, _| json_reply("{\"token\":\"Token\"}"));
    assert_eq!(r.status, 200);
    assert_eq!(body_text(&r), "{\"token\":\"Token\"}");
    assert_eq!(header_value(&r, "content-type").as_deref(), Some("application/json"));
}

#[test]
fn test_response_tuple() {
    let app = app_with(vec![], &[(Method::Get, "/get")]);
    let r = serve(&app, get("/get"), |_, _| {
        let mut reply = json_reply("{\"token\":\"Token\"}");
        reply.status = Some(200);
        reply.headers.push((b"X-owner".to_vec(), b"Ekotaro".to_vec()));
        reply
    });
    assert_eq!(r.status, 200);
    assert_eq!(body_text(&r), "{\"token\":\"Token\"}");
    assert_eq!(header_value(&r, "X-owner").as_deref(), Some("Ekotaro"));
}

#[test]
fn test_response_tuple3() {
    let app = app_with(vec![], &[(Method::Get, "/get")]);
    let r = serve(&app, get("/get"), |_, _| Reply {
        status: Some(200),
        headers: vec![(b"X-owner".to_vec(), b"Ekotaro".to_vec())],
        cookies: vec![],
        body: BodyPart::Json(b"{\"token\":\"Token\"}".to_vec()),
    });
    assert_eq!(r.status, 200);
    assert_eq!(body_text(&r), "{\"token\":\"Token\"}");
    assert_eq!(header_value(&r, "X-owner").as_deref(), Some("Ekotaro"));
}

#[test]
fn test_form() {
    let app = app_with(vec![required(Source::FormField(b"username".to_vec()))], &[(Method::Post, "/post")]);
    let mut req = post("/post");
    req.add_header(b"Content-Type", b"application/x-www-form-urlencoded");
    req.set_body(b"username=Ekotaro&password=Password".to_vec());
    let r = serve(&app, req, |_, a| text_reply(&format!("Hello {}", arg_text(&a[0]))));
    assert_eq!(r.status, 200);
    assert_eq!(body_text(&r), "Hello Ekotaro");
}

#[test]
fn test_cookie_response() {
    let app = app_with(vec![required(Source::Query(b"name".to_vec()))], &[(Method::Get, "/get")]);
    let r = serve(&app, get("/get?name=Ekotaro"), |_, a| {
        let name = arg_text(&a[0]);
        let mut reply = text_reply(&format!("Hello {}", name));
        reply.cookies.push((b"name".to_vec(), name.into_bytes()));
        reply
    });
    assert_eq!(r.status, 200);
    assert_eq!(body_text(&r), "Hello Ekotaro");
    assert_eq!(header_value(&r, "Set-Cookie").as_deref(), Some("name=Ekotaro"));
}

#[test]
fn test_cookie_request() {
    let app = app_with(vec![required(Source::Cookie(b"name".to_vec()))], &[(Method::Get, "/get")]);
    let mut req = get("/get");
    req.add_header(b"Cookie", b"name=Ekotaro");
    let r = serve(&app, req, |_, a| text_reply(&format!("Hello {}", arg_text(&a[0]))));
    assert_eq!(r.status, 200);
    assert_eq!(body_text(&r), "Hello Ekotaro");
}

#[test]
fn test_middleware() {
    let app = app_with(vec![required(Source::Header(b"X-Request-Id".to_vec()))], &[(Method::Get, "/get")]);
    let mut pipeline = Pipeline::new();
    pipeline.install(Layer::SetRequestHeader(b"X-Request-Id".to_vec(), b"12345".to_vec()));
    pipeline.install(Layer::Observe);
    let mut req = get("/get");
    req.add_header(b"Cookie", b"name=Ekotaro");
    let (r, _) = pipeline.run(req, |q: Request| {
        serve(&app, q, |req, a| text_reply(&format!("Hello {} {}", method_text(req.method), arg_text(&a[0]))))
    });
    assert_eq!(r.status, 200);
    assert_eq!(body_text(&r), "Hello GET 12345");
}

fn error_handler(req: &Request) -> Response {
    if req.method == Method::Post {
        text_reply("OK").into_response()
    } else {
        AppError { code: 400, message: b"Bad Request".to_vec() }.into_response()
    }
}

#[test]
fn test_error_handling() {
    let app = app_with(vec![], &[(Method::Get, "/get"), (Method::Post, "/post")]);
    let run = |mut req: Request| match app.decide(&mut req) {
        Decision::Respond(r) => r,
        Decision::Invoke { .. } => error_handler(&req),
    };
    let r = run(get("/get"));
    assert_eq!(r.status, 400);
    assert_eq!(body_text(&r), "Bad Request");
    let r = run(post("/post"));
    assert_eq!(r.status, 200);
    assert_eq!(body_text(&r), "OK");
}

fn route_with_error(req: &Request) -> Result<Reply, String> {
    if req.method == Method::Post {
        Ok(Reply { status: Some(200), headers: vec![], cookies: vec![], body: BodyPart::Empty })
    } else {
        Err("Bad Request".to_string())
    }
}

fn handle_error(err: String) -> Reply {
    Reply {
        status: Some(500),
        headers: vec![],
        cookies: vec![],
        body: BodyPart::Text(format!("Internal Server Error: {}", err).into_bytes()),
    }
}

#[test]
fn test_unexpected_error() {
    let app = app_with(vec![], &[(Method::Get, "/get"), (Method::Post, "/get")]);
    let run = |mut req: Request| match app.decide(&mut req) {
        Decision::Respond(r) => r,
        Decision::Invoke { .. } => convert_result(route_with_error(&req).map_err(handle_error)),
    };
    let r = run(get("/get"));
    assert_eq!(r.status, 500);
    assert_eq!(body_text(&r), "Internal Server Error: Bad Request");
    let r = run(post("/get"));
    assert_eq!(r.status, 200);
    assert_eq!(body_text(&r), "");
}

const DATABASE: u64 = 1;

fn state_app() -> App {
    let mut app = App::new();
    app.add_state(DATABASE, Value::Number(100));
    let h = app.add_handler(vec![required(Source::State(DATABASE))]).unwrap();
    app.route(Method::Get, b"/get", h).unwrap();
    app
}

fn total_reply(_: &Request, a: &[Result<Value, Rejection>]) -> Reply {
    match &a[0] {
        Ok(Value::Number(total)) => text_reply(&format!("Total: {}", total)),
        other => panic!("no state: {:?}", other),
    }
}

#[test]
fn test_state_extractor() {
    let app = state_app();
    let r = serve(&app, get("/get"), total_reply);
    assert_eq!(r.status, 200);
    assert_eq!(body_text(&r), "Total: 100");
}

#[test]
fn test_state_extension() {
    let app = state_app();
    let mut pipeline = Pipeline::new();
    pipeline.install(Layer::Observe);
    let (r, _) = pipeline.run(get("/get"), |q: Request| serve(&app, q, total_reply));
    assert_eq!(r.status, 200);
    assert_eq!(body_text(&r), "Total: 100");
}

#[test]
fn unregistered_state_refused_at_startup() {
    let mut app = App::new();
    assert_eq!(app.add_handler(vec![required(Source::State(DATABASE))]), Err(ConfigError::StateNotRegistered));
    assert!(app.handlers.is_empty());
}

#[test]
fn test_state_closure_capture() {
    let total: i32 = 100;
    let app = app_with(vec![], &[(Method::Get, "/get")]);
    let r = serve(&app, get("/get"), move |_, _| text_reply(&format!("Total: {}", total)));
    assert_eq!(r.status, 200);
    assert_eq!(body_text(&r), "Total: 100");
}

#[test]
fn test_multiple_route() {
    let mut first = Router::new();
    first.route(Method::Get, b"/first", 0).unwrap();
    let mut second = Router::new();
    second.route(Method::Get, b"/second", 0).unwrap();
    let mut app = App::new();
    app.add_handler(vec![]).unwrap();
    app.router.merge(&first);
    app.router.merge(&second);
    let hello = |req: &Request, _: &[Result<Value, Rejection>]| text_reply(&format!("Hello {}", method_text(req.method)));
    let r = serve(&app, get("/first"), hello);
    assert_eq!(r.status, 200);
    assert_eq!(body_text(&r), "Hello GET");
    let r = serve(&app, get("/second"), hello);
    assert_eq!(r.status, 200);
    assert_eq!(body_text(&r), "Hello GET");
}

#[test]
fn test_multiple_route_nest() {
    let mut first = Router::new();
    first.route(Method::Get, b"/first", 0).unwrap();
    let mut second = Router::new();
    second.route(Method::Get, b"/second", 0).unwrap();
    let mut app = App::new();
    app.add_handler(vec![]).unwrap();
    let users = route_engine::pattern::compile(b"/api/users").unwrap();
    let products = route_engine::pattern::compile(b"/api/products").unwrap();
    app.router.nest(&users, &first).unwrap();
    app.router.nest(&products, &second).unwrap();
    let hello = |req: &Request, _: &[Result<Value, Rejection>]| text_reply(&format!("Hello {}", method_text(req.method)));
    let r = serve(&app, get("/api/users/first"), hello);
    assert_eq!(r.status, 200);
    assert_eq!(body_text(&r), "Hello GET");
    let r = serve(&app, get("/api/products/second"), hello);
    assert_eq!(r.status, 200);
    assert_eq!(body_text(&r), "Hello GET");
}
