use route_engine::engine::{App, Decision};
use route_engine::extract::{Extractor, Mode, Source, Value};
use route_engine::request::{Rejection, Request};
use route_engine::response::{BodyPart, Reply, Response};
use route_engine::router::Method;

fn login_body() -> Vec<u8> {
    let mut record = serde_json::Map::new();
    record.insert("username".to_string(), serde_json::Value::String("Ekotaro".to_string()));
    record.insert("password".to_string(), serde_json::Value::String("Password".to_string()));
    serde_json::to_vec(&serde_json::Value::Object(record)).unwrap()
}

fn username_of(arg: &Result<Value, Rejection>) -> Result<String, String> {
    match arg {
        Ok(Value::Text(bytes)) => {
            let v: serde_json::Value = serde_json::from_slice(bytes).map_err(|e| format!("{}", e))?;
            v.get("username").and_then(|u| u.as_str()).map(|u| u.to_string()).ok_or_else(|| "no username".to_string())
        },
        Ok(other) => Err(format!("{:?}", other)),
        Err(e) => Err(format!("{:?}", e)),
    }
}

fn text_reply(t: String) -> Reply {
    Reply { status: None, headers: vec![], cookies: vec![], body: BodyPart::Text(t.into_bytes()) }
}

fn post_json(app: &App, body: Vec<u8>) -> (Request, Decision) {
    let mut req = Request::new(Method::Get, b"/post");
    req.add_header(b"content-type", b"application/json");
    req.set_body(body);
    let d = app.decide(&mut req);
    (req, d)
}

fn body_app(mode: Mode) -> App {
    let mut app = App::new();
    let h = app.add_handler(vec![Extractor { source: Source::Json, mode }]).unwrap();
    app.route(Method::Get, b"/post", h).unwrap();
    app
}

fn respond(d: Decision, handler: impl Fn(&[Result<Value, Rejection>]) -> Reply) -> Response {
    match d {
        Decision::Respond(r) => r,
        Decision::Invoke { args, .. } => handler(&args).into_response(),
    }
}

#[test]
fn test_body_json() {
    let app = body_app(Mode::Required);
    let (_, d) = post_json(&app, login_body());
    let r = respond(d, |a| text_reply(format!("Hello {}", username_of(&a[0]).unwrap())));
    assert_eq!(r.status, 200);
    assert_eq!(String::from_utf8(r.body).unwrap(), "Hello Ekotaro");
}

#[test]
fn test_json_error() {
    let app = body_app(Mode::Wrapped);
    let (_, d) = post_json(&app, login_body());
    let r = respond(d, |a| match username_of(&a[0]) {
        Ok(name) => text_reply(format!("Hello {}", name)),
        Err(e) => text_reply(format!("Error: {:?}", e)),
    });
    assert_eq!(r.status, 200);
    assert_eq!(String::from_utf8(r.body).unwrap(), "Hello Ekotaro");
}

#[test]
fn json_round_trip_gives_token() {
    let app = body_app(Mode::Required);
    let (_, d) = post_json(&app, login_body());
    let r = respond(d, |a| {
        username_of(&a[0]).unwrap();
        let mut token = serde_json::Map::new();
        token.insert("token".to_string(), serde_json::Value::String("Token".to_string()));
        let bytes = serde_json::to_vec(&serde_json::Value::Object(token)).unwrap();
        Reply { status: None, headers: vec![], cookies: vec![], body: BodyPart::Json(bytes) }
    });
    assert_eq!(r.status, 200);
    assert_eq!(String::from_utf8(r.body).unwrap(), "{\"token\":\"Token\"}");
}

#[test]
fn malformed_json_reaches_wrapped_handler_as_error() {
    let app = body_app(Mode::Wrapped);
    let (_, d) = post_json(&app, b"{not json".to_vec());
    let r = respond(d, |a| match username_of(&a[0]) {
        Ok(name) => text_reply(format!("Hello {}", name)),
        Err(_) => Reply {
            status: Some(400),
            headers: vec![],
            cookies: vec![],
            body: BodyPart::Text(b"bad json".to_vec()),
        },
    });
    assert_eq!(r.status, 400);
    assert_eq!(String::from_utf8(r.body).unwrap(), "bad json");
}
