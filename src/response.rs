//! Responses, and the one conversion that turns every handler result,
//! rejection and routing failure into a response.
use vstd::prelude::*;
use crate::text::{pair_views, copy_range, join_spec, views};
use crate::router::Method;
use crate::request::{Rejection, EQUALS};

verus! {

pub const COMMA: u8 = 44;

/// The header name `content-type`.
pub open spec fn content_type() -> Seq<u8> {
    seq![99u8, 111u8, 110u8, 116u8, 101u8, 110u8, 116u8, 45u8, 116u8, 121u8, 112u8, 101u8]
}

pub(crate) fn content_type_exec() -> (r: Vec<u8>)
    ensures
        r@ == content_type(),
{
    let r: Vec<u8> = vec![99u8, 111u8, 110u8, 116u8, 101u8, 110u8, 116u8, 45u8, 116u8, 121u8, 112u8, 101u8];
    assert(r@ =~= content_type());
    r
}

/// The content type of plain text.
pub open spec fn text_plain() -> Seq<u8> {
    seq![116u8, 101u8, 120u8, 116u8, 47u8, 112u8, 108u8, 97u8, 105u8, 110u8, 59u8, 32u8, 99u8, 104u8, 97u8, 114u8, 115u8, 101u8, 116u8, 61u8, 117u8, 116u8, 102u8, 45u8, 56u8]
}

fn text_plain_exec() -> (r: Vec<u8>)
    ensures
        r@ == text_plain(),
{
    let r: Vec<u8> = vec![116u8, 101u8, 120u8, 116u8, 47u8, 112u8, 108u8, 97u8, 105u8, 110u8, 59u8, 32u8, 99u8, 104u8, 97u8, 114u8, 115u8, 101u8, 116u8, 61u8, 117u8, 116u8, 102u8, 45u8, 56u8];
    assert(r@ =~= text_plain());
    r
}

/// The content type of structured data.
pub open spec fn application_json() -> Seq<u8> {
    seq![97u8, 112u8, 112u8, 108u8, 105u8, 99u8, 97u8, 116u8, 105u8, 111u8, 110u8, 47u8, 106u8, 115u8, 111u8, 110u8]
}

pub(crate) fn application_json_exec() -> (r: Vec<u8>)
    ensures
        r@ == application_json(),
{
    let r: Vec<u8> = vec![97u8, 112u8, 112u8, 108u8, 105u8, 99u8, 97u8, 116u8, 105u8, 111u8, 110u8, 47u8, 106u8, 115u8, 111u8, 110u8];
    assert(r@ =~= application_json());
    r
}

/// The header name `set-cookie`.
pub open spec fn set_cookie() -> Seq<u8> {
    seq![115u8, 101u8, 116u8, 45u8, 99u8, 111u8, 111u8, 107u8, 105u8, 101u8]
}

fn set_cookie_exec() -> (r: Vec<u8>)
    ensures
        r@ == set_cookie(),
{
    let r: Vec<u8> = vec![115u8, 101u8, 116u8, 45u8, 99u8, 111u8, 111u8, 107u8, 105u8, 101u8];
    assert(r@ =~= set_cookie());
    r
}

/// The header name `allow`.
pub open spec fn allow_header() -> Seq<u8> {
    seq![97u8, 108u8, 108u8, 111u8, 119u8]
}

fn allow_header_exec() -> (r: Vec<u8>)
    ensures
        r@ == allow_header(),
{
    let r: Vec<u8> = vec![97u8, 108u8, 108u8, 111u8, 119u8];
    assert(r@ =~= allow_header());
    r
}

/// The body of a 500 response.
pub open spec fn internal_error_text() -> Seq<u8> {
    seq![73u8, 110u8, 116u8, 101u8, 114u8, 110u8, 97u8, 108u8, 32u8, 83u8, 101u8, 114u8, 118u8, 101u8, 114u8, 32u8, 69u8, 114u8, 114u8, 111u8, 114u8]
}

fn internal_error_text_exec() -> (r: Vec<u8>)
    ensures
        r@ == internal_error_text(),
{
    let r: Vec<u8> = vec![73u8, 110u8, 116u8, 101u8, 114u8, 110u8, 97u8, 108u8, 32u8, 83u8, 101u8, 114u8, 118u8, 101u8, 114u8, 32u8, 69u8, 114u8, 114u8, 111u8, 114u8];
    assert(r@ =~= internal_error_text());
    r
}

/// The description of a missing-field rejection.
pub open spec fn missing_field_text() -> Seq<u8> {
    seq![77u8, 105u8, 115u8, 115u8, 105u8, 110u8, 103u8, 32u8, 102u8, 105u8, 101u8, 108u8, 100u8]
}

fn missing_field_text_exec() -> (r: Vec<u8>)
    ensures
        r@ == missing_field_text(),
{
    let r: Vec<u8> = vec![77u8, 105u8, 115u8, 115u8, 105u8, 110u8, 103u8, 32u8, 102u8, 105u8, 101u8, 108u8, 100u8];
    assert(r@ =~= missing_field_text());
    r
}

/// The description of a type-mismatch rejection.
pub open spec fn type_mismatch_text() -> Seq<u8> {
    seq![84u8, 121u8, 112u8, 101u8, 32u8, 109u8, 105u8, 115u8, 109u8, 97u8, 116u8, 99u8, 104u8]
}

fn type_mismatch_text_exec() -> (r: Vec<u8>)
    ensures
        r@ == type_mismatch_text(),
{
    let r: Vec<u8> = vec![84u8, 121u8, 112u8, 101u8, 32u8, 109u8, 105u8, 115u8, 109u8, 97u8, 116u8, 99u8, 104u8];
    assert(r@ =~= type_mismatch_text());
    r
}

/// The description of a decode rejection.
pub open spec fn decode_error_text() -> Seq<u8> {
    seq![70u8, 97u8, 105u8, 108u8, 101u8, 100u8, 32u8, 116u8, 111u8, 32u8, 100u8, 101u8, 99u8, 111u8, 100u8, 101u8, 32u8, 98u8, 111u8, 100u8, 121u8]
}

fn decode_error_text_exec() -> (r: Vec<u8>)
    ensures
        r@ == decode_error_text(),
{
    let r: Vec<u8> = vec![70u8, 97u8, 105u8, 108u8, 101u8, 100u8, 32u8, 116u8, 111u8, 32u8, 100u8, 101u8, 99u8, 111u8, 100u8, 101u8, 32u8, 98u8, 111u8, 100u8, 121u8];
    assert(r@ =~= decode_error_text());
    r
}

/// The description of a second body read.
pub open spec fn body_consumed_text() -> Seq<u8> {
    seq![66u8, 111u8, 100u8, 121u8, 32u8, 97u8, 108u8, 114u8, 101u8, 97u8, 100u8, 121u8, 32u8, 99u8, 111u8, 110u8, 115u8, 117u8, 109u8, 101u8, 100u8]
}

fn body_consumed_text_exec() -> (r: Vec<u8>)
    ensures
        r@ == body_consumed_text(),
{
    let r: Vec<u8> = vec![66u8, 111u8, 100u8, 121u8, 32u8, 97u8, 108u8, 114u8, 101u8, 97u8, 100u8, 121u8, 32u8, 99u8, 111u8, 110u8, 115u8, 117u8, 109u8, 101u8, 100u8];
    assert(r@ =~= body_consumed_text());
    r
}

/// The text `GET`.
pub open spec fn get_name() -> Seq<u8> {
    seq![71u8, 69u8, 84u8]
}

fn get_name_exec() -> (r: Vec<u8>)
    ensures
        r@ == get_name(),
{
    let r: Vec<u8> = vec![71u8, 69u8, 84u8];
    assert(r@ =~= get_name());
    r
}

/// The text `POST`.
pub open spec fn post_name() -> Seq<u8> {
    seq![80u8, 79u8, 83u8, 84u8]
}

fn post_name_exec() -> (r: Vec<u8>)
    ensures
        r@ == post_name(),
{
    let r: Vec<u8> = vec![80u8, 79u8, 83u8, 84u8];
    assert(r@ =~= post_name());
    r
}

/// The text `PUT`.
pub open spec fn put_name() -> Seq<u8> {
    seq![80u8, 85u8, 84u8]
}

fn put_name_exec() -> (r: Vec<u8>)
    ensures
        r@ == put_name(),
{
    let r: Vec<u8> = vec![80u8, 85u8, 84u8];
    assert(r@ =~= put_name());
    r
}

/// The text `DELETE`.
pub open spec fn delete_name() -> Seq<u8> {
    seq![68u8, 69u8, 76u8, 69u8, 84u8, 69u8]
}

fn delete_name_exec() -> (r: Vec<u8>)
    ensures
        r@ == delete_name(),
{
    let r: Vec<u8> = vec![68u8, 69u8, 76u8, 69u8, 84u8, 69u8];
    assert(r@ =~= delete_name());
    r
}

/// The text `PATCH`.
pub open spec fn patch_name() -> Seq<u8> {
    seq![80u8, 65u8, 84u8, 67u8, 72u8]
}

fn patch_name_exec() -> (r: Vec<u8>)
    ensures
        r@ == patch_name(),
{
    let r: Vec<u8> = vec![80u8, 65u8, 84u8, 67u8, 72u8];
    assert(r@ =~= patch_name());
    r
}

/// The text `HEAD`.
pub open spec fn head_name() -> Seq<u8> {
    seq![72u8, 69u8, 65u8, 68u8]
}

fn head_name_exec() -> (r: Vec<u8>)
    ensures
        r@ == head_name(),
{
    let r: Vec<u8> = vec![72u8, 69u8, 65u8, 68u8];
    assert(r@ =~= head_name());
    r
}

/// The text `OPTIONS`.
pub open spec fn options_name() -> Seq<u8> {
    seq![79u8, 80u8, 84u8, 73u8, 79u8, 78u8, 83u8]
}

fn options_name_exec() -> (r: Vec<u8>)
    ensures
        r@ == options_name(),
{
    let r: Vec<u8> = vec![79u8, 80u8, 84u8, 73u8, 79u8, 78u8, 83u8];
    assert(r@ =~= options_name());
    r
}

/// A response: status, headers in order, body bytes.
#[derive(Debug)]
pub struct Response {
    pub status: u16,
    pub headers: Vec<(Vec<u8>, Vec<u8>)>,
    pub body: Vec<u8>,
}

/// The abstract form of a response.
pub ghost struct ResponseV {
    pub status: u16,
    pub headers: Seq<(Seq<u8>, Seq<u8>)>,
    pub body: Seq<u8>,
}

impl View for Response {
    type V = ResponseV;

    open spec fn view(&self) -> ResponseV {
        ResponseV { status: self.status, headers: pair_views(self.headers@), body: self.body@ }
    }
}

/// The body of a handler's reply.
#[derive(Debug)]
pub enum BodyPart {
    Empty,
    /// Plain text.
    Text(Vec<u8>),
    /// Structured data, already encoded as JSON.
    Json(Vec<u8>),
}

pub ghost enum BodyPartV {
    Empty,
    Text(Seq<u8>),
    Json(Seq<u8>),
}

impl View for BodyPart {
    type V = BodyPartV;

    open spec fn view(&self) -> BodyPartV {
        match self {
            BodyPart::Empty => BodyPartV::Empty,
            BodyPart::Text(t) => BodyPartV::Text(t@),
            BodyPart::Json(t) => BodyPartV::Json(t@),
        }
    }
}

/// What a handler returns: an optional status, headers, cookies to set and
/// one body. A missing status means 200.
#[derive(Debug)]
pub struct Reply {
    pub status: Option<u16>,
    pub headers: Vec<(Vec<u8>, Vec<u8>)>,
    pub cookies: Vec<(Vec<u8>, Vec<u8>)>,
    pub body: BodyPart,
}

pub ghost struct ReplyV {
    pub status: Option<u16>,
    pub headers: Seq<(Seq<u8>, Seq<u8>)>,
    pub cookies: Seq<(Seq<u8>, Seq<u8>)>,
    pub body: BodyPartV,
}

impl View for Reply {
    type V = ReplyV;

    open spec fn view(&self) -> ReplyV {
        ReplyV {
            status: self.status,
            headers: pair_views(self.headers@),
            cookies: pair_views(self.cookies@),
            body: self.body@,
        }
    }
}

/// The content-type header that a body brings.
pub open spec fn content_headers(b: BodyPartV) -> Seq<(Seq<u8>, Seq<u8>)> {
    match b {
        BodyPartV::Empty => Seq::empty(),
        BodyPartV::Text(_) => seq![(content_type(), text_plain())],
        BodyPartV::Json(_) => seq![(content_type(), application_json())],
    }
}

/// The bytes of a body.
pub open spec fn body_bytes(b: BodyPartV) -> Seq<u8> {
    match b {
        BodyPartV::Empty => Seq::empty(),
        BodyPartV::Text(t) => t,
        BodyPartV::Json(t) => t,
    }
}

/// One `set-cookie` header per cookie, as `name=value`.
pub open spec fn cookie_headers(cs: Seq<(Seq<u8>, Seq<u8>)>) -> Seq<(Seq<u8>, Seq<u8>)> {
    cs.map_values(|c: (Seq<u8>, Seq<u8>)| (set_cookie(), c.0.push(EQUALS) + c.1))
}

/// The response a reply converts to: its status or 200; the content type of
/// its body, then its headers, then its cookies; its body.
pub open spec fn reply_spec(r: ReplyV) -> ResponseV {
    ResponseV {
        status: match r.status {
            Some(s) => s,
            None => 200,
        },
        headers: content_headers(r.body) + r.headers + cookie_headers(r.cookies),
        body: body_bytes(r.body),
    }
}

fn copy_pairs_into(dst: &mut Vec<(Vec<u8>, Vec<u8>)>, src: &Vec<(Vec<u8>, Vec<u8>)>)
    ensures
        pair_views(final(dst)@) == pair_views(old(dst)@) + pair_views(src@),
{
    let ghost start = pair_views(dst@);
    let mut i: usize = 0;
    while i < src.len()
        invariant
            i <= src@.len(),
            pair_views(dst@) == start + pair_views(src@).subrange(0, i as int),
        decreases src.len() - i,
    {
        let ghost before = dst@;
        let a = copy_range(src[i].0.as_slice(), 0, src[i].0.len());
        let b = copy_range(src[i].1.as_slice(), 0, src[i].1.len());
        assert(a@ =~= src@[i as int].0@);
        assert(b@ =~= src@[i as int].1@);
        dst.push((a, b));
        assert(pair_views(dst@) =~= pair_views(before).push((a@, b@)));
        assert(pair_views(dst@) =~= start + pair_views(src@).subrange(0, i as int + 1));
        i = i + 1;
    }
    assert(pair_views(src@).subrange(0, i as int) =~= pair_views(src@));
}

impl Reply {
    /// Converts the reply into a response.
    pub fn into_response(self) -> (r: Response)
        ensures
            r@ == reply_spec(self@),
    {
        let mut headers: Vec<(Vec<u8>, Vec<u8>)> = Vec::new();
        let body = match self.body {
            BodyPart::Empty => Vec::new(),
            BodyPart::Text(t) => {
                headers.push((content_type_exec(), text_plain_exec()));
                t
            },
            BodyPart::Json(t) => {
                headers.push((content_type_exec(), application_json_exec()));
                t
            },
        };
        assert(pair_views(headers@) =~= content_headers(self@.body));
        assert(body@ =~= body_bytes(self@.body));
        copy_pairs_into(&mut headers, &self.headers);
        let ghost mid = pair_views(headers@);
        let mut i: usize = 0;
        let cs = &self.cookies;
        while i < cs.len()
            invariant
                i <= cs@.len(),
                pair_views(headers@) == mid + cookie_headers(pair_views(cs@)).subrange(0, i as int),
            decreases cs.len() - i,
        {
            let ghost before = headers@;
            let mut v = copy_range(cs[i].0.as_slice(), 0, cs[i].0.len());
            assert(v@ =~= cs@[i as int].0@);
            v.push(EQUALS);
            let ghost nv = v@;
            let mut k: usize = 0;
            let val = &cs[i].1;
            while k < val.len()
                invariant
                    k <= val@.len(),
                    v@ == nv + val@.subrange(0, k as int),
                decreases val.len() - k,
            {
                v.push(val[k]);
                assert(val@.subrange(0, k as int + 1) == val@.subrange(0, k as int).push(val@[k as int]));
                k = k + 1;
            }
            assert(val@.subrange(0, k as int) =~= val@);
            let name = set_cookie_exec();
            assert(v@ =~= cs@[i as int].0@.push(EQUALS) + cs@[i as int].1@);
            assert(cookie_headers(pair_views(cs@))[i as int] == (name@, v@));
            headers.push((name, v));
            assert(pair_views(headers@) =~= pair_views(before).push((name@, v@)));
            assert(pair_views(headers@) =~= mid + cookie_headers(pair_views(cs@)).subrange(0, i as int + 1));
            i = i + 1;
        }
        assert(cookie_headers(pair_views(cs@)).subrange(0, i as int) =~= cookie_headers(pair_views(cs@)));
        let status: u16 = match self.status {
            Some(s) => s,
            None => 200,
        };
        Response { status, headers, body }
    }
}

/// Converts a handler's `Result`: either side is a reply of its own.
pub fn convert_result(r: Result<Reply, Reply>) -> (o: Response)
    ensures
        o@ == match r {
            Ok(x) => reply_spec(x@),
            Err(x) => reply_spec(x@),
        },
{
    match r {
        Ok(x) => x.into_response(),
        Err(x) => x.into_response(),
    }
}

/// The name of a method, as it stands in a request line.
pub open spec fn method_name(m: Method) -> Seq<u8> {
    match m {
        Method::Get => get_name(),
        Method::Post => post_name(),
        Method::Put => put_name(),
        Method::Delete => delete_name(),
        Method::Patch => patch_name(),
        Method::Head => head_name(),
        Method::Options => options_name(),
    }
}

/// The name of a method.
pub fn method_name_exec(m: Method) -> (r: Vec<u8>)
    ensures
        r@ == method_name(m),
{
    match m {
        Method::Get => get_name_exec(),
        Method::Post => post_name_exec(),
        Method::Put => put_name_exec(),
        Method::Delete => delete_name_exec(),
        Method::Patch => patch_name_exec(),
        Method::Head => head_name_exec(),
        Method::Options => options_name_exec(),
    }
}

/// The value of an `allow` header: the method names joined by commas.
pub open spec fn allow_value(ms: Seq<Method>) -> Seq<u8> {
    join_spec(ms.map_values(|m: Method| method_name(m)), COMMA)
}

/// The response to a path that no route matches: 404 with an empty body.
pub open spec fn not_found_spec() -> ResponseV {
    ResponseV { status: 404, headers: Seq::empty(), body: Seq::empty() }
}

/// The 404 response.
pub fn not_found() -> (r: Response)
    ensures
        r@ == not_found_spec(),
{
    let r = Response { status: 404, headers: Vec::new(), body: Vec::new() };
    assert(r@.headers =~= Seq::<(Seq<u8>, Seq<u8>)>::empty());
    assert(r@.body =~= Seq::<u8>::empty());
    r
}

/// The response to a path whose routes take other methods: 405 with an
/// `allow` header naming them.
pub open spec fn method_not_allowed_spec(ms: Seq<Method>) -> ResponseV {
    ResponseV { status: 405, headers: seq![(allow_header(), allow_value(ms))], body: Seq::empty() }
}

/// The 405 response for a path whose routes take the methods `ms`.
pub fn method_not_allowed(ms: &Vec<Method>) -> (r: Response)
    ensures
        r@ == method_not_allowed_spec(ms@),
{
    let mut names: Vec<Vec<u8>> = Vec::new();
    let mut i: usize = 0;
    while i < ms.len()
        invariant
            i <= ms@.len(),
            views(names@) == ms@.subrange(0, i as int).map_values(|m: Method| method_name(m)),
        decreases ms.len() - i,
    {
        let ghost before = names@;
        let n = method_name_exec(ms[i]);
        names.push(n);
        assert(views(names@) =~= views(before).push(n@));
        assert(views(names@) =~= ms@.subrange(0, i as int + 1).map_values(|m: Method| method_name(m)));
        i = i + 1;
    }
    assert(ms@.subrange(0, i as int) =~= ms@);
    let v = crate::text::join_from(&names, 0, COMMA);
    assert(views(names@).subrange(0, names@.len() as int) =~= views(names@));
    let mut headers: Vec<(Vec<u8>, Vec<u8>)> = Vec::new();
    let h = allow_header_exec();
    headers.push((h, v));
    let r = Response { status: 405, headers, body: Vec::new() };
    assert(r@.headers =~= seq![(allow_header(), allow_value(ms@))]);
    assert(r@.body =~= Seq::<u8>::empty());
    r
}

/// The status and description that a rejection converts to.
pub open spec fn rejection_spec(e: Rejection) -> ResponseV {
    let (status, text) = match e {
        Rejection::MissingField => (400u16, missing_field_text()),
        Rejection::TypeMismatch => (400u16, type_mismatch_text()),
        Rejection::DecodeError => (400u16, decode_error_text()),
        Rejection::BodyAlreadyConsumed => (500u16, body_consumed_text()),
        Rejection::StateNotRegistered => (500u16, internal_error_text()),
    };
    ResponseV { status, headers: seq![(content_type(), text_plain())], body: text }
}

/// Converts a rejection that the handler did not take on itself.
pub fn rejection_response(e: Rejection) -> (r: Response)
    ensures
        r@ == rejection_spec(e),
{
    let (status, text) = match e {
        Rejection::MissingField => (400u16, missing_field_text_exec()),
        Rejection::TypeMismatch => (400u16, type_mismatch_text_exec()),
        Rejection::DecodeError => (400u16, decode_error_text_exec()),
        Rejection::BodyAlreadyConsumed => (500u16, body_consumed_text_exec()),
        Rejection::StateNotRegistered => (500u16, internal_error_text_exec()),
    };
    let mut headers: Vec<(Vec<u8>, Vec<u8>)> = Vec::new();
    let a = content_type_exec();
    let b = text_plain_exec();
    headers.push((a, b));
    let r = Response { status, headers, body: text };
    assert(r@.headers =~= seq![(content_type(), text_plain())]);
    r
}

/// The response to an error that escaped every handler-level conversion:
/// 500 with a generic message; the detail stays with the server.
pub open spec fn unhandled_spec() -> ResponseV {
    ResponseV { status: 500, headers: seq![(content_type(), text_plain())], body: internal_error_text() }
}

/// The 500 response for an error that no handler converted.
pub fn unhandled_error() -> (r: Response)
    ensures
        r@ == unhandled_spec(),
{
    let mut headers: Vec<(Vec<u8>, Vec<u8>)> = Vec::new();
    let a = content_type_exec();
    let b = text_plain_exec();
    headers.push((a, b));
    let r = Response { status: 500, headers, body: internal_error_text_exec() };
    assert(r@.headers =~= seq![(content_type(), text_plain())]);
    r
}

/// An application error that carries its own status code and message.
#[derive(Debug)]
pub struct AppError {
    pub code: i32,
    pub message: Vec<u8>,
}

impl AppError {
    /// Converts the error into a response with its code as status and its
    /// message as plain text. The code, taken as a `u16`, must be a valid
    /// status code.
    pub fn into_response(self) -> (r: Response)
        requires
            100 <= (self.code as u16) <= 999,
        ensures
            r@ == reply_spec(
                ReplyV {
                    status: Some(self.code as u16),
                    headers: Seq::empty(),
                    cookies: Seq::empty(),
                    body: BodyPartV::Text(self.message@),
                },
            ),
    {
        let reply = Reply {
            status: Some(self.code as u16),
            headers: Vec::new(),
            cookies: Vec::new(),
            body: BodyPart::Text(self.message),
        };
        assert(reply@.headers =~= Seq::<(Seq<u8>, Seq<u8>)>::empty());
        assert(reply@.cookies =~= Seq::<(Seq<u8>, Seq<u8>)>::empty());
        reply.into_response()
    }
}

} // verus!
