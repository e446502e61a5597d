//! The request context: method, path, query, headers and a body that can be
//! taken once, with the parsers for query strings and cookies.
use vstd::prelude::*;
use crate::text::{split, split_spec, views, copy_range, lookup, lookup_spec, pair_views};
use crate::router::Method;

verus! {

pub const QUESTION: u8 = 63;
pub const EQUALS: u8 = 61;
pub const SEMICOLON: u8 = 59;
pub const SPACE: u8 = 32;

/// Whether `i` is the first position of `c` in `s`.
pub open spec fn first_at(s: Seq<u8>, c: u8, i: int) -> bool {
    0 <= i < s.len() && s[i] == c && forall|k: int| 0 <= k < i ==> s[k] != c
}

/// `s` cut at the first `c`: the text before it and, if `c` occurs, the text after it.
pub open spec fn cut_spec(s: Seq<u8>, c: u8) -> (Seq<u8>, Option<Seq<u8>>) {
    if exists|i: int| first_at(s, c, i) {
        let i = choose|i: int| first_at(s, c, i);
        (s.subrange(0, i), Some(s.subrange(i + 1, s.len() as int)))
    } else {
        (s, None)
    }
}

/// Cuts `s` at the first `c`.
pub fn cut(s: &[u8], c: u8) -> (r: (Vec<u8>, Option<Vec<u8>>))
    ensures
        r.0@ == cut_spec(s@, c).0,
        r.1 is Some <==> cut_spec(s@, c).1 is Some,
        r.1 matches Some(t) ==> cut_spec(s@, c).1 == Some(t@),
{
    let mut i: usize = 0;
    while i < s.len()
        invariant
            i <= s@.len(),
            forall|k: int| 0 <= k < i ==> s@[k] != c,
        decreases s.len() - i,
    {
        if s[i] == c {
            proof {
                assert(first_at(s@, c, i as int));
                let j = choose|j: int| first_at(s@, c, j);
                assert(j == i);
            }
            return (copy_range(s, 0, i), Some(copy_range(s, i + 1, s.len())));
        }
        i = i + 1;
    }
    let whole = copy_range(s, 0, s.len());
    assert(whole@ =~= s@);
    (whole, None)
}

/// A query or cookie piece read as a name and a value; without `=` the
/// value is empty.
pub open spec fn pair_spec(s: Seq<u8>) -> (Seq<u8>, Seq<u8>) {
    let c = cut_spec(s, EQUALS);
    (
        c.0,
        match c.1 {
            Some(v) => v,
            None => Seq::empty(),
        },
    )
}

fn pair_of(s: &[u8]) -> (r: (Vec<u8>, Vec<u8>))
    ensures
        (r.0@, r.1@) == pair_spec(s@),
{
    let (k, v) = cut(s, EQUALS);
    match v {
        Some(v) => (k, v),
        None => {
            let e: Vec<u8> = Vec::new();
            assert(e@ =~= Seq::<u8>::empty());
            (k, e)
        },
    }
}

/// The name/value pairs that a URL-encoded query or form body decodes to.
pub uninterp spec fn form_pairs(q: Seq<u8>) -> Seq<(Seq<u8>, Seq<u8>)>;

/// Relies on `form_urlencoded::parse`: the pairs of the non-empty
/// `&`-separated pieces, each cut at its first `=`, with `+` and percent
/// escapes decoded. They depend on the bytes alone; an empty input has none.
#[verifier::external_body]
fn parse_form(q: &[u8]) -> (r: Vec<(Vec<u8>, Vec<u8>)>)
    ensures
        pair_views(r@) == form_pairs(q@),
        q@.len() == 0 ==> r@.len() == 0,
{
    form_urlencoded::parse(q).map(|(k, v)| (k.as_bytes().to_vec(), v.as_bytes().to_vec())).collect()
}

/// A list of pairs read as a mapping: where a name repeats, the last pair wins.
pub open spec fn pairs_map(ps: Seq<(Seq<u8>, Seq<u8>)>) -> Map<Seq<u8>, Seq<u8>>
    decreases ps.len(),
{
    if ps.len() == 0 {
        Map::empty()
    } else {
        pairs_map(ps.drop_last()).insert(ps.last().0, ps.last().1)
    }
}

/// Looking a name up in a list of pairs agrees with the mapping it stands for.
pub proof fn lemma_lookup_map(ps: Seq<(Seq<u8>, Seq<u8>)>, k: Seq<u8>)
    ensures
        lookup_spec(ps, k) is Some <==> pairs_map(ps).contains_key(k),
        lookup_spec(ps, k) matches Some(v) ==> pairs_map(ps)[k] == v,
    decreases ps.len(),
{
    if ps.len() > 0 {
        lemma_lookup_map(ps.drop_last(), k);
    }
}

/// Decodes a URL-encoded query string or form body into its pairs.
pub fn parse_query(q: &[u8]) -> (r: Vec<(Vec<u8>, Vec<u8>)>)
    ensures
        pair_views(r@) == form_pairs(q@),
{
    parse_form(q)
}

/// `s` without its leading spaces.
pub open spec fn trim_spaces(s: Seq<u8>) -> Seq<u8>
    decreases s.len(),
{
    if s.len() > 0 && s[0] == SPACE {
        trim_spaces(s.drop_first())
    } else {
        s
    }
}

fn trim_start(s: &[u8]) -> (r: Vec<u8>)
    ensures
        r@ == trim_spaces(s@),
{
    let mut i: usize = 0;
    assert(s@.subrange(0, s@.len() as int) =~= s@);
    while i < s.len() && s[i] == SPACE
        invariant
            i <= s@.len(),
            trim_spaces(s@) == trim_spaces(s@.subrange(i as int, s@.len() as int)),
        decreases s.len() - i,
    {
        assert(s@.subrange(i as int, s@.len() as int).drop_first() =~= s@.subrange(i as int + 1, s@.len() as int));
        i = i + 1;
    }
    copy_range(s, i, s.len())
}

/// The name/value pairs of the `;`-separated pieces of a `Cookie` header,
/// leading spaces removed, empty pieces left out.
pub open spec fn cookie_pairs_of(pieces: Seq<Seq<u8>>) -> Seq<(Seq<u8>, Seq<u8>)>
    decreases pieces.len(),
{
    if pieces.len() == 0 {
        Seq::empty()
    } else if trim_spaces(pieces.last()).len() == 0 {
        cookie_pairs_of(pieces.drop_last())
    } else {
        cookie_pairs_of(pieces.drop_last()).push(pair_spec(trim_spaces(pieces.last())))
    }
}

/// The pairs of a `Cookie` header value.
pub open spec fn cookie_pairs_spec(h: Seq<u8>) -> Seq<(Seq<u8>, Seq<u8>)> {
    cookie_pairs_of(split_spec(h, SEMICOLON))
}

/// Parses the value of a `Cookie` header into its name/value pairs.
pub fn parse_cookies(h: &[u8]) -> (r: Vec<(Vec<u8>, Vec<u8>)>)
    ensures
        pair_views(r@) == cookie_pairs_spec(h@),
{
    let pieces = split(h, SEMICOLON);
    let ghost pv = views(pieces@);
    let mut r: Vec<(Vec<u8>, Vec<u8>)> = Vec::new();
    let mut i: usize = 0;
    assert(pv.subrange(0, 0) =~= Seq::<Seq<u8>>::empty());
    while i < pieces.len()
        invariant
            pv == views(pieces@),
            i <= pv.len(),
            pair_views(r@) == cookie_pairs_of(pv.subrange(0, i as int)),
        decreases pieces.len() - i,
    {
        assert(pv.subrange(0, i as int + 1).drop_last() =~= pv.subrange(0, i as int));
        assert(pv[i as int] == pieces@[i as int]@);
        let t = trim_start(pieces[i].as_slice());
        if t.len() > 0 {
            let ghost before = r@;
            let p = pair_of(t.as_slice());
            r.push(p);
            assert(pair_views(r@) =~= pair_views(before).push((p.0@, p.1@)));
        }
        i = i + 1;
    }
    assert(pv.subrange(0, i as int) =~= pv);
    r
}

/// An ASCII capital made small; other bytes unchanged.
pub open spec fn lower_byte(b: u8) -> u8 {
    if 65 <= b <= 90 {
        (b + 32) as u8
    } else {
        b
    }
}

/// `s` with ASCII capitals made small: header names compare this way.
pub open spec fn lower_seq(s: Seq<u8>) -> Seq<u8> {
    s.map_values(|b: u8| lower_byte(b))
}

/// `s` with ASCII capitals made small.
pub fn to_lower(s: &[u8]) -> (r: Vec<u8>)
    ensures
        r@ == lower_seq(s@),
{
    let mut r: Vec<u8> = Vec::new();
    let mut i: usize = 0;
    while i < s.len()
        invariant
            i <= s@.len(),
            r@ == lower_seq(s@.subrange(0, i as int)),
        decreases s.len() - i,
    {
        let b = s[i];
        let l: u8 = if 65 <= b && b <= 90 { b + 32 } else { b };
        r.push(l);
        assert(r@ =~= lower_seq(s@.subrange(0, i as int + 1)));
        i = i + 1;
    }
    assert(s@.subrange(0, i as int) =~= s@);
    r
}

/// Why an extractor could not produce its value.
#[derive(Clone, Copy, Debug, PartialEq, Eq, Structural)]
pub enum Rejection {
    /// The header, query key, cookie or path name is absent.
    MissingField,
    /// The text is there but does not parse as the requested type.
    TypeMismatch,
    /// The body does not decode.
    DecodeError,
    /// The body was already taken by an earlier extractor.
    BodyAlreadyConsumed,
    /// The shared state that the extractor names was never registered.
    StateNotRegistered,
}

/// An incoming request. `body` is `None` once an extractor has taken it.
#[derive(Debug)]
pub struct Request {
    pub method: Method,
    pub path: Vec<u8>,
    pub query: Vec<u8>,
    pub headers: Vec<(Vec<u8>, Vec<u8>)>,
    pub body: Option<Vec<u8>>,
}

/// The value of header `name` in `hs`: names compare without case, the last one wins.
pub open spec fn header_spec(hs: Seq<(Seq<u8>, Seq<u8>)>, name: Seq<u8>) -> Option<Seq<u8>> {
    lookup_spec(hs, lower_seq(name))
}

/// The header name `cookie`.
pub open spec fn cookie_header() -> Seq<u8> {
    seq![99u8, 111u8, 111u8, 107u8, 105u8, 101u8]
}

fn cookie_header_exec() -> (r: Vec<u8>)
    ensures
        r@ == cookie_header(),
{
    let r: Vec<u8> = vec![99u8, 111u8, 111u8, 107u8, 105u8, 101u8];
    assert(r@ =~= cookie_header());
    r
}

fn copy_of(v: &Vec<u8>) -> (r: Vec<u8>)
    ensures
        r@ == v@,
{
    let r = copy_range(v.as_slice(), 0, v.len());
    assert(r@ =~= v@);
    r
}

/// The text of a required value: present, or a missing-field rejection.
pub open spec fn required(v: Option<Seq<u8>>) -> Result<Seq<u8>, Rejection> {
    match v {
        Some(x) => Ok(x),
        None => Err(Rejection::MissingField),
    }
}

/// The view of a text extraction result.
pub open spec fn text_result(r: Result<Vec<u8>, Rejection>) -> Result<Seq<u8>, Rejection> {
    match r {
        Ok(v) => Ok(v@),
        Err(e) => Err(e),
    }
}

/// `hs` without the pairs named `k`, the others in order.
pub open spec fn remove_spec(hs: Seq<(Seq<u8>, Seq<u8>)>, k: Seq<u8>) -> Seq<(Seq<u8>, Seq<u8>)>
    decreases hs.len(),
{
    if hs.len() == 0 {
        Seq::empty()
    } else {
        let rest = remove_spec(hs.drop_last(), k);
        if hs.last().0 == k {
            rest
        } else {
            rest.push(hs.last())
        }
    }
}

/// `hs` with header `name` set to `value`: every earlier pair of that name
/// (compared without case) removed, then the new pair added.
pub open spec fn set_spec(hs: Seq<(Seq<u8>, Seq<u8>)>, name: Seq<u8>, value: Seq<u8>) -> Seq<(Seq<u8>, Seq<u8>)> {
    remove_spec(hs, lower_seq(name)).push((lower_seq(name), value))
}

proof fn lemma_remove_clean(hs: Seq<(Seq<u8>, Seq<u8>)>, k: Seq<u8>)
    ensures
        forall|i: int| 0 <= i < remove_spec(hs, k).len() ==> (#[trigger] remove_spec(hs, k)[i]).0 != k,
        remove_spec(remove_spec(hs, k), k) == remove_spec(hs, k),
    decreases hs.len(),
{
    if hs.len() > 0 {
        lemma_remove_clean(hs.drop_last(), k);
        let r = remove_spec(hs, k);
        if hs.last().0 != k {
            assert(r.drop_last() =~= remove_spec(hs.drop_last(), k));
        }
    }
}

/// Setting a header leaves exactly one pair of that name, holding the new
/// value, and setting it again to the same value changes nothing.
pub proof fn lemma_set_header(hs: Seq<(Seq<u8>, Seq<u8>)>, name: Seq<u8>, value: Seq<u8>)
    ensures
        header_spec(set_spec(hs, name, value), name) == Some(value),
        forall|i: int|
            0 <= i < set_spec(hs, name, value).len() - 1 ==> (#[trigger] set_spec(hs, name, value)[i]).0
                != lower_seq(name),
        set_spec(set_spec(hs, name, value), name, value) == set_spec(hs, name, value),
{
    let k = lower_seq(name);
    let once = set_spec(hs, name, value);
    lemma_remove_clean(hs, k);
    assert(once.drop_last() =~= remove_spec(hs, k));
    assert(remove_spec(once, k) == remove_spec(remove_spec(hs, k), k));
}

impl Request {
    /// A request for `target`, a path with an optional `?query`; no headers, an empty body.
    pub fn new(method: Method, target: &[u8]) -> (r: Request)
        ensures
            r.method == method,
            r.path@ == cut_spec(target@, QUESTION).0,
            r.query@ == match cut_spec(target@, QUESTION).1 {
                Some(q) => q,
                None => Seq::empty(),
            },
            r.headers@.len() == 0,
            r.body matches Some(b) && b@.len() == 0,
    {
        let (path, q) = cut(target, QUESTION);
        let query = match q {
            Some(q) => q,
            None => {
                let e: Vec<u8> = Vec::new();
                assert(e@ =~= Seq::<u8>::empty());
                e
            },
        };
        Request { method, path, query, headers: Vec::new(), body: Some(Vec::new()) }
    }

    /// Adds a header; its name is kept in small letters.
    pub fn add_header(&mut self, name: &[u8], value: &[u8])
        ensures
            pair_views(final(self).headers@) == pair_views(old(self).headers@).push(
                (lower_seq(name@), value@),
            ),
            final(self).method == old(self).method,
            final(self).path == old(self).path,
            final(self).query == old(self).query,
            final(self).body == old(self).body,
    {
        let n = to_lower(name);
        let v = copy_range(value, 0, value.len());
        assert(v@ =~= value@);
        self.headers.push((n, v));
        assert(pair_views(self.headers@) =~= pair_views(old(self).headers@).push((lower_seq(name@), value@)));
    }

    /// Sets header `name` to `value`, replacing every earlier value of that
    /// name; the name is kept in small letters.
    pub fn set_header(&mut self, name: &[u8], value: &[u8])
        ensures
            pair_views(final(self).headers@) == set_spec(pair_views(old(self).headers@), name@, value@),
            final(self).method == old(self).method,
            final(self).path == old(self).path,
            final(self).query == old(self).query,
            final(self).body == old(self).body,
    {
        let n = to_lower(name);
        let ghost hv = pair_views(self.headers@);
        let mut kept: Vec<(Vec<u8>, Vec<u8>)> = Vec::new();
        let mut i: usize = 0;
        assert(hv.subrange(0, 0) =~= Seq::<(Seq<u8>, Seq<u8>)>::empty());
        while i < self.headers.len()
            invariant
                hv == pair_views(self.headers@),
                self.headers == old(self).headers,
                n@ == lower_seq(name@),
                i <= hv.len(),
                pair_views(kept@) == remove_spec(hv.subrange(0, i as int), n@),
            decreases self.headers.len() - i,
        {
            assert(hv.subrange(0, i as int + 1).drop_last() =~= hv.subrange(0, i as int));
            assert(hv[i as int] == (self.headers@[i as int].0@, self.headers@[i as int].1@));
            if !crate::text::bytes_eq(self.headers[i].0.as_slice(), n.as_slice()) {
                let ghost before = kept@;
                let a = copy_of(&self.headers[i].0);
                let b = copy_of(&self.headers[i].1);
                kept.push((a, b));
                assert(pair_views(kept@) =~= pair_views(before).push((a@, b@)));
            }
            i = i + 1;
        }
        assert(hv.subrange(0, i as int) =~= hv);
        let v = copy_range(value, 0, value.len());
        assert(v@ =~= value@);
        let ghost before = kept@;
        kept.push((n, v));
        assert(pair_views(kept@) =~= pair_views(before).push((lower_seq(name@), value@)));
        self.headers = kept;
    }

    /// Sets the body.
    pub fn set_body(&mut self, body: Vec<u8>)
        ensures
            final(self).body == Some(body),
            final(self).method == old(self).method,
            final(self).path == old(self).path,
            final(self).query == old(self).query,
            final(self).headers == old(self).headers,
    {
        self.body = Some(body);
    }

    /// The value of header `name`, compared without case.
    pub fn header(&self, name: &[u8]) -> (r: Result<Vec<u8>, Rejection>)
        ensures
            text_result(r) == required(header_spec(pair_views(self.headers@), name@)),
    {
        let n = to_lower(name);
        match lookup(&self.headers, n.as_slice()) {
            Some(v) => Ok(copy_of(v)),
            None => Err(Rejection::MissingField),
        }
    }

    /// The query string as name/value pairs.
    pub fn query_pairs(&self) -> (r: Vec<(Vec<u8>, Vec<u8>)>)
        ensures
            pair_views(r@) == form_pairs(self.query@),
    {
        parse_query(self.query.as_slice())
    }

    /// The value of query key `key`; where it repeats, the last one.
    pub fn query_param(&self, key: &[u8]) -> (r: Result<Vec<u8>, Rejection>)
        ensures
            text_result(r) == required(lookup_spec(form_pairs(self.query@), key@)),
    {
        let ps = parse_query(self.query.as_slice());
        match lookup(&ps, key) {
            Some(v) => Ok(copy_of(v)),
            None => Err(Rejection::MissingField),
        }
    }

    /// The value of cookie `name` from the `Cookie` header.
    pub fn cookie(&self, name: &[u8]) -> (r: Result<Vec<u8>, Rejection>)
        ensures
            text_result(r) == match header_spec(pair_views(self.headers@), cookie_header()) {
                Some(h) => required(lookup_spec(cookie_pairs_spec(h), name@)),
                None => Err(Rejection::MissingField),
            },
    {
        let ch = cookie_header_exec();
        match self.header(ch.as_slice()) {
            Ok(h) => {
                let ps = parse_cookies(h.as_slice());
                match lookup(&ps, name) {
                    Some(v) => Ok(copy_of(v)),
                    None => Err(Rejection::MissingField),
                }
            },
            Err(e) => Err(e),
        }
    }

    /// Takes the body; it can be taken once.
    pub fn take_body(&mut self) -> (r: Result<Vec<u8>, Rejection>)
        ensures
            r matches Ok(b) ==> old(self).body == Some(b),
            r is Err <==> old(self).body is None,
            r matches Err(e) ==> e == Rejection::BodyAlreadyConsumed,
            final(self).body is None,
            final(self).method == old(self).method,
            final(self).path == old(self).path,
            final(self).query == old(self).query,
            final(self).headers == old(self).headers,
    {
        match self.body.take() {
            Some(b) => Ok(b),
            None => Err(Rejection::BodyAlreadyConsumed),
        }
    }
}

} // verus!
