//! Route patterns: compiling `/a/{id}/{*rest}` into segments, splitting a
//! request path, and matching the two with literal-over-capture priority.
use vstd::prelude::*;
use crate::text::{pair_views, lookup, lookup_spec, split, split_spec, views, join_from, join_spec, bytes_eq, copy_range, lemma_split_nonempty};

verus! {

pub const SLASH: u8 = 47;
pub const OPEN_BRACE: u8 = 123;
pub const CLOSE_BRACE: u8 = 125;
pub const STAR: u8 = 42;

/// The mathematical form of one pattern segment.
pub ghost enum Seg {
    Lit(Seq<u8>),
    Cap(Seq<u8>),
    Wild(Seq<u8>),
}

/// One compiled pattern segment.
#[derive(Debug)]
pub enum Segment {
    /// Matches exactly this text.
    Literal(Vec<u8>),
    /// Matches any one segment and binds it under this name.
    Capture(Vec<u8>),
    /// Matches the rest of the path (one segment or more) and binds it.
    Wildcard(Vec<u8>),
}

impl View for Segment {
    type V = Seg;

    open spec fn view(&self) -> Seg {
        match self {
            Segment::Literal(t) => Seg::Lit(t@),
            Segment::Capture(n) => Seg::Cap(n@),
            Segment::Wildcard(n) => Seg::Wild(n@),
        }
    }
}

/// Why a pattern was refused.
#[derive(Clone, Copy, Debug, PartialEq, Eq, Structural)]
pub enum PatternError {
    /// The pattern does not start with `/`.
    MissingLeadingSlash,
    /// A segment holds a brace outside the `{name}` / `{*name}` forms, or an empty name.
    MalformedSegment,
    /// A `{*name}` segment is not the last one.
    WildcardNotLast,
    /// Two captures share a name.
    DuplicateName,
}

/// The views of a sequence of segments.
pub open spec fn seg_views(v: Seq<Segment>) -> Seq<Seg> {
    v.map_values(|s: Segment| s@)
}

/// A compiled route pattern.
#[derive(Debug)]
pub struct Pattern {
    pub segments: Vec<Segment>,
}

impl View for Pattern {
    type V = Seq<Seg>;

    open spec fn view(&self) -> Seq<Seg> {
        seg_views(self.segments@)
    }
}

/// No byte is a brace.
pub open spec fn no_braces(s: Seq<u8>) -> bool {
    forall|i: int| 0 <= i < s.len() ==> s[i] != OPEN_BRACE && s[i] != CLOSE_BRACE
}

/// A capture name: non-empty, without braces or `*`.
pub open spec fn valid_name(s: Seq<u8>) -> bool {
    s.len() > 0 && no_braces(s) && forall|i: int| 0 <= i < s.len() ==> s[i] != STAR
}

/// How one segment of pattern text reads, if it is well formed.
pub open spec fn parse_segment_spec(s: Seq<u8>) -> Option<Seg> {
    if s.len() >= 2 && s[0] == OPEN_BRACE && s.last() == CLOSE_BRACE {
        let inner = s.subrange(1, s.len() - 1);
        if inner.len() >= 1 && inner[0] == STAR {
            if valid_name(inner.drop_first()) {
                Some(Seg::Wild(inner.drop_first()))
            } else {
                None
            }
        } else if valid_name(inner) {
            Some(Seg::Cap(inner))
        } else {
            None
        }
    } else if no_braces(s) {
        Some(Seg::Lit(s))
    } else {
        None
    }
}

/// `p` with one trailing slash removed, unless `p` is just `/`.
pub open spec fn trim_spec(p: Seq<u8>) -> Seq<u8> {
    if p.len() > 1 && p.last() == SLASH {
        p.drop_last()
    } else {
        p
    }
}

/// The segments of a path or pattern that starts with `/`.
pub open spec fn segments_spec(p: Seq<u8>) -> Seq<Seq<u8>> {
    split_spec(trim_spec(p).drop_first(), SLASH)
}

/// The text starts with `/`.
pub open spec fn starts_with_slash(p: Seq<u8>) -> bool {
    p.len() > 0 && p[0] == SLASH
}

/// The name a segment binds, if it binds one.
pub open spec fn name_of(s: Seg) -> Option<Seq<u8>> {
    match s {
        Seg::Lit(_) => None,
        Seg::Cap(n) => Some(n),
        Seg::Wild(n) => Some(n),
    }
}

/// Every segment text is well formed.
pub open spec fn all_parse(t: Seq<Seq<u8>>) -> bool {
    forall|i: int| 0 <= i < t.len() ==> parse_segment_spec(#[trigger] t[i]) is Some
}

/// The segments that well-formed segment texts read as.
pub open spec fn parsed(t: Seq<Seq<u8>>) -> Seq<Seg> {
    t.map_values(|x: Seq<u8>| parse_segment_spec(x)->Some_0)
}

/// No wildcard stands before the last segment.
pub open spec fn wild_only_last(p: Seq<Seg>) -> bool {
    forall|i: int| 0 <= i < p.len() - 1 ==> !(#[trigger] p[i] is Wild)
}

/// No two segments bind the same name.
pub open spec fn names_unique(p: Seq<Seg>) -> bool {
    forall|i: int, j: int|
        0 <= i < j < p.len() && name_of(#[trigger] p[i]) is Some && name_of(#[trigger] p[j]) is Some
            ==> name_of(p[i]) != name_of(p[j])
}

/// A well-formed compiled pattern.
pub open spec fn wf_pattern(p: Seq<Seg>) -> bool {
    p.len() >= 1 && wild_only_last(p) && names_unique(p)
}

/// What compiling the pattern text `t` gives.
pub open spec fn compile_spec(t: Seq<u8>) -> Result<Seq<Seg>, PatternError> {
    if !starts_with_slash(t) {
        Err(PatternError::MissingLeadingSlash)
    } else if !all_parse(segments_spec(t)) {
        Err(PatternError::MalformedSegment)
    } else if !wild_only_last(parsed(segments_spec(t))) {
        Err(PatternError::WildcardNotLast)
    } else if !names_unique(parsed(segments_spec(t))) {
        Err(PatternError::DuplicateName)
    } else {
        Ok(parsed(segments_spec(t)))
    }
}

/// Splits a path that starts with `/` into its segments, after removing one
/// trailing slash; `None` for a path without the leading slash.
pub fn path_segments(p: &[u8]) -> (r: Option<Vec<Vec<u8>>>)
    ensures
        r is Some <==> starts_with_slash(p@),
        r is Some ==> views(r->Some_0@) == segments_spec(p@),
{
    if p.len() == 0 || p[0] != SLASH {
        return None;
    }
    let end: usize = if p.len() > 1 && p[p.len() - 1] == SLASH { p.len() - 1 } else { p.len() };
    let body = copy_range(p, 1, end);
    assert(body@ == trim_spec(p@).drop_first());
    Some(split(body.as_slice(), SLASH))
}

fn no_braces_exec(s: &[u8]) -> (r: bool)
    ensures
        r == no_braces(s@),
{
    let mut i: usize = 0;
    while i < s.len()
        invariant
            i <= s@.len(),
            forall|k: int| 0 <= k < i ==> s@[k] != OPEN_BRACE && s@[k] != CLOSE_BRACE,
        decreases s.len() - i,
    {
        if s[i] == OPEN_BRACE || s[i] == CLOSE_BRACE {
            return false;
        }
        i = i + 1;
    }
    true
}

fn valid_name_exec(s: &[u8]) -> (r: bool)
    ensures
        r == valid_name(s@),
{
    if s.len() == 0 || !no_braces_exec(s) {
        return false;
    }
    let mut i: usize = 0;
    while i < s.len()
        invariant
            i <= s@.len(),
            forall|k: int| 0 <= k < i ==> s@[k] != STAR,
        decreases s.len() - i,
    {
        if s[i] == STAR {
            return false;
        }
        i = i + 1;
    }
    true
}

/// Reads one segment of pattern text.
pub fn parse_segment(s: &[u8]) -> (r: Option<Segment>)
    ensures
        r matches Some(x) ==> parse_segment_spec(s@) == Some(x@),
        r is None ==> parse_segment_spec(s@) is None,
{
    let n = s.len();
    if n >= 2 && s[0] == OPEN_BRACE && s[n - 1] == CLOSE_BRACE {
        if n >= 3 && s[1] == STAR {
            let name = copy_range(s, 2, n - 1);
            assert(name@ == s@.subrange(1, n - 1).drop_first());
            if valid_name_exec(name.as_slice()) {
                Some(Segment::Wildcard(name))
            } else {
                None
            }
        } else {
            let name = copy_range(s, 1, n - 1);
            assert(n >= 3 ==> name@[0] == s@[1]);
            if valid_name_exec(name.as_slice()) {
                Some(Segment::Capture(name))
            } else {
                None
            }
        }
    } else if no_braces_exec(s) {
        let t = copy_range(s, 0, n);
        assert(t@ == s@);
        Some(Segment::Literal(t))
    } else {
        None
    }
}

fn name_ref(s: &Segment) -> (r: Option<&Vec<u8>>)
    ensures
        r matches Some(n) ==> name_of(s@) == Some(n@),
        r is None ==> name_of(s@) is None,
{
    match s {
        Segment::Literal(_) => None,
        Segment::Capture(n) => Some(n),
        Segment::Wildcard(n) => Some(n),
    }
}

/// What checking a sequence of segments gives.
pub open spec fn validate_spec(p: Seq<Seg>) -> Result<Seq<Seg>, PatternError> {
    if !wild_only_last(p) {
        Err(PatternError::WildcardNotLast)
    } else if !names_unique(p) {
        Err(PatternError::DuplicateName)
    } else {
        Ok(p)
    }
}

/// Checks that a wildcard comes only last and that names are unique.
pub fn validate(pat: Pattern) -> (r: Result<Pattern, PatternError>)
    ensures
        r matches Ok(q) ==> validate_spec(pat@) == Ok::<Seq<Seg>, PatternError>(q@),
        r matches Err(e) ==> validate_spec(pat@) == Err::<Seq<Seg>, PatternError>(e),
{
    let n = pat.segments.len();
    let mut j: usize = 0;
    while n > 0 && j < n - 1
        invariant
            n == pat@.len(),
            forall|k: int| 0 <= k < j && k < n - 1 ==> !(#[trigger] pat@[k] is Wild),
        decreases n - j,
    {
        if let Segment::Wildcard(_) = &pat.segments[j] {
            assert(pat@[j as int] is Wild);
            assert(!wild_only_last(pat@));
            return Err(PatternError::WildcardNotLast);
        }
        j = j + 1;
    }
    assert(wild_only_last(pat@));
    let mut a: usize = 0;
    while a < n
        invariant
            n == pat@.len(),
            wild_only_last(pat@),
            forall|x: int, y: int|
                0 <= x < a && x < y < n && name_of(#[trigger] pat@[x]) is Some
                    && name_of(#[trigger] pat@[y]) is Some ==> name_of(pat@[x]) != name_of(pat@[y]),
        decreases n - a,
    {
        if let Some(na) = name_ref(&pat.segments[a]) {
            let mut b: usize = a + 1;
            while b < n
                invariant
                    n == pat@.len(),
                    wild_only_last(pat@),
                    a < b <= n,
                    name_of(pat@[a as int]) == Some(na@),
                    forall|y: int|
                        a < y < b && name_of(#[trigger] pat@[y]) is Some ==> name_of(pat@[y]) != Some(na@),
                decreases n - b,
            {
                if let Some(nb) = name_ref(&pat.segments[b]) {
                    if bytes_eq(na.as_slice(), nb.as_slice()) {
                        assert(name_of(pat@[a as int]) == name_of(pat@[b as int]));
                        assert(!names_unique(pat@));
                        return Err(PatternError::DuplicateName);
                    }
                }
                b = b + 1;
            }
        }
        a = a + 1;
    }
    Ok(pat)
}

/// Compiles pattern text such as `/products/{id}/categories/{id_category}`.
pub fn compile(t: &[u8]) -> (r: Result<Pattern, PatternError>)
    ensures
        r matches Ok(p) ==> compile_spec(t@) == Ok::<Seq<Seg>, PatternError>(p@),
        r matches Err(e) ==> compile_spec(t@) == Err::<Seq<Seg>, PatternError>(e),
        r matches Ok(p) ==> wf_pattern(p@),
{
    let texts = match path_segments(t) {
        Some(x) => x,
        None => return Err(PatternError::MissingLeadingSlash),
    };
    let ghost tv = views(texts@);
    let mut segs: Vec<Segment> = Vec::new();
    let mut i: usize = 0;
    while i < texts.len()
        invariant
            tv == views(texts@),
            tv == segments_spec(t@),
            starts_with_slash(t@),
            i <= texts@.len(),
            segs@.len() == i,
            forall|k: int| 0 <= k < i ==> parse_segment_spec(#[trigger] tv[k]) == Some(segs@[k]@),
        decreases texts.len() - i,
    {
        match parse_segment(texts[i].as_slice()) {
            Some(x) => segs.push(x),
            None => {
                assert(parse_segment_spec(tv[i as int]) is None);
                assert(!all_parse(segments_spec(t@)));
                return Err(PatternError::MalformedSegment);
            },
        }
        i = i + 1;
    }
    let pat = Pattern { segments: segs };
    assert(all_parse(tv));
    assert(pat@ == parsed(tv));
    proof {
        lemma_split_nonempty(trim_spec(t@).drop_first(), SLASH);
    }
    validate(pat)
}

/// Whether a segment accepts one path segment.
pub open spec fn seg_matches(s: Seg, x: Seq<u8>) -> bool {
    match s {
        Seg::Lit(l) => l == x,
        _ => true,
    }
}

/// The pattern ends in a wildcard.
pub open spec fn has_wild(p: Seq<Seg>) -> bool {
    p.len() > 0 && p.last() is Wild
}

/// Whether the pattern `p` matches the path segments `xs`: literals equal
/// their segment, captures take any one segment, and a final wildcard takes
/// one segment or more.
pub open spec fn matches_spec(p: Seq<Seg>, xs: Seq<Seq<u8>>) -> bool {
    if has_wild(p) {
        xs.len() >= p.len() && forall|i: int| 0 <= i < p.len() - 1 ==> seg_matches(#[trigger] p[i], xs[i])
    } else {
        xs.len() == p.len() && forall|i: int| 0 <= i < p.len() ==> seg_matches(#[trigger] p[i], xs[i])
    }
}

/// Whether the pattern `p` matches the request path `path`.
pub open spec fn path_matches(p: Seq<Seg>, path: Seq<u8>) -> bool {
    starts_with_slash(path) && matches_spec(p, segments_spec(path))
}

/// The text that pattern position `i` binds: its segment, or for a wildcard
/// the remaining segments joined by `/`.
pub open spec fn value_at(p: Seq<Seg>, xs: Seq<Seq<u8>>, i: int) -> Seq<u8> {
    if p[i] is Wild {
        join_spec(xs.subrange(i, xs.len() as int), SLASH)
    } else {
        xs[i]
    }
}

/// The bindings of the first `k` segments of `p`.
pub open spec fn bindings_upto(p: Seq<Seg>, xs: Seq<Seq<u8>>, k: int) -> Seq<(Seq<u8>, Seq<u8>)>
    decreases k,
{
    if k <= 0 {
        Seq::empty()
    } else {
        let prev = bindings_upto(p, xs, k - 1);
        match name_of(p[k - 1]) {
            Some(n) => prev.push((n, value_at(p, xs, k - 1))),
            None => prev,
        }
    }
}

/// The name/value bindings of every capture and wildcard of `p`, in order.
pub open spec fn bindings_spec(p: Seq<Seg>, xs: Seq<Seq<u8>>) -> Seq<(Seq<u8>, Seq<u8>)> {
    bindings_upto(p, xs, p.len() as int)
}

/// The named values bound by a successful match.
#[derive(Debug)]
pub struct Bindings {
    pub pairs: Vec<(Vec<u8>, Vec<u8>)>,
}

impl View for Bindings {
    type V = Seq<(Seq<u8>, Seq<u8>)>;

    open spec fn view(&self) -> Seq<(Seq<u8>, Seq<u8>)> {
        pair_views(self.pairs@)
    }
}

impl Bindings {
    /// The text bound to `name`.
    pub fn get(&self, name: &[u8]) -> (r: Option<&Vec<u8>>)
        ensures
            r matches Some(v) ==> lookup_spec(self@, name@) == Some(v@),
            r is None ==> lookup_spec(self@, name@) is None,
    {
        lookup(&self.pairs, name)
    }
}

fn seg_matches_exec(s: &Segment, x: &[u8]) -> (r: bool)
    ensures
        r == seg_matches(s@, x@),
{
    match s {
        Segment::Literal(l) => bytes_eq(l.as_slice(), x),
        _ => true,
    }
}

impl Pattern {
    /// Matches path segments against this pattern, binding its names.
    pub fn match_segments(&self, xs: &Vec<Vec<u8>>) -> (r: Option<Bindings>)
        ensures
            r is Some <==> matches_spec(self@, views(xs@)),
            r matches Some(b) ==> b@ == bindings_spec(self@, views(xs@)),
    {
        let n = self.segments.len();
        let wild = n > 0 && matches!(self.segments[n - 1], Segment::Wildcard(_));
        assert(wild == has_wild(self@));
        if wild {
            if xs.len() < n {
                return None;
            }
        } else if xs.len() != n {
            return None;
        }
        let ghost p = self@;
        let ghost xv = views(xs@);
        let mut pairs: Vec<(Vec<u8>, Vec<u8>)> = Vec::new();
        let mut i: usize = 0;
        while i < n
            invariant
                n == p.len(),
                p == self@,
                xv == views(xs@),
                xs@.len() >= n,
                wild == has_wild(p),
                !wild ==> xs@.len() == n,
                i <= n,
                forall|k: int| 0 <= k < i ==> seg_matches(#[trigger] p[k], xv[k]),
                pair_views(pairs@) == bindings_upto(p, xv, i as int),
            decreases n - i,
        {
            let s = &self.segments[i];
            let ghost before = pairs@;
            match s {
                Segment::Literal(l) => {
                    if !bytes_eq(l.as_slice(), xs[i].as_slice()) {
                        assert(!seg_matches(p[i as int], xv[i as int]));
                        return None;
                    }
                },
                Segment::Capture(name) => {
                    let v = copy_range(xs[i].as_slice(), 0, xs[i].len());
                    assert(v@ == xv[i as int]);
                    let nm = copy_range(name.as_slice(), 0, name.len());
                    assert(nm@ =~= name@);
                    pairs.push((nm, v));
                    assert(pair_views(pairs@) =~= pair_views(before).push((name@, v@)));
                },
                Segment::Wildcard(name) => {
                    let v = join_from(xs, i, SLASH);
                    let nm = copy_range(name.as_slice(), 0, name.len());
                    assert(nm@ =~= name@);
                    pairs.push((nm, v));
                    assert(pair_views(pairs@) =~= pair_views(before).push((name@, v@)));
                },
            }
            proof {
                assert(name_of(p[i as int]) is None ==> pairs@ == before);
            }
            i = i + 1;
        }
        Some(Bindings { pairs })
    }
}

impl Segment {
    /// A copy of this segment.
    pub fn copy(&self) -> (r: Segment)
        ensures
            r@ == self@,
    {
        match self {
            Segment::Literal(t) => {
                let c = copy_range(t.as_slice(), 0, t.len());
                assert(c@ =~= t@);
                Segment::Literal(c)
            },
            Segment::Capture(t) => {
                let c = copy_range(t.as_slice(), 0, t.len());
                assert(c@ =~= t@);
                Segment::Capture(c)
            },
            Segment::Wildcard(t) => {
                let c = copy_range(t.as_slice(), 0, t.len());
                assert(c@ =~= t@);
                Segment::Wildcard(c)
            },
        }
    }
}

fn append_segments(dst: &mut Vec<Segment>, src: &Vec<Segment>)
    ensures
        seg_views(final(dst)@) == seg_views(old(dst)@) + seg_views(src@),
{
    let ghost start = seg_views(dst@);
    let mut i: usize = 0;
    while i < src.len()
        invariant
            i <= src@.len(),
            seg_views(dst@) == start + seg_views(src@).subrange(0, i as int),
        decreases src.len() - i,
    {
        let ghost before = dst@;
        let c = src[i].copy();
        dst.push(c);
        assert(dst@ == before.push(c));
        assert(seg_views(dst@) =~= seg_views(before).push(c@));
        assert(seg_views(dst@) =~= start + seg_views(src@).subrange(0, i as int + 1));
        i = i + 1;
    }
    assert(seg_views(src@).subrange(0, i as int) =~= seg_views(src@));
}

/// The pattern `p` placed under `prefix`; a sub-pattern that is just `/`
/// stands for the prefix itself.
pub open spec fn nest_spec(prefix: Seq<Seg>, p: Seq<Seg>) -> Seq<Seg> {
    if p == seq![Seg::Lit(Seq::<u8>::empty())] {
        prefix
    } else {
        prefix + p
    }
}

impl Pattern {
    /// A copy of this pattern.
    pub fn copy(&self) -> (r: Pattern)
        ensures
            r@ == self@,
    {
        let mut v: Vec<Segment> = Vec::new();
        append_segments(&mut v, &self.segments);
        let r = Pattern { segments: v };
        assert(r@ =~= self@);
        r
    }

    /// This pattern placed under `prefix`, checked again as a whole.
    pub fn nested(&self, prefix: &Pattern) -> (r: Result<Pattern, PatternError>)
        ensures
            r matches Ok(q) ==> validate_spec(nest_spec(prefix@, self@)) == Ok::<Seq<Seg>, PatternError>(q@),
            r matches Err(e) ==> validate_spec(nest_spec(prefix@, self@)) == Err::<Seq<Seg>, PatternError>(e),
    {
        let mut v: Vec<Segment> = Vec::new();
        append_segments(&mut v, &prefix.segments);
        let mut root = false;
        if self.segments.len() == 1 {
            if let Segment::Literal(t) = &self.segments[0] {
                if t.len() == 0 {
                    assert(t@ =~= Seq::<u8>::empty());
                    root = true;
                }
            }
        }
        proof {
            if self@ == seq![Seg::Lit(Seq::<u8>::empty())] {
                assert(self@[0] == Seg::Lit(Seq::<u8>::empty()));
            }
            if root {
                assert(self@ =~= seq![Seg::Lit(Seq::<u8>::empty())]);
            }
        }
        if !root {
            append_segments(&mut v, &self.segments);
        }
        let q = Pattern { segments: v };
        assert(q@ =~= nest_spec(prefix@, self@));
        validate(q)
    }
}

} // verus!
