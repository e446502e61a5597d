//! Byte-string helpers shared by the path, query and cookie parsers.
use vstd::prelude::*;

verus! {

/// The pieces of `s` between occurrences of `sep`, in order. Every input
/// has at least one piece; an empty input has exactly one empty piece.
pub open spec fn split_spec(s: Seq<u8>, sep: u8) -> Seq<Seq<u8>>
    decreases s.len(),
{
    if s.len() == 0 {
        seq![Seq::<u8>::empty()]
    } else {
        let prev = split_spec(s.drop_last(), sep);
        if s.last() == sep {
            prev.push(Seq::<u8>::empty())
        } else {
            prev.update(prev.len() - 1, prev.last().push(s.last()))
        }
    }
}

/// Splitting always gives at least one piece.
pub proof fn lemma_split_nonempty(s: Seq<u8>, sep: u8)
    ensures
        split_spec(s, sep).len() >= 1,
    decreases s.len(),
{
    if s.len() > 0 {
        lemma_split_nonempty(s.drop_last(), sep);
    }
}

/// The views of a vector of byte vectors.
pub open spec fn views(v: Seq<Vec<u8>>) -> Seq<Seq<u8>> {
    v.map_values(|x: Vec<u8>| x@)
}

/// Splits `s` at every occurrence of `sep`.
pub fn split(s: &[u8], sep: u8) -> (r: Vec<Vec<u8>>)
    ensures
        views(r@) == split_spec(s@, sep),
{
    let mut pieces: Vec<Vec<u8>> = Vec::new();
    let mut cur: Vec<u8> = Vec::new();
    let mut i: usize = 0;
    while i < s.len()
        invariant
            i <= s.len(),
            views(pieces@).push(cur@) == split_spec(s@.subrange(0, i as int), sep),
        decreases s.len() - i,
    {
        let c = s[i];
        proof {
            let t = s@.subrange(0, i as int + 1);
            assert(t.drop_last() == s@.subrange(0, i as int));
            assert(t.last() == c);
        }
        if c == sep {
            let done = cur;
            pieces.push(done);
            cur = Vec::new();
            proof {
                assert(views(pieces@) == views(pieces@).drop_last().push(done@));
            }
        } else {
            let ghost before = cur@;
            cur.push(c);
            proof {
                let p = views(pieces@).push(before);
                assert(views(pieces@).push(cur@) == p.update(p.len() - 1, p.last().push(c)));
            }
        }
        i = i + 1;
    }
    assert(s@.subrange(0, s@.len() as int) == s@);
    pieces.push(cur);
    pieces
}

/// Copies `s[lo..hi]` into a new vector.
pub fn copy_range(s: &[u8], lo: usize, hi: usize) -> (r: Vec<u8>)
    requires
        lo <= hi <= s@.len(),
    ensures
        r@ == s@.subrange(lo as int, hi as int),
{
    let mut r: Vec<u8> = Vec::new();
    let mut i: usize = lo;
    while i < hi
        invariant
            lo <= i <= hi <= s@.len(),
            r@ == s@.subrange(lo as int, i as int),
        decreases hi - i,
    {
        r.push(s[i]);
        assert(r@ == s@.subrange(lo as int, i as int + 1));
        i = i + 1;
    }
    r
}

/// Whether two byte strings are equal.
pub fn bytes_eq(a: &[u8], b: &[u8]) -> (r: bool)
    ensures
        r == (a@ == b@),
{
    if a.len() != b.len() {
        return false;
    }
    let mut i: usize = 0;
    while i < a.len()
        invariant
            a@.len() == b@.len(),
            i <= a@.len(),
            a@.subrange(0, i as int) == b@.subrange(0, i as int),
        decreases a.len() - i,
    {
        if a[i] != b[i] {
            assert(a@[i as int] != b@[i as int]);
            return false;
        }
        assert(a@.subrange(0, i as int + 1) == a@.subrange(0, i as int).push(a@[i as int]));
        assert(b@.subrange(0, i as int + 1) == b@.subrange(0, i as int).push(b@[i as int]));
        i = i + 1;
    }
    assert(a@ == a@.subrange(0, i as int));
    assert(b@ == b@.subrange(0, i as int));
    true
}

/// The pieces of `ss` joined with `sep` between neighbours.
pub open spec fn join_spec(ss: Seq<Seq<u8>>, sep: u8) -> Seq<u8>
    decreases ss.len(),
{
    if ss.len() == 0 {
        Seq::<u8>::empty()
    } else if ss.len() == 1 {
        ss[0]
    } else {
        join_spec(ss.drop_last(), sep).push(sep) + ss.last()
    }
}

/// Joins `ss[lo..]` with `sep` between neighbours.
pub fn join_from(ss: &Vec<Vec<u8>>, lo: usize, sep: u8) -> (r: Vec<u8>)
    requires
        lo <= ss@.len(),
    ensures
        r@ == join_spec(views(ss@).subrange(lo as int, ss@.len() as int), sep),
{
    let mut r: Vec<u8> = Vec::new();
    let mut i: usize = lo;
    while i < ss.len()
        invariant
            lo <= i <= ss@.len(),
            r@ == join_spec(views(ss@).subrange(lo as int, i as int), sep),
        decreases ss.len() - i,
    {
        let ghost before = r@;
        let piece = &ss[i];
        if i > lo {
            r.push(sep);
        }
        let mut k: usize = 0;
        let ghost mid = r@;
        while k < piece.len()
            invariant
                k <= piece@.len(),
                r@ == mid + piece@.subrange(0, k as int),
            decreases piece.len() - k,
        {
            r.push(piece[k]);
            assert(piece@.subrange(0, k as int + 1) == piece@.subrange(0, k as int).push(piece@[k as int]));
            k = k + 1;
        }
        proof {
            let all = views(ss@);
            let next = all.subrange(lo as int, i as int + 1);
            assert(next.drop_last() == all.subrange(lo as int, i as int));
            assert(next.last() == piece@);
            assert(piece@.subrange(0, piece@.len() as int) == piece@);
            if i == lo {
                assert(next.len() == 1);
            }
        }
        i = i + 1;
    }
    r
}

/// The views of a vector of name/value pairs.
pub open spec fn pair_views(v: Seq<(Vec<u8>, Vec<u8>)>) -> Seq<(Seq<u8>, Seq<u8>)> {
    v.map_values(|x: (Vec<u8>, Vec<u8>)| (x.0@, x.1@))
}

/// The value of the last pair named `k`, if any.
pub open spec fn lookup_spec(ps: Seq<(Seq<u8>, Seq<u8>)>, k: Seq<u8>) -> Option<Seq<u8>>
    decreases ps.len(),
{
    if ps.len() == 0 {
        None
    } else if ps.last().0 == k {
        Some(ps.last().1)
    } else {
        lookup_spec(ps.drop_last(), k)
    }
}

/// Finds the value of the last pair named `k`.
pub fn lookup<'a>(ps: &'a Vec<(Vec<u8>, Vec<u8>)>, k: &[u8]) -> (r: Option<&'a Vec<u8>>)
    ensures
        r matches Some(v) ==> lookup_spec(pair_views(ps@), k@) == Some(v@),
        r is None ==> lookup_spec(pair_views(ps@), k@) is None,
{
    let mut i: usize = ps.len();
    assert(pair_views(ps@).subrange(0, i as int) =~= pair_views(ps@));
    while i > 0
        invariant
            i <= ps@.len(),
            lookup_spec(pair_views(ps@), k@) == lookup_spec(pair_views(ps@).subrange(0, i as int), k@),
        decreases i,
    {
        let ghost pre = pair_views(ps@).subrange(0, i as int);
        assert(pre.drop_last() == pair_views(ps@).subrange(0, i as int - 1));
        if bytes_eq(ps[i - 1].0.as_slice(), k) {
            return Some(&ps[i - 1].1);
        }
        i = i - 1;
    }
    None
}

} // verus!
