//! The middleware pipeline. Layers are installed in order; the last one
//! installed is outermost: on the way in the layers run from last to first,
//! then the router, and the response passes back from first to last. Every
//! layer records its entry and exit in a trace.
use vstd::prelude::*;
use crate::text::{pair_views, copy_range};
use crate::request::{Request, set_spec};
use crate::response::{Response, ResponseV};

verus! {

/// One middleware layer.
#[derive(Debug)]
pub enum Layer {
    /// Records its entry and exit and passes the request on unchanged.
    Observe,
    /// Sets a request header, replacing any earlier value of that name,
    /// before passing the request on.
    SetRequestHeader(Vec<u8>, Vec<u8>),
    /// Adds a header to the response on its way out.
    SetResponseHeader(Vec<u8>, Vec<u8>),
    /// Answers with this status and body without passing the request on.
    ShortCircuit(u16, Vec<u8>),
}

pub ghost enum LayerV {
    Observe,
    SetRequestHeader(Seq<u8>, Seq<u8>),
    SetResponseHeader(Seq<u8>, Seq<u8>),
    ShortCircuit(u16, Seq<u8>),
}

impl View for Layer {
    type V = LayerV;

    open spec fn view(&self) -> LayerV {
        match self {
            Layer::Observe => LayerV::Observe,
            Layer::SetRequestHeader(n, v) => LayerV::SetRequestHeader(n@, v@),
            Layer::SetResponseHeader(n, v) => LayerV::SetResponseHeader(n@, v@),
            Layer::ShortCircuit(s, b) => LayerV::ShortCircuit(*s, b@),
        }
    }
}

/// A step of a request through the pipeline.
#[derive(Clone, Copy, Debug, PartialEq, Eq, Structural)]
pub enum Event {
    /// The layer at this index of installation received the request.
    Enter(usize),
    /// The router and handler ran.
    Handler,
    /// The layer at this index handed the response back out.
    Exit(usize),
}

/// The layers in installation order.
#[derive(Debug)]
pub struct Pipeline {
    pub layers: Vec<Layer>,
}

impl View for Pipeline {
    type V = Seq<LayerV>;

    open spec fn view(&self) -> Seq<LayerV> {
        self.layers@.map_values(|l: Layer| l@)
    }
}

/// The outermost layer below index `k` that answers by itself, if any.
pub open spec fn stop_at(ls: Seq<LayerV>, k: int) -> Option<int>
    decreases k,
{
    if k <= 0 {
        None
    } else if ls[k - 1] is ShortCircuit {
        Some(k - 1)
    } else {
        stop_at(ls, k - 1)
    }
}

/// Entries of the layers `hi - 1` down to `lo`.
pub open spec fn entries(hi: int, lo: int) -> Seq<Event> {
    Seq::new((hi - lo) as nat, |j: int| Event::Enter((hi - 1 - j) as usize))
}

/// Exits of the layers `lo` up to `hi - 1`.
pub open spec fn exits(lo: int, hi: int) -> Seq<Event> {
    Seq::new((hi - lo) as nat, |j: int| Event::Exit((lo + j) as usize))
}

/// The trace of a request through the layers `ls`.
pub open spec fn trace_spec(ls: Seq<LayerV>) -> Seq<Event> {
    match stop_at(ls, ls.len() as int) {
        Some(i) => entries(ls.len() as int, i) + exits(i, ls.len() as int),
        None => entries(ls.len() as int, 0) + seq![Event::Handler] + exits(0, ls.len() as int),
    }
}

/// The request headers `hs` after the layers `hi - 1` down to `lo` set theirs.
pub open spec fn request_headers_after(ls: Seq<LayerV>, lo: int, hi: int, hs: Seq<(Seq<u8>, Seq<u8>)>) -> Seq<
    (Seq<u8>, Seq<u8>),
>
    decreases hi - lo,
{
    if lo >= hi {
        hs
    } else {
        let rest = request_headers_after(ls, lo + 1, hi, hs);
        match ls[lo] {
            LayerV::SetRequestHeader(n, v) => set_spec(rest, n, v),
            _ => rest,
        }
    }
}

/// Response headers that the layers `lo` up to `hi - 1` add, in that order.
pub open spec fn response_headers_added(ls: Seq<LayerV>, lo: int, hi: int) -> Seq<(Seq<u8>, Seq<u8>)>
    decreases hi - lo,
{
    if lo >= hi {
        Seq::empty()
    } else {
        let rest = response_headers_added(ls, lo, hi - 1);
        match ls[hi - 1] {
            LayerV::SetResponseHeader(n, v) => rest.push((n, v)),
            _ => rest,
        }
    }
}

/// `r` with `hs` added after its headers.
pub open spec fn with_headers(r: ResponseV, hs: Seq<(Seq<u8>, Seq<u8>)>) -> ResponseV {
    ResponseV { status: r.status, headers: r.headers + hs, body: r.body }
}

/// The response of a layer that answers by itself.
pub open spec fn short_spec(l: LayerV) -> ResponseV {
    match l {
        LayerV::ShortCircuit(s, b) => ResponseV { status: s, headers: Seq::empty(), body: b },
        _ => ResponseV { status: 500, headers: Seq::empty(), body: Seq::empty() },
    }
}

proof fn lemma_stop_at_skip(ls: Seq<LayerV>, k: int, n: int)
    requires
        0 <= k <= n <= ls.len(),
        forall|j: int| k <= j < n ==> !(#[trigger] ls[j] is ShortCircuit),
    ensures
        stop_at(ls, n) == stop_at(ls, k),
    decreases n - k,
{
    if k < n {
        lemma_stop_at_skip(ls, k, n - 1);
    }
}

impl Pipeline {
    /// A pipeline without layers.
    pub fn new() -> (r: Pipeline)
        ensures
            r@ == Seq::<LayerV>::empty(),
    {
        let r = Pipeline { layers: Vec::new() };
        assert(r@ =~= Seq::<LayerV>::empty());
        r
    }

    /// Installs `l` outside every layer installed so far.
    pub fn install(&mut self, l: Layer)
        ensures
            final(self)@ == old(self)@.push(l@),
    {
        self.layers.push(l);
        assert(self@ =~= old(self)@.push(l@));
    }

    /// Runs `req` through the layers around `inner`, which stands for the
    /// router and its handlers. Gives the response and the trace of entries,
    /// the handler and exits.
    pub fn run<F: Fn(Request) -> Response>(&self, req: Request, inner: F) -> (r: (Response, Vec<Event>))
        requires
            forall|q: Request| inner.requires((q,)),
        ensures
            r.1@ == trace_spec(self@),
            match stop_at(self@, self@.len() as int) {
                Some(i) => r.0@ == with_headers(
                    short_spec(self@[i]),
                    response_headers_added(self@, i, self@.len() as int),
                ),
                None => exists|q: Request, x: Response|
                    inner.ensures((q,), x) && q.method == req.method && q.path == req.path && q.query
                        == req.query && q.body == req.body && pair_views(q.headers@) == request_headers_after(
                        self@,
                        0,
                        self@.len() as int,
                        pair_views(req.headers@),
                    ) && r.0@ == with_headers(
                        x@,
                        response_headers_added(self@, 0, self@.len() as int),
                    ),
            },
    {
        let ghost ls = self@;
        let n = self.layers.len();
        let mut q = req;
        let mut trace: Vec<Event> = Vec::new();
        let mut k: usize = n;
        let mut stop: bool = false;
        assert(trace@ =~= entries(n as int, n as int));
        while k > 0 && !stop
            invariant
                ls == self@,
                n == ls.len(),
                k <= n,
                trace@ == entries(n as int, k as int),
                stop ==> k < n && ls[k as int] is ShortCircuit,
                forall|j: int| k + (if stop { 1int } else { 0int }) <= j < n ==> !(#[trigger] ls[j] is ShortCircuit),
                q.method == req.method,
                q.path == req.path,
                q.query == req.query,
                q.body == req.body,
                pair_views(q.headers@) == request_headers_after(ls, k as int, n as int, pair_views(req.headers@)),
            decreases k + (if stop { 0int } else { 1int }),
        {
            let j = k - 1;
            trace.push(Event::Enter(j));
            assert(trace@ =~= entries(n as int, j as int));
            let ghost hs = pair_views(q.headers@);
            match &self.layers[j] {
                Layer::ShortCircuit(_, _) => {
                    stop = true;
                },
                Layer::SetRequestHeader(hn, hv) => {
                    q.set_header(hn.as_slice(), hv.as_slice());
                },
                _ => {},
            }
            assert(pair_views(q.headers@) == request_headers_after(ls, j as int, n as int, pair_views(req.headers@)));
            k = j;
        }
        let mut resp: Response;
        let start: usize;
        if stop {
            proof {
                lemma_stop_at_skip(ls, k as int + 1, n as int);
            }
            assert(ls[k as int] == self.layers@[k as int]@);
            let (status, body) = match &self.layers[k] {
                Layer::ShortCircuit(s, b) => {
                    let c = copy_range(b.as_slice(), 0, b.len());
                    assert(c@ =~= b@);
                    (*s, c)
                },
                _ => (500u16, Vec::new()),
            };
            resp = Response { status, headers: Vec::new(), body };
            assert(resp@.headers =~= Seq::<(Seq<u8>, Seq<u8>)>::empty());
            assert(resp@ == short_spec(ls[k as int]));
            start = k;
        } else {
            proof {
                lemma_stop_at_skip(ls, 0, n as int);
            }
            trace.push(Event::Handler);
            resp = inner(q);
            start = 0;
        }
        let ghost base = resp@;
        let ghost tin = trace@;
        let mut m: usize = start;
        assert(resp@ =~= with_headers(base, response_headers_added(ls, start as int, m as int)));
        while m < n
            invariant
                ls == self@,
                n == ls.len(),
                start <= m <= n,
                trace@ == tin + exits(start as int, m as int),
                resp@ == with_headers(base, response_headers_added(ls, start as int, m as int)),
            decreases n - m,
        {
            trace.push(Event::Exit(m));
            assert(trace@ =~= tin + exits(start as int, m as int + 1));
            assert(ls[m as int] == self.layers@[m as int]@);
            let ghost before = resp.headers@;
            if let Layer::SetResponseHeader(hn, hv) = &self.layers[m] {
                let a = copy_range(hn.as_slice(), 0, hn.len());
                let b = copy_range(hv.as_slice(), 0, hv.len());
                assert(a@ =~= hn@);
                assert(b@ =~= hv@);
                resp.headers.push((a, b));
                assert(pair_views(resp.headers@) =~= pair_views(before).push((a@, b@)));
            }
            assert(resp@.headers =~= base.headers + response_headers_added(ls, start as int, m as int + 1));
            m = m + 1;
        }
        proof {
            if stop {
                assert(trace@ =~= trace_spec(ls));
            } else {
                assert(trace@ =~= trace_spec(ls));
            }
        }
        (resp, trace)
    }
}

/// With no layer answering by itself, layers installed first to last are
/// entered last to first, then the handler runs, then they are left first
/// to last.
pub proof fn lemma_nesting_order(ls: Seq<LayerV>)
    requires
        forall|j: int| 0 <= j < ls.len() ==> !(#[trigger] ls[j] is ShortCircuit),
    ensures
        trace_spec(ls).len() == 2 * ls.len() + 1,
        forall|j: int| 0 <= j < ls.len() ==> #[trigger] trace_spec(ls)[j] == Event::Enter((ls.len() - 1 - j) as usize),
        trace_spec(ls)[ls.len() as int] == Event::Handler,
        forall|j: int| 0 <= j < ls.len() ==> #[trigger] trace_spec(ls)[ls.len() + 1 + j] == Event::Exit(j as usize),
{
    lemma_stop_at_skip(ls, 0, ls.len() as int);
    let n = ls.len() as int;
    let t = trace_spec(ls);
    assert forall|j: int| 0 <= j < n implies #[trigger] t[n + 1 + j] == Event::Exit(j as usize) by {
        assert(t[n + 1 + j] == exits(0, n)[j]);
    }
}

/// A layer that answers by itself keeps the handler and every layer inside
/// it from running: the trace has no handler step and no entry below it.
pub proof fn lemma_short_circuit_stops(ls: Seq<LayerV>, i: int)
    requires
        stop_at(ls, ls.len() as int) == Some(i),
        ls.len() <= usize::MAX,
    ensures
        0 <= i < ls.len(),
        !trace_spec(ls).contains(Event::Handler),
        forall|k: int| 0 <= k < trace_spec(ls).len() ==> match #[trigger] trace_spec(ls)[k] {
            Event::Enter(j) => j >= i,
            _ => true,
        },
{
    lemma_stop_at_bounds(ls, ls.len() as int);
    let t = trace_spec(ls);
    let n = ls.len() as int;
    assert(t == entries(n, i) + exits(i, n));
    assert forall|k: int| 0 <= k < t.len() implies t[k] != Event::Handler by {
        if k < n - i {
            assert(t[k] == entries(n, i)[k]);
        } else {
            assert(t[k] == exits(i, n)[k - (n - i)]);
        }
    }
    assert forall|k: int| 0 <= k < t.len() implies match #[trigger] t[k] {
        Event::Enter(j) => j >= i,
        _ => true,
    } by {
        if k < n - i {
            assert(t[k] == entries(n, i)[k]);
        } else {
            assert(t[k] == exits(i, n)[k - (n - i)]);
        }
    }
}

proof fn lemma_stop_at_bounds(ls: Seq<LayerV>, k: int)
    requires
        0 <= k <= ls.len(),
    ensures
        stop_at(ls, k) matches Some(i) ==> 0 <= i < k && ls[i] is ShortCircuit,
    decreases k,
{
    if k > 0 {
        lemma_stop_at_bounds(ls, k - 1);
    }
}

} // verus!
