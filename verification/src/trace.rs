//! A trace as read from one Jaeger item: its span list with timing, the root call and
//! the time the root span took to respond.
use vstd::prelude::*;

verus! {

/// The timing of one span of a Jaeger item, in microseconds.
#[derive(Clone, Copy, Debug, PartialEq, Eq, Structural)]
pub struct JaegerSpan {
    pub start_time: u64,
    pub duration: u64,
}

/// One trace as delivered by Jaeger: its id and its spans.
#[derive(Debug)]
pub struct JaegerItem {
    pub trace_id: String,
    pub spans: Vec<JaegerSpan>,
}

/// A span of a trace, with the index of its parent span when it has one.
#[derive(Debug)]
pub struct Span {
    pub parent: Option<usize>,
    pub process: String,
    pub operation_name: String,
}

/// A trace with its timing: `start_dt` and `end_dt` in microseconds since the Unix epoch.
#[derive(Debug)]
pub struct Trace {
    pub trace_id: String,
    pub root_call: String,
    pub start_dt: u64,
    pub end_dt: u64,
    pub duration_micros: u64,
    pub time_to_respond_micros: u64,
    pub missing_span_ids: Vec<String>,
    pub spans: Vec<Span>,
}

/// The end of a span: its start time plus its duration.
pub open spec fn span_end(s: JaegerSpan) -> int {
    s.start_time + s.duration
}

/// No span ends beyond what a `u64` can hold.
pub open spec fn ends_fit(spans: Seq<JaegerSpan>) -> bool {
    forall|i: int| 0 <= i < spans.len() ==> span_end(#[trigger] spans[i]) <= u64::MAX
}

/// `i` is the first span without a parent, among the first `n` spans.
pub open spec fn first_root(spans: Seq<Span>, i: int, n: int) -> bool {
    &&& 0 <= i < n
    &&& i < spans.len()
    &&& spans[i].parent is None
    &&& forall|j: int| 0 <= j < i ==> (#[trigger] spans[j]).parent is Some
}

/// Some span among the first `n` has no parent.
pub open spec fn has_root(spans: Seq<Span>, n: int) -> bool {
    exists|i: int| 0 <= i < n && i < spans.len() && (#[trigger] spans[i]).parent is None
}

/// The start of the earliest span and the end of the latest ending span.
pub fn find_full_duration(ji: &JaegerItem) -> (r: (u64, u64))
    requires
        ji.spans.len() > 0,
        ends_fit(ji.spans@),
    ensures
        exists|i: int| 0 <= i < ji.spans.len() && r.0 == (#[trigger] ji.spans@[i]).start_time,
        forall|i: int| 0 <= i < ji.spans.len() ==> r.0 <= (#[trigger] ji.spans@[i]).start_time,
        exists|i: int| 0 <= i < ji.spans.len() && r.1 == span_end(#[trigger] ji.spans@[i]),
        forall|i: int| 0 <= i < ji.spans.len() ==> span_end(#[trigger] ji.spans@[i]) <= r.1,
{
    let mut start: u64 = ji.spans[0].start_time;
    let mut end: u64 = ji.spans[0].start_time + ji.spans[0].duration;
    let mut i: usize = 1;
    while i < ji.spans.len()
        invariant
            1 <= i <= ji.spans.len(),
            ends_fit(ji.spans@),
            exists|k: int| 0 <= k < i && start == (#[trigger] ji.spans@[k]).start_time,
            forall|k: int| 0 <= k < i ==> start <= (#[trigger] ji.spans@[k]).start_time,
            exists|k: int| 0 <= k < i && end == span_end(#[trigger] ji.spans@[k]),
            forall|k: int| 0 <= k < i ==> span_end(#[trigger] ji.spans@[k]) <= end,
        decreases ji.spans.len() - i,
    {
        let s = ji.spans[i];
        assert(span_end(ji.spans@[i as int]) <= u64::MAX);
        if s.start_time < start {
            start = s.start_time;
        }
        let e = s.start_time + s.duration;
        if e > end {
            end = e;
        }
        i = i + 1;
    }
    (start, end)
}

/// The duration of the Jaeger span that belongs to the first span without a parent
/// (the root span): the time it took the trace to respond.
pub fn get_response_duration(spans: &Vec<Span>, ji: &JaegerItem) -> (r: u64)
    requires
        has_root(spans@, ji.spans.len() as int),
    ensures
        exists|i: int| first_root(spans@, i, ji.spans.len() as int) && r == ji.spans@[i].duration,
{
    let mut i: usize = 0;
    while i < spans.len() && i < ji.spans.len()
        invariant
            i <= spans.len(),
            has_root(spans@, ji.spans.len() as int),
            forall|j: int| 0 <= j < i ==> (#[trigger] spans@[j]).parent is Some,
        decreases spans.len() - i,
    {
        if spans[i].parent.is_none() {
            assert(first_root(spans@, i as int, ji.spans.len() as int));
            return ji.spans[i].duration;
        }
        i = i + 1;
    }
    proof {
        let k = choose|k: int| 0 <= k < ji.spans.len() && k < spans@.len() && (#[trigger] spans@[k]).parent is None;
        assert(spans@[k].parent is Some);
    }
    0
}

/// "process/operation" of the first span without a parent (the root span).
pub fn get_root_call(spans: &Vec<Span>) -> (r: String)
    requires
        has_root(spans@, spans.len() as int),
    ensures
        exists|i: int|
            first_root(spans@, i, spans.len() as int) && r@ == spans@[i].process@ + seq!['/']
                + spans@[i].operation_name@,
{
    let mut i: usize = 0;
    while i < spans.len()
        invariant
            i <= spans.len(),
            has_root(spans@, spans.len() as int),
            forall|j: int| 0 <= j < i ==> (#[trigger] spans@[j]).parent is Some,
        decreases spans.len() - i,
    {
        if spans[i].parent.is_none() {
            let mut r = spans[i].process.clone();
            crate::text::push_char(&mut r, '/');
            let mut k: usize = 0;
            let op = crate::text::chars_of(spans[i].operation_name.as_str());
            let ghost base = r@;
            while k < op.len()
                invariant
                    k <= op.len(),
                    r@ == base + op@.take(k as int),
                decreases op.len() - k,
            {
                crate::text::push_char(&mut r, op[k]);
                k = k + 1;
                assert(r@ =~= base + op@.take(k as int));
            }
            assert(op@.take(op.len() as int) =~= op@);
            assert(first_root(spans@, i as int, spans.len() as int));
            return r;
        }
        i = i + 1;
    }
    proof {
        let k = choose|k: int| 0 <= k < spans.len() && k < spans@.len() && (#[trigger] spans@[k]).parent is None;
        assert(spans@[k].parent is Some);
    }
    String::new()
}

impl Trace {
    /// Build a trace from a Jaeger item and the spans built from it (with the ids of
    /// the spans that the item referred to but did not hold).
    pub fn new(item: &JaegerItem, spans: Vec<Span>, missing_span_ids: Vec<String>) -> (t: Trace)
        requires
            item.spans.len() > 0,
            ends_fit(item.spans@),
            has_root(spans@, item.spans.len() as int),
        ensures
            t.trace_id@ == item.trace_id@,
            exists|i: int|
                first_root(spans@, i, spans.len() as int) && t.root_call@ == spans@[i].process@
                    + seq!['/'] + spans@[i].operation_name@,
            exists|i: int| 0 <= i < item.spans.len() && t.start_dt == (#[trigger] item.spans@[i]).start_time,
            forall|i: int| 0 <= i < item.spans.len() ==> t.start_dt <= (#[trigger] item.spans@[i]).start_time,
            exists|i: int| 0 <= i < item.spans.len() && t.end_dt == span_end(#[trigger] item.spans@[i]),
            forall|i: int| 0 <= i < item.spans.len() ==> span_end(#[trigger] item.spans@[i]) <= t.end_dt,
            t.duration_micros == t.end_dt - t.start_dt,
            exists|i: int|
                first_root(spans@, i, item.spans.len() as int) && t.time_to_respond_micros
                    == item.spans@[i].duration,
            t.missing_span_ids@ == missing_span_ids@,
            t.spans@ == spans@,
    {
        let trace_id = item.trace_id.clone();
        proof {
            let k = choose|k: int|
                0 <= k < item.spans.len() && k < spans@.len() && (#[trigger] spans@[k]).parent is None;
            assert(has_root(spans@, spans.len() as int)) by {
                assert(spans@[k].parent is None);
            }
        }
        let root_call = get_root_call(&spans);
        let (start_dt, end_dt) = find_full_duration(item);
        proof {
            let k = choose|k: int| 0 <= k < item.spans.len() && start_dt == (#[trigger] item.spans@[k]).start_time;
            assert(span_end(item.spans@[k]) <= end_dt);
        }
        let duration_micros = end_dt - start_dt;
        let time_to_respond_micros = get_response_duration(&spans, item);
        Trace {
            trace_id,
            root_call,
            start_dt,
            end_dt,
            duration_micros,
            time_to_respond_micros,
            missing_span_ids,
            spans,
        }
    }
}

} // verus!
