//! Request tracing (the spans opened under each trace id), named counters
//! and running timers.
use vstd::prelude::*;
use crate::common::new_uuid_text;
use crate::error::{elapsed_since, instant_now, monotonic_now};
use crate::text::{copy_text, join_text, text_eq};

verus! {

/// One span of a trace.
#[derive(Debug)]
pub struct SpanContext {
    /// The trace it belongs to.
    pub trace_id: String,
    /// Its own id.
    pub span_id: String,
    /// The span it was opened under, if any.
    pub parent_id: Option<String>,
    /// When it was opened.
    pub start_time: std::time::Instant,
}

/// What a span holds.
pub struct SpanView {
    pub trace_id: Seq<char>,
    pub span_id: Seq<char>,
    pub parent_id: Option<Seq<char>>,
    pub start_time: std::time::Instant,
}

impl View for SpanContext {
    type V = SpanView;

    open spec fn view(&self) -> SpanView {
        SpanView {
            trace_id: self.trace_id@,
            span_id: self.span_id@,
            parent_id: match self.parent_id {
                Some(p) => Some(p@),
                None => None,
            },
            start_time: self.start_time,
        }
    }
}

impl Clone for SpanContext {
    fn clone(&self) -> (c: Self)
        ensures
            c@ == self@,
    {
        SpanContext {
            trace_id: self.trace_id.clone(),
            span_id: self.span_id.clone(),
            parent_id: match &self.parent_id {
                Some(p) => Some(p.clone()),
                None => None,
            },
            start_time: self.start_time,
        }
    }
}

/// The views of a list of spans.
pub open spec fn spans_view(v: Seq<SpanContext>) -> Seq<SpanView> {
    v.map_values(|s: SpanContext| s@)
}

/// Some trace has the id `id`.
pub open spec fn has_trace(ts: Seq<(Seq<char>, Seq<SpanView>)>, id: Seq<char>) -> bool {
    exists|i: int| 0 <= i < ts.len() && (#[trigger] ts[i]).0 == id
}

/// The spans of trace `id`.
pub open spec fn spans_of(ts: Seq<(Seq<char>, Seq<SpanView>)>, id: Seq<char>) -> Option<Seq<SpanView>> {
    if has_trace(ts, id) {
        Some(ts[choose|i: int| 0 <= i < ts.len() && (#[trigger] ts[i]).0 == id].1)
    } else {
        None
    }
}

/// Trace ids are unique.
pub open spec fn trace_ids_unique(ts: Seq<(Seq<char>, Seq<SpanView>)>) -> bool {
    forall|i: int, j: int|
        0 <= i < ts.len() && 0 <= j < ts.len() && i != j ==> (#[trigger] ts[i]).0 != (#[trigger] ts[j]).0
}

fn copy_spans(v: &Vec<SpanContext>) -> (r: Vec<SpanContext>)
    ensures
        spans_view(r@) == spans_view(v@),
{
    let mut r: Vec<SpanContext> = Vec::new();
    let mut i: usize = 0;
    while i < v.len()
        invariant
            i <= v@.len(),
            spans_view(r@) =~= spans_view(v@).take(i as int),
        decreases v.len() - i,
    {
        let c = v[i].clone();
        let ghost old_r = r@;
        r.push(c);
        proof {
            assert(r@ =~= old_r.push(c));
            assert(spans_view(old_r).len() == old_r.len());
            assert(spans_view(v@).take(i as int).len() == i);
            assert(old_r.len() == i);
            assert forall|j: int| 0 <= j < i + 1 implies #[trigger] spans_view(r@)[j] == spans_view(v@).take(i + 1)[j] by {
                if j < i {
                    assert(r@[j] == old_r[j]);
                    assert(spans_view(old_r)[j] == spans_view(v@).take(i as int)[j]);
                }
            }
            assert(spans_view(r@) =~= spans_view(v@).take(i + 1));
        }
        i = i + 1;
    }
    assert(spans_view(v@).take(v@.len() as int) =~= spans_view(v@));
    r
}

/// The spans opened under each trace id.
pub struct TraceLog {
    traces: Vec<(String, Vec<SpanContext>)>,
}

impl TraceLog {
    /// The spans of each trace, in the order the traces began.
    pub closed spec fn traces(&self) -> Seq<(Seq<char>, Seq<SpanView>)> {
        self.traces@.map_values(|t: (String, Vec<SpanContext>)| (t.0@, spans_view(t.1@)))
    }

    /// Well-formedness: one list per trace id.
    pub closed spec fn wf(&self) -> bool {
        trace_ids_unique(self.traces())
    }

    /// No traces.
    pub fn new() -> (t: Self)
        ensures
            t.wf(),
            t.traces().len() == 0,
            forall|id: Seq<char>| #[trigger] spans_of(t.traces(), id) is None,
    {
        let t = TraceLog { traces: Vec::new() };
        assert(t.traces() =~= Seq::<(Seq<char>, Seq<SpanView>)>::empty());
        t
    }

    fn find(&self, trace_id: &str) -> (r: Option<usize>)
        requires
            self.wf(),
        ensures
            match r {
                Some(i) => i < self.traces().len() && self.traces()[i as int].0 == trace_id@ && spans_of(
                    self.traces(),
                    trace_id@,
                ) == Some(self.traces()[i as int].1),
                None => !has_trace(self.traces(), trace_id@),
            },
    {
        let ghost ts = self.traces();
        let mut i: usize = 0;
        while i < self.traces.len()
            invariant
                ts == self.traces(),
                trace_ids_unique(ts),
                i <= ts.len(),
                forall|j: int| 0 <= j < i ==> (#[trigger] ts[j]).0 != trace_id@,
            decreases self.traces.len() - i,
        {
            if text_eq(self.traces[i].0.as_str(), trace_id) {
                proof {
                    assert(ts[i as int].0 == trace_id@);
                    let k0 = choose|k: int| 0 <= k < ts.len() && (#[trigger] ts[k]).0 == trace_id@;
                    if k0 != i {
                        assert(ts[k0].0 != ts[i as int].0);
                    }
                }
                return Some(i);
            }
            i = i + 1;
        }
        None
    }

    /// Records `span` at the end of the list of its trace.
    fn record(&mut self, span: SpanContext)
        requires
            old(self).wf(),
        ensures
            final(self).wf(),
            spans_of(final(self).traces(), span@.trace_id) == Some(
                match spans_of(old(self).traces(), span@.trace_id) {
                    Some(s) => s,
                    None => Seq::<SpanView>::empty(),
                }.push(span@),
            ),
            forall|id: Seq<char>| id != span@.trace_id ==> #[trigger] spans_of(final(self).traces(), id)
                == spans_of(old(self).traces(), id),
    {
        let ghost ts = self.traces();
        let ghost sv = span@;
        let ghost tid = span@.trace_id;
        match self.find(span.trace_id.as_str()) {
            Some(i) => {
                let mut entry = (String::new(), Vec::new());
                proof {
                    assert(spans_view(entry.1@) =~= Seq::<SpanView>::empty());
                }
                self.traces.set_and_swap(i, &mut entry);
                entry.1.push(span);
                self.traces.set(i, entry);
                proof {
                    let new_ts = self.traces();
                    let e = (tid, ts[i as int].1.push(sv));
                    assert(spans_view(entry.1@) =~= ts[i as int].1.push(sv));
                    assert(new_ts =~= ts.update(i as int, e));
                    lemma_update_trace(ts, i as int, e);
                }
            },
            None => {
                let id = copy_text(span.trace_id.as_str());
                let mut spans: Vec<SpanContext> = Vec::new();
                spans.push(span);
                self.traces.push((id, spans));
                proof {
                    let e = (tid, Seq::<SpanView>::empty().push(sv));
                    assert(spans_view(spans@) =~= Seq::<SpanView>::empty().push(sv));
                    assert(self.traces() =~= ts.push(e));
                    lemma_push_trace(ts, e);
                }
            },
        }
    }

    /// Opens a span of trace `trace_id` under `parent_id`, with a fresh
    /// random span id and the current time; it is recorded at the end of the
    /// trace's list, and a copy is returned.
    pub fn start_span(&mut self, trace_id: &str, parent_id: Option<String>) -> (span: SpanContext)
        requires
            old(self).wf(),
        ensures
            final(self).wf(),
            span@.trace_id == trace_id@,
            span@.parent_id == (match parent_id {
                Some(p) => Some(p@),
                None => None::<Seq<char>>,
            }),
            span@.span_id.len() == 36,
            spans_of(final(self).traces(), trace_id@) == Some(
                match spans_of(old(self).traces(), trace_id@) {
                    Some(s) => s,
                    None => Seq::<SpanView>::empty(),
                }.push(span@),
            ),
            forall|id: Seq<char>| id != trace_id@ ==> #[trigger] spans_of(final(self).traces(), id)
                == spans_of(old(self).traces(), id),
    {
        let span = SpanContext {
            trace_id: copy_text(trace_id),
            span_id: new_uuid_text(),
            parent_id,
            start_time: instant_now(),
        };
        let copy = span.clone();
        self.record(copy);
        span
    }

    /// The spans of trace `trace_id`, in the order they were opened, or
    /// `None` for a trace with no spans.
    pub fn get_trace(&self, trace_id: &str) -> (r: Option<Vec<SpanContext>>)
        requires
            self.wf(),
        ensures
            match spans_of(self.traces(), trace_id@) {
                Some(s) => r matches Some(v) && spans_view(v@) == s,
                None => r is None,
            },
    {
        match self.find(trace_id) {
            Some(i) => Some(copy_spans(&self.traces[i].1)),
            None => None,
        }
    }
}

proof fn lemma_update_trace(m: Seq<(Seq<char>, Seq<SpanView>)>, i: int, e: (Seq<char>, Seq<SpanView>))
    requires
        trace_ids_unique(m),
        0 <= i < m.len(),
        m[i].0 == e.0,
    ensures
        trace_ids_unique(m.update(i, e)),
        spans_of(m.update(i, e), e.0) == Some(e.1),
        forall|k: Seq<char>| k != e.0 ==> #[trigger] spans_of(m.update(i, e), k) == spans_of(m, k),
{
    let n = m.update(i, e);
    assert forall|a: int, b: int| 0 <= a < n.len() && 0 <= b < n.len() && a != b implies (#[trigger] n[a]).0 != (#[trigger] n[b]).0 by {
        assert(n[a].0 == m[a].0);
        assert(n[b].0 == m[b].0);
    }
    let k0 = choose|k: int| 0 <= k < n.len() && (#[trigger] n[k]).0 == e.0;
    assert(n[i].0 == e.0);
    if k0 != i {
        assert(n[k0].0 != n[i].0);
    }
    assert forall|k: Seq<char>| k != e.0 implies #[trigger] spans_of(n, k) == spans_of(m, k) by {
        if has_trace(m, k) {
            let j = choose|j: int| 0 <= j < m.len() && (#[trigger] m[j]).0 == k;
            assert(n[j].0 == k);
            let j2 = choose|j2: int| 0 <= j2 < n.len() && (#[trigger] n[j2]).0 == k;
            if j2 != j {
                assert(n[j2].0 != n[j].0);
            }
        } else {
            assert forall|j: int| 0 <= j < n.len() implies (#[trigger] n[j]).0 != k by {
                assert(n[j].0 == m[j].0);
            }
        }
    }
}

proof fn lemma_push_trace(m: Seq<(Seq<char>, Seq<SpanView>)>, e: (Seq<char>, Seq<SpanView>))
    requires
        trace_ids_unique(m),
        !has_trace(m, e.0),
    ensures
        trace_ids_unique(m.push(e)),
        spans_of(m.push(e), e.0) == Some(e.1),
        forall|k: Seq<char>| k != e.0 ==> #[trigger] spans_of(m.push(e), k) == spans_of(m, k),
{
    let n = m.push(e);
    assert forall|a: int, b: int| 0 <= a < n.len() && 0 <= b < n.len() && a != b implies (#[trigger] n[a]).0 != (#[trigger] n[b]).0 by {
        if a < m.len() {
            assert(n[a] == m[a]);
        }
        if b < m.len() {
            assert(n[b] == m[b]);
        }
    }
    assert(n[m.len() as int].0 == e.0);
    let k0 = choose|k: int| 0 <= k < n.len() && (#[trigger] n[k]).0 == e.0;
    if k0 != m.len() {
        assert(n[k0] == m[k0]);
    }
    assert forall|k: Seq<char>| k != e.0 implies #[trigger] spans_of(n, k) == spans_of(m, k) by {
        if has_trace(m, k) {
            let j = choose|j: int| 0 <= j < m.len() && (#[trigger] m[j]).0 == k;
            assert(n[j] == m[j]);
            let j2 = choose|j2: int| 0 <= j2 < n.len() && (#[trigger] n[j2]).0 == k;
            if j2 != j {
                assert(n[j2].0 != n[j].0);
            }
        } else {
            assert forall|j: int| 0 <= j < n.len() implies (#[trigger] n[j]).0 != k by {
                if j < m.len() {
                    assert(n[j] == m[j]);
                }
            }
        }
    }
}

/// Some entry has the key `k`.
pub open spec fn has_counter(m: Seq<(Seq<char>, i64)>, k: Seq<char>) -> bool {
    exists|i: int| 0 <= i < m.len() && (#[trigger] m[i]).0 == k
}

/// The value of counter `k`: zero for a counter never incremented.
pub open spec fn counter_of(m: Seq<(Seq<char>, i64)>, k: Seq<char>) -> i64 {
    if has_counter(m, k) {
        m[choose|i: int| 0 <= i < m.len() && (#[trigger] m[i]).0 == k].1
    } else {
        0
    }
}

/// Counter `key` went up by one from `before` to `after`; every other
/// counter kept its value.
pub open spec fn counter_bumped(before: Seq<(Seq<char>, i64)>, after: Seq<(Seq<char>, i64)>, key: Seq<char>) -> bool {
    &&& counter_of(after, key) == counter_of(before, key) + 1
    &&& forall|k: Seq<char>| k != key ==> #[trigger] counter_of(after, k) == counter_of(before, k)
}

/// Keys are unique.
pub open spec fn counter_keys_unique(m: Seq<(Seq<char>, i64)>) -> bool {
    forall|i: int, j: int|
        0 <= i < m.len() && 0 <= j < m.len() && i != j ==> (#[trigger] m[i]).0 != (#[trigger] m[j]).0
}

/// Some timer has the key `k`.
pub open spec fn has_timer(m: Seq<(Seq<char>, std::time::Instant)>, k: Seq<char>) -> bool {
    exists|i: int| 0 <= i < m.len() && (#[trigger] m[i]).0 == k
}

/// The start time of timer `k`.
pub open spec fn timer_start(m: Seq<(Seq<char>, std::time::Instant)>, k: Seq<char>) -> std::time::Instant {
    m[choose|i: int| 0 <= i < m.len() && (#[trigger] m[i]).0 == k].1
}

proof fn lemma_timer_start_at(m: Seq<(Seq<char>, std::time::Instant)>, i: int)
    requires
        timer_keys_unique(m),
        0 <= i < m.len(),
    ensures
        has_timer(m, m[i].0),
        timer_start(m, m[i].0) == m[i].1,
{
    assert(m[i].0 == m[i].0);
    let j = choose|j: int| 0 <= j < m.len() && (#[trigger] m[j]).0 == m[i].0;
    if j != i {
        assert(m[j].0 != m[i].0);
    }
}

/// Timer keys are unique.
pub open spec fn timer_keys_unique(m: Seq<(Seq<char>, std::time::Instant)>) -> bool {
    forall|i: int, j: int|
        0 <= i < m.len() && 0 <= j < m.len() && i != j ==> (#[trigger] m[i]).0 != (#[trigger] m[j]).0
}

/// Named counters and running timers.
pub struct MetricsCollector {
    counters: Vec<(String, i64)>,
    timers: Vec<(String, std::time::Instant)>,
}

impl MetricsCollector {
    /// The counters, by key.
    pub closed spec fn counters(&self) -> Seq<(Seq<char>, i64)> {
        self.counters@.map_values(|e: (String, i64)| (e.0@, e.1))
    }

    /// The running timers, by key, with their start times.
    pub closed spec fn timers(&self) -> Seq<(Seq<char>, std::time::Instant)> {
        self.timers@.map_values(|e: (String, std::time::Instant)| (e.0@, e.1))
    }

    /// Well-formedness: one entry per counter and per timer.
    pub closed spec fn wf(&self) -> bool {
        counter_keys_unique(self.counters()) && timer_keys_unique(self.timers())
    }

    /// No counters and no timers.
    pub fn new() -> (c: Self)
        ensures
            c.wf(),
            c.counters().len() == 0,
            c.timers().len() == 0,
            forall|k: Seq<char>| #[trigger] counter_of(c.counters(), k) == 0,
            forall|k: Seq<char>| !(#[trigger] has_timer(c.timers(), k)),
    {
        let c = MetricsCollector { counters: Vec::new(), timers: Vec::new() };
        assert(c.counters() =~= Seq::<(Seq<char>, i64)>::empty());
        assert(c.timers() =~= Seq::<(Seq<char>, std::time::Instant)>::empty());
        c
    }

    fn find_counter(&self, key: &str) -> (r: Option<usize>)
        requires
            self.wf(),
        ensures
            match r {
                Some(i) => i < self.counters().len() && self.counters()[i as int].0 == key@ && counter_of(
                    self.counters(),
                    key@,
                ) == self.counters()[i as int].1,
                None => !has_counter(self.counters(), key@),
            },
    {
        let ghost m = self.counters();
        let mut i: usize = 0;
        while i < self.counters.len()
            invariant
                m == self.counters(),
                counter_keys_unique(m),
                i <= m.len(),
                forall|j: int| 0 <= j < i ==> (#[trigger] m[j]).0 != key@,
            decreases self.counters.len() - i,
        {
            if text_eq(self.counters[i].0.as_str(), key) {
                proof {
                    assert(m[i as int].0 == key@);
                    let k0 = choose|k: int| 0 <= k < m.len() && (#[trigger] m[k]).0 == key@;
                    if k0 != i {
                        assert(m[k0].0 != m[i as int].0);
                    }
                }
                return Some(i);
            }
            i = i + 1;
        }
        None
    }

    fn find_timer(&self, key: &str) -> (r: Option<usize>)
        requires
            self.wf(),
        ensures
            match r {
                Some(i) => i < self.timers().len() && self.timers()[i as int].0 == key@
                    && forall|j: int| 0 <= j < self.timers().len() && (#[trigger] self.timers()[j]).0 == key@ ==> j == i,
                None => !has_timer(self.timers(), key@),
            },
    {
        let ghost m = self.timers();
        let mut i: usize = 0;
        while i < self.timers.len()
            invariant
                m == self.timers(),
                timer_keys_unique(m),
                i <= m.len(),
                forall|j: int| 0 <= j < i ==> (#[trigger] m[j]).0 != key@,
            decreases self.timers.len() - i,
        {
            if text_eq(self.timers[i].0.as_str(), key) {
                proof {
                    assert(m[i as int].0 == key@);
                    assert forall|j: int| 0 <= j < m.len() && (#[trigger] m[j]).0 == key@ implies j == i by {
                        if j != i {
                            assert(m[j].0 != m[i as int].0);
                        }
                    }
                }
                return Some(i);
            }
            i = i + 1;
        }
        None
    }

    /// Adds `value` to counter `key` (a new counter starts at zero); the
    /// other counters keep their values.
    pub fn increment_counter(&mut self, key: &str, value: i64) -> (r: Result<(), String>)
        requires
            old(self).wf(),
            i64::MIN <= counter_of(old(self).counters(), key@) + value <= i64::MAX,
        ensures
            r is Ok,
            final(self).wf(),
            counter_of(final(self).counters(), key@) == counter_of(old(self).counters(), key@) + value,
            forall|k: Seq<char>| k != key@ ==> #[trigger] counter_of(final(self).counters(), k) == counter_of(
                old(self).counters(),
                k,
            ),
            final(self).timers() == old(self).timers(),
    {
        let ghost m = self.counters();
        match self.find_counter(key) {
            Some(i) => {
                let v = self.counters[i].1 + value;
                self.counters[i].1 = v;
                proof {
                    let n = self.counters();
                    assert(n =~= m.update(i as int, (key@, v)));
                    assert forall|a: int, b: int| 0 <= a < n.len() && 0 <= b < n.len() && a != b implies (#[trigger] n[a]).0
                        != (#[trigger] n[b]).0 by {
                        assert(n[a].0 == m[a].0 && n[b].0 == m[b].0);
                    }
                    let k0 = choose|k: int| 0 <= k < n.len() && (#[trigger] n[k]).0 == key@;
                    assert(n[i as int].0 == key@);
                    if k0 != i {
                        assert(n[k0].0 != n[i as int].0);
                    }
                    assert forall|k: Seq<char>| k != key@ implies #[trigger] counter_of(n, k) == counter_of(m, k) by {
                        if has_counter(m, k) {
                            let j = choose|j: int| 0 <= j < m.len() && (#[trigger] m[j]).0 == k;
                            assert(n[j].0 == k);
                            let j2 = choose|j2: int| 0 <= j2 < n.len() && (#[trigger] n[j2]).0 == k;
                            if j2 != j {
                                assert(n[j2].0 != n[j].0);
                            }
                        } else {
                            assert forall|j: int| 0 <= j < n.len() implies (#[trigger] n[j]).0 != k by {
                                assert(n[j].0 == m[j].0);
                            }
                        }
                    }
                }
            },
            None => {
                self.counters.push((copy_text(key), value));
                proof {
                    let n = self.counters();
                    assert(n =~= m.push((key@, value)));
                    assert forall|a: int, b: int| 0 <= a < n.len() && 0 <= b < n.len() && a != b implies (#[trigger] n[a]).0
                        != (#[trigger] n[b]).0 by {
                        if a < m.len() {
                            assert(n[a] == m[a]);
                        }
                        if b < m.len() {
                            assert(n[b] == m[b]);
                        }
                    }
                    assert(n[m.len() as int].0 == key@);
                    let k0 = choose|k: int| 0 <= k < n.len() && (#[trigger] n[k]).0 == key@;
                    if k0 != m.len() {
                        assert(n[k0] == m[k0]);
                    }
                    assert forall|k: Seq<char>| k != key@ implies #[trigger] counter_of(n, k) == counter_of(m, k) by {
                        if has_counter(m, k) {
                            let j = choose|j: int| 0 <= j < m.len() && (#[trigger] m[j]).0 == k;
                            assert(n[j] == m[j]);
                            let j2 = choose|j2: int| 0 <= j2 < n.len() && (#[trigger] n[j2]).0 == k;
                            if j2 != j {
                                assert(n[j2].0 != n[j].0);
                            }
                        } else {
                            assert forall|j: int| 0 <= j < n.len() implies (#[trigger] n[j]).0 != k by {
                                if j < m.len() {
                                    assert(n[j] == m[j]);
                                }
                            }
                        }
                    }
                }
            },
        }
        Ok(())
    }

    /// The value of counter `key`; zero for a counter never incremented.
    pub fn get_counter(&self, key: &str) -> (r: Result<i64, String>)
        requires
            self.wf(),
        ensures
            r == Ok::<i64, String>(counter_of(self.counters(), key@)),
    {
        match self.find_counter(key) {
            Some(i) => Ok(self.counters[i].1),
            None => Ok(0),
        }
    }

    /// Starts (or restarts) timer `key` at the current time.
    pub fn start_timer(&mut self, key: &str) -> (r: Result<(), String>)
        requires
            old(self).wf(),
        ensures
            r is Ok,
            final(self).wf(),
            has_timer(final(self).timers(), key@),
            exists|now: std::time::Instant|
                #[trigger] call_ensures(monotonic_now, (), now) && timer_start(final(self).timers(), key@) == now,
            forall|k: Seq<char>|
                k != key@ && has_timer(old(self).timers(), k) ==> #[trigger] timer_start(final(self).timers(), k)
                    == timer_start(old(self).timers(), k),
            forall|k: Seq<char>| k != key@ ==> (#[trigger] has_timer(final(self).timers(), k) <==> has_timer(
                old(self).timers(),
                k,
            )),
            final(self).counters() == old(self).counters(),
    {
        let now = monotonic_now();
        let ghost m = self.timers();
        match self.find_timer(key) {
            Some(i) => {
                self.timers[i].1 = now;
                proof {
                    let n = self.timers();
                    assert(n =~= m.update(i as int, (key@, now)));
                    assert forall|a: int, b: int| 0 <= a < n.len() && 0 <= b < n.len() && a != b implies (#[trigger] n[a]).0
                        != (#[trigger] n[b]).0 by {
                        assert(n[a].0 == m[a].0 && n[b].0 == m[b].0);
                    }
                    assert(n[i as int].0 == key@);
                    lemma_timer_start_at(n, i as int);
                    assert forall|k: Seq<char>| k != key@ implies (#[trigger] has_timer(n, k) <==> has_timer(m, k))
                        && (has_timer(m, k) ==> timer_start(n, k) == timer_start(m, k)) by {
                        if has_timer(m, k) {
                            let j = choose|j: int| 0 <= j < m.len() && (#[trigger] m[j]).0 == k;
                            assert(n[j].0 == k);
                            lemma_timer_start_at(n, j);
                            lemma_timer_start_at(m, j);
                        }
                        if has_timer(n, k) {
                            let j = choose|j: int| 0 <= j < n.len() && (#[trigger] n[j]).0 == k;
                            assert(m[j].0 == k);
                        }
                    }
                    assert forall|k: Seq<char>| k != key@ && has_timer(m, k) implies #[trigger] timer_start(n, k)
                        == timer_start(m, k) by {
                        assert(has_timer(n, k) <==> has_timer(m, k));
                    }
                }
            },
            None => {
                self.timers.push((copy_text(key), now));
                proof {
                    let n = self.timers();
                    assert(n =~= m.push((key@, now)));
                    assert forall|a: int, b: int| 0 <= a < n.len() && 0 <= b < n.len() && a != b implies (#[trigger] n[a]).0
                        != (#[trigger] n[b]).0 by {
                        if a < m.len() {
                            assert(n[a] == m[a]);
                        }
                        if b < m.len() {
                            assert(n[b] == m[b]);
                        }
                    }
                    assert(n[m.len() as int].0 == key@);
                    lemma_timer_start_at(n, m.len() as int);
                    assert forall|k: Seq<char>| k != key@ implies (#[trigger] has_timer(n, k) <==> has_timer(m, k))
                        && (has_timer(m, k) ==> timer_start(n, k) == timer_start(m, k)) by {
                        if has_timer(m, k) {
                            let j = choose|j: int| 0 <= j < m.len() && (#[trigger] m[j]).0 == k;
                            assert(n[j] == m[j]);
                            lemma_timer_start_at(n, j);
                            lemma_timer_start_at(m, j);
                        }
                        if has_timer(n, k) {
                            let j = choose|j: int| 0 <= j < n.len() && (#[trigger] n[j]).0 == k;
                            if j < m.len() {
                                assert(n[j] == m[j]);
                            }
                        }
                    }
                    assert forall|k: Seq<char>| k != key@ && has_timer(m, k) implies #[trigger] timer_start(n, k)
                        == timer_start(m, k) by {
                        assert(has_timer(n, k) <==> has_timer(m, k));
                    }
                }
            },
        }
        Ok(())
    }

    /// Stops timer `key` and gives the time passed since it started; a timer
    /// that is not running is an error ("Timer <key> not found"). The time
    /// passed is read from the clock, so nothing is stated of it.
    pub fn stop_timer(&mut self, key: &str) -> (r: Result<std::time::Duration, String>)
        requires
            old(self).wf(),
        ensures
            final(self).wf(),
            has_timer(old(self).timers(), key@) <==> r is Ok,
            r matches Err(m) ==> m@ == "Timer "@ + key@ + " not found"@ && final(self).timers() == old(self).timers(),
            !has_timer(final(self).timers(), key@),
            forall|k: Seq<char>| k != key@ ==> (#[trigger] has_timer(final(self).timers(), k) <==> has_timer(
                old(self).timers(),
                k,
            )),
            r matches Ok(d) ==> call_ensures(elapsed_since, (&timer_start(old(self).timers(), key@),), d),
            forall|k: Seq<char>|
                k != key@ && has_timer(old(self).timers(), k) ==> #[trigger] timer_start(final(self).timers(), k)
                    == timer_start(old(self).timers(), k),
            final(self).counters() == old(self).counters(),
    {
        let ghost m = self.timers();
        match self.find_timer(key) {
            Some(i) => {
                proof {
                    lemma_timer_start_at(m, i as int);
                }
                let (_k, start) = self.timers.remove(i);
                proof {
                    let n = self.timers();
                    assert(n =~= m.remove(i as int));
                    assert forall|a: int, b: int| 0 <= a < n.len() && 0 <= b < n.len() && a != b implies (#[trigger] n[a]).0
                        != (#[trigger] n[b]).0 by {
                        let a0 = if a < i { a } else { a + 1 };
                        let b0 = if b < i { b } else { b + 1 };
                        assert(n[a] == m[a0] && n[b] == m[b0]);
                    }
                    assert forall|k: Seq<char>| k != key@ implies (#[trigger] has_timer(n, k) <==> has_timer(m, k))
                        && (has_timer(m, k) ==> timer_start(n, k) == timer_start(m, k)) by {
                        if has_timer(m, k) {
                            let j = choose|j: int| 0 <= j < m.len() && (#[trigger] m[j]).0 == k;
                            assert(j != i);
                            let j0 = if j < i { j } else { j - 1 };
                            assert(n[j0] == m[j]);
                            lemma_timer_start_at(n, j0);
                            lemma_timer_start_at(m, j);
                        }
                        if has_timer(n, k) {
                            let j = choose|j: int| 0 <= j < n.len() && (#[trigger] n[j]).0 == k;
                            let j0 = if j < i { j } else { j + 1 };
                            assert(n[j] == m[j0]);
                        }
                    }
                    assert forall|k: Seq<char>| k != key@ && has_timer(m, k) implies #[trigger] timer_start(n, k)
                        == timer_start(m, k) by {
                        assert(has_timer(n, k) <==> has_timer(m, k));
                    }
                    if has_timer(n, key@) {
                        let j = choose|j: int| 0 <= j < n.len() && (#[trigger] n[j]).0 == key@;
                        let j0 = if j < i { j } else { j + 1 };
                        assert(n[j] == m[j0]);
                    }
                }
                let d = elapsed_since(&start);
                assert(call_ensures(elapsed_since, (&start,), d));
                Ok(d)
            },
            None => {
                let head = join_text("Timer ", key);
                Err(join_text(head.as_str(), " not found"))
            },
        }
    }
}

/// A timer measures from its start. Let `ms` be the successive timers of a
/// collector: the first right after `start_timer(k)` recorded the instant
/// `s`, each next one after an operation that kept `k` running with its start
/// (starting, restarting or stopping another timer, counting). Then the
/// answer `d` of `stop_timer(k)` on the last ones is a time the clock may
/// give as elapsed since `s`, the start, and not since any later instant.
pub proof fn law_timer_measures_from_start(
    ms: Seq<Seq<(Seq<char>, std::time::Instant)>>,
    k: Seq<char>,
    s: std::time::Instant,
    d: std::time::Duration,
)
    requires
        ms.len() > 0,
        has_timer(ms[0], k),
        timer_start(ms[0], k) == s,
        forall|i: int|
            0 <= i < ms.len() - 1 ==> has_timer(#[trigger] ms[i + 1], k) && timer_start(ms[i + 1], k)
                == timer_start(ms[i], k),
        call_ensures(elapsed_since, (&timer_start(ms.last(), k),), d),
    ensures
        call_ensures(elapsed_since, (&s,), d),
{
    lemma_timer_start_kept(ms, k, ms.len() - 1);
}

proof fn lemma_timer_start_kept(ms: Seq<Seq<(Seq<char>, std::time::Instant)>>, k: Seq<char>, i: int)
    requires
        0 <= i < ms.len(),
        forall|j: int|
            0 <= j < ms.len() - 1 ==> has_timer(#[trigger] ms[j + 1], k) && timer_start(ms[j + 1], k)
                == timer_start(ms[j], k),
    ensures
        timer_start(ms[i], k) == timer_start(ms[0], k),
    decreases i,
{
    if i > 0 {
        lemma_timer_start_kept(ms, k, i - 1);
        assert(timer_start(ms[(i - 1) + 1], k) == timer_start(ms[i - 1], k));
    }
}

} // verus!
