//! Per-request metrics counters: a request counter keyed by path, a latency
//! total keyed by path, and a counter keyed by path and status code, the two
//! latter tagged with the last sampled trace identifier (the exemplar).
//!
//! Counter cells are created lazily on the first observation of a label and
//! increment saturating at `u64::MAX`, so every counter is monotone. The
//! surrounding request layer owns the registration and text exposition of
//! these counters; this model is the ground truth the exposition reflects.

use vstd::prelude::*;
use crate::kvlist::{assoc_map, assoc_unique, lemma_assoc_map_props, lemma_assoc_push,
    lemma_assoc_update};

verus! {

/// Label set of the per-path counters.
#[derive(Clone, Debug, Hash, PartialEq, Eq)]
pub struct PathLabel {
    pub path: String,
}

/// Label set of the per-path, per-status counters.
#[derive(Clone, Debug, Hash, PartialEq, Eq)]
pub struct ResultLabel {
    pub path: String,
    pub status_code: u16,
}

/// Label of a sampled trace identifier attached to an observation.
#[derive(Clone, Debug, Hash, PartialEq, Eq)]
pub struct TraceLabel {
    pub trace_id: String,
}

/// One request-count cell.
struct CountCell {
    path: String,
    count: u64,
}

/// One latency-total cell, with the last exemplar seen.
struct LatencyCell {
    path: String,
    total_ms: u64,
    exemplar: Option<String>,
}

/// One per-status count cell, with the last exemplar seen.
struct ResultCell {
    path: String,
    status_code: u16,
    count: u64,
    exemplar: Option<String>,
}

/// Mathematical model of the metrics state: three label-keyed counter maps.
#[verifier::ext_equal]
pub ghost struct MetricsModel {
    pub counts: Map<Seq<char>, u64>,
    pub latency: Map<Seq<char>, (u64, Option<Seq<char>>)>,
    pub results: Map<(Seq<char>, u16), (u64, Option<Seq<char>>)>,
}

/// Abstract value of an optional string.
pub open spec fn opt_str_view(o: Option<String>) -> Option<Seq<char>> {
    match o {
        Option::None => Option::None,
        Option::Some(s) => Option::Some(s@),
    }
}

/// Addition that stops at `u64::MAX` instead of wrapping.
pub open spec fn sat_add(a: u64, b: u64) -> u64 {
    if a + b > u64::MAX {
        u64::MAX
    } else {
        (a + b) as u64
    }
}

/// A path's request count, zero before the first observation.
pub open spec fn count_of(m: Map<Seq<char>, u64>, k: Seq<char>) -> u64 {
    if m.contains_key(k) {
        m[k]
    } else {
        0
    }
}

/// A path's latency cell, zeroed before the first observation.
pub open spec fn latency_of(
    m: Map<Seq<char>, (u64, Option<Seq<char>>)>,
    k: Seq<char>,
) -> (u64, Option<Seq<char>>) {
    if m.contains_key(k) {
        m[k]
    } else {
        (0, Option::None)
    }
}

/// A (path, status) pair's count, zero before the first observation.
pub open spec fn result_count_of(
    m: Map<(Seq<char>, u16), (u64, Option<Seq<char>>)>,
    k: (Seq<char>, u16),
) -> u64 {
    if m.contains_key(k) {
        m[k].0
    } else {
        0
    }
}

/// How one completed request changes the metrics state: the path's count
/// rises by one, the path's latency total by the request's milliseconds,
/// the (path, status) count by one, and the two exemplar slots take the
/// request's trace identifier.
pub open spec fn record_spec(
    m: MetricsModel,
    trace: Option<Seq<char>>,
    path: Seq<char>,
    ms: u64,
    status_code: u16,
) -> MetricsModel {
    MetricsModel {
        counts: m.counts.insert(path, sat_add(count_of(m.counts, path), 1)),
        latency: m.latency.insert(path, (sat_add(latency_of(m.latency, path).0, ms), trace)),
        results: m.results.insert(
            (path, status_code),
            (sat_add(result_count_of(m.results, (path, status_code)), 1), trace),
        ),
    }
}

/// Abstract pairs of the request-count cells.
spec fn count_pairs(s: Seq<CountCell>) -> Seq<(Seq<char>, u64)> {
    s.map_values(|c: CountCell| (c.path@, c.count))
}

/// Abstract pairs of the latency cells.
spec fn latency_pairs(s: Seq<LatencyCell>) -> Seq<(Seq<char>, (u64, Option<Seq<char>>))> {
    s.map_values(|c: LatencyCell| (c.path@, (c.total_ms, opt_str_view(c.exemplar))))
}

/// Abstract pairs of the per-status cells.
spec fn status_pairs(s: Seq<ResultCell>) -> Seq<((Seq<char>, u16), (u64, Option<Seq<char>>))> {
    s.map_values(|c: ResultCell| ((c.path@, c.status_code), (c.count, opt_str_view(c.exemplar))))
}

/// The application's metrics: the three counter families, observed lazily
/// per label.
pub struct AppFlowyCloudMetrics {
    requests_count: Vec<CountCell>,
    requests_latency: Vec<LatencyCell>,
    requests_result: Vec<ResultCell>,
}

impl View for AppFlowyCloudMetrics {
    type V = MetricsModel;

    closed spec fn view(&self) -> MetricsModel {
        MetricsModel {
            counts: assoc_map(count_pairs(self.requests_count@)),
            latency: assoc_map(latency_pairs(self.requests_latency@)),
            results: assoc_map(status_pairs(self.requests_result@)),
        }
    }
}

impl AppFlowyCloudMetrics {
    /// Internal invariant: each label keys at most one cell.
    pub closed spec fn wf(&self) -> bool {
        assoc_unique(count_pairs(self.requests_count@)) && assoc_unique(
            latency_pairs(self.requests_latency@),
        ) && assoc_unique(status_pairs(self.requests_result@))
    }

    /// Fresh metrics with no observations.
    pub fn init() -> (r: Self)
        ensures
            r.wf(),
            r@ == (MetricsModel {
                counts: Map::<Seq<char>, u64>::empty(),
                latency: Map::<Seq<char>, (u64, Option<Seq<char>>)>::empty(),
                results: Map::<(Seq<char>, u16), (u64, Option<Seq<char>>)>::empty(),
            }),
    {
        AppFlowyCloudMetrics {
            requests_count: Vec::new(),
            requests_latency: Vec::new(),
            requests_result: Vec::new(),
        }
    }

    /// Position of the request-count cell for a path, if observed.
    #[verifier::loop_isolation(false)]
    fn find_count(&self, path: &String) -> (r: Option<usize>)
        requires
            self.wf(),
        ensures
            match r {
                Some(i) => i < self.requests_count@.len() && self.requests_count@[i as int].path@
                    == path@ && self@.counts.contains_key(path@) && self@.counts[path@]
                    == self.requests_count@[i as int].count,
                None => !self@.counts.contains_key(path@) && forall|j: int|
                    0 <= j < self.requests_count@.len()
                        ==> (#[trigger] self.requests_count@[j]).path@ != path@,
            },
    {
        proof {
            lemma_assoc_map_props(count_pairs(self.requests_count@));
        }
        let n = self.requests_count.len();
        let mut i: usize = 0;
        while i < n
            invariant
                0 <= i <= n,
                forall|j: int| 0 <= j < i ==> (#[trigger] self.requests_count@[j]).path@ != path@,
            decreases n - i,
        {
            if self.requests_count[i].path == *path {
                proof {
                    assert(count_pairs(self.requests_count@)[i as int].0 == path@);
                }
                return Some(i);
            }
            i += 1;
        }
        proof {
            if self@.counts.contains_key(path@) {
                let j = choose|j: int|
                    0 <= j < count_pairs(self.requests_count@).len() && (#[trigger] count_pairs(
                        self.requests_count@,
                    )[j]).0 == path@;
                assert(self.requests_count@[j].path@ == path@);
            }
        }
        None
    }

    /// Position of the latency cell for a path, if observed.
    #[verifier::loop_isolation(false)]
    fn find_latency(&self, path: &String) -> (r: Option<usize>)
        requires
            self.wf(),
        ensures
            match r {
                Some(i) => i < self.requests_latency@.len()
                    && self.requests_latency@[i as int].path@ == path@
                    && self@.latency.contains_key(path@) && self@.latency[path@] == (
                    self.requests_latency@[i as int].total_ms,
                    opt_str_view(self.requests_latency@[i as int].exemplar),
                ),
                None => !self@.latency.contains_key(path@) && forall|j: int|
                    0 <= j < self.requests_latency@.len()
                        ==> (#[trigger] self.requests_latency@[j]).path@ != path@,
            },
    {
        proof {
            lemma_assoc_map_props(latency_pairs(self.requests_latency@));
        }
        let n = self.requests_latency.len();
        let mut i: usize = 0;
        while i < n
            invariant
                0 <= i <= n,
                forall|j: int|
                    0 <= j < i ==> (#[trigger] self.requests_latency@[j]).path@ != path@,
            decreases n - i,
        {
            if self.requests_latency[i].path == *path {
                proof {
                    assert(latency_pairs(self.requests_latency@)[i as int].0 == path@);
                }
                return Some(i);
            }
            i += 1;
        }
        proof {
            if self@.latency.contains_key(path@) {
                let j = choose|j: int|
                    0 <= j < latency_pairs(self.requests_latency@).len() && (
                    #[trigger] latency_pairs(self.requests_latency@)[j]).0 == path@;
                assert(self.requests_latency@[j].path@ == path@);
            }
        }
        None
    }

    /// Position of the per-status cell for a (path, status) pair, if
    /// observed.
    #[verifier::loop_isolation(false)]
    fn find_result(&self, path: &String, status_code: u16) -> (r: Option<usize>)
        requires
            self.wf(),
        ensures
            match r {
                Some(i) => i < self.requests_result@.len() && self.requests_result@[i as int].path@
                    == path@ && self.requests_result@[i as int].status_code == status_code
                    && self@.results.contains_key((path@, status_code)) && self@.results[
                    (path@, status_code)
                ] == (
                    self.requests_result@[i as int].count,
                    opt_str_view(self.requests_result@[i as int].exemplar),
                ),
                None => !self@.results.contains_key((path@, status_code)) && forall|j: int|
                    0 <= j < self.requests_result@.len() ==> ((
                    #[trigger] self.requests_result@[j]).path@ != path@
                        || self.requests_result@[j].status_code != status_code),
            },
    {
        proof {
            lemma_assoc_map_props(status_pairs(self.requests_result@));
        }
        let n = self.requests_result.len();
        let mut i: usize = 0;
        while i < n
            invariant
                0 <= i <= n,
                forall|j: int|
                    0 <= j < i ==> ((#[trigger] self.requests_result@[j]).path@ != path@
                        || self.requests_result@[j].status_code != status_code),
            decreases n - i,
        {
            if self.requests_result[i].path == *path && self.requests_result[i].status_code
                == status_code {
                proof {
                    assert(status_pairs(self.requests_result@)[i as int].0 == (
                        path@,
                        status_code,
                    ));
                }
                return Some(i);
            }
            i += 1;
        }
        proof {
            if self@.results.contains_key((path@, status_code)) {
                let j = choose|j: int|
                    0 <= j < status_pairs(self.requests_result@).len() && (#[trigger] status_pairs(
                        self.requests_result@,
                    )[j]).0 == (path@, status_code);
                assert(self.requests_result@[j].path@ == path@);
            }
        }
        None
    }

    /// Record one completed request: its path, latency in milliseconds,
    /// status code, and an optional sampled trace identifier.
    pub fn record_request(
        &mut self,
        trace_id: Option<String>,
        path: String,
        ms: u64,
        status_code: u16,
    )
        requires
            old(self).wf(),
        ensures
            final(self).wf(),
            final(self)@ == record_spec(
                old(self)@,
                opt_str_view(trace_id),
                path@,
                ms,
                status_code,
            ),
    {
        let ghost trace = opt_str_view(trace_id);
        let exemplar_latency = clone_opt(&trace_id);
        let exemplar_result = trace_id;
        // Request count.
        let ghost c0 = self.requests_count@;
        match self.find_count(&path) {
            Some(i) => {
                let c = self.requests_count[i].count;
                let bumped = if c == u64::MAX {
                    c
                } else {
                    c + 1
                };
                self.requests_count[i].count = bumped;
                proof {
                    assert(count_pairs(self.requests_count@) =~= count_pairs(c0).update(
                        i as int,
                        (count_pairs(c0)[i as int].0, bumped),
                    ));
                    lemma_assoc_update(count_pairs(c0), i as int, bumped);
                }
            },
            None => {
                self.requests_count.push(CountCell { path: path.clone(), count: 1 });
                proof {
                    assert(count_pairs(self.requests_count@) =~= count_pairs(c0).push(
                        (path@, 1u64),
                    ));
                    assert forall|j: int| 0 <= j < count_pairs(c0).len() implies (
                    #[trigger] count_pairs(c0)[j]).0 != path@ by {
                        assert(c0[j].path@ != path@);
                    }
                    lemma_assoc_push(count_pairs(c0), (path@, 1u64));
                }
            },
        }
        // Latency total with exemplar.
        let ghost l0 = self.requests_latency@;
        match self.find_latency(&path) {
            Some(i) => {
                let t = self.requests_latency[i].total_ms;
                let bumped = if t > u64::MAX - ms {
                    u64::MAX
                } else {
                    t + ms
                };
                self.requests_latency[i].total_ms = bumped;
                self.requests_latency[i].exemplar = exemplar_latency;
                proof {
                    assert(latency_pairs(self.requests_latency@) =~= latency_pairs(l0).update(
                        i as int,
                        (latency_pairs(l0)[i as int].0, (bumped, trace)),
                    ));
                    lemma_assoc_update(latency_pairs(l0), i as int, (bumped, trace));
                }
            },
            None => {
                let bumped = ms;
                self.requests_latency.push(
                    LatencyCell { path: path.clone(), total_ms: bumped, exemplar: exemplar_latency },
                );
                proof {
                    assert(latency_pairs(self.requests_latency@) =~= latency_pairs(l0).push(
                        (path@, (bumped, trace)),
                    ));
                    assert forall|j: int| 0 <= j < latency_pairs(l0).len() implies (
                    #[trigger] latency_pairs(l0)[j]).0 != path@ by {
                        assert(l0[j].path@ != path@);
                    }
                    lemma_assoc_push(latency_pairs(l0), (path@, (bumped, trace)));
                }
            },
        }
        // Per-status count with exemplar.
        let ghost r0 = self.requests_result@;
        match self.find_result(&path, status_code) {
            Some(i) => {
                let c = self.requests_result[i].count;
                let bumped = if c == u64::MAX {
                    c
                } else {
                    c + 1
                };
                self.requests_result[i].count = bumped;
                self.requests_result[i].exemplar = exemplar_result;
                proof {
                    assert(status_pairs(self.requests_result@) =~= status_pairs(r0).update(
                        i as int,
                        (status_pairs(r0)[i as int].0, (bumped, trace)),
                    ));
                    lemma_assoc_update(status_pairs(r0), i as int, (bumped, trace));
                }
            },
            None => {
                self.requests_result.push(
                    ResultCell { path, status_code, count: 1, exemplar: exemplar_result },
                );
                proof {
                    assert(status_pairs(self.requests_result@) =~= status_pairs(r0).push(
                        ((path@, status_code), (1u64, trace)),
                    ));
                    assert forall|j: int| 0 <= j < status_pairs(r0).len() implies (
                    #[trigger] status_pairs(r0)[j]).0 != (path@, status_code) by {
                        assert((r0[j].path@, r0[j].status_code) != (path@, status_code));
                    }
                    lemma_assoc_push(status_pairs(r0), ((path@, status_code), (1u64, trace)));
                }
            },
        }
        proof {
            assert(self@ =~= record_spec(old(self)@, trace, path@, ms, status_code));
        }
    }

    /// The request count recorded for a path.
    pub fn requests_count_for(&self, path: &String) -> (r: u64)
        requires
            self.wf(),
        ensures
            r == count_of(self@.counts, path@),
    {
        match self.find_count(path) {
            Some(i) => self.requests_count[i].count,
            None => 0,
        }
    }

    /// The latency total recorded for a path.
    pub fn requests_latency_total(&self, path: &String) -> (r: u64)
        requires
            self.wf(),
        ensures
            r == latency_of(self@.latency, path@).0,
    {
        match self.find_latency(path) {
            Some(i) => self.requests_latency[i].total_ms,
            None => 0,
        }
    }

    /// The count recorded for a (path, status code) pair.
    pub fn requests_result_count(&self, path: &String, status_code: u16) -> (r: u64)
        requires
            self.wf(),
        ensures
            r == result_count_of(self@.results, (path@, status_code)),
    {
        match self.find_result(path, status_code) {
            Some(i) => self.requests_result[i].count,
            None => 0,
        }
    }
}

/// One completed request, abstractly.
pub ghost struct RequestFact {
    pub trace: Option<Seq<char>>,
    pub path: Seq<char>,
    pub ms: u64,
    pub status_code: u16,
}

/// The metrics state left behind by fresh metrics, before any observation.
pub open spec fn init_model() -> MetricsModel {
    MetricsModel {
        counts: Map::<Seq<char>, u64>::empty(),
        latency: Map::<Seq<char>, (u64, Option<Seq<char>>)>::empty(),
        results: Map::<(Seq<char>, u16), (u64, Option<Seq<char>>)>::empty(),
    }
}

/// The metrics state after a sequence of requests is recorded in order.
pub open spec fn record_all(m: MetricsModel, rs: Seq<RequestFact>) -> MetricsModel
    decreases rs.len(),
{
    if rs.len() == 0 {
        m
    } else {
        record_spec(
            record_all(m, rs.drop_last()),
            rs.last().trace,
            rs.last().path,
            rs.last().ms,
            rs.last().status_code,
        )
    }
}

/// How many of the requests went to the given path.
pub open spec fn count_matching_path(rs: Seq<RequestFact>, p: Seq<char>) -> nat
    decreases rs.len(),
{
    if rs.len() == 0 {
        0
    } else {
        count_matching_path(rs.drop_last(), p) + (if rs.last().path == p {
            1nat
        } else {
            0nat
        })
    }
}

/// How many of the requests went to the given path with the given status.
pub open spec fn count_matching_result(rs: Seq<RequestFact>, p: Seq<char>, st: u16) -> nat
    decreases rs.len(),
{
    if rs.len() == 0 {
        0
    } else {
        count_matching_result(rs.drop_last(), p, st) + (if rs.last().path == p
            && rs.last().status_code == st {
            1nat
        } else {
            0nat
        })
    }
}

/// No more requests match a label than were made at all.
proof fn lemma_count_matching_le(rs: Seq<RequestFact>, p: Seq<char>, st: u16)
    ensures
        count_matching_path(rs, p) <= rs.len(),
        count_matching_result(rs, p, st) <= rs.len(),
    decreases rs.len(),
{
    if rs.len() > 0 {
        lemma_count_matching_le(rs.drop_last(), p, st);
    }
}

/// Metrics scenario: starting from fresh metrics, after any sequence of
/// recorded requests the counter of a path equals the number of requests to
/// that path, and the counter of a (path, status code) pair equals the
/// number of requests sharing exactly that path and status. The length
/// bound only keeps the counts below the cells' saturation point.
pub proof fn lemma_metrics_scenario(rs: Seq<RequestFact>, p: Seq<char>, st: u16)
    requires
        rs.len() <= u64::MAX,
    ensures
        count_of(record_all(init_model(), rs).counts, p) == count_matching_path(rs, p),
        result_count_of(record_all(init_model(), rs).results, (p, st)) == count_matching_result(
            rs,
            p,
            st,
        ),
    decreases rs.len(),
{
    if rs.len() > 0 {
        let t = rs.drop_last();
        let last = rs.last();
        lemma_metrics_scenario(t, p, st);
        lemma_count_matching_le(t, p, st);
        let m1 = record_all(init_model(), t);
        assert(record_all(init_model(), rs) == record_spec(
            m1,
            last.trace,
            last.path,
            last.ms,
            last.status_code,
        ));
        if last.path == p {
            assert(count_of(record_spec(m1, last.trace, last.path, last.ms, last.status_code).counts, p)
                == sat_add(count_of(m1.counts, p), 1));
        }
        if last.path == p && last.status_code == st {
            assert((last.path, last.status_code) == (p, st));
        } else {
            assert((last.path, last.status_code) != (p, st));
        }
    }
}

/// Clone an optional string, keeping its abstract value.
fn clone_opt(o: &Option<String>) -> (r: Option<String>)
    ensures
        opt_str_view(r) == opt_str_view(*o),
{
    match o {
        None => None,
        Some(s) => Some(s.clone()),
    }
}

} // verus!
