//! The counting part of a benchmark report.
//!
//! A sample's measured values (latency, throughput rate, setup time) are floating
//! point and stay outside the library. What a report counts, and which samples feed
//! its latency and setup summaries, is decided here from the plain facts of each
//! sample.
use vstd::prelude::*;

use crate::cli::BenchmarkKind;
use crate::error::{kind_at, kind_index, ErrorKind, KIND_COUNT};
use crate::stats::window_len;

verus! {

/// The plain facts of one sample.
#[derive(Debug, Clone, PartialEq, Eq)]
pub struct SampleFacts {
    /// The sample succeeded.
    pub success: bool,
    /// The sample has a measured value (latency or throughput rate).
    pub has_metric: bool,
    /// The sample has a setup time.
    pub has_setup_time: bool,
    /// Bytes read by the sample.
    pub bytes_transferred: u64,
    /// The remote command ended without an exit status.
    pub missing_exit_status: bool,
    /// The category of the sample's failure, if it failed with one.
    pub error_kind: Option<ErrorKind>,
}

/// What a report counts over a run's samples.
#[derive(Debug)]
pub struct SampleCounts {
    pub success_count: usize,
    pub failure_count: usize,
    pub missing_exit_status: usize,
    /// For throughput runs, the bytes read by the successful samples.
    pub total_bytes: Option<u64>,
    /// The number of failures of each category that occurred, by category order.
    pub error_counts: Vec<(ErrorKind, usize)>,
    /// The samples whose measured values the summary reads, in order.
    pub metric_indices: Vec<usize>,
    /// The samples whose setup times the setup summary reads, in order.
    pub setup_indices: Vec<usize>,
}

/// How many samples satisfy `p`.
pub open spec fn count_where(s: Seq<SampleFacts>, p: spec_fn(SampleFacts) -> bool) -> nat
    decreases s.len(),
{
    if s.len() == 0 {
        0
    } else {
        count_where(s.drop_last(), p) + if p(s.last()) {
            1nat
        } else {
            0nat
        }
    }
}

pub open spec fn is_success() -> spec_fn(SampleFacts) -> bool {
    |f: SampleFacts| f.success
}

pub open spec fn is_missing_exit_status() -> spec_fn(SampleFacts) -> bool {
    |f: SampleFacts| f.missing_exit_status
}

pub open spec fn has_error_kind(kind: ErrorKind) -> spec_fn(SampleFacts) -> bool {
    |f: SampleFacts| f.error_kind == Some(kind)
}

pub open spec fn feeds_metrics() -> spec_fn(SampleFacts) -> bool {
    |f: SampleFacts| f.success && f.has_metric
}

pub open spec fn feeds_setup() -> spec_fn(SampleFacts) -> bool {
    |f: SampleFacts| f.success && f.has_setup_time
}

/// The bytes read by the successful samples.
pub open spec fn success_bytes(s: Seq<SampleFacts>) -> nat
    decreases s.len(),
{
    if s.len() == 0 {
        0
    } else {
        success_bytes(s.drop_last()) + if s.last().success {
            s.last().bytes_transferred as nat
        } else {
            0nat
        }
    }
}

/// The categories among the first `upto` (in category order) that occur in `s`,
/// each with its number of occurrences.
pub open spec fn error_table(s: Seq<SampleFacts>, upto: nat) -> Seq<(ErrorKind, nat)>
    decreases upto,
{
    if upto == 0 {
        seq![]
    } else {
        let prev = error_table(s, (upto - 1) as nat);
        let kind = kind_at((upto - 1) as nat);
        let n = count_where(s, has_error_kind(kind));
        if n > 0 {
            prev.push((kind, n))
        } else {
            prev
        }
    }
}

/// An error table taken as mathematical numbers.
pub open spec fn table_view(t: Seq<(ErrorKind, usize)>) -> Seq<(ErrorKind, nat)> {
    Seq::new(t.len(), |i: int| (t[i].0, t[i].1 as nat))
}

/// The positions in `lo..hi` of the samples that satisfy `p`, in order.
pub open spec fn indices_where(
    s: Seq<SampleFacts>,
    lo: nat,
    hi: nat,
    p: spec_fn(SampleFacts) -> bool,
) -> Seq<usize>
    decreases hi,
{
    if hi <= lo {
        seq![]
    } else {
        let prev = indices_where(s, lo, (hi - 1) as nat, p);
        if p(s[hi - 1]) {
            prev.push((hi - 1) as usize)
        } else {
            prev
        }
    }
}

/// The samples a report measures: all of a throughput run, and the trimmed window
/// of a latency run (see [`window_len`]); the window is taken before failures are
/// left out.
pub open spec fn measured_range(
    kind: BenchmarkKind,
    len: nat,
    warmup: nat,
    parallel: nat,
    number: nat,
) -> (nat, nat) {
    if kind == BenchmarkKind::Throughput {
        (0, len)
    } else {
        (warmup, warmup + window_len(len, warmup, parallel, number))
    }
}

/// The samples whose outcomes a report counts: the retained window
/// `warmup..warmup + number` of a full latency run (one of exactly
/// `warmup + parallel + number` samples), and every sample otherwise.
pub open spec fn counted_range(
    kind: BenchmarkKind,
    len: nat,
    warmup: nat,
    parallel: nat,
    number: nat,
) -> (nat, nat) {
    if kind != BenchmarkKind::Throughput && len == warmup + parallel + number {
        (warmup, warmup + number)
    } else {
        (0, len)
    }
}

/// The counting part of a report over `samples`. Successes, failures and error
/// categories cover the counted samples ([`counted_range`]); missing exit statuses
/// and transferred bytes cover every sample; the metric and setup summaries read
/// the successful samples of the measured range only.
pub open spec fn counts_match(
    r: SampleCounts,
    kind: BenchmarkKind,
    s: Seq<SampleFacts>,
    warmup: nat,
    parallel: nat,
    number: nat,
) -> bool {
    let range = measured_range(kind, s.len(), warmup, parallel, number);
    let counted = counted_range(kind, s.len(), warmup, parallel, number);
    let w = s.subrange(counted.0 as int, counted.1 as int);
    &&& r.success_count == count_where(w, is_success())
    &&& r.failure_count == w.len() - count_where(w, is_success())
    &&& r.missing_exit_status == count_where(s, is_missing_exit_status())
    &&& r.total_bytes == if kind == BenchmarkKind::Throughput {
        Some(success_bytes(s) as u64)
    } else {
        None
    }
    &&& table_view(r.error_counts@) == error_table(w, KIND_COUNT as nat)
    &&& r.metric_indices@ == indices_where(s, range.0, range.1, feeds_metrics())
    &&& r.setup_indices@ == indices_where(s, range.0, range.1, feeds_setup())
}

/// Counting the samples that pass a test is taking the length of their filter.
proof fn lemma_count_is_filter_len(s: Seq<SampleFacts>, p: spec_fn(SampleFacts) -> bool)
    ensures
        count_where(s, p) == s.filter(p).len(),
    decreases s.len(),
{
    reveal(Seq::filter);
    if s.len() > 0 {
        lemma_count_is_filter_len(s.drop_last(), p);
    }
}

/// A report's count of missing exit statuses is the number of samples whose
/// command ended without one, successful or not: every such sample of the run
/// counts, and no other.
pub proof fn lemma_missing_exit_status_counts_flagged_samples(
    r: SampleCounts,
    kind: BenchmarkKind,
    s: Seq<SampleFacts>,
    warmup: nat,
    parallel: nat,
    number: nat,
)
    requires
        counts_match(r, kind, s, warmup, parallel, number),
    ensures
        r.missing_exit_status == s.filter(|f: SampleFacts| f.missing_exit_status).len(),
        (forall|i: int| 0 <= i < s.len() ==> #[trigger] s[i].missing_exit_status)
            ==> r.missing_exit_status == s.len(),
        (forall|i: int| 0 <= i < s.len() ==> !#[trigger] s[i].missing_exit_status)
            ==> r.missing_exit_status == 0,
{
    let p = |f: SampleFacts| f.missing_exit_status;
    assert(is_missing_exit_status() =~= p);
    lemma_count_is_filter_len(s, p);
    lemma_count_all_or_none(s, p);
}

/// When every sample passes a test all of them are counted; when none does, none is.
proof fn lemma_count_all_or_none(s: Seq<SampleFacts>, p: spec_fn(SampleFacts) -> bool)
    ensures
        (forall|i: int| 0 <= i < s.len() ==> p(#[trigger] s[i])) ==> count_where(s, p) == s.len(),
        (forall|i: int| 0 <= i < s.len() ==> !p(#[trigger] s[i])) ==> count_where(s, p) == 0,
    decreases s.len(),
{
    if s.len() > 0 {
        lemma_count_all_or_none(s.drop_last(), p);
        if forall|i: int| 0 <= i < s.len() ==> p(#[trigger] s[i]) {
            assert forall|i: int| 0 <= i < s.drop_last().len() implies p(#[trigger] s.drop_last()[i]) by {
                assert(s.drop_last()[i] == s[i]);
            }
            assert(p(s[s.len() - 1]));
        }
        if forall|i: int| 0 <= i < s.len() ==> !p(#[trigger] s[i]) {
            assert forall|i: int| 0 <= i < s.drop_last().len() implies !p(#[trigger] s.drop_last()[i]) by {
                assert(s.drop_last()[i] == s[i]);
            }
            assert(!p(s[s.len() - 1]));
        }
    }
}

/// A sample that passes the test is counted.
proof fn lemma_count_positive(s: Seq<SampleFacts>, p: spec_fn(SampleFacts) -> bool, i: int)
    requires
        0 <= i < s.len(),
        p(s[i]),
    ensures
        count_where(s, p) > 0,
    decreases s.len(),
{
    if i < s.len() - 1 {
        lemma_count_positive(s.drop_last(), p, i);
    }
}

/// Successes and failures together are all the samples.
proof fn lemma_count_complement(s: Seq<SampleFacts>, p: spec_fn(SampleFacts) -> bool)
    ensures
        count_where(s, p) + count_where(s, |f: SampleFacts| !p(f)) == s.len(),
    decreases s.len(),
{
    if s.len() > 0 {
        lemma_count_complement(s.drop_last(), p);
    }
}

/// The entries of an error table: each category of the first `upto` that occurs,
/// once, with its number of occurrences, in increasing category order.
proof fn lemma_error_table_entries(s: Seq<SampleFacts>, upto: nat)
    requires
        upto <= KIND_COUNT,
    ensures
        forall|j: int|
            0 <= j < error_table(s, upto).len() ==> {
                let e = #[trigger] error_table(s, upto)[j];
                &&& kind_index(e.0) < upto
                &&& e.1 > 0
                &&& e.1 == count_where(s, has_error_kind(e.0))
            },
        forall|j1: int, j2: int|
            0 <= j1 < j2 < error_table(s, upto).len() ==> kind_index(
                #[trigger] error_table(s, upto)[j1].0,
            ) < kind_index(#[trigger] error_table(s, upto)[j2].0),
        forall|k: ErrorKind|
            kind_index(k) < upto && #[trigger] count_where(s, has_error_kind(k)) > 0 ==> exists|j: int|
                0 <= j < error_table(s, upto).len() && #[trigger] error_table(s, upto)[j].0 == k,
    decreases upto,
{
    if upto > 0 {
        let u = (upto - 1) as nat;
        lemma_error_table_entries(s, u);
        let prev = error_table(s, u);
        let kind = kind_at(u);
        assert(kind_index(kind) == u);
        let t = error_table(s, upto);
        assert forall|k: ErrorKind|
            kind_index(k) < upto && #[trigger] count_where(s, has_error_kind(k)) > 0 implies exists|j: int|
                0 <= j < t.len() && #[trigger] t[j].0 == k by {
            crate::error::lemma_kind_index_roundtrip(k);
            if kind_index(k) == u {
                assert(t[prev.len() as int].0 == k);
            } else {
                let j = choose|j: int| 0 <= j < prev.len() && #[trigger] prev[j].0 == k;
                assert(t[j] == prev[j]);
            }
        }
        if count_where(s, has_error_kind(kind)) > 0 {
            assert(t == prev.push((kind, count_where(s, has_error_kind(kind)))));
            assert forall|j: int| 0 <= j < t.len() implies {
                let e = #[trigger] t[j];
                &&& kind_index(e.0) < upto
                &&& e.1 > 0
                &&& e.1 == count_where(s, has_error_kind(e.0))
            } by {
                if j < prev.len() {
                    assert(t[j] == prev[j]);
                }
            }
            assert forall|j1: int, j2: int| 0 <= j1 < j2 < t.len() implies kind_index(
                #[trigger] t[j1].0,
            ) < kind_index(#[trigger] t[j2].0) by {
                assert(t[j1] == prev[j1]);
                if j2 < prev.len() {
                    assert(t[j2] == prev[j2]);
                }
            }
        }
    }
}

/// What a report counts, stated over the samples themselves. The counted samples
/// are the retained window `warmup..warmup + number` of a full latency run and
/// every sample otherwise: the successes are those of them that succeeded, the
/// failures those that did not, and the error distribution lists each category
/// that occurs among them, once, in category order, with the number of counted
/// samples that failed with it.
pub proof fn lemma_report_counts(
    r: SampleCounts,
    kind: BenchmarkKind,
    s: Seq<SampleFacts>,
    warmup: nat,
    parallel: nat,
    number: nat,
)
    requires
        counts_match(r, kind, s, warmup, parallel, number),
    ensures
        ({
            let w = if kind != BenchmarkKind::Throughput && s.len() == warmup + parallel + number {
                s.subrange(warmup as int, (warmup + number) as int)
            } else {
                s
            };
            let t = r.error_counts@;
            &&& r.success_count == w.filter(|f: SampleFacts| f.success).len()
            &&& r.failure_count == w.filter(|f: SampleFacts| !f.success).len()
            &&& forall|j: int|
                0 <= j < t.len() ==> #[trigger] t[j].1 > 0 && t[j].1 == w.filter(
                    |f: SampleFacts| f.error_kind == Some(t[j].0),
                ).len()
            &&& forall|j1: int, j2: int|
                0 <= j1 < j2 < t.len() ==> kind_index(#[trigger] t[j1].0) < kind_index(
                    #[trigger] t[j2].0,
                )
            &&& forall|i: int|
                0 <= i < w.len() && (#[trigger] w[i]).error_kind is Some ==> exists|j: int|
                    0 <= j < t.len() && t[j].0 == w[i].error_kind->Some_0
        }),
{
    let w = if kind != BenchmarkKind::Throughput && s.len() == warmup + parallel + number {
        s.subrange(warmup as int, (warmup + number) as int)
    } else {
        s
    };
    let c = counted_range(kind, s.len(), warmup, parallel, number);
    assert(s.subrange(c.0 as int, c.1 as int) =~= w);
    let t = r.error_counts@;
    let ok = |f: SampleFacts| f.success;
    let bad = |f: SampleFacts| !f.success;
    assert(is_success() =~= ok);
    lemma_count_is_filter_len(w, ok);
    lemma_count_complement(w, ok);
    assert((|f: SampleFacts| !ok(f)) =~= bad);
    lemma_count_is_filter_len(w, bad);
    lemma_error_table_entries(w, KIND_COUNT as nat);
    let et = error_table(w, KIND_COUNT as nat);
    assert(table_view(t) == et);
    assert(t.len() == et.len());
    assert forall|j: int|
        0 <= j < t.len() implies #[trigger] t[j].1 > 0 && t[j].1 == w.filter(
            |f: SampleFacts| f.error_kind == Some(t[j].0),
        ).len() by {
        assert(et[j] == (t[j].0, t[j].1 as nat));
        assert(has_error_kind(t[j].0) =~= (|f: SampleFacts| f.error_kind == Some(t[j].0)));
        lemma_count_is_filter_len(w, has_error_kind(t[j].0));
    }
    assert forall|j1: int, j2: int| 0 <= j1 < j2 < t.len() implies kind_index(
        #[trigger] t[j1].0,
    ) < kind_index(#[trigger] t[j2].0) by {
        assert(et[j1].0 == t[j1].0);
        assert(et[j2].0 == t[j2].0);
    }
    assert forall|i: int| 0 <= i < w.len() && (#[trigger] w[i]).error_kind is Some implies exists|
        j: int,
    | 0 <= j < t.len() && t[j].0 == w[i].error_kind->Some_0 by {
        let k = w[i].error_kind->Some_0;
        crate::error::lemma_kind_index_roundtrip(k);
        lemma_count_positive(w, has_error_kind(k), i);
        let j = choose|j: int| 0 <= j < et.len() && #[trigger] et[j].0 == k;
        assert(t[j].0 == et[j].0);
    }
}

/// The samples whose measured values and setup times a report summarises. A
/// throughput run measures all its samples; a latency run drops the first
/// `warmup`, then keeps at most `number` of those that precede the last
/// `parallel`. Of these, the metric summary reads exactly the successful samples
/// that have a measured value, and the setup summary exactly the successful
/// samples that have a setup time, each in increasing order.
pub proof fn lemma_report_measured_samples(
    r: SampleCounts,
    kind: BenchmarkKind,
    s: Seq<SampleFacts>,
    warmup: nat,
    parallel: nat,
    number: nat,
)
    requires
        counts_match(r, kind, s, warmup, parallel, number),
        s.len() <= usize::MAX,
    ensures
        ({
            let kept: int = if s.len() >= warmup + parallel {
                s.len() - warmup - parallel
            } else {
                0
            };
            let lo: int = if kind == BenchmarkKind::Throughput {
                0
            } else {
                warmup as int
            };
            let hi: int = if kind == BenchmarkKind::Throughput {
                s.len() as int
            } else if kept < number {
                warmup + kept
            } else {
                (warmup + number) as int
            };
            let m = r.metric_indices@;
            let u = r.setup_indices@;
            &&& forall|k: int|
                0 <= k < m.len() ==> lo <= #[trigger] m[k] < hi && s[m[k] as int].success
                    && s[m[k] as int].has_metric
            &&& forall|k1: int, k2: int| 0 <= k1 < k2 < m.len() ==> #[trigger] m[k1] < #[trigger] m[k2]
            &&& forall|i: int|
                lo <= i < hi && (#[trigger] s[i]).success && s[i].has_metric ==> m.contains(
                    i as usize,
                )
            &&& forall|k: int|
                0 <= k < u.len() ==> lo <= #[trigger] u[k] < hi && s[u[k] as int].success
                    && s[u[k] as int].has_setup_time
            &&& forall|k1: int, k2: int| 0 <= k1 < k2 < u.len() ==> #[trigger] u[k1] < #[trigger] u[k2]
            &&& forall|i: int|
                lo <= i < hi && (#[trigger] s[i]).success && s[i].has_setup_time ==> u.contains(
                    i as usize,
                )
        }),
{
    let range = measured_range(kind, s.len(), warmup, parallel, number);
    if range.0 < range.1 {
        lemma_indices_where(s, range.0, range.1, feeds_metrics());
        lemma_indices_where(s, range.0, range.1, feeds_setup());
    } else {
        assert(r.metric_indices@.len() == 0);
        assert(r.setup_indices@.len() == 0);
    }
}

/// The sum of the bytes read by the samples of `s`.
proof fn lemma_success_bytes_is_filtered_sum(s: Seq<SampleFacts>)
    ensures
        success_bytes(s) == s.filter(|f: SampleFacts| f.success).fold_left(
            0int,
            |acc: int, f: SampleFacts| acc + f.bytes_transferred,
        ),
    decreases s.len(),
{
    reveal(Seq::filter);
    if s.len() > 0 {
        lemma_success_bytes_is_filtered_sum(s.drop_last());
        let ok = |f: SampleFacts| f.success;
        let add = |acc: int, f: SampleFacts| acc + f.bytes_transferred;
        let prev = s.drop_last().filter(ok);
        if s.last().success {
            assert(s.filter(ok) == prev.push(s.last()));
            assert(prev.push(s.last()).drop_last() =~= prev);
        }
    }
}

/// A throughput report's byte total is the sum of the bytes read by its
/// successful samples; a latency report has none.
pub proof fn lemma_report_total_bytes(
    r: SampleCounts,
    kind: BenchmarkKind,
    s: Seq<SampleFacts>,
    warmup: nat,
    parallel: nat,
    number: nat,
)
    requires
        counts_match(r, kind, s, warmup, parallel, number),
        kind == BenchmarkKind::Throughput ==> success_bytes(s) <= u64::MAX,
    ensures
        kind == BenchmarkKind::Throughput ==> (r.total_bytes matches Some(b) && b == s.filter(
            |f: SampleFacts| f.success,
        ).fold_left(0int, |acc: int, f: SampleFacts| acc + f.bytes_transferred)),
        kind != BenchmarkKind::Throughput ==> r.total_bytes is None,
{
    lemma_success_bytes_is_filtered_sum(s);
}

/// In a full latency run the successes and failures that a report counts add up
/// to `number`, and the successes are those of the retained window.
pub proof fn lemma_full_run_counts(
    r: SampleCounts,
    kind: BenchmarkKind,
    s: Seq<SampleFacts>,
    warmup: nat,
    parallel: nat,
    number: nat,
)
    requires
        counts_match(r, kind, s, warmup, parallel, number),
        kind != BenchmarkKind::Throughput,
        s.len() == warmup + parallel + number,
    ensures
        r.success_count + r.failure_count == number,
        r.success_count == count_where(
            s.subrange(warmup as int, (warmup + number) as int),
            is_success(),
        ),
{
    lemma_count_bound(s.subrange(warmup as int, (warmup + number) as int), is_success());
}

/// Two full latency runs whose retained windows hold the same samples report the
/// same successes, failures and error categories, whatever their warmup and
/// trailing samples were.
pub proof fn lemma_full_run_counts_ignore_dropped_samples(
    r1: SampleCounts,
    s1: Seq<SampleFacts>,
    r2: SampleCounts,
    s2: Seq<SampleFacts>,
    kind: BenchmarkKind,
    warmup: nat,
    parallel: nat,
    number: nat,
)
    requires
        counts_match(r1, kind, s1, warmup, parallel, number),
        counts_match(r2, kind, s2, warmup, parallel, number),
        kind != BenchmarkKind::Throughput,
        s1.len() == warmup + parallel + number,
        s2.len() == warmup + parallel + number,
        s1.subrange(warmup as int, (warmup + number) as int) == s2.subrange(
            warmup as int,
            (warmup + number) as int,
        ),
    ensures
        r1.success_count == r2.success_count,
        r1.failure_count == r2.failure_count,
        table_view(r1.error_counts@) == table_view(r2.error_counts@),
{
}

/// The samples that feed a summary are exactly those of the range that pass the
/// test, in increasing order: a failed sample never feeds a latency or setup
/// summary.
pub proof fn lemma_indices_where(
    s: Seq<SampleFacts>,
    lo: nat,
    hi: nat,
    p: spec_fn(SampleFacts) -> bool,
)
    requires
        hi <= s.len(),
        hi <= usize::MAX,
    ensures
        forall|k: int|
            0 <= k < indices_where(s, lo, hi, p).len() ==> {
                let i = #[trigger] indices_where(s, lo, hi, p)[k];
                lo <= i < hi && p(s[i as int])
            },
        forall|k1: int, k2: int|
            0 <= k1 < k2 < indices_where(s, lo, hi, p).len() ==> #[trigger] indices_where(
                s,
                lo,
                hi,
                p,
            )[k1] < #[trigger] indices_where(s, lo, hi, p)[k2],
        forall|i: int|
            lo <= i < hi && p(#[trigger] s[i]) ==> indices_where(s, lo, hi, p).contains(i as usize),
    decreases hi,
{
    if hi > lo {
        lemma_indices_where(s, lo, (hi - 1) as nat, p);
        let prev = indices_where(s, lo, (hi - 1) as nat, p);
        let r = indices_where(s, lo, hi, p);
        if p(s[hi - 1]) {
            assert(r == prev.push((hi - 1) as usize));
            assert(r[prev.len() as int] == (hi - 1) as usize);
            assert forall|k1: int, k2: int| 0 <= k1 < k2 < r.len() implies #[trigger] r[k1]
                < #[trigger] r[k2] by {
                if k2 == prev.len() {
                    assert(prev[k1] < hi - 1);
                }
            }
            assert forall|i: int| lo <= i < hi && p(#[trigger] s[i]) implies indices_where(
                s,
                lo,
                hi,
                p,
            ).contains(i as usize) by {
                if i == hi - 1 {
                } else {
                    let k = choose|k: int| 0 <= k < prev.len() && prev[k] == i as usize;
                    assert(indices_where(s, lo, hi, p)[k] == i as usize);
                }
            }
        }
    }
}

proof fn lemma_count_step(s: Seq<SampleFacts>, j: int, p: spec_fn(SampleFacts) -> bool)
    requires
        0 <= j < s.len(),
    ensures
        count_where(s.take(j + 1), p) == count_where(s.take(j), p) + if p(s[j]) {
            1nat
        } else {
            0nat
        },
{
    assert(s.take(j + 1).drop_last() =~= s.take(j));
}

proof fn lemma_count_bound(s: Seq<SampleFacts>, p: spec_fn(SampleFacts) -> bool)
    ensures
        count_where(s, p) <= s.len(),
    decreases s.len(),
{
    if s.len() > 0 {
        lemma_count_bound(s.drop_last(), p);
    }
}

/// The positions in `lo..hi` of the samples that feed the setup summary (`setup`)
/// or the metric summary (otherwise).
fn collect_indices(samples: &[SampleFacts], lo: usize, hi: usize, setup: bool) -> (r: Vec<usize>)
    requires
        lo < hi ==> hi <= samples@.len(),
    ensures
        r@ == indices_where(
            samples@,
            lo as nat,
            hi as nat,
            if setup {
                feeds_setup()
            } else {
                feeds_metrics()
            },
        ),
{
    let ghost p = if setup {
        feeds_setup()
    } else {
        feeds_metrics()
    };
    let mut out: Vec<usize> = Vec::new();
    if hi <= lo {
        return out;
    }
    let mut i: usize = lo;
    while i < hi
        invariant
            lo <= i <= hi <= samples@.len(),
            out@ == indices_where(samples@, lo as nat, i as nat, p),
            p == (if setup {
                feeds_setup()
            } else {
                feeds_metrics()
            }),
        decreases hi - i,
    {
        let f = &samples[i];
        let keep = if setup {
            f.success && f.has_setup_time
        } else {
            f.success && f.has_metric
        };
        if keep {
            out.push(i);
        }
        i = i + 1;
    }
    out
}

/// The successes and the failures of each category among `samples[lo..hi]`.
fn count_outcomes(samples: &[SampleFacts], lo: usize, hi: usize) -> (r: (usize, Vec<usize>))
    requires
        lo <= hi <= samples@.len(),
    ensures
        r.0 == count_where(samples@.subrange(lo as int, hi as int), is_success()),
        r.0 <= hi - lo,
        r.1@.len() == KIND_COUNT,
        forall|i: int|
            0 <= i < KIND_COUNT ==> #[trigger] r.1@[i] == count_where(
                samples@.subrange(lo as int, hi as int),
                has_error_kind(kind_at(i as nat)),
            ),
{
    let ghost w = samples@.subrange(lo as int, hi as int);
    let mut success_count: usize = 0;
    let mut per_kind: Vec<usize> = Vec::new();
    let mut k: usize = 0;
    while k < KIND_COUNT
        invariant
            k <= KIND_COUNT,
            per_kind@.len() == k,
            forall|i: int| 0 <= i < k ==> per_kind@[i] == 0,
        decreases KIND_COUNT - k,
    {
        per_kind.push(0);
        k = k + 1;
    }
    assert(w.take(0) =~= Seq::<SampleFacts>::empty());
    let mut j: usize = lo;
    while j < hi
        invariant
            lo <= j <= hi <= samples@.len(),
            w == samples@.subrange(lo as int, hi as int),
            per_kind@.len() == KIND_COUNT,
            success_count == count_where(w.take(j - lo), is_success()),
            forall|i: int|
                0 <= i < KIND_COUNT ==> #[trigger] per_kind@[i] == count_where(
                    w.take(j - lo),
                    has_error_kind(kind_at(i as nat)),
                ),
        decreases hi - j,
    {
        let f = &samples[j];
        let ghost t = (j - lo) as int;
        assert(w[t] == samples@[j as int]);
        proof {
            lemma_count_step(w, t, is_success());
            lemma_count_bound(w.take(t), is_success());
            assert forall|i: int| 0 <= i < KIND_COUNT implies #[trigger] count_where(
                w.take(t + 1),
                has_error_kind(kind_at(i as nat)),
            ) == count_where(w.take(t), has_error_kind(kind_at(i as nat))) + if f.error_kind
                == Some(kind_at(i as nat)) {
                1nat
            } else {
                0nat
            } by {
                lemma_count_step(w, t, has_error_kind(kind_at(i as nat)));
            }
        }
        if f.success {
            success_count = success_count + 1;
        }
        match &f.error_kind {
            Some(e) => {
                let idx = e.index();
                proof {
                    crate::error::lemma_kind_index_roundtrip(*e);
                    lemma_count_bound(w.take(t), has_error_kind(*e));
                }
                let c = per_kind[idx];
                per_kind.set(idx, c + 1);
            },
            None => {},
        }
        j = j + 1;
    }
    assert(w.take((hi - lo) as int) =~= w);
    proof {
        lemma_count_bound(w, is_success());
    }
    (success_count, per_kind)
}

/// Counts what a report counts over `samples` and picks the samples that its
/// summaries read. For throughput runs, `requires` leaves out byte totals beyond
/// `u64`.
pub fn summarize_samples(
    kind: BenchmarkKind,
    samples: &[SampleFacts],
    warmup: usize,
    parallel: usize,
    number: usize,
) -> (r: SampleCounts)
    requires
        kind == BenchmarkKind::Throughput ==> success_bytes(samples@) <= u64::MAX,
    ensures
        counts_match(r, kind, samples@, warmup as nat, parallel as nat, number as nat),
{
    let n = samples.len();
    let full = kind != BenchmarkKind::Throughput && n >= warmup && n - warmup >= parallel && n
        - warmup - parallel == number;
    let (clo, chi) = if full {
        (warmup, warmup + number)
    } else {
        (0, n)
    };
    let ghost w = samples@.subrange(clo as int, chi as int);
    let (success_count, per_kind) = count_outcomes(samples, clo, chi);
    let mut missing: usize = 0;
    let mut bytes: u64 = 0;
    assert(samples@.take(0) =~= Seq::<SampleFacts>::empty());
    let mut j: usize = 0;
    while j < n
        invariant
            j <= n == samples@.len(),
            missing == count_where(samples@.take(j as int), is_missing_exit_status()),
            kind == BenchmarkKind::Throughput ==> success_bytes(samples@) <= u64::MAX,
            kind == BenchmarkKind::Throughput ==> bytes == success_bytes(samples@.take(j as int)),
        decreases n - j,
    {
        let f = &samples[j];
        proof {
            lemma_count_step(samples@, j as int, is_missing_exit_status());
            lemma_count_bound(samples@.take(j as int), is_missing_exit_status());
            assert(samples@.take(j + 1).drop_last() =~= samples@.take(j as int));
        }
        if f.success && kind == BenchmarkKind::Throughput {
            proof {
                lemma_success_bytes_prefix(samples@, j + 1);
            }
            bytes = bytes + f.bytes_transferred;
        }
        if f.missing_exit_status {
            missing = missing + 1;
        }
        j = j + 1;
    }
    assert(samples@.take(n as int) =~= samples@);
    let mut table: Vec<(ErrorKind, usize)> = Vec::new();
    let mut k: usize = 0;
    while k < KIND_COUNT
        invariant
            k <= KIND_COUNT,
            per_kind@.len() == KIND_COUNT,
            forall|i: int|
                0 <= i < KIND_COUNT ==> #[trigger] per_kind@[i] == count_where(
                    w,
                    has_error_kind(kind_at(i as nat)),
                ),
            table_view(table@) == error_table(w, k as nat),
        decreases KIND_COUNT - k,
    {
        let c = per_kind[k];
        if c > 0 {
            let ghost before = table@;
            table.push((ErrorKind::from_index(k), c));
            assert(table_view(table@) =~= table_view(before).push(
                (kind_at(k as nat), c as nat),
            ));
        } else {
            assert(table_view(table@) == error_table(w, (k + 1) as nat));
        }
        k = k + 1;
    }
    let (lo, hi) = if kind == BenchmarkKind::Throughput {
        (0, n)
    } else {
        let remaining = n.saturating_sub(warmup);
        let rest = remaining.saturating_sub(parallel);
        let middle = if rest < number {
            rest
        } else {
            number
        };
        if middle == 0 {
            (warmup, warmup)
        } else {
            (warmup, warmup + middle)
        }
    };
    let metric_indices = collect_indices(samples, lo, hi, false);
    let setup_indices = collect_indices(samples, lo, hi, true);
    SampleCounts {
        success_count,
        failure_count: (chi - clo) - success_count,
        missing_exit_status: missing,
        total_bytes: if kind == BenchmarkKind::Throughput {
            Some(bytes)
        } else {
            None
        },
        error_counts: table,
        metric_indices,
        setup_indices,
    }
}

proof fn lemma_success_bytes_prefix(s: Seq<SampleFacts>, j: int)
    requires
        0 <= j <= s.len(),
    ensures
        success_bytes(s.take(j)) <= success_bytes(s),
    decreases s.len() - j,
{
    if j < s.len() {
        lemma_success_bytes_prefix(s, j + 1);
        assert(s.take(j + 1).drop_last() =~= s.take(j));
    } else {
        assert(s.take(j) =~= s);
    }
}

} // verus!
