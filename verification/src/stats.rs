//! Sample trimming and percentile ranks.
//!
//! The latency figures themselves are floating point and are summarised outside the
//! library; what is decided here is which samples are measured and which rank of the
//! sorted samples a percentile reads.
use vstd::prelude::*;

verus! {

/// `a - b`, or 0 when `b` is larger.
pub open spec fn sat_sub(a: nat, b: nat) -> nat {
    if a > b {
        (a - b) as nat
    } else {
        0
    }
}

pub open spec fn min_nat(a: nat, b: nat) -> nat {
    if a < b {
        a
    } else {
        b
    }
}

/// How many samples are measured out of `len`: the first `warmup` are dropped, then
/// the last `parallel` of the rest (those that ran while workers were winding
/// down), and at most `number` of what remains are kept.
pub open spec fn window_len(len: nat, warmup: nat, parallel: nat, number: nat) -> nat {
    min_nat(sat_sub(sat_sub(len, warmup), parallel), number)
}

/// The measured samples: `window_len` values starting after the warmup, each a
/// clone of the value at its place.
pub fn select_measured_window<T: Clone>(
    values: &[T],
    warmup: usize,
    parallel: usize,
    number: usize,
) -> (r: Vec<T>)
    ensures
        r@.len() == window_len(values@.len(), warmup as nat, parallel as nat, number as nat),
        forall|i: int|
            #![trigger r@[i]]
            0 <= i < r@.len() ==> cloned::<T>(values@[warmup + i], r@[i]),
{
    let n = values.len();
    let remaining = n.saturating_sub(warmup);
    let middle_len = {
        let rest = remaining.saturating_sub(parallel);
        if rest < number {
            rest
        } else {
            number
        }
    };
    let mut out: Vec<T> = Vec::new();
    let mut i: usize = 0;
    while i < middle_len
        invariant
            middle_len == window_len(values@.len(), warmup as nat, parallel as nat, number as nat),
            n == values@.len(),
            middle_len > 0 ==> warmup + middle_len <= n,
            i <= middle_len,
            out@.len() == i,
            forall|j: int| 0 <= j < i ==> #[trigger] cloned::<T>(values@[warmup + j], out@[j]),
        decreases middle_len - i,
    {
        let v = values[warmup + i].clone();
        out.push(v);
        i = i + 1;
    }
    out
}

/// The 0-based rank that the `percent`-th percentile of `len` sorted samples reads:
/// `ceil(len * percent / 100) - 1`, and 0 where that would be negative.
pub open spec fn percentile_rank(len: nat, percent: nat) -> nat {
    sat_sub(((len * percent + 99) / 100) as nat, 1)
}

/// A run of `parallel + number + warmup` samples keeps exactly `number` of them.
pub proof fn lemma_full_run_window(parallel: nat, number: nat, warmup: nat)
    ensures
        window_len(parallel + number + warmup, warmup, parallel, number) == number,
{
}

/// The `percent`-th percentile of a non-empty sorted sample reads a sample of it,
/// and a higher percentile never reads an earlier sample.
pub proof fn lemma_percentile_rank_monotonic(len: nat, p1: nat, p2: nat)
    requires
        len > 0,
        p1 <= p2 <= 100,
    ensures
        percentile_rank(len, p1) <= percentile_rank(len, p2) < len,
{
    assert(len * p1 <= len * p2) by (nonlinear_arith)
        requires
            p1 <= p2,
    ;
    assert(len * p2 <= len * 100) by (nonlinear_arith)
        requires
            p2 <= 100,
    ;
}

/// The rank that the `percent`-th percentile of `len` sorted samples reads.
pub fn percentile_index(len: usize, percent: u64) -> (r: usize)
    requires
        percent <= 100,
    ensures
        r == percentile_rank(len as nat, percent as nat),
        len > 0 ==> r < len,
{
    proof {
        assert((len as int) * (percent as int) <= 0x1_0000_0000_0000_0000 * 100) by (nonlinear_arith)
            requires
                percent <= 100,
                len <= 0x1_0000_0000_0000_0000,
        ;
        assert((len as int) * (percent as int) <= (len as int) * 100) by (nonlinear_arith)
            requires
                percent <= 100,
                len >= 0,
        ;
    }
    let product: u128 = (len as u128) * (percent as u128);
    let ceil: u128 = (product + 99) / 100;
    let r: usize = if ceil > 0 {
        (ceil - 1) as usize
    } else {
        0
    };
    r
}

} // verus!
