//! Percentiles of a set of latency samples, by the nearest-rank method.

use vstd::prelude::*;
use vstd::relations::sorted_by;
use vstd::seq_lib::*;

verus! {

/// The order of the samples.
pub open spec fn at_most() -> spec_fn(u64, u64) -> bool {
    |a: u64, b: u64| a <= b
}

/// The samples in ascending order.
pub open spec fn ascending(samples: Seq<u64>) -> Seq<u64> {
    samples.sort_by(at_most())
}

/// The place, counted from 0, of the `pct`-th percentile among `n` samples in
/// ascending order: the smallest place such that at least `pct` percent of
/// the samples stand at or before it.
pub open spec fn rank(n: int, pct: int) -> int {
    let r = (pct * n + 99) / 100;
    if r <= 0 {
        0
    } else if r > n {
        n - 1
    } else {
        r - 1
    }
}

/// The `pct`-th percentile of the samples; 0 where there are none.
pub open spec fn percentile_of(samples: Seq<u64>, pct: int) -> u64 {
    if samples.len() == 0 {
        0
    } else {
        ascending(samples)[rank(samples.len() as int, pct)]
    }
}

/// A copy of the samples in ascending order.
pub fn sorted_copy(samples: &Vec<u64>) -> (out: Vec<u64>)
    ensures
        out@ == ascending(samples@),
        out@.len() == samples@.len(),
{
    let mut out: Vec<u64> = Vec::new();
    let mut i: usize = 0;
    proof {
        assert(out@ =~= samples@.take(0));
    }
    while i < samples.len()
        invariant
            i <= samples.len(),
            out@.len() == i,
            sorted_by(out@, at_most()),
            out@.to_multiset() == samples@.take(i as int).to_multiset(),
        decreases samples.len() - i,
    {
        let x = samples[i];
        let mut pos: usize = 0;
        while pos < out.len() && out[pos] <= x
            invariant
                pos <= out.len(),
                forall|k: int| 0 <= k < pos ==> out@[k] <= x,
            decreases out.len() - pos,
        {
            pos += 1;
        }
        proof {
            let before = out@;
            let after = before.insert(pos as int, x);
            to_multiset_insert(before, pos as int, x);
            assert(samples@.take(i as int + 1) =~= samples@.take(i as int).push(x));
            to_multiset_build(samples@.take(i as int), x);
            assert forall|a: int, b: int| 0 <= a < b < after.len() implies at_most()(
                after[a],
                after[b],
            ) by {
                if a == pos && b > pos + 1 {
                    assert(at_most()(before[pos as int], before[b - 1]));
                }
            }
        }
        out.insert(pos, x);
        i += 1;
    }
    proof {
        assert(samples@.take(samples@.len() as int) =~= samples@);
        samples@.lemma_sort_by_ensures(at_most());
        lemma_sorted_unique(out@, ascending(samples@), at_most());
    }
    out
}

/// The `pct`-th percentile of the samples by nearest rank: the sample at the
/// smallest place, in ascending order, at or before which at least `pct`
/// percent of the samples stand. 0 where there are no samples.
pub fn percentile(samples: &Vec<u64>, pct: u8) -> (p: u64)
    ensures
        p == percentile_of(samples@, pct as int),
{
    let n = samples.len();
    if n == 0 {
        return 0;
    }
    let sorted = sorted_copy(samples);
    assert((pct as u128) * (n as u128) <= 255 * 0xFFFF_FFFF_FFFF_FFFF) by (nonlinear_arith)
        requires
            pct <= 255,
            n <= 0xFFFF_FFFF_FFFF_FFFF,
    ;
    let r: u128 = ((pct as u128) * (n as u128) + 99) / 100;
    let idx: usize = if r == 0 {
        0
    } else if r > n as u128 {
        n - 1
    } else {
        (r - 1) as usize
    };
    sorted[idx]
}

/// The 95th and the 99th percentile of the samples.
pub fn tail_latencies(samples: &Vec<u64>) -> (p: (u64, u64))
    ensures
        p.0 == percentile_of(samples@, 95),
        p.1 == percentile_of(samples@, 99),
{
    let n = samples.len();
    if n == 0 {
        return (0, 0);
    }
    let sorted = sorted_copy(samples);
    let r95: u128 = (95 * (n as u128) + 99) / 100;
    let r99: u128 = (99 * (n as u128) + 99) / 100;
    let i95: usize = if r95 == 0 {
        0
    } else if r95 > n as u128 {
        n - 1
    } else {
        (r95 - 1) as usize
    };
    let i99: usize = if r99 == 0 {
        0
    } else if r99 > n as u128 {
        n - 1
    } else {
        (r99 - 1) as usize
    };
    (sorted[i95], sorted[i99])
}

/// A percentile is one of the samples, and the 100th is the greatest: no
/// sample exceeds it.
pub proof fn lemma_percentile_is_a_sample(samples: Seq<u64>, pct: int)
    requires
        samples.len() > 0,
    ensures
        samples.contains(percentile_of(samples, pct)),
        forall|i: int| 0 <= i < samples.len() ==> samples[i] <= percentile_of(samples, 100),
{
    samples.lemma_sort_by_ensures(at_most());
    let s = ascending(samples);
    assert(s.len() == samples.len()) by {
        s.to_multiset_ensures();
        samples.to_multiset_ensures();
    }
    let r = rank(samples.len() as int, pct);
    assert(s.contains(s[r]));
    assert forall|i: int| 0 <= i < samples.len() implies samples[i] <= percentile_of(samples, 100) by {
        samples.to_multiset_ensures();
        s.to_multiset_ensures();
        assert(samples.to_multiset().count(samples[i]) > 0);
        let k = choose|k: int| 0 <= k < s.len() && s[k] == samples[i];
        if k < s.len() - 1 {
            assert(at_most()(s[k], s[s.len() - 1]));
        }
    }
}

} // verus!
