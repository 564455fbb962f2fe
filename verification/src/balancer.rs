//! Weighted selection of one upstream. The caller supplies the random draw;
//! nothing is kept between calls.

use crate::config::Upstream;
use vstd::prelude::*;

verus! {

/// Why no upstream was selected.
#[derive(Debug, Clone, Copy, PartialEq, Eq, Structural)]
pub enum BalanceError {
    /// No upstream has a positive weight.
    NoAvailableUpstream,
}

/// The weight that counts in the selection: a weight below zero counts as zero.
pub open spec fn weight_of(u: Upstream) -> nat {
    if u.weight > 0 {
        u.weight as nat
    } else {
        0
    }
}

/// The sum of the weights of `ups`.
pub open spec fn total_weight(ups: Seq<Upstream>) -> nat
    decreases ups.len(),
{
    if ups.len() == 0 {
        0
    } else {
        total_weight(ups.drop_last()) + weight_of(ups.last())
    }
}

/// The sum of the weights of the first `i` upstreams.
pub open spec fn weight_before(ups: Seq<Upstream>, i: int) -> nat {
    total_weight(ups.take(i))
}

/// The draw `d` falls to upstream `i`: `i` is the first upstream whose
/// cumulative weight exceeds `d`.
pub open spec fn falls_to(ups: Seq<Upstream>, d: int, i: int) -> bool {
    &&& 0 <= i < ups.len()
    &&& weight_before(ups, i) <= d < weight_before(ups, i + 1)
}

/// The draw that a random number stands for: its remainder by the total weight.
pub open spec fn draw_of(ups: Seq<Upstream>, random: u64) -> nat {
    (random as nat) % total_weight(ups)
}

/// The cumulative weight grows by the weight of each upstream in turn.
pub proof fn lemma_weight_step(ups: Seq<Upstream>, i: int)
    requires
        0 <= i < ups.len(),
    ensures
        weight_before(ups, i + 1) == weight_before(ups, i) + weight_of(ups[i]),
{
    assert(ups.take(i + 1).drop_last() =~= ups.take(i));
}

/// The cumulative weight never falls along the list.
pub proof fn lemma_weight_monotone(ups: Seq<Upstream>, i: int, j: int)
    requires
        0 <= i <= j <= ups.len(),
    ensures
        weight_before(ups, i) <= weight_before(ups, j),
    decreases j - i,
{
    if i < j {
        lemma_weight_monotone(ups, i, j - 1);
        lemma_weight_step(ups, j - 1);
    }
}

fn weight(u: &Upstream) -> (w: u128)
    ensures
        w == weight_of(*u),
        w <= i32::MAX,
{
    if u.weight > 0 {
        u.weight as u128
    } else {
        0
    }
}

/// The sum of all weights.
pub fn total(upstreams: &Vec<Upstream>) -> (sum: u128)
    ensures
        sum == total_weight(upstreams@),
{
    let mut sum: u128 = 0;
    let mut i: usize = 0;
    while i < upstreams.len()
        invariant
            i <= upstreams.len(),
            sum == weight_before(upstreams@, i as int),
            sum <= i * i32::MAX,
        decreases upstreams.len() - i,
    {
        proof {
            lemma_weight_step(upstreams@, i as int);
        }
        sum = sum + weight(&upstreams[i]);
        i += 1;
    }
    assert(upstreams@.take(upstreams@.len() as int) =~= upstreams@);
    sum
}

/// Selects one upstream by weight. `random` stands for the draw: its remainder
/// by the total weight is the draw, and the first upstream whose cumulative
/// weight exceeds the draw is returned, by its index. Where no upstream has a
/// positive weight the selection fails.
pub fn select_upstream(upstreams: &Vec<Upstream>, random: u64) -> (chosen: Result<
    usize,
    BalanceError,
>)
    ensures
        match chosen {
            Ok(i) => total_weight(upstreams@) > 0 && falls_to(
                upstreams@,
                draw_of(upstreams@, random) as int,
                i as int,
            ),
            Err(e) => total_weight(upstreams@) == 0 && e == BalanceError::NoAvailableUpstream,
        },
{
    let sum = total(upstreams);
    if sum == 0 {
        return Err(BalanceError::NoAvailableUpstream);
    }
    let draw: u128 = (random as u128) % sum;
    let mut acc: u128 = 0;
    let mut i: usize = 0;
    while i < upstreams.len()
        invariant
            i <= upstreams.len(),
            sum == total_weight(upstreams@),
            draw < sum,
            draw == draw_of(upstreams@, random),
            acc == weight_before(upstreams@, i as int),
            acc <= draw,
        decreases upstreams.len() - i,
    {
        proof {
            lemma_weight_step(upstreams@, i as int);
            lemma_weight_monotone(upstreams@, i as int + 1, upstreams@.len() as int);
            assert(upstreams@.take(upstreams@.len() as int) =~= upstreams@);
        }
        let next = acc + weight(&upstreams[i]);
        if draw < next {
            return Ok(i);
        }
        acc = next;
        i += 1;
    }
    proof {
        assert(upstreams@.take(upstreams@.len() as int) =~= upstreams@);
    }
    Err(BalanceError::NoAvailableUpstream)
}

/// An upstream to which a draw falls has a positive weight: one with weight
/// zero is never selected.
pub proof fn lemma_selected_has_weight(ups: Seq<Upstream>, d: int, i: int)
    requires
        falls_to(ups, d, i),
    ensures
        weight_of(ups[i]) > 0,
        ups[i].weight > 0,
{
    lemma_weight_step(ups, i);
}

/// A draw falls to at most one upstream.
pub proof fn lemma_draw_decides(ups: Seq<Upstream>, d: int, i: int, j: int)
    requires
        falls_to(ups, d, i),
        falls_to(ups, d, j),
    ensures
        i == j,
{
    if i < j {
        lemma_weight_monotone(ups, i + 1, j);
    } else if j < i {
        lemma_weight_monotone(ups, j + 1, i);
    }
}

/// Every draw below the total weight falls to some upstream.
pub proof fn lemma_draw_falls_somewhere(ups: Seq<Upstream>, d: int) -> (i: int)
    requires
        0 <= d < total_weight(ups),
    ensures
        falls_to(ups, d, i),
    decreases ups.len(),
{
    assert(ups.take(ups.len() as int) =~= ups);
    if weight_before(ups, ups.len() - 1) <= d {
        ups.len() - 1
    } else {
        let shorter = ups.drop_last();
        let i = lemma_draw_falls_somewhere(shorter, d);
        assert(shorter.take(i) =~= ups.take(i));
        assert(shorter.take(i + 1) =~= ups.take(i + 1));
        i
    }
}

/// Fair shares: of the draws below the total weight, exactly as many fall to
/// an upstream as its weight says. With uniform draws an upstream of weight
/// `w` is therefore selected with probability `w` over the total weight.
pub proof fn lemma_share_is_weight(ups: Seq<Upstream>, i: int)
    requires
        0 <= i < ups.len(),
    ensures
        Set::new(|d: int| falls_to(ups, d, i)).finite(),
        Set::new(|d: int| falls_to(ups, d, i)).len() == weight_of(ups[i]),
        forall|d: int| #[trigger] falls_to(ups, d, i) ==> 0 <= d < total_weight(ups),
{
    lemma_weight_step(ups, i);
    lemma_weight_monotone(ups, i + 1, ups.len() as int);
    assert(ups.take(ups.len() as int) =~= ups);
    let lo = weight_before(ups, i) as int;
    let hi = weight_before(ups, i + 1) as int;
    vstd::set_lib::lemma_int_range(lo, hi);
    assert(Set::new(|d: int| falls_to(ups, d, i)) =~= vstd::set_lib::set_int_range(
        lo,
        hi,
    ));
}

} // verus!
