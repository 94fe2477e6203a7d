//! Remainder-safe proration: each bucket but the last receives its rounded
//! share, never more than is left; the last receives the rest. The parts are
//! never negative and always add up to the amount.
use vstd::prelude::*;
use crate::money::{div_round, lemma_round_close, round_half_even, MAX_AMOUNT};

verus! {


/// Sum of a sequence of weights or amounts.
pub open spec fn sum_of(s: Seq<i64>) -> int
    decreases s.len(),
{
    if s.len() == 0 {
        0
    } else {
        sum_of(s.drop_last()) + s.last()
    }
}

/// Rounded share of bucket `i`: by weight when the weights add up to more
/// than zero, else an equal split.
pub open spec fn provisional_share(amount: int, weights: Seq<i64>, i: int) -> int {
    if sum_of(weights) > 0 {
        round_half_even(amount * weights[i], sum_of(weights))
    } else {
        round_half_even(amount, weights.len() as int)
    }
}

/// The smaller of two integers.
pub open spec fn min_int(a: int, b: int) -> int {
    if a <= b {
        a
    } else {
        b
    }
}

/// What the first `k` buckets receive together: each its rounded share,
/// capped at what is left of the amount.
pub open spec fn capped_prefix(amount: int, weights: Seq<i64>, k: int) -> int
    decreases k,
{
    if k <= 0 {
        0
    } else {
        let p = capped_prefix(amount, weights, k - 1);
        p + min_int(provisional_share(amount, weights, k - 1), amount - p)
    }
}

/// Part `i` of the remainder-safe split of `amount` by `weights`.
pub open spec fn split_part(amount: int, weights: Seq<i64>, i: int) -> int {
    if i < weights.len() - 1 {
        min_int(provisional_share(amount, weights, i), amount - capped_prefix(amount, weights, i))
    } else {
        amount - capped_prefix(amount, weights, weights.len() - 1)
    }
}

/// Sum of the first `k` parts.
pub open spec fn parts_prefix(amount: int, weights: Seq<i64>, k: int) -> int
    decreases k,
{
    if k <= 0 {
        0
    } else {
        parts_prefix(amount, weights, k - 1) + split_part(amount, weights, k - 1)
    }
}

proof fn lemma_share_nonneg(amount: int, weights: Seq<i64>, i: int)
    requires
        0 <= amount,
        0 <= i < weights.len(),
        forall|j: int| 0 <= j < weights.len() ==> 0 <= #[trigger] weights[j],
    ensures
        0 <= provisional_share(amount, weights, i),
{
    if sum_of(weights) > 0 {
        assert(amount * weights[i] >= 0) by (nonlinear_arith)
            requires amount >= 0, weights[i] >= 0;
        lemma_round_close(amount * weights[i], sum_of(weights));
    } else {
        lemma_round_close(amount, weights.len() as int);
    }
}

proof fn lemma_capped_prefix(amount: int, weights: Seq<i64>, k: int)
    requires
        0 <= amount,
        0 <= k <= weights.len(),
        forall|j: int| 0 <= j < weights.len() ==> 0 <= #[trigger] weights[j],
    ensures
        0 <= capped_prefix(amount, weights, k) <= amount,
        k < weights.len() ==> parts_prefix(amount, weights, k) == capped_prefix(amount, weights, k),
    decreases k,
{
    if k > 0 {
        lemma_capped_prefix(amount, weights, k - 1);
        lemma_share_nonneg(amount, weights, k - 1);
    }
}

/// The parts of a split are never negative and add up to the amount.
pub proof fn lemma_split_sums(amount: int, weights: Seq<i64>)
    requires
        0 <= amount,
        weights.len() > 0,
        forall|j: int| 0 <= j < weights.len() ==> 0 <= #[trigger] weights[j],
    ensures
        parts_prefix(amount, weights, weights.len() as int) == amount,
        forall|i: int| 0 <= i < weights.len() ==> 0 <= #[trigger] split_part(amount, weights, i) <= amount,
{
    let n = weights.len() as int;
    lemma_capped_prefix(amount, weights, n - 1);
    assert forall|i: int| 0 <= i < weights.len() implies 0 <= #[trigger] split_part(amount, weights, i) <= amount by {
        lemma_capped_prefix(amount, weights, i);
        if i < n - 1 {
            lemma_share_nonneg(amount, weights, i);
        }
    }
}

proof fn lemma_sum_push(s: Seq<i64>, x: i64)
    ensures
        sum_of(s.push(x)) == sum_of(s) + x,
{
    assert(s.push(x).drop_last() =~= s);
}

proof fn lemma_sum_nonneg(s: Seq<i64>)
    requires
        forall|j: int| 0 <= j < s.len() ==> 0 <= #[trigger] s[j],
    ensures
        0 <= sum_of(s),
    decreases s.len(),
{
    if s.len() > 0 {
        lemma_sum_nonneg(s.drop_last());
    }
}

/// Each weight is at most the sum of all of them.
proof fn lemma_sum_bounds_each(s: Seq<i64>, i: int)
    requires
        0 <= i < s.len(),
        forall|j: int| 0 <= j < s.len() ==> 0 <= #[trigger] s[j],
    ensures
        s[i] <= sum_of(s),
    decreases s.len(),
{
    lemma_sum_nonneg(s.drop_last());
    if i < s.len() - 1 {
        lemma_sum_bounds_each(s.drop_last(), i);
        assert(s.drop_last()[i] == s[i]);
    }
}

/// The rounded share of bucket `i`.
fn share_at(amount: i64, weights: &Vec<i64>, total: u128, i: usize) -> (r: i64)
    requires
        0 <= amount <= MAX_AMOUNT,
        forall|j: int| 0 <= j < weights@.len() ==> 0 <= #[trigger] weights@[j],
        total == sum_of(weights@),
        i < weights@.len(),
    ensures
        r == provisional_share(amount as int, weights@, i as int),
        0 <= r,
{
    let n = weights.len();
    proof {
        lemma_sum_bounds_each(weights@, i as int);
    }
    if total > 0 {
        let w = weights[i];
        proof {
            assert(0 <= amount * w <= MAX_AMOUNT * 0x7fff_ffff_ffff_ffffi64) by (nonlinear_arith)
                requires 0 <= amount <= MAX_AMOUNT, 0 <= w <= 0x7fff_ffff_ffff_ffffi64;
            lemma_round_close(amount * w, total as int);
        }
        let num = (amount as u128) * (w as u128);
        let q = div_round(num, total);
        proof {
            assert(amount * w <= amount * total) by (nonlinear_arith)
                requires 0 <= amount, w <= total;
            assert(2 * (q * total) <= 2 * (amount * total) + total);
            assert(q <= amount) by (nonlinear_arith)
                requires 2 * (q * total) <= 2 * (amount * total) + total, total > 0, q >= 0, amount >= 0;
        }
        q as i64
    } else {
        proof {
            lemma_round_close(amount as int, n as int);
        }
        div_round(amount as u128, n as u128) as i64
    }
}

/// Splits `amount` across buckets in proportion to `weights` (equally when
/// they add up to zero). Each bucket but the last receives its share rounded
/// to four places, capped at what is left; the last receives the rest. No
/// part is negative and the parts add up to `amount` exactly.
pub fn split_remainder_safe(amount: i64, weights: &Vec<i64>) -> (r: Vec<i64>)
    requires
        0 <= amount <= MAX_AMOUNT,
        forall|i: int| 0 <= i < weights@.len() ==> 0 <= #[trigger] weights@[i],
    ensures
        r@.len() == weights@.len(),
        forall|i: int| 0 <= i < r@.len() ==> #[trigger] r@[i] == split_part(amount as int, weights@, i),
        forall|i: int| 0 <= i < r@.len() ==> 0 <= #[trigger] r@[i] <= amount,
        weights@.len() > 0 ==> sum_of(r@) == amount,
{
    let n = weights.len();
    let mut total: u128 = 0;
    let mut k: usize = 0;
    while k < n
        invariant
            k <= n == weights@.len(),
            forall|i: int| 0 <= i < weights@.len() ==> 0 <= #[trigger] weights@[i],
            total == sum_of(weights@.subrange(0, k as int)),
            0 <= total <= k * 0x7fff_ffff_ffff_ffffu128,
        decreases n - k,
    {
        proof {
            assert(weights@.subrange(0, k + 1) =~= weights@.subrange(0, k as int).push(weights@[k as int]));
            lemma_sum_push(weights@.subrange(0, k as int), weights@[k as int]);
            assert(k * 0x7fff_ffff_ffff_ffffu128 + 0x7fff_ffff_ffff_ffffu128 <= 0x1_0000_0000_0000_0000u128 * 0x7fff_ffff_ffff_ffffu128) by (nonlinear_arith)
                requires k < 0x1_0000_0000_0000_0000u128;
        }
        total = total + weights[k] as u128;
        k = k + 1;
    }
    proof {
        assert(weights@.subrange(0, n as int) =~= weights@);
        if n > 0 {
            lemma_split_sums(amount as int, weights@);
        }
    }
    let mut parts: Vec<i64> = Vec::new();
    let mut distributed: i64 = 0;
    let mut i: usize = 0;
    while i < n
        invariant
            i <= n == weights@.len(),
            forall|j: int| 0 <= j < weights@.len() ==> 0 <= #[trigger] weights@[j],
            total == sum_of(weights@),
            0 <= amount <= MAX_AMOUNT,
            parts@.len() == i,
            forall|j: int| 0 <= j < i ==> #[trigger] parts@[j] == split_part(amount as int, weights@, j),
            n > 0 ==> forall|j: int| 0 <= j < n ==> 0 <= #[trigger] split_part(amount as int, weights@, j) <= amount,
            sum_of(parts@) == parts_prefix(amount as int, weights@, i as int),
            i < n ==> distributed == capped_prefix(amount as int, weights@, i as int),
            0 <= distributed <= amount,
        decreases n - i,
    {
        proof {
            lemma_capped_prefix(amount as int, weights@, i as int);
        }
        let part: i64 = if i == n - 1 {
            amount - distributed
        } else {
            let share = share_at(amount, weights, total, i);
            let left = amount - distributed;
            if share <= left {
                share
            } else {
                left
            }
        };
        proof {
            lemma_sum_push(parts@, part);
            assert(part == split_part(amount as int, weights@, i as int));
        }
        parts.push(part);
        distributed = if i == n - 1 { distributed } else { distributed + part };
        i = i + 1;
    }
    proof {
        if n > 0 {
            lemma_split_sums(amount as int, weights@);
        }
    }
    parts
}

} // verus!
