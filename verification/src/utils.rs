//! Small arithmetic helpers shared by the filter: saturation into a range,
//! truncating fixed-point division, an integer square root, and an evenly
//! spaced grid of fixed-point values.

use vstd::prelude::*;

verus! {

/// Truncating (round toward zero) quotient of `a` by a positive divisor,
/// as produced by Rust's `/` on signed integers.
pub open spec fn tdiv(a: int, b: int) -> int {
    if a >= 0 {
        a / b
    } else {
        -((-a) / b)
    }
}

/// `v` saturated into the closed interval `[lo, hi]`.
pub open spec fn clamp_spec(v: int, lo: int, hi: int) -> int {
    if v < lo {
        lo
    } else if v > hi {
        hi
    } else {
        v
    }
}

/// Saturate `v` into the closed interval `[lo, hi]`.
pub fn clamp_i64(v: i64, lo: i64, hi: i64) -> (r: i64)
    requires
        lo <= hi,
    ensures
        r == clamp_spec(v as int, lo as int, hi as int),
        lo <= r <= hi,
{
    if v < lo {
        lo
    } else if v > hi {
        hi
    } else {
        v
    }
}

/// Truncating division by a positive divisor.
pub fn div_trunc(a: i64, b: i64) -> (r: i64)
    requires
        b > 0,
        a > i64::MIN,
    ensures
        r == tdiv(a as int, b as int),
{
    a / b
}

/// Sum of a sequence of fixed-point values, as a mathematical integer.
pub open spec fn sum_of(s: Seq<i64>) -> int
    decreases s.len(),
{
    if s.len() == 0 {
        0
    } else {
        sum_of(s.drop_last()) + s.last()
    }
}

/// Cumulative weight strictly before index `k`.
pub open spec fn cum_before(s: Seq<i64>, k: int) -> int {
    sum_of(s.take(k))
}

/// Index `k` is the one a cumulative-weight inversion picks for draw `u`:
/// the first index whose cumulative interval `[cum_before(k), cum_before(k+1))`
/// contains `u`.
pub open spec fn selects(ws: Seq<i64>, u: int, k: int) -> bool {
    &&& 0 <= k < ws.len()
    &&& u < cum_before(ws, k + 1)
    &&& forall|i: int| 0 <= i < k ==> #[trigger] cum_before(ws, i + 1) <= u
}

/// Adding the element at `i` extends the prefix sum by one step.
pub proof fn lemma_sum_take_succ(s: Seq<i64>, i: int)
    requires
        0 <= i < s.len(),
    ensures
        sum_of(s.take(i + 1)) == sum_of(s.take(i)) + s[i],
{
    assert(s.take(i + 1).drop_last() =~= s.take(i));
    assert(s.take(i + 1).last() == s[i]);
}

/// A sum of non-negative values is non-negative.
pub proof fn lemma_sum_nonneg(s: Seq<i64>)
    requires
        forall|i: int| 0 <= i < s.len() ==> s[i] >= 0,
    ensures
        sum_of(s) >= 0,
    decreases s.len(),
{
    if s.len() > 0 {
        lemma_sum_nonneg(s.drop_last());
    }
}

/// A sum of bounded values is bounded by the length times the bound.
pub proof fn lemma_sum_upper(s: Seq<i64>, bound: int)
    requires
        forall|i: int| 0 <= i < s.len() ==> s[i] <= bound,
    ensures
        sum_of(s) <= s.len() * bound,
    decreases s.len(),
{
    if s.len() > 0 {
        lemma_sum_upper(s.drop_last(), bound);
        assert((s.len() - 1) * bound + bound == s.len() * bound) by (nonlinear_arith);
    }
}

/// With non-negative values, prefix sums grow with the prefix.
pub proof fn lemma_cum_monotone(s: Seq<i64>, a: int, b: int)
    requires
        forall|i: int| 0 <= i < s.len() ==> s[i] >= 0,
        0 <= a <= b <= s.len(),
    ensures
        cum_before(s, a) <= cum_before(s, b),
    decreases b - a,
{
    if a < b {
        lemma_cum_monotone(s, a, b - 1);
        lemma_sum_take_succ(s, b - 1);
    }
}

/// The whole sequence is its own prefix.
pub proof fn lemma_cum_all(s: Seq<i64>)
    ensures
        cum_before(s, s.len() as int) == sum_of(s),
{
    assert(s.take(s.len() as int) =~= s);
}

/// The draw picks only indices that carry positive weight.
pub proof fn lemma_selects_positive(ws: Seq<i64>, u: int, k: int)
    requires
        forall|i: int| 0 <= i < ws.len() ==> ws[i] >= 0,
        selects(ws, u, k),
        0 <= u,
    ensures
        ws[k] > 0,
{
    lemma_sum_take_succ(ws, k);
    if k > 0 {
        assert(cum_before(ws, k - 1 + 1) <= u);
    } else {
        assert(ws.take(0) =~= Seq::<i64>::empty());
        assert(cum_before(ws, 0) == 0);
    }
}

/// The draw picks exactly one index.
pub proof fn lemma_selects_unique(ws: Seq<i64>, u: int, k1: int, k2: int)
    requires
        selects(ws, u, k1),
        selects(ws, u, k2),
    ensures
        k1 == k2,
{
    if k1 < k2 {
        assert(cum_before(ws, k1 + 1) <= u);
    } else if k2 < k1 {
        assert(cum_before(ws, k2 + 1) <= u);
    }
}

/// Cumulative-weight inversion: pick the first index whose cumulative
/// weight interval contains the draw `u`.
pub fn select_by_weight(ws: &Vec<i64>, u: i64) -> (k: usize)
    requires
        forall|i: int| 0 <= i < ws@.len() ==> ws@[i] >= 0,
        sum_of(ws@) <= i64::MAX,
        0 <= u < sum_of(ws@),
    ensures
        selects(ws@, u as int, k as int),
{
    proof {
        lemma_cum_all(ws@);
    }
    let n = ws.len();
    let mut acc: i64 = 0;
    let mut j: usize = 0;
    loop
        invariant
            j < n,
            n == ws@.len(),
            forall|i: int| 0 <= i < ws@.len() ==> ws@[i] >= 0,
            sum_of(ws@) <= i64::MAX,
            0 <= u < sum_of(ws@),
            cum_before(ws@, ws@.len() as int) == sum_of(ws@),
            acc == cum_before(ws@, j as int),
            forall|i: int| 0 <= i < j ==> #[trigger] cum_before(ws@, i + 1) <= u,
        decreases n - j,
    {
        proof {
            lemma_sum_take_succ(ws@, j as int);
            lemma_cum_monotone(ws@, j as int + 1, ws@.len() as int);
        }
        let next = acc + ws[j];
        if u < next {
            return j;
        }
        proof {
            if j + 1 == n {
                assert(cum_before(ws@, n as int) <= u);
            }
        }
        acc = next;
        j = j + 1;
    }
}

/// `n` evenly spaced fixed-point values from `l` toward `h`: the
/// arithmetic progression with step `(h - l) / (n - 1)` (rounded down),
/// starting at `l`.
pub fn linspace(l: i64, h: i64, n: usize) -> (r: Vec<i64>)
    requires
        2 <= n <= 65536,
        l <= h,
        h - l <= i64::MAX,
    ensures
        r@.len() == n,
        forall|i: int|
            0 <= i < n ==> #[trigger] r@[i] == l + i * ((h - l) / (n - 1) as int),
{
    let size: i64 = (n - 1) as i64;
    let dx: i64 = (h - l) / size;
    proof {
        vstd::arithmetic::div_mod::lemma_div_pos_is_pos((h - l) as int, size as int);
        vstd::arithmetic::div_mod::lemma_fundamental_div_mod((h - l) as int, size as int);
        vstd::arithmetic::div_mod::lemma_mod_bound((h - l) as int, size as int);
        assert(size * dx <= h - l);
    }
    let mut r: Vec<i64> = Vec::new();
    let mut i: usize = 0;
    let mut acc: i64 = l;
    while i < n
        invariant
            i <= n,
            2 <= n <= 65536,
            l <= h,
            size == n - 1,
            dx == (h - l) as int / (size as int),
            0 <= dx,
            size * dx <= h - l,
            i < n ==> acc == l + i * (dx as int),
            r@.len() == i,
            forall|a: int| 0 <= a < i ==> #[trigger] r@[a] == l + a * (dx as int),
        decreases n - i,
    {
        r.push(acc);
        proof {
            assert(i * (dx as int) + dx == (i + 1) * (dx as int)) by (nonlinear_arith);
            assert((i + 1) <= size ==> (i + 1) * (dx as int) <= size * (dx as int))
                by (nonlinear_arith)
                requires
                    0 <= dx,
            ;
            if i < n - 1 {
                assert((i + 1) * (dx as int) <= size * (dx as int));
            } else {
                assert(i * (dx as int) <= size * (dx as int)) by (nonlinear_arith)
                    requires
                        0 <= dx,
                        i <= size,
                ;
            }
        }
        if i + 1 < n {
            acc = acc + dx;
        }
        i = i + 1;
    }
    r
}

/// Integer square root: the largest `r` with `r * r <= n`.
pub fn isqrt_u128(n: u128) -> (r: u64)
    ensures
        (r as int) * (r as int) <= n as int,
        n < (r as int + 1) * (r as int + 1),
{
    let mut lo: u128 = 0;
    let mut hi: u128 = 0x1_0000_0000_0000_0000;
    while lo + 1 < hi
        invariant
            (lo as int) * (lo as int) <= n as int,
            n < (hi as int) * (hi as int),
            lo < hi <= 0x1_0000_0000_0000_0000,
        decreases hi - lo,
    {
        let mid: u128 = lo + (hi - lo) / 2;
        assert(mid <= 0xffff_ffff_ffff_ffff);
        assert(mid * mid <= 0xffff_ffff_ffff_ffff * 0xffff_ffff_ffff_ffff)
            by (nonlinear_arith)
            requires
                mid <= 0xffff_ffff_ffff_ffff,
        ;
        if mid * mid <= n {
            lo = mid;
        } else {
            hi = mid;
        }
    }
    lo as u64
}

} // verus!
