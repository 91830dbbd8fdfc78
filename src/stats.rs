use vstd::prelude::*;
use vstd::relations::injective_on;
use vstd::set_lib::*;

use vstd::arithmetic::div_mod::{
    lemma_div_denominator, lemma_fundamental_div_mod, lemma_fundamental_div_mod_converse,
};

use crate::duration::{Duration, MAX_NANOS};

verus! {

/// The span of each duration in nanoseconds.
pub open spec fn nanos_seq(ds: Seq<Duration>) -> Seq<int> {
    ds.map_values(|d: Duration| d@ as int)
}

pub open spec fn abs(x: int) -> int {
    if x < 0 {
        -x
    } else {
        x
    }
}

pub open spec fn sum(xs: Seq<int>) -> int
    decreases xs.len(),
{
    if xs.len() == 0 {
        0
    } else {
        sum(xs.drop_last()) + xs.last()
    }
}

pub open spec fn sum_sq(xs: Seq<int>) -> int
    decreases xs.len(),
{
    if xs.len() == 0 {
        0
    } else {
        sum_sq(xs.drop_last()) + xs.last() * xs.last()
    }
}

/// Sum of the squared differences of each value from `c`.
pub open spec fn sum_sq_dev(xs: Seq<int>, c: int) -> int
    decreases xs.len(),
{
    if xs.len() == 0 {
        0
    } else {
        sum_sq_dev(xs.drop_last(), c) + (xs.last() - c) * (xs.last() - c)
    }
}

/// The distance of `xs[i]` from the mean of `xs`, scaled by `xs.len()` so that it
/// is a whole number: `|len * xs[i] - sum(xs)|`.
pub open spec fn scaled_dist(xs: Seq<int>, i: int) -> int {
    abs(xs.len() * xs[i] - sum(xs))
}

/// Whether sample `j` ranks before sample `i` in the ordering nearest-first, where
/// of two equally distant samples the earlier one ranks farther.
pub open spec fn ranks_before(xs: Seq<int>, j: int, i: int) -> bool {
    scaled_dist(xs, j) < scaled_dist(xs, i) || (scaled_dist(xs, j) == scaled_dist(xs, i) && j
        > i)
}

/// The number of samples among the first `u` that rank before sample `i`.
pub open spec fn rank_upto(xs: Seq<int>, i: int, u: int) -> nat
    decreases u,
{
    if u <= 0 {
        0
    } else {
        rank_upto(xs, i, u - 1) + if ranks_before(xs, u - 1, i) {
            1nat
        } else {
            0nat
        }
    }
}

/// The position of sample `i` when all samples are ordered nearest to the mean
/// first, equally distant ones later index first.
pub open spec fn rank(xs: Seq<int>, i: int) -> nat {
    rank_upto(xs, i, xs.len() as int)
}

/// Whether sample `i` survives when the `k` samples farthest from the mean are dropped.
pub open spec fn survives(xs: Seq<int>, k: int, i: int) -> bool {
    rank(xs, i) < xs.len() - k
}

/// The elements `s[i]`, `i < u`, whose sample `xs[i]` survives, in input order.
pub open spec fn survivors<A>(s: Seq<A>, xs: Seq<int>, k: int, u: int) -> Seq<A>
    decreases u,
{
    if u <= 0 {
        Seq::empty()
    } else if survives(xs, k, u - 1) {
        survivors(s, xs, k, u - 1).push(s[u - 1])
    } else {
        survivors(s, xs, k, u - 1)
    }
}

/// The indices `i < u` whose sample survives, ascending.
pub open spec fn survivor_indices(xs: Seq<int>, k: int, u: int) -> Seq<int>
    decreases u,
{
    if u <= 0 {
        Seq::empty()
    } else if survives(xs, k, u - 1) {
        survivor_indices(xs, k, u - 1).push(u - 1)
    } else {
        survivor_indices(xs, k, u - 1)
    }
}

/// `ds` without the `k` durations farthest from their mean, in input order.
pub open spec fn drop_outliers_of(ds: Seq<Duration>, k: int) -> Seq<Duration> {
    survivors(ds, nanos_seq(ds), k, ds.len() as int)
}

proof fn lemma_rank_upto_bound(xs: Seq<int>, i: int, u: int)
    requires
        0 <= u,
    ensures
        rank_upto(xs, i, u) <= u,
        0 <= i < u ==> rank_upto(xs, i, u) < u,
    decreases u,
{
    if u > 0 {
        lemma_rank_upto_bound(xs, i, u - 1);
    }
}

proof fn lemma_rank_upto_mono(xs: Seq<int>, i: int, j: int, u: int)
    requires
        0 <= u,
        0 <= i,
        ranks_before(xs, i, j),
    ensures
        rank_upto(xs, i, u) <= rank_upto(xs, j, u),
        i < u ==> rank_upto(xs, i, u) < rank_upto(xs, j, u),
    decreases u,
{
    if u > 0 {
        lemma_rank_upto_mono(xs, i, j, u - 1);
    }
}

/// Distinct samples have distinct ranks, each below the number of samples.
proof fn lemma_rank_injective(xs: Seq<int>)
    ensures
        forall|i: int| 0 <= i < xs.len() ==> #[trigger] rank(xs, i) < xs.len(),
        forall|i: int, j: int|
            0 <= i < xs.len() && 0 <= j < xs.len() && i != j ==> #[trigger] rank(xs, i) != #[trigger] rank(
                xs,
                j,
            ),
{
    let n = xs.len() as int;
    assert forall|i: int| 0 <= i < n implies #[trigger] rank(xs, i) < n by {
        lemma_rank_upto_bound(xs, i, n);
    }
    assert forall|i: int, j: int| 0 <= i < n && 0 <= j < n && i != j implies #[trigger] rank(
        xs,
        i,
    ) != #[trigger] rank(xs, j) by {
        if ranks_before(xs, i, j) {
            lemma_rank_upto_mono(xs, i, j, n);
        } else {
            lemma_rank_upto_mono(xs, j, i, n);
        }
    }
}

proof fn lemma_survivor_indices_props(xs: Seq<int>, k: int, u: int)
    requires
        0 <= u <= xs.len(),
    ensures
        survivor_indices(xs, k, u).len() == Set::new(|i: int| 0 <= i < u && survives(xs, k, i)).len(),
        Set::new(|i: int| 0 <= i < u && survives(xs, k, i)).finite(),
        forall|a: int| 0 <= a < survivor_indices(xs, k, u).len() ==> {
            let ix = #[trigger] survivor_indices(xs, k, u)[a];
            0 <= ix < u && survives(xs, k, ix)
        },
        forall|a: int, b: int|
            0 <= a < b < survivor_indices(xs, k, u).len() ==> #[trigger] survivor_indices(
                xs,
                k,
                u,
            )[a] < #[trigger] survivor_indices(xs, k, u)[b],
    decreases u,
{
    let s = Set::new(|i: int| 0 <= i < u && survives(xs, k, i));
    if u == 0 {
        assert(s =~= Set::empty());
    } else {
        lemma_survivor_indices_props(xs, k, u - 1);
        let p = Set::new(|i: int| 0 <= i < u - 1 && survives(xs, k, i));
        if survives(xs, k, u - 1) {
            assert(s =~= p.insert(u - 1));
        } else {
            assert(s =~= p);
        }
    }
}

/// Exactly `m` samples have a rank below `m`.
proof fn lemma_count_ranks_below(xs: Seq<int>, m: int)
    requires
        0 <= m <= xs.len(),
    ensures
        Set::new(|i: int| 0 <= i < xs.len() && rank(xs, i) < m).finite(),
        Set::new(|i: int| 0 <= i < xs.len() && rank(xs, i) < m).len() == m,
{
    let n = xs.len() as int;
    lemma_rank_injective(xs);
    let all = set_int_range(0, n);
    let f = |i: int| rank(xs, i) as int;
    lemma_int_range(0, n);
    lemma_int_range(0, m);
    assert(injective_on(f, all));
    lemma_map_size(all, all.map(f), f);
    assert(all.map(f).subset_of(all));
    lemma_subset_equality(all.map(f), all);
    let below = Set::new(|i: int| 0 <= i < n && rank(xs, i) < m);
    assert(below.subset_of(all));
    lemma_len_subset(below, all);
    assert(injective_on(f, below));
    assert forall|t: int| #[trigger] set_int_range(0, m).contains(t) implies below.map(f).contains(
        t,
    ) by {
        assert(all.map(f).contains(t));
        let i = choose|i: int| all.contains(i) && f(i) == t;
        assert(below.contains(i));
    }
    assert(below.map(f) =~= set_int_range(0, m));
    lemma_map_size(below, set_int_range(0, m), f);
}

proof fn lemma_survivors_index<A>(s: Seq<A>, xs: Seq<int>, k: int, u: int)
    requires
        0 <= u <= s.len(),
    ensures
        survivors(s, xs, k, u).len() == survivor_indices(xs, k, u).len(),
        forall|a: int|
            0 <= a < survivors(s, xs, k, u).len() ==> #[trigger] survivors(s, xs, k, u)[a]
                == s[survivor_indices(xs, k, u)[a]],
    decreases u,
{
    if u > 0 {
        lemma_survivors_index(s, xs, k, u - 1);
    }
}

proof fn lemma_survivors_len<A>(s: Seq<A>, xs: Seq<int>, k: int, u: int)
    ensures
        survivors(s, xs, k, u).len() == survivor_indices(xs, k, u).len(),
    decreases u,
{
    if u > 0 {
        lemma_survivors_len(s, xs, k, u - 1);
    }
}

/// Dropping `k` outliers from `n` samples leaves `n - k` of them.
pub proof fn lemma_survivors_count<A>(s: Seq<A>, xs: Seq<int>, k: int)
    requires
        0 <= k <= xs.len(),
    ensures
        survivors(s, xs, k, xs.len() as int).len() == xs.len() - k,
{
    let n = xs.len() as int;
    lemma_survivor_indices_props(xs, k, n);
    lemma_count_ranks_below(xs, n - k);
    assert(Set::new(|i: int| 0 <= i < n && survives(xs, k, i)) =~= Set::new(
        |i: int| 0 <= i < n && rank(xs, i) < n - k,
    ));
    lemma_survivors_len(s, xs, k, n);
}

/// The values of `s` as integers.
pub open spec fn ints(s: Seq<u128>) -> Seq<int> {
    s.map_values(|x: u128| x as int)
}

proof fn lemma_sum_take(xs: Seq<int>, i: int)
    requires
        0 <= i < xs.len(),
    ensures
        sum(xs.take(i + 1)) == sum(xs.take(i)) + xs[i],
{
    assert(xs.take(i + 1).drop_last() =~= xs.take(i));
}

/// The mean of `xs` as a quotient and a remainder: `sum(xs) == q * len + r`, `r < len`.
pub(crate) fn floor_mean(xs: &Vec<u128>) -> (res: (u128, u128))
    requires
        xs.len() > 0,
        forall|i: int| 0 <= i < xs.len() ==> xs[i] <= MAX_NANOS,
    ensures
        res.0 * xs.len() + res.1 == sum(ints(xs@)),
        res.1 < xs.len(),
        res.0 <= MAX_NANOS,
{
    let ghost ys = ints(xs@);
    let n = xs.len() as u128;
    let mut q: u128 = 0;
    let mut r: u128 = 0;
    let mut i: usize = 0;
    assert(ys.take(0) =~= Seq::<int>::empty());
    while i < xs.len()
        invariant
            0 <= i <= xs.len(),
            n == xs.len(),
            ys == ints(xs@),
            forall|j: int| 0 <= j < xs.len() ==> xs[j] <= MAX_NANOS,
            q * n + r == sum(ys.take(i as int)),
            0 <= sum(ys.take(i as int)) <= i * MAX_NANOS,
            r < n,
            q <= MAX_NANOS,
        decreases xs.len() - i,
    {
        let x = xs[i];
        let dq = x / n;
        let dr = x % n;
        proof {
            lemma_fundamental_div_mod(x as int, n as int);
            assert(dq <= x) by (nonlinear_arith)
                requires
                    dq == x / n,
                    n > 0,
            ;
            lemma_sum_take(ys, i as int);
        }
        let ghost q0 = q;
        let ghost r0 = r;
        q = q + dq;
        r = r + dr;
        if r >= n {
            r = r - n;
            q = q + 1;
        }
        proof {
            assert(q * n + r == q0 * n + r0 + dq * n + dr) by (nonlinear_arith)
                requires
                    (q == q0 + dq && r == r0 + dr) || (q == q0 + dq + 1 && r + n == r0 + dr),
            ;
            assert(q <= MAX_NANOS) by (nonlinear_arith)
                requires
                    q * n + r <= n * MAX_NANOS,
                    r >= 0,
                    n > 0,
            ;
        }
        i = i + 1;
    }
    assert(ys.take(xs.len() as int) =~= ys);
    (q, r)
}

/// `n * u + v` with `v < n` orders as the pair `(u, v)`.
pub(crate) proof fn lemma_key_order(n: int, u1: int, v1: int, u2: int, v2: int)
    requires
        0 <= v1 < n,
        0 <= v2 < n,
    ensures
        (n * u1 + v1 < n * u2 + v2) == (u1 < u2 || (u1 == u2 && v1 < v2)),
        (n * u1 + v1 == n * u2 + v2) == (u1 == u2 && v1 == v2),
{
    if u1 < u2 {
        assert(n * u1 + n <= n * u2) by (nonlinear_arith)
            requires
                u1 < u2,
                n > 0,
        ;
    } else if u2 < u1 {
        assert(n * u2 + n <= n * u1) by (nonlinear_arith)
            requires
                u2 < u1,
                n > 0,
        ;
    }
}

/// The scaled distance `|n * x - (q * n + r)|` of `x` from the mean `q + r / n`,
/// written as `n * u + v` with `v < n`.
pub(crate) fn distance_key(x: u128, q: u128, r: u128, n: u128) -> (res: (u128, u128))
    requires
        r < n,
    ensures
        n * res.0 + res.1 == abs(n * x - (q * n + r)),
        res.1 < n,
{
    if x > q {
        let a = x - q;
        assert(n * x - (q * n + r) == n * a - r) by (nonlinear_arith)
            requires
                a == x - q,
        ;
        assert(n * a >= n) by (nonlinear_arith)
            requires
                a >= 1,
                n > 0,
        ;
        if r == 0 {
            (a, 0)
        } else {
            assert(n * (a - 1) == n * a - n) by (nonlinear_arith);
            (a - 1, n - r)
        }
    } else {
        let b = q - x;
        assert(q * n + r - n * x == n * b + r) by (nonlinear_arith)
            requires
                b == q - x,
        ;
        assert(n * b >= 0) by (nonlinear_arith)
            requires
                b >= 0,
                n > 0,
        ;
        (b, r)
    }
}

/// `r` is made of the elements of `s` at the strictly increasing positions `idx`.
pub open spec fn picks<A>(r: Seq<A>, s: Seq<A>, idx: Seq<int>) -> bool {
    &&& idx.len() == r.len()
    &&& forall|a: int| 0 <= a < idx.len() ==> 0 <= #[trigger] idx[a] < s.len()
    &&& forall|a: int, b: int| 0 <= a < b < idx.len() ==> #[trigger] idx[a] < #[trigger] idx[b]
    &&& forall|a: int| 0 <= a < r.len() ==> #[trigger] r[a] == s[idx[a]]
}

/// Dropping no outliers returns the samples unchanged, in the same order.
pub proof fn lemma_drop_none_is_identity(ds: Seq<Duration>)
    ensures
        drop_outliers_of(ds, 0) == ds,
{
    let xs = nanos_seq(ds);
    lemma_rank_injective(xs);
    lemma_survivors_all(ds, xs, ds.len() as int);
    assert(ds.take(ds.len() as int) =~= ds);
}

proof fn lemma_survivors_all<A>(s: Seq<A>, xs: Seq<int>, u: int)
    requires
        0 <= u <= s.len(),
        s.len() == xs.len(),
        forall|i: int| 0 <= i < xs.len() ==> #[trigger] rank(xs, i) < xs.len(),
    ensures
        survivors(s, xs, 0, u) == s.take(u),
    decreases u,
{
    if u > 0 {
        lemma_survivors_all(s, xs, u - 1);
        assert(rank(xs, u - 1) < xs.len());
        assert(s.take(u - 1).push(s[u - 1]) =~= s.take(u));
    } else {
        assert(s.take(0) =~= Seq::<A>::empty());
    }
}

/// Dropping `k` of `n` samples keeps `n - k` of them, each at its own position of
/// the input and in input order.
pub proof fn lemma_drop_outliers_subsequence(ds: Seq<Duration>, k: int)
    requires
        0 <= k <= ds.len(),
    ensures
        drop_outliers_of(ds, k).len() == ds.len() - k,
        exists|idx: Seq<int>| picks(drop_outliers_of(ds, k), ds, idx),
{
    let xs = nanos_seq(ds);
    let n = ds.len() as int;
    lemma_survivors_count(ds, xs, k);
    lemma_survivors_index(ds, xs, k, n);
    lemma_survivor_indices_props(xs, k, n);
    assert(picks(drop_outliers_of(ds, k), ds, survivor_indices(xs, k, n)));
}

/// The sample variance of `xs` (divisor `len - 1`), rounded down; zero for fewer
/// than two values.
pub open spec fn variance_floor(xs: Seq<int>) -> int {
    let m = xs.len() as int;
    if m < 2 {
        0
    } else {
        (m * sum_sq(xs) - sum(xs) * sum(xs)) / (m * (m - 1))
    }
}

/// `r` is the integer square root of `v`: the largest whole number whose square
/// does not exceed `v`.
pub open spec fn is_isqrt(r: int, v: int) -> bool {
    0 <= r && r * r <= v < (r + 1) * (r + 1)
}

proof fn lemma_sum_sq_dev_expand(xs: Seq<int>, c: int)
    ensures
        sum_sq_dev(xs, c) == sum_sq(xs) - 2 * c * sum(xs) + xs.len() * c * c,
    decreases xs.len(),
{
    if xs.len() > 0 {
        let p = xs.drop_last();
        let y = xs.last();
        lemma_sum_sq_dev_expand(p, c);
        assert((y - c) * (y - c) == y * y - 2 * c * y + c * c) by (nonlinear_arith);
        assert(xs.len() * c * c == p.len() * c * c + c * c) by (nonlinear_arith)
            requires
                xs.len() == p.len() + 1,
        ;
        assert(2 * c * sum(xs) == 2 * c * sum(p) + 2 * c * y) by (nonlinear_arith)
            requires
                sum(xs) == sum(p) + y,
        ;
    }
}

proof fn lemma_sum_sq_dev_nonneg(xs: Seq<int>, c: int)
    ensures
        sum_sq_dev(xs, c) >= 0,
    decreases xs.len(),
{
    if xs.len() > 0 {
        lemma_sum_sq_dev_nonneg(xs.drop_last(), c);
        let d = xs.last() - c;
        assert(d * d >= 0) by (nonlinear_arith);
    }
}

proof fn lemma_sum_sq_dev_take(xs: Seq<int>, c: int, j: int)
    requires
        0 <= j < xs.len(),
    ensures
        sum_sq_dev(xs.take(j + 1), c) == sum_sq_dev(xs.take(j), c) + (xs[j] - c) * (xs[j] - c),
{
    assert(xs.take(j + 1).drop_last() =~= xs.take(j));
}

proof fn lemma_sum_sq_dev_prefix_le(xs: Seq<int>, c: int, j: int)
    requires
        0 <= j <= xs.len(),
    ensures
        sum_sq_dev(xs.take(j), c) <= sum_sq_dev(xs, c),
    decreases xs.len() - j,
{
    if j < xs.len() {
        lemma_sum_sq_dev_prefix_le(xs, c, j + 1);
        lemma_sum_sq_dev_take(xs, c, j);
        let d = xs[j] - c;
        assert(d * d >= 0) by (nonlinear_arith);
    } else {
        assert(xs.take(j) =~= xs);
    }
}

/// `len * sum_sq - sum * sum` is never negative.
proof fn lemma_scatter_nonneg(xs: Seq<int>)
    ensures
        xs.len() * sum_sq(xs) - sum(xs) * sum(xs) >= 0,
    decreases xs.len(),
{
    if xs.len() > 0 {
        let p = xs.drop_last();
        let y = xs.last();
        let m = p.len() as int;
        lemma_scatter_nonneg(p);
        lemma_sum_sq_dev_expand(p, y);
        lemma_sum_sq_dev_nonneg(p, y);
        let q = sum_sq(p);
        let s = sum(p);
        assert((m + 1) * (q + y * y) - (s + y) * (s + y) == (m * q - s * s) + (q - 2 * y * s + m
            * y * y)) by (nonlinear_arith);
    }
}

/// The integer square root of `v`.
pub(crate) fn isqrt(v: u128) -> (r: u128)
    ensures
        is_isqrt(r as int, v as int),
        r < 0x1_0000_0000_0000_0000,
{
    let mut lo: u128 = 0;
    let mut hi: u128 = 0x1_0000_0000_0000_0000;
    assert(hi * hi > u128::MAX) by (nonlinear_arith)
        requires
            hi == 0x1_0000_0000_0000_0000u128,
    ;
    while hi - lo > 1
        invariant
            lo < hi <= 0x1_0000_0000_0000_0000,
            lo * lo <= v,
            v < hi * hi,
        decreases hi - lo,
    {
        let mid = lo + (hi - lo) / 2;
        assert(mid * mid <= 0xffff_ffff_ffff_ffff * 0xffff_ffff_ffff_ffff) by (nonlinear_arith)
            requires
                0 <= mid < 0x1_0000_0000_0000_0000,
        ;
        if mid * mid <= v {
            lo = mid;
        } else {
            hi = mid;
        }
    }
    assert(hi == lo + 1);
    lo
}

/// The integer square root of the rounded-down sample variance of `xs`, given the
/// mean of `xs` as `q + r / len`; `None` where the sum of squared distances from
/// `q` exceeds 128 bits.
pub(crate) fn std_dev_floor(xs: &Vec<u128>, q: u128, r: u128) -> (res: Option<u128>)
    requires
        xs.len() > 0,
        q * xs.len() + r == sum(ints(xs@)),
        r < xs.len(),
    ensures
        res is Some <==> sum_sq_dev(ints(xs@), q as int) <= u128::MAX,
        res matches Some(sd) ==> is_isqrt(sd as int, variance_floor(ints(xs@))) && sd
            < 0x1_0000_0000_0000_0000,
{
    let ghost ys = ints(xs@);
    let m = xs.len() as u128;
    let mut t: u128 = 0;
    let mut j: usize = 0;
    assert(ys.take(0) =~= Seq::<int>::empty());
    while j < xs.len()
        invariant
            0 <= j <= xs.len(),
            m == xs.len(),
            ys == ints(xs@),
            t == sum_sq_dev(ys.take(j as int), q as int),
        decreases xs.len() - j,
    {
        let x = xs[j];
        let d = if x >= q {
            x - q
        } else {
            q - x
        };
        proof {
            lemma_sum_sq_dev_take(ys, q as int, j as int);
            lemma_sum_sq_dev_prefix_le(ys, q as int, j as int + 1);
            assert(d * d == (x - q) * (x - q)) by (nonlinear_arith)
                requires
                    d == x - q || d == q - x,
            ;
            assert(t + d * d >= d * d) by (nonlinear_arith)
                requires
                    t >= 0,
            ;
        }
        let sq = match d.checked_mul(d) {
            Some(v) => v,
            None => return None,
        };
        t = match t.checked_add(sq) {
            Some(v) => v,
            None => return None,
        };
        j = j + 1;
    }
    assert(ys.take(xs.len() as int) =~= ys);
    if m < 2 {
        proof {
            assert(0 * 0 <= 0 < 1 * 1);
        }
        return Some(0);
    }
    let ghost big_q = sum_sq(ys);
    let ghost big_s = sum(ys);
    proof {
        lemma_sum_sq_dev_expand(ys, q as int);
        lemma_scatter_nonneg(ys);
        assert(m * t - r * r == m * big_q - big_s * big_s) by (nonlinear_arith)
            requires
                big_s == q * m + r,
                t == big_q - 2 * q * big_s + m * q * q,
        ;
        assert(r * r <= 0xffff_ffff_ffff_ffff * 0xffff_ffff_ffff_ffff) by (nonlinear_arith)
            requires
                0 <= r < m,
                m <= 0xffff_ffff_ffff_ffff,
        ;
    }
    let rr = r * r;
    let a = rr / m;
    let b = rr % m;
    let c = if b == 0 {
        a
    } else {
        a + 1
    };
    let ghost n_int = m * t - rr;
    proof {
        lemma_fundamental_div_mod(rr as int, m as int);
        assert(m * a == a * m) by (nonlinear_arith);
        if b == 0 {
            assert(n_int == (t - a) * m) by (nonlinear_arith)
                requires
                    n_int == m * t - rr,
                    rr == a * m,
            ;
            lemma_fundamental_div_mod_converse(n_int, m as int, t - a, 0);
        } else {
            assert(n_int == (t - a - 1) * m + (m - b)) by (nonlinear_arith)
                requires
                    n_int == m * t - rr,
                    rr == a * m + b,
            ;
            assert(t - a - 1 >= 0) by (nonlinear_arith)
                requires
                    n_int == (t - a - 1) * m + (m - b),
                    n_int >= 0,
                    0 < m - b < m,
            ;
            lemma_fundamental_div_mod_converse(n_int, m as int, t - a - 1, m - b);
        }
        lemma_div_denominator(n_int, m as int, m - 1);
    }
    let v = (t - c) / (m - 1);
    Some(isqrt(v))
}

/// The spans of `ds` in nanoseconds.
pub(crate) fn to_nanos(ds: &Vec<Duration>) -> (xs: Vec<u128>)
    ensures
        ints(xs@) == nanos_seq(ds@),
        xs.len() == ds.len(),
        forall|j: int| 0 <= j < xs.len() ==> xs[j] <= MAX_NANOS,
{
    let mut xs: Vec<u128> = Vec::new();
    let mut i: usize = 0;
    while i < ds.len()
        invariant
            0 <= i <= ds.len(),
            xs.len() == i,
            forall|j: int| 0 <= j < i ==> xs[j] == ds@[j]@ && xs[j] <= MAX_NANOS,
        decreases ds.len() - i,
    {
        xs.push(ds[i].as_nanos());
        i = i + 1;
    }
    assert(ints(xs@) =~= nanos_seq(ds@));
    xs
}

} // verus!
