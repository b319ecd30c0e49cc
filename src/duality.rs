use vstd::prelude::*;
use crate::stencil::{
    prev, next, forward_outcome, adjoint_outcome, adjoint_trace, first_in, second_in,
};

verus! {

/// `f(lo) + ... + f(hi - 1)`.
pub open spec fn sum(f: spec_fn(int) -> int, lo: int, hi: int) -> int
    decreases hi - lo,
{
    if hi <= lo {
        0
    } else {
        sum(f, lo, hi - 1) + f(hi - 1)
    }
}

/// The scalars of a sequence of machine integers, as mathematical integers.
pub open spec fn ints(s: Seq<i64>) -> Seq<int> {
    s.map_values(|v: i64| v as int)
}

/// The Euclidean inner product of two sequences of equal length.
pub open spec fn dot(a: Seq<int>, b: Seq<int>) -> int {
    sum(|i: int| a[i] * b[i], 0, a.len() as int)
}

/// The forward sweep of the rule `wl * left + wr * right`.
pub open spec fn linear_forward(x: Seq<int>, wl: int, wr: int) -> Seq<int> {
    Seq::new(x.len(), |i: int| wl * x[prev(i, x.len() as int)] + wr * x[next(i, x.len() as int)])
}

/// The transpose of `linear_forward`: each position collects `wl` times the
/// value of its right neighbour and `wr` times that of its left neighbour.
pub open spec fn linear_adjoint(y: Seq<int>, wl: int, wr: int) -> Seq<int> {
    Seq::new(y.len(), |j: int| wl * y[next(j, y.len() as int)] + wr * y[prev(j, y.len() as int)])
}

proof fn lemma_sum_ext(f: spec_fn(int) -> int, g: spec_fn(int) -> int, lo: int, hi: int)
    requires
        forall|i: int| lo <= i < hi ==> #[trigger] f(i) == g(i),
    ensures
        sum(f, lo, hi) == sum(g, lo, hi),
    decreases hi - lo,
{
    if hi > lo {
        lemma_sum_ext(f, g, lo, hi - 1);
    }
}

proof fn lemma_sum_linear(f: spec_fn(int) -> int, g: spec_fn(int) -> int, a: int, b: int, lo: int, hi: int)
    ensures
        sum(|i: int| a * f(i) + b * g(i), lo, hi) == a * sum(f, lo, hi) + b * sum(g, lo, hi),
    decreases hi - lo,
{
    if hi > lo {
        lemma_sum_linear(f, g, a, b, lo, hi - 1);
        let sf = sum(f, lo, hi - 1);
        let sg = sum(g, lo, hi - 1);
        assert(a * (sf + f(hi - 1)) + b * (sg + g(hi - 1)) == a * sf + b * sg + (a * f(hi - 1) + b
            * g(hi - 1))) by (nonlinear_arith);
    }
}

proof fn lemma_sum_first(f: spec_fn(int) -> int, lo: int, hi: int)
    requires
        lo < hi,
    ensures
        sum(f, lo, hi) == f(lo) + sum(f, lo + 1, hi),
    decreases hi - lo,
{
    if hi - 1 > lo {
        lemma_sum_first(f, lo, hi - 1);
        assert(sum(f, lo + 1, hi) == sum(f, lo + 1, hi - 1) + f(hi - 1));
    } else {
        assert(sum(f, lo, lo) == 0);
        assert(sum(f, lo + 1, hi) == 0);
    }
}

proof fn lemma_sum_shift(f: spec_fn(int) -> int, lo: int, hi: int)
    ensures
        sum(|i: int| f(i - 1), lo + 1, hi + 1) == sum(f, lo, hi),
    decreases hi - lo,
{
    if hi > lo {
        lemma_sum_shift(f, lo, hi - 1);
    }
}

/// Summing over the left neighbours of a cycle visits every position once.
proof fn lemma_sum_prev(g: spec_fn(int) -> int, n: int)
    requires
        n >= 2,
    ensures
        sum(|i: int| g(prev(i, n)), 0, n) == sum(g, 0, n),
{
    let h = |i: int| g(prev(i, n));
    lemma_sum_first(h, 0, n);
    lemma_sum_ext(h, |i: int| g(i - 1), 1, n);
    lemma_sum_shift(g, 0, n - 1);
    assert(sum(g, 0, n) == sum(g, 0, n - 1) + g(n - 1));
}

/// Summing over the right neighbours of a cycle visits every position once.
proof fn lemma_sum_next(g: spec_fn(int) -> int, n: int)
    requires
        n >= 2,
    ensures
        sum(|i: int| g(next(i, n)), 0, n) == sum(g, 0, n),
{
    let k = |i: int| g(next(i, n));
    lemma_sum_prev(k, n);
    lemma_sum_ext(|i: int| k(prev(i, n)), g, 0, n);
}

/// On a cycle of at least two positions, the forward sweep of a linear
/// neighbour rule and its transpose satisfy `<F x, y> == <x, F^T y>` exactly.
pub proof fn lemma_linear_transpose(x: Seq<int>, y: Seq<int>, wl: int, wr: int)
    requires
        x.len() == y.len(),
        x.len() >= 2,
    ensures
        dot(linear_forward(x, wl, wr), y) == dot(x, linear_adjoint(y, wl, wr)),
{
    let n = x.len() as int;
    let fx = linear_forward(x, wl, wr);
    let ay = linear_adjoint(y, wl, wr);
    let p = |i: int| x[prev(i, n)] * y[i];
    let q = |i: int| x[next(i, n)] * y[i];
    let gp = |j: int| x[j] * y[next(j, n)];
    let gq = |j: int| x[j] * y[prev(j, n)];
    assert forall|i: int| 0 <= i < n implies #[trigger] (fx[i] * y[i]) == wl * p(i) + wr * q(i) by {
        assert((wl * x[prev(i, n)] + wr * x[next(i, n)]) * y[i] == wl * (x[prev(i, n)] * y[i]) + wr
            * (x[next(i, n)] * y[i])) by (nonlinear_arith);
    }
    lemma_sum_ext(|i: int| fx[i] * y[i], |i: int| wl * p(i) + wr * q(i), 0, n);
    lemma_sum_linear(p, q, wl, wr, 0, n);
    assert forall|j: int| 0 <= j < n implies #[trigger] (x[j] * ay[j]) == wl * gp(j) + wr * gq(j) by {
        assert(x[j] * (wl * y[next(j, n)] + wr * y[prev(j, n)]) == wl * (x[j] * y[next(j, n)]) + wr
            * (x[j] * y[prev(j, n)])) by (nonlinear_arith);
    }
    lemma_sum_ext(|j: int| x[j] * ay[j], |j: int| wl * gp(j) + wr * gq(j), 0, n);
    lemma_sum_linear(gp, gq, wl, wr, 0, n);
    lemma_sum_prev(gp, n);
    lemma_sum_ext(|i: int| gp(prev(i, n)), p, 0, n);
    lemma_sum_next(gq, n);
    lemma_sum_ext(|i: int| gq(next(i, n)), q, 0, n);
}

/// A forward sweep whose rule computes `wl * left + wr * right` exactly is
/// `linear_forward`.
pub proof fn lemma_forward_is_linear<F: Fn(i64, i64) -> i64>(
    rule: F,
    wl: int,
    wr: int,
    x: Seq<i64>,
    out: Seq<i64>,
)
    requires
        forward_outcome(rule, x, out),
        forall|l: i64, r: i64, o: i64| #[trigger] rule.ensures((l, r), o) ==> o == wl * l + wr * r,
    ensures
        ints(out) == linear_forward(ints(x), wl, wr),
{
    let n = x.len() as int;
    assert forall|i: int| 0 <= i < n implies ints(out)[i] == linear_forward(ints(x), wl, wr)[i] by {
        assert(rule.ensures((x[prev(i, n)], x[next(i, n)]), out[i]));
    }
    assert(ints(out) =~= linear_forward(ints(x), wl, wr));
}

/// A reverse sweep from a zero accumulator, whose adjoint rule hands out
/// `wl * c` to the left and `wr * c` to the right and whose addition is exact,
/// whenever no sum of the reverse sweep leaves the range of `i64`, is
/// `linear_adjoint`.
pub proof fn lemma_adjoint_is_linear<F: Fn(i64) -> (i64, i64), G: Fn(i64, i64) -> i64>(
    ad_rule: F,
    plus: G,
    wl: int,
    wr: int,
    y: Seq<i64>,
    out: Seq<i64>,
)
    requires
        y.len() >= 2,
        adjoint_outcome(ad_rule, plus, 0i64, y, out),
        forall|c: i64, d: (i64, i64)| #[trigger] ad_rule.ensures((c,), d) ==> d.0 == wl * c && d.1
            == wr * c,
        forall|a: i64, b: i64, t: i64|
            #[trigger] plus.ensures((a, b), t) && i64::MIN <= a + b <= i64::MAX ==> t == a + b,
        forall|j: int|
            0 <= j < y.len() ==> i64::MIN <= #[trigger] linear_adjoint(ints(y), wl, wr)[j]
                <= i64::MAX,
    ensures
        ints(out) == linear_adjoint(ints(y), wl, wr),
{
    let n = y.len() as int;
    let (cs, mids) = choose|cs: Seq<(i64, i64)>, mids: Seq<i64>|
        adjoint_trace(ad_rule, plus, 0i64, y, cs, mids, out);
    assert forall|j: int| 0 <= j < n implies ints(out)[j] == linear_adjoint(ints(y), wl, wr)[j] by {
        let a = next(j, n);
        let b = prev(j, n);
        assert(ad_rule.ensures((y[a],), cs[a]));
        assert(ad_rule.ensures((y[b],), cs[b]));
        assert(plus.ensures((0i64, first_in(cs, j)), mids[j]));
        assert(plus.ensures((mids[j], second_in(cs, j)), out[j]));
    }
    assert(ints(out) =~= linear_adjoint(ints(y), wl, wr));
}

/// For a linear neighbour rule, the reverse sweep of the stencil engine is
/// the transpose of its forward sweep: with `fx` the forward sweep of `x`
/// and `ay` the reverse sweep of `y`, `<fx, y> == <x, ay>`, exactly. With
/// `y == fx` this is the dot-product test `<M x, M x> == <M^T M x, x>`.
pub proof fn lemma_sweeps_transpose<F: Fn(i64, i64) -> i64, A: Fn(i64) -> (i64, i64), G: Fn(
    i64,
    i64,
) -> i64>(
    rule: F,
    ad_rule: A,
    plus: G,
    wl: int,
    wr: int,
    x: Seq<i64>,
    fx: Seq<i64>,
    y: Seq<i64>,
    ay: Seq<i64>,
)
    requires
        x.len() == y.len(),
        x.len() >= 2,
        forward_outcome(rule, x, fx),
        adjoint_outcome(ad_rule, plus, 0i64, y, ay),
        forall|l: i64, r: i64, o: i64| #[trigger] rule.ensures((l, r), o) ==> o == wl * l + wr * r,
        forall|c: i64, d: (i64, i64)| #[trigger] ad_rule.ensures((c,), d) ==> d.0 == wl * c && d.1
            == wr * c,
        forall|a: i64, b: i64, t: i64|
            #[trigger] plus.ensures((a, b), t) && i64::MIN <= a + b <= i64::MAX ==> t == a + b,
        forall|j: int|
            0 <= j < y.len() ==> i64::MIN <= #[trigger] linear_adjoint(ints(y), wl, wr)[j]
                <= i64::MAX,
    ensures
        dot(ints(fx), ints(y)) == dot(ints(x), ints(ay)),
{
    lemma_forward_is_linear(rule, wl, wr, x, fx);
    lemma_adjoint_is_linear(ad_rule, plus, wl, wr, y, ay);
    lemma_linear_transpose(ints(x), ints(y), wl, wr);
}

} // verus!
