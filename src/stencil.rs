use vstd::prelude::*;
use crate::state::State;

verus! {

/// The left neighbour of position `i` on a cycle of `n` positions.
pub open spec fn prev(i: int, n: int) -> int {
    if i == 0 {
        n - 1
    } else {
        i - 1
    }
}

/// The right neighbour of position `i` on a cycle of `n` positions.
pub open spec fn next(i: int, n: int) -> int {
    if i + 1 == n {
        0
    } else {
        i + 1
    }
}

/// The left neighbour of `i` on a cycle of `n` positions.
pub fn left_of(i: usize, n: usize) -> (r: usize)
    requires
        i < n,
    ensures
        r == prev(i as int, n as int),
        r < n,
{
    if i == 0 {
        n - 1
    } else {
        i - 1
    }
}

/// The right neighbour of `i` on a cycle of `n` positions.
pub fn right_of(i: usize, n: usize) -> (r: usize)
    requires
        i < n,
    ensures
        r == next(i as int, n as int),
        r < n,
{
    if i + 1 == n {
        0
    } else {
        i + 1
    }
}

/// Every position's new value is `rule(left neighbour, right neighbour)`,
/// all read from the state as it was before the sweep.
pub open spec fn forward_outcome<T, F: Fn(T, T) -> T>(rule: F, x: Seq<T>, out: Seq<T>) -> bool {
    &&& out.len() == x.len()
    &&& forall|i: int|
        0 <= i < x.len() ==> rule.ensures(
            (x[prev(i, x.len() as int)], x[next(i, x.len() as int)]),
            #[trigger] out[i],
        )
}

/// Applies `rule` at every position of the cycle at once: the new value at
/// `i` is computed from the old values at its two neighbours.
pub fn apply_stencil_one<T: Copy, F: Fn(T, T) -> T>(f: &mut State<T>, rule: F)
    requires
        old(f).values().len() >= 2,
        forall|i: int|
            0 <= i < old(f).values().len() ==> rule.requires(
                (
                    old(f).values()[prev(i, old(f).values().len() as int)],
                    old(f).values()[next(i, old(f).values().len() as int)],
                ),
            ),
    ensures
        forward_outcome(rule, old(f).values(), final(f).values()),
        final(f).names() == old(f).names(),
        final(f).named() == old(f).named(),
{
    let snapshot: Vec<T> = f.vec();
    let n: usize = snapshot.len();
    let mut out: Vec<T> = Vec::new();
    let mut i: usize = 0;
    while i < n
        invariant
            n == snapshot.len(),
            snapshot@ == old(f).values(),
            0 <= i <= n,
            out.len() == i,
            forall|k: int|
                0 <= k < n ==> rule.requires((snapshot@[prev(k, n as int)], snapshot@[next(k, n as int)])),
            forall|k: int|
                0 <= k < i ==> rule.ensures(
                    (snapshot@[prev(k, n as int)], snapshot@[next(k, n as int)]),
                    #[trigger] out@[k],
                ),
        decreases n - i,
    {
        let v = rule(snapshot[left_of(i, n)], snapshot[right_of(i, n)]);
        out.push(v);
        i += 1;
    }
    f.replace_values(out);
}

/// The centre whose contribution reaches position `j` first in a sweep from
/// the last centre down to the first: the larger of its two neighbours.
pub open spec fn first_in<T>(cs: Seq<(T, T)>, j: int) -> T {
    let n = cs.len() as int;
    let a = next(j, n);
    let b = prev(j, n);
    if a >= b {
        cs[a].0
    } else {
        cs[b].1
    }
}

/// The contribution that reaches position `j` second.
pub open spec fn second_in<T>(cs: Seq<(T, T)>, j: int) -> T {
    let n = cs.len() as int;
    let a = next(j, n);
    let b = prev(j, n);
    if a >= b {
        cs[b].1
    } else {
        cs[a].0
    }
}

/// One record of a reverse sweep over `y`: `cs[i]` is the pair that
/// `ad_rule` gave for centre `i` (to its left and to its right neighbour), and
/// each result `out[j]` is the zero accumulator with the two contributions
/// that reach `j` added in sweep order, `mids[j]` the sum after the first.
pub open spec fn adjoint_trace<T, F: Fn(T) -> (T, T), G: Fn(T, T) -> T>(
    ad_rule: F,
    plus: G,
    zero: T,
    y: Seq<T>,
    cs: Seq<(T, T)>,
    mids: Seq<T>,
    out: Seq<T>,
) -> bool {
    &&& cs.len() == y.len()
    &&& mids.len() == y.len()
    &&& out.len() == y.len()
    &&& forall|i: int| 0 <= i < y.len() ==> ad_rule.ensures((y[i],), #[trigger] cs[i])
    &&& forall|j: int|
        0 <= j < y.len() ==> plus.ensures((zero, first_in(cs, j)), #[trigger] mids[j])
            && plus.ensures((mids[j], second_in(cs, j)), out[j])
}

/// `out` is what the reverse sweep makes of `y`, for some choice of the
/// results that `ad_rule` and `plus` may give.
pub open spec fn adjoint_outcome<T, F: Fn(T) -> (T, T), G: Fn(T, T) -> T>(
    ad_rule: F,
    plus: G,
    zero: T,
    y: Seq<T>,
    out: Seq<T>,
) -> bool {
    exists|cs: Seq<(T, T)>, mids: Seq<T>| adjoint_trace(ad_rule, plus, zero, y, cs, mids, out)
}

/// The accumulator at `j` after the centres `c..n` have been swept.
spec fn slot_ok<T, G: Fn(T, T) -> T>(
    plus: G,
    zero: T,
    cs: Seq<(T, T)>,
    mids: Seq<T>,
    acc: Seq<T>,
    j: int,
    c: int,
) -> bool {
    let n = cs.len() as int;
    let a = next(j, n);
    let b = prev(j, n);
    let hi = if a >= b { a } else { b };
    let lo = if a >= b { b } else { a };
    if c > hi {
        acc[j] == zero
    } else if c > lo {
        acc[j] == mids[j] && plus.ensures((zero, first_in(cs, j)), mids[j])
    } else {
        plus.ensures((zero, first_in(cs, j)), mids[j]) && plus.ensures(
            (mids[j], second_in(cs, j)),
            acc[j],
        )
    }
}

/// The transpose of `apply_stencil_one` for a rule whose adjoint at a centre
/// is `ad_rule`: centres are visited from the last to the first; each reads
/// its own incoming value, adds the pair that `ad_rule` gives into a zeroed
/// accumulator at its left and right neighbours, and is then cleared.
/// The accumulator becomes the new state.
#[verifier::loop_isolation(false)]
pub fn ad_apply_stencil_one<T: Copy, F: Fn(T) -> (T, T), G: Fn(T, T) -> T>(
    f: &mut State<T>,
    ad_rule: F,
    plus: G,
    zero: T,
)
    requires
        old(f).values().len() >= 2,
        forall|i: int| 0 <= i < old(f).values().len() ==> ad_rule.requires((old(f).values()[i],)),
        forall|a: T, b: T| plus.requires((a, b)),
    ensures
        adjoint_outcome(ad_rule, plus, zero, old(f).values(), final(f).values()),
        final(f).values().len() == old(f).values().len(),
        final(f).names() == old(f).names(),
        final(f).named() == old(f).named(),
{
    let ghost y = f.values();
    let mut pending: Vec<T> = f.vec();
    let n: usize = pending.len();
    let mut acc: Vec<T> = Vec::new();
    let mut k: usize = 0;
    while k < n
        invariant
            0 <= k <= n,
            acc.len() == k,
            forall|m: int| 0 <= m < k ==> acc@[m] == zero,
        decreases n - k,
    {
        acc.push(zero);
        k += 1;
    }
    let ghost mut cs: Seq<(T, T)> = Seq::new(n as nat, |i: int| (zero, zero));
    let ghost mut mids: Seq<T> = Seq::new(n as nat, |i: int| zero);
    let mut c: usize = n;
    while c > 0
        invariant
            0 <= c <= n,
            n >= 2,
            y.len() == n,
            pending.len() == n,
            acc.len() == n,
            cs.len() == n,
            mids.len() == n,
            forall|m: int| 0 <= m < c ==> pending@[m] == y[m],
            forall|m: int| c <= m < n ==> ad_rule.ensures((y[m],), #[trigger] cs[m]),
            forall|j: int| 0 <= j < n ==> slot_ok(plus, zero, cs, mids, acc@, j, c as int),
        decreases c,
    {
        c -= 1;
        assert(ad_rule.requires((y[c as int],)));
        let (dl, dr) = ad_rule(pending[c]);
        let l = left_of(c, n);
        let r = right_of(c, n);
        let ghost acc0 = acc@;
        let ghost cs0 = cs;
        let ghost mids0 = mids;
        proof {
            cs = cs.update(c as int, (dl, dr));
        }
        let nl = plus(acc[l], dl);
        acc.set(l, nl);
        proof {
            if next(l as int, n as int) < prev(l as int, n as int) {
            } else {
                mids = mids.update(l as int, nl);
            }
        }
        let nr = plus(acc[r], dr);
        acc.set(r, nr);
        proof {
            if prev(r as int, n as int) < next(r as int, n as int) && r != l {
            } else if r != l {
                mids = mids.update(r as int, nr);
            }
        }
        pending.set(c, zero);
        proof {
            assert forall|j: int| 0 <= j < n implies slot_ok(plus, zero, cs, mids, acc@, j, c as int) by {
                assert(slot_ok(plus, zero, cs0, mids0, acc0, j, c + 1));
                if j != l && j != r {
                    assert(next(j, n as int) != c as int);
                    assert(prev(j, n as int) != c as int);
                }
            }
        }
    }
    proof {
        assert forall|j: int| 0 <= j < n implies plus.ensures((zero, first_in(cs, j)), #[trigger] mids[j])
            && plus.ensures((mids[j], second_in(cs, j)), acc@[j]) by {
            assert(slot_ok(plus, zero, cs, mids, acc@, j, 0));
        }
        assert(adjoint_trace(ad_rule, plus, zero, y, cs, mids, acc@));
    }
    f.replace_values(acc);
}

/// On a cycle of `n >= 2` positions, the neighbours of every position are
/// other positions of the cycle, and `prev` and `next` undo each other: each
/// position is the left neighbour of exactly one position and the right
/// neighbour of exactly one, so a sweep neither skips nor counts a neighbour
/// twice. From three positions on, the two neighbours are distinct; on two,
/// both neighbours are the one other position.
pub proof fn lemma_neighbours(n: int, i: int)
    requires
        n >= 2,
        0 <= i < n,
    ensures
        0 <= prev(i, n) < n,
        0 <= next(i, n) < n,
        prev(i, n) != i,
        next(i, n) != i,
        next(prev(i, n), n) == i,
        prev(next(i, n), n) == i,
        forall|j: int| 0 <= j < n && next(j, n) == i ==> j == prev(i, n),
        forall|j: int| 0 <= j < n && prev(j, n) == i ==> j == next(i, n),
        n >= 3 ==> prev(i, n) != next(i, n),
        n == 2 ==> prev(i, n) == next(i, n),
{
}

/// The reverse sweep of a state that is zero everywhere is zero everywhere,
/// when the adjoint rule sends zero to a pair of zeros and zero plus zero is
/// zero: sweeping an already cleared accumulator adds nothing.
pub proof fn lemma_adjoint_of_zero<T, F: Fn(T) -> (T, T), G: Fn(T, T) -> T>(
    ad_rule: F,
    plus: G,
    zero: T,
    y: Seq<T>,
    out: Seq<T>,
)
    requires
        y.len() >= 2,
        adjoint_outcome(ad_rule, plus, zero, y, out),
        forall|i: int| 0 <= i < y.len() ==> y[i] == zero,
        forall|d: (T, T)| #[trigger] ad_rule.ensures((zero,), d) ==> d == (zero, zero),
        forall|t: T| #[trigger] plus.ensures((zero, zero), t) ==> t == zero,
    ensures
        out.len() == y.len(),
        forall|i: int| 0 <= i < out.len() ==> out[i] == zero,
{
    let n = y.len() as int;
    let (cs, mids) = choose|cs: Seq<(T, T)>, mids: Seq<T>|
        adjoint_trace(ad_rule, plus, zero, y, cs, mids, out);
    assert forall|j: int| 0 <= j < n implies out[j] == zero by {
        let a = next(j, n);
        let b = prev(j, n);
        assert(ad_rule.ensures((y[a],), cs[a]));
        assert(ad_rule.ensures((y[b],), cs[b]));
        assert(plus.ensures((zero, first_in(cs, j)), mids[j]));
        assert(plus.ensures((mids[j], second_in(cs, j)), out[j]));
    }
}

} // verus!
