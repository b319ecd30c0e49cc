use vstd::prelude::*;
use crate::state::State;

verus! {

/// The two operator applications of the dot-product test. The forward
/// operator runs on an independent copy of `x`, which itself stays as it is;
/// the adjoint operator runs on a copy of that result. Returns `(M x, M^T M x)`,
/// from which the caller forms `<M x, M x>` and `<M^T M x, x>`. Both inner
/// products run over every component, so coefficients that the operators
/// only read take part too: the caller keeps them at values that leave the
/// two sums comparable.
pub fn forward_then_adjoint<T: Copy, F: Fn(State<T>) -> State<T>, A: Fn(State<T>) -> State<T>>(
    x: &State<T>,
    forward: F,
    adjoint: A,
) -> (r: (State<T>, State<T>))
    requires
        forall|s: State<T>| forward.requires((s,)),
        forall|s: State<T>| adjoint.requires((s,)),
    ensures
        exists|c: State<T>| c.same_as(x) && #[trigger] forward.ensures((c,), r.0),
        exists|c: State<T>| c.same_as(&r.0) && #[trigger] adjoint.ensures((c,), r.1),
{
    let y_in = x.duplicate();
    let ghost gy = y_in;
    let y = forward(y_in);
    let z_in = y.duplicate();
    let ghost gz = z_in;
    let z = adjoint(z_in);
    assert(gy.same_as(x) && forward.ensures((gy,), y));
    assert(gz.same_as(&y) && adjoint.ensures((gz,), z));
    let r = (y, z);
    assert(forward.ensures((gy,), r.0));
    assert(adjoint.ensures((gz,), r.1));
    assert(gz.same_as(&r.0));
    r
}

} // verus!
