//! Named state vectors, a cyclic neighbour stencil engine with its reverse
//! sweep adjoint, and the facts that tie the two sweeps together.

pub mod state;
pub mod stencil;
pub mod duality;
pub mod harness;
