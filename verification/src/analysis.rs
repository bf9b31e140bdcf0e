//! The analyses of the checker.
pub mod type_analysis;

use vstd::prelude::*;

verus! {

/// Access to the intra-procedural flow context `C` of an analysis.
pub trait IcxMut<C> {
    fn icx(&self) -> &C;

    fn icx_mut(&mut self) -> &mut C;
}

/// Access to the flow context `S` of one slice of blocks of an analysis.
pub trait IcxSliceMut<S> {
    fn icx_slice(&self) -> &S;

    fn icx_slice_mut(&mut self) -> &mut S;
}

} // verus!
