use vstd::prelude::*;

use crate::ty::Ty;

verus! {

/// Whether values of an ADT (variant) directly hold a heap allocation.
#[derive(Copy, Clone, Debug, Eq, PartialEq, Hash, Structural)]
pub enum RawTypeOwner {
    Owned,
    Unowned,
    Uninit,
}

impl Default for RawTypeOwner {
    fn default() -> (r: Self)
        ensures
            r == RawTypeOwner::Uninit,
    {
        RawTypeOwner::Uninit
    }
}

impl RawTypeOwner {
    /// Whether this is `Owned`.
    pub fn is_owned(&self) -> (r: bool)
        ensures
            r == (*self == RawTypeOwner::Owned),
    {
        match self {
            RawTypeOwner::Owned => true,
            RawTypeOwner::Unowned => false,
            RawTypeOwner::Uninit => false,
        }
    }
}

/// The ownership of a type: owned through a given type, or not owned.
pub enum TypeOwner {
    Owned(Ty),
    Unowned,
}

} // verus!
