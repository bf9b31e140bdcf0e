use vstd::prelude::*;
use vstd::string::StringExecFns;

verus! {

/// How fine-grained the analysis is asked to be.
#[derive(Debug, Copy, Clone, Hash, PartialEq, Eq, PartialOrd, Ord, Structural)]
pub enum RlcGrain {
    Low,
    Medium,
    High,
    Ultra,
}

/// The rank of a grain: `Low` is 0 and `Ultra` is 3.
pub open spec fn grain_rank(g: RlcGrain) -> nat {
    match g {
        RlcGrain::Low => 0,
        RlcGrain::Medium => 1,
        RlcGrain::High => 2,
        RlcGrain::Ultra => 3,
    }
}

impl RlcGrain {
    /// The numeric level of the grain, which orders the grains.
    pub fn level(&self) -> (r: u8)
        ensures
            r as nat == grain_rank(*self),
    {
        match self {
            RlcGrain::Low => 0,
            RlcGrain::Medium => 1,
            RlcGrain::High => 2,
            RlcGrain::Ultra => 3,
        }
    }
}


/// The text a grain is shown as.
pub open spec fn grain_text(g: RlcGrain) -> Seq<char> {
    match g {
        RlcGrain::Ultra => "Ultra"@,
        RlcGrain::High => "High"@,
        RlcGrain::Medium => "Medium"@,
        RlcGrain::Low => "Low,"@,
    }
}

impl RlcGrain {
    /// The text the grain is shown as.
    pub fn to_display_string(&self) -> (r: String)
        ensures
            r@ == grain_text(*self),
    {
        match self {
            RlcGrain::Ultra => String::from_str("Ultra"),
            RlcGrain::High => String::from_str("High"),
            RlcGrain::Medium => String::from_str("Medium"),
            RlcGrain::Low => String::from_str("Low,"),
        }
    }
}

} // verus!
