//! The ways in which the codec and the adapter fail. None is retried.

use vstd::prelude::*;

verus! {

/// What went wrong. Every failure is fatal to the computation at hand.
#[derive(Clone, Debug, PartialEq, Eq)]
pub enum WitnessError {
    /// The module has no export of this name, and the operation needs it.
    MissingExport { name: String },
    /// The export trapped, or gave back what its signature does not allow.
    ForeignCallFailure { export: String, args: Vec<u32> },
    /// A read or a write would leave the region.
    MemoryBoundsFailure,
    /// The value is one that the long form does not hold: it is negative, or
    /// wider than the digits of long storage.
    EncodingLimitation,
    /// The codec was asked for a field or a region that it cannot serve, or
    /// the adapter to call a function that is not of its store.
    InvalidConfiguration,
}

} // verus!
