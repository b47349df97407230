//! Errors of the virtual machine and of the checks that precede it.
use vstd::prelude::*;

verus! {

/// Why an instruction, or a whole message, did not complete.
#[derive(Clone, Copy, Debug, PartialEq, Eq, Structural)]
pub enum XcmError {
    Overflow,
    Unimplemented,
    UntrustedReserveLocation,
    UntrustedTeleportLocation,
    LocationFull,
    LocationNotInvertible,
    BadOrigin,
    InvalidLocation,
    AssetNotFound,
    FailedToTransactAsset,
    NotWithdrawable,
    LocationCannotHold,
    ExceedsMaxMessageSize,
    DestinationUnsupported,
    Transport,
    Unroutable,
    UnknownClaim,
    FailedToDecode,
    MaxWeightInvalid,
    NotHoldingFees,
    TooExpensive,
    Trap(u64),
    ExpectationFalse,
    Barrier,
    WeightLimitReached,
    WeightNotComputable,
    NoPermission,
    Unanchored,
}

/// Why an admission check turned a message away.
#[derive(Clone, Copy, Debug, PartialEq, Eq, Structural)]
pub enum ProcessMessageError {
    BadFormat,
    Corrupt,
    Unsupported,
    Overweight,
    Yield,
    StackLimitReached,
}

} // verus!
