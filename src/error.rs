use vstd::prelude::*;

verus! {

/// Why an operation was rejected. A rejected operation changes no state.
#[derive(Clone, Copy, Debug, PartialEq, Eq, Structural)]
pub enum StakingError {
    /// The user pool does not belong to the caller.
    InvalidUserPool,
    /// The registry is already at its fixed capacity.
    CapacityExceeded,
    /// An index hint is not below the number of live entries.
    IndexOutOfRange,
    /// The entry at the given index holds another token.
    AddressMismatch,
    /// The entry or account belongs to another owner.
    OwnerMismatch,
    /// No live entry holds the requested token.
    NotFound,
    /// The minimum holding period has not yet elapsed.
    InvalidWithdrawTime,
    /// The current time lies before the time reward is counted from.
    ClockRegression,
    /// An amount or a counter does not fit its integer type.
    ArithmeticOverflow,
}

} // verus!
