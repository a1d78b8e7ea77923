use vstd::prelude::*;

verus! {

/// Hard cap on the balance of the reserve holding.
pub const MAX_RESERVE_TOKEN_AMOUNT: u64 = 10_000_000;

/// Largest principal a single depositor may lock.
pub const MAX_USER_DEPOSIT: u64 = 100_000;

/// Interest per second, in tenths of a basis point (35 is 0.00035%).
pub const INTEREST_RATE_TENTHBPS: u64 = 35;

/// Denominator of the rate: a rate of `r` tenths of a basis point grows an
/// amount by `r / RATE_DENOMINATOR` each second.
pub const RATE_DENOMINATOR: u64 = 100_000;

} // verus!
