//! Time-weighted continuous token sale engine with a companion
//! linear-vesting claim engine.
//!
//! Sales stream an in-token from subscribers against a pro-rata,
//! time-weighted stream of out-tokens; a treasury collects protocol fees
//! and tracks the native token's vesting and burn; a lockup engine pays
//! out cliff + linear allocations with idempotent claims.

use vstd::prelude::*;

pub mod account;
pub mod arith;
pub mod engine;
pub mod errors;
pub mod idmap;
pub mod lockup;
pub mod permissions;
pub mod sale;
pub mod sub;
pub mod token_swap;
pub mod treasury;
pub mod u256;

verus! {

/// Balances are 128-bit unsigned integers.
pub type Balance = u128;

/// Accounts and tokens are named by opaque, equality-comparable ids.
pub type AccountId = u64;

/// A token id is an account id of the token's own contract.
pub type TokenAccountId = u64;

/// Timestamps and durations are nanoseconds.
pub type Timestamp = u64;

/// Timestamps in whole seconds, as the vesting tables store them.
pub type TimestampSec = u32;

/// Scale of the per-share accumulators.
pub const MULTIPLIER: u128 = 100_000_000_000_000_000_000_000_000_000_000_000_000;

/// The treasury takes 1/100 of distributed amounts as its fee.
pub const TREASURY_FEE_DENOMINATOR: Balance = 100;

/// A claim of a native out-token diverts 1/100 to the referral.
pub const REFERRAL_FEE_DENOMINATOR: Balance = 100;

/// A spawned companion sale sells 1/10 of each allocation.
pub const IN_SKYWARD_DENOMINATOR: Balance = 10;

pub const MAX_NUM_OUT_TOKENS: usize = 4;

pub const MAX_TITLE_LENGTH: usize = 250;

pub const MAX_URL_LENGTH: usize = 250;

/// A sale must start at least 7 days after it is created.
pub const MIN_DURATION_BEFORE_START: Timestamp = 7 * 24 * 60 * 60 * 1_000_000_000;

/// A sale must start within 365 days of its creation.
pub const MAX_DURATION_BEFORE_START: Timestamp = 365 * 24 * 60 * 60 * 1_000_000_000;

pub const MAX_DURATION: Timestamp = 4 * 366 * 24 * 60 * 60 * 1_000_000_000;

/// One nanosecond, which allows a degenerate instant auction.
pub const MIN_DURATION: Timestamp = 1;

/// Nanoseconds in a second.
pub const NANOS_PER_SEC: u64 = 1_000_000_000;

/// Converts a timestamp in seconds to nanoseconds.
pub fn to_nano(timestamp: TimestampSec) -> (r: Timestamp)
    ensures
        r == timestamp * NANOS_PER_SEC,
{
    (timestamp as u64) * NANOS_PER_SEC
}

} // verus!
