//! Error kinds returned by the two ledgers.
//!
//! Every failing operation reports exactly one of these kinds and leaves the
//! ledger unchanged. A single `Overflow` kind covers all checked-arithmetic
//! failures.

use vstd::prelude::*;

verus! {

/// Failures of the presale ledger's operations.
#[derive(Clone, Copy, Debug, PartialEq, Eq, Structural)]
pub enum PresaleError {
    /// Caller is not the recorded owner.
    NotOwner,
    /// Presale is not active.
    PresaleNotActive,
    /// Presale is closed.
    PresaleClosed,
    /// User is not whitelisted.
    UserNotWhitelisted,
    /// Tier does not exist.
    TierDoesNotExist,
    /// Contribution would exceed the hard cap.
    ExceedsHardCap,
    /// Cumulative contribution below the minimum.
    BelowMinContribution,
    /// Cumulative contribution above the tier's cap.
    AboveMaxContribution,
    /// Tier name and cap arrays differ in length.
    TierDataMismatch,
    /// Tier already exists under its normalized name.
    TierAlreadyExists,
    /// Numbers of users and tiers do not match.
    MismatchUsersTiers,
    /// User is already whitelisted.
    UserAlreadyWhitelisted,
    /// No funds held in custody to withdraw.
    NoFundsToWithdraw,
    /// Presale must be closed first.
    PresaleNotClosed,
    /// Refunds are not allowed.
    RefundsNotAllowed,
    /// No contribution recorded to refund.
    NoContributionsToRefund,
    /// Participant was already refunded.
    AlreadyRefunded,
    /// Minimum contribution must be positive.
    InvalidMinContribution,
    /// Hard cap must be positive.
    InvalidHardCap,
    /// Registry already holds the maximum number of tiers.
    ExceedsMaxTiers,
    /// Whitelist already holds the maximum number of users.
    ExceedsMaxUsers,
    /// Batch larger than the bulk-assign limit.
    ExceedsBulkAssignLimit,
    /// Checked arithmetic could not represent the result.
    Overflow,
    /// User's current contribution does not fit the new tier's cap.
    ExceedsNewTierMaxContribution,
    /// Tier name exceeds the maximum allowed length.
    TierNameTooLong,
    /// Presale is already paused.
    PresaleAlreadyPaused,
    /// Presale is not paused.
    PresaleNotPaused,
    /// Presale is paused.
    PresalePaused,
    /// Tier name holds a character outside letters, digits and underscore.
    InvalidTierNameFormat,
    /// Hard cap must be at least the current total of contributions.
    HardCapLessThanTotal,
    /// Hard cap must cover the sum of the tier caps.
    HardCapLessThanTierMax,
    /// Tier cap must be positive.
    InvalidMaxContribution,
    /// Presale is already closed.
    PresaleAlreadyClosed,
}

/// Failures of the distribution ledger's operations.
#[derive(Clone, Copy, Debug, PartialEq, Eq, Structural)]
pub enum DistributionError {
    /// Caller is not the recorded owner.
    NotOwner,
    /// Ledger is paused.
    ContractPaused,
    /// Claim period is already open.
    ClaimPeriodActive,
    /// Allocations were already calculated.
    AllocationAlreadyCalculated,
    /// Allocations have not been calculated yet.
    AllocationNotCalculated,
    /// Ledger is not paused.
    ContractNotPaused,
    /// Token identifier is unset or the null identifier.
    InvalidTokenMint,
    /// Batch size bound must be positive.
    InvalidBatchSize,
    /// Users and amounts arrays differ in length.
    ArrayLengthMismatch,
    /// Batch larger than the configured bound.
    BatchTooLarge,
    /// The same user appears twice in one batch.
    DuplicateContributor,
    /// A contribution amount of zero was supplied.
    InvalidAmount,
    /// No contributions recorded.
    NoContributions,
    /// No token balance available to distribute.
    NoTokenBalance,
    /// Checked arithmetic could not represent the result.
    Overflow,
    /// Claiming is not enabled.
    ClaimingNotEnabled,
    /// Claim period is not open.
    ClaimPeriodClosed,
    /// Caller has no contributor record.
    NotContributor,
    /// Caller's allocation is zero.
    NothingToClaim,
}

} // verus!
