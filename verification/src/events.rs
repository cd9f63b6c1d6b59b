//! Notification records returned by successful mutating operations.
//!
//! Each record carries the identities and amounts of the operation together
//! with the caller-supplied timestamp. Events are outbound only: the ledgers
//! never read them back.

use vstd::prelude::*;

verus! {

/// A participant contributed to the presale.
#[derive(Clone, Copy, Debug, PartialEq, Eq, Structural)]
pub struct Contribution {
    pub contributor: u64,
    pub amount: u64,
    pub timestamp: u64,
}

/// A user was bound to a tier (or a tier's cap now applies to them).
#[derive(Clone, Copy, Debug, PartialEq, Eq, Structural)]
pub struct UserLimitSet {
    pub user: u64,
    pub max_contribution: u64,
    pub timestamp: u64,
}

/// The presale was closed.
#[derive(Clone, Copy, Debug, PartialEq, Eq, Structural)]
pub struct PresaleClosed {
    pub timestamp: u64,
    pub refunds_allowed: bool,
}

/// The custodied funds were released to the owner.
#[derive(Clone, Copy, Debug, PartialEq, Eq, Structural)]
pub struct FundsWithdrawn {
    pub amount: u64,
    pub timestamp: u64,
}

/// A participant's contribution was returned.
#[derive(Clone, Copy, Debug, PartialEq, Eq, Structural)]
pub struct Refund {
    pub contributor: u64,
    pub amount: u64,
    pub timestamp: u64,
}

/// A user was removed from the whitelist.
#[derive(Clone, Copy, Debug, PartialEq, Eq, Structural)]
pub struct UserRemoved {
    pub user: u64,
    pub timestamp: u64,
}

/// The minimum contribution changed.
#[derive(Clone, Copy, Debug, PartialEq, Eq, Structural)]
pub struct MinContributionUpdated {
    pub new_min_contribution: u64,
    pub timestamp: u64,
}

/// The hard cap changed.
#[derive(Clone, Copy, Debug, PartialEq, Eq, Structural)]
pub struct HardCapUpdated {
    pub new_hard_cap: u64,
    pub timestamp: u64,
}

/// The presale was paused.
#[derive(Clone, Copy, Debug, PartialEq, Eq, Structural)]
pub struct PresalePaused {
    pub timestamp: u64,
}

/// The presale was unpaused.
#[derive(Clone, Copy, Debug, PartialEq, Eq, Structural)]
pub struct PresaleUnpaused {
    pub timestamp: u64,
}

/// Notification emitted by the distribution ledger's operations.
#[derive(Clone, Copy, Debug, PartialEq, Eq, Structural)]
pub enum DistributionEvent {
    Initialized { owner: u64, max_batch_size: u64 },
    TokenUpdated { token_mint: u64 },
    ContributionsUpdated,
    AllocationsCalculated { total_raised: u64 },
    ClaimsOpened,
    Paused,
    Unpaused,
    Claimed { user: u64, amount: u64 },
}

} // verus!
