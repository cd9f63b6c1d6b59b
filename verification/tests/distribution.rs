use presale_ledger::distribution::{Contributor, DistributionState};
use presale_ledger::errors::DistributionError;
use presale_ledger::events::DistributionEvent;

const OWNER: u64 = 1;
const TOKEN: u64 = 9;
const X: u64 = 200;
const Y: u64 = 201;
const Z: u64 = 202;

fn ledger() -> DistributionState {
    let (mut s, ev) = DistributionState::initialize_distribution(OWNER, 16).unwrap();
    assert_eq!(ev, DistributionEvent::Initialized { owner: OWNER, max_batch_size: 16 });
    s.set_token(OWNER, TOKEN).unwrap();
    s
}

#[test]
fn initialize_requires_positive_batch_size() {
    assert_eq!(
        DistributionState::initialize_distribution(OWNER, 0).err(),
        Some(DistributionError::InvalidBatchSize)
    );
}

#[test]
fn pro_rata_allocation_of_small_pool() {
    // Contributions 300 and 700 of a 1000 total share 50 tokens 15/35.
    let mut s = ledger();
    s.batch_set_contributions(OWNER, vec![X, Y], vec![300, 700]).unwrap();
    assert_eq!(s.total_raised, 1000);
    s.calculate_allocations(OWNER, 50).unwrap();
    assert!(s.allocation_calculated);
    assert_eq!(s.contributors[0], Contributor { user: X, contribution: 300, allocation: 15 });
    assert_eq!(s.contributors[1], Contributor { user: Y, contribution: 700, allocation: 35 });
    let total: u64 = s.contributors.iter().map(|c| c.allocation).sum();
    assert_eq!(total, 50);
}

#[test]
fn rounding_dust_stays_in_pool() {
    // Three equal contributions share 10 tokens; each gets floor(10/3) = 3
    // and one token of dust stays unclaimed.
    let mut s = ledger();
    s.batch_set_contributions(OWNER, vec![X, Y, Z], vec![1, 1, 1]).unwrap();
    s.calculate_allocations(OWNER, 10).unwrap();
    for c in s.contributors.iter() {
        assert_eq!(c.allocation, 3);
    }
    let total: u64 = s.contributors.iter().map(|c| c.allocation).sum();
    assert_eq!(total, 9);
}

#[test]
fn batch_set_replaces_instead_of_adding() {
    // Setting 100 and then 60 for the same user keeps 60, not 160.
    let mut s = ledger();
    s.batch_set_contributions(OWNER, vec![X], vec![100]).unwrap();
    s.batch_set_contributions(OWNER, vec![X], vec![60]).unwrap();
    assert_eq!(s.contributors.len(), 1);
    assert_eq!(s.contributors[0].contribution, 60);
    assert_eq!(s.total_raised, 60);
}

#[test]
fn batch_set_mixes_updates_and_appends() {
    let mut s = ledger();
    s.batch_set_contributions(OWNER, vec![X, Y], vec![100, 200]).unwrap();
    s.batch_set_contributions(OWNER, vec![Y, Z], vec![50, 25]).unwrap();
    assert_eq!(s.total_raised, 175);
    assert_eq!(s.contributors[0].contribution, 100);
    assert_eq!(s.contributors[1].contribution, 50);
    assert_eq!(s.contributors[2], Contributor { user: Z, contribution: 25, allocation: 0 });
}

#[test]
fn batch_set_validations() {
    let mut s = ledger();
    assert_eq!(
        s.batch_set_contributions(X, vec![X], vec![1]),
        Err(DistributionError::NotOwner)
    );
    assert_eq!(
        s.batch_set_contributions(OWNER, vec![X, Y], vec![1]),
        Err(DistributionError::ArrayLengthMismatch)
    );
    let many: Vec<u64> = (0..17).collect();
    let amounts: Vec<u64> = vec![1; 17];
    assert_eq!(
        s.batch_set_contributions(OWNER, many, amounts),
        Err(DistributionError::BatchTooLarge)
    );
    assert_eq!(
        s.batch_set_contributions(OWNER, vec![X, X], vec![1, 2]),
        Err(DistributionError::DuplicateContributor)
    );
    assert_eq!(
        s.batch_set_contributions(OWNER, vec![X], vec![0]),
        Err(DistributionError::InvalidAmount)
    );
    assert!(s.contributors.is_empty());
    assert_eq!(s.total_raised, 0);
}

#[test]
fn batch_set_overflow_is_atomic() {
    let mut s = ledger();
    s.batch_set_contributions(OWNER, vec![X], vec![u64::MAX]).unwrap();
    assert_eq!(
        s.batch_set_contributions(OWNER, vec![Y], vec![1]),
        Err(DistributionError::Overflow)
    );
    assert_eq!(s.contributors.len(), 1);
    assert_eq!(s.total_raised, u64::MAX);
}

#[test]
fn batch_set_rejected_after_allocation() {
    let mut s = ledger();
    s.batch_set_contributions(OWNER, vec![X], vec![10]).unwrap();
    s.calculate_allocations(OWNER, 100).unwrap();
    assert_eq!(
        s.batch_set_contributions(OWNER, vec![Y], vec![10]),
        Err(DistributionError::AllocationAlreadyCalculated)
    );
}

#[test]
fn set_token_validations() {
    let (mut s, _) = DistributionState::initialize_distribution(OWNER, 4).unwrap();
    assert_eq!(s.set_token(X, TOKEN), Err(DistributionError::NotOwner));
    assert_eq!(s.set_token(OWNER, 0), Err(DistributionError::InvalidTokenMint));
    s.set_token(OWNER, TOKEN).unwrap();
    assert_eq!(s.token_mint, TOKEN);
    s.claim_period_open = true;
    assert_eq!(s.set_token(OWNER, TOKEN), Err(DistributionError::ClaimPeriodActive));
    s.claim_period_open = false;
    s.allocation_calculated = true;
    assert_eq!(
        s.set_token(OWNER, TOKEN),
        Err(DistributionError::AllocationAlreadyCalculated)
    );
}

#[test]
fn calculate_allocations_validations() {
    let (mut s, _) = DistributionState::initialize_distribution(OWNER, 4).unwrap();
    assert_eq!(s.calculate_allocations(X, 10), Err(DistributionError::NotOwner));
    assert_eq!(
        s.calculate_allocations(OWNER, 10),
        Err(DistributionError::InvalidTokenMint)
    );
    s.set_token(OWNER, TOKEN).unwrap();
    assert_eq!(
        s.calculate_allocations(OWNER, 10),
        Err(DistributionError::NoContributions)
    );
    s.batch_set_contributions(OWNER, vec![X], vec![10]).unwrap();
    assert_eq!(
        s.calculate_allocations(OWNER, 0),
        Err(DistributionError::NoTokenBalance)
    );
    s.calculate_allocations(OWNER, 10).unwrap();
    assert_eq!(
        s.calculate_allocations(OWNER, 10),
        Err(DistributionError::AllocationAlreadyCalculated)
    );
}

#[test]
fn allocation_reads_balance_once() {
    // The computed allocations depend only on the balance handed in at
    // calculation time: a different later balance changes nothing.
    let mut s = ledger();
    s.batch_set_contributions(OWNER, vec![X], vec![10]).unwrap();
    s.calculate_allocations(OWNER, 40).unwrap();
    assert_eq!(s.contributors[0].allocation, 40);
    assert_eq!(
        s.calculate_allocations(OWNER, 9999),
        Err(DistributionError::AllocationAlreadyCalculated)
    );
    assert_eq!(s.contributors[0].allocation, 40);
}

#[test]
fn claim_is_one_shot() {
    let mut s = ledger();
    s.batch_set_contributions(OWNER, vec![X, Y], vec![300, 700]).unwrap();
    s.calculate_allocations(OWNER, 50).unwrap();
    s.enable_claims(OWNER).unwrap();

    let ev = s.claim(X).unwrap();
    assert_eq!(ev, DistributionEvent::Claimed { user: X, amount: 15 });
    assert_eq!(s.contributors[0].allocation, 0);
    assert_eq!(s.claim(X), Err(DistributionError::NothingToClaim));
    // The other contributor's claim is untouched.
    let ev = s.claim(Y).unwrap();
    assert_eq!(ev, DistributionEvent::Claimed { user: Y, amount: 35 });
}

#[test]
fn claim_validations() {
    let mut s = ledger();
    s.batch_set_contributions(OWNER, vec![X], vec![10]).unwrap();
    assert_eq!(s.claim(X), Err(DistributionError::ClaimingNotEnabled));
    s.calculate_allocations(OWNER, 10).unwrap();
    s.enable_claims(OWNER).unwrap();
    assert_eq!(s.claim(Y), Err(DistributionError::NotContributor));
    s.claim_period_open = false;
    assert_eq!(s.claim(X), Err(DistributionError::ClaimPeriodClosed));
    s.claim_period_open = true;
    s.pause(OWNER).unwrap();
    assert_eq!(s.claim(X), Err(DistributionError::ContractPaused));
}

#[test]
fn enable_claims_needs_allocations() {
    let mut s = ledger();
    assert_eq!(s.enable_claims(X), Err(DistributionError::NotOwner));
    assert_eq!(
        s.enable_claims(OWNER),
        Err(DistributionError::AllocationNotCalculated)
    );
    s.batch_set_contributions(OWNER, vec![X], vec![10]).unwrap();
    s.calculate_allocations(OWNER, 10).unwrap();
    s.enable_claims(OWNER).unwrap();
    assert!(s.claim_enabled);
    assert!(s.claim_period_open);
}

#[test]
fn pause_gates_operations() {
    let mut s = ledger();
    assert_eq!(s.unpause(OWNER), Err(DistributionError::ContractNotPaused));
    s.pause(OWNER).unwrap();
    assert_eq!(s.pause(OWNER), Err(DistributionError::ContractPaused));
    assert_eq!(
        s.batch_set_contributions(OWNER, vec![X], vec![10]),
        Err(DistributionError::ContractPaused)
    );
    assert_eq!(
        s.calculate_allocations(OWNER, 10),
        Err(DistributionError::ContractPaused)
    );
    assert_eq!(s.enable_claims(OWNER), Err(DistributionError::ContractPaused));
    s.unpause(OWNER).unwrap();
    s.batch_set_contributions(OWNER, vec![X], vec![10]).unwrap();
}

#[test]
fn large_values_use_widened_arithmetic() {
    // A contribution and token balance near the 64-bit limit still allocate
    // exactly, because the product is taken on a widened intermediate.
    let mut s = ledger();
    let big = u64::MAX / 2;
    s.batch_set_contributions(OWNER, vec![X, Y], vec![big, big]).unwrap();
    s.calculate_allocations(OWNER, u64::MAX).unwrap();
    let a0 = s.contributors[0].allocation;
    let a1 = s.contributors[1].allocation;
    assert_eq!(a0, a1);
    assert!(a0 as u128 + a1 as u128 <= u64::MAX as u128);
    // Each share is half of the pool, up to rounding.
    let expected = ((big as u128) * (u64::MAX as u128) / ((2 * big) as u128)) as u64;
    assert_eq!(a0, expected);
}
