use presale_ledger::errors::PresaleError;
use presale_ledger::names::{normalize_tier_name, validate_tier_name};
use presale_ledger::presale::{Presale, RefundRecord, TierTotal, WhitelistEntry};

const OWNER: u64 = 1;
const MINT: u64 = 7;
const ALICE: u64 = 100;
const BOB: u64 = 101;
const NOW: u64 = 1_700_000_000;

fn names(list: &[&str]) -> Vec<String> {
    list.iter().map(|s| s.to_string()).collect()
}

fn two_tier_sale() -> Presale {
    // Tiers gold: 1000, silver: 500; hard cap 1500; minimum 10.
    Presale::initialize(OWNER, MINT, names(&["gold", "silver"]), vec![1000, 500], 10, 1500)
        .unwrap()
}

#[test]
fn tier_caps_enforced_per_user() {
    let mut p = two_tier_sale();
    p.assign_tier(OWNER, ALICE, "gold".to_string(), NOW).unwrap();
    p.assign_tier(OWNER, BOB, "silver".to_string(), NOW).unwrap();

    let ev = p.contribute(ALICE, 400, NOW).unwrap();
    assert_eq!(ev.contributor, ALICE);
    assert_eq!(ev.amount, 400);
    p.contribute(ALICE, 400, NOW).unwrap();
    assert_eq!(p.contributions[0].amount, 800);

    assert_eq!(p.contribute(BOB, 600, NOW), Err(PresaleError::AboveMaxContribution));
    assert_eq!(p.total_contributions, 800);
}

#[test]
fn hard_cap_enforced_on_total() {
    let mut p =
        Presale::initialize(OWNER, MINT, names(&["gold"]), vec![1000], 10, 1000).unwrap();
    p.assign_tier(OWNER, ALICE, "gold".to_string(), NOW).unwrap();
    p.assign_tier(OWNER, BOB, "gold".to_string(), NOW).unwrap();
    p.contribute(ALICE, 900, NOW).unwrap();

    assert_eq!(p.contribute(BOB, 150, NOW), Err(PresaleError::ExceedsHardCap));
    p.contribute(BOB, 100, NOW).unwrap();
    assert_eq!(p.total_contributions, 1000);
}

#[test]
fn total_matches_sum_of_records() {
    let mut p = two_tier_sale();
    p.assign_tier(OWNER, ALICE, "gold".to_string(), NOW).unwrap();
    p.assign_tier(OWNER, BOB, "silver".to_string(), NOW).unwrap();
    p.contribute(ALICE, 250, NOW).unwrap();
    p.contribute(BOB, 125, NOW).unwrap();
    p.contribute(ALICE, 50, NOW).unwrap();
    let sum: u64 = p.contributions.iter().map(|e| e.amount).sum();
    assert_eq!(sum, p.total_contributions);
    assert_eq!(p.total_contributions, 425);
    assert_eq!(p.contributors, vec![ALICE, BOB]);
}

#[test]
fn refund_is_one_shot() {
    let mut p = two_tier_sale();
    p.assign_tier(OWNER, ALICE, "gold".to_string(), NOW).unwrap();
    p.contribute(ALICE, 400, NOW).unwrap();
    p.close_presale(OWNER, true, NOW).unwrap();

    let ev = p.refund(ALICE, NOW).unwrap();
    assert_eq!(ev.contributor, ALICE);
    assert_eq!(ev.amount, 400);
    assert_eq!(p.contributions[0].amount, 0);
    assert_eq!(p.total_contributions, 0);

    assert_eq!(p.refund(ALICE, NOW), Err(PresaleError::AlreadyRefunded));
}

#[test]
fn refund_requires_refundable_close() {
    let mut p = two_tier_sale();
    p.assign_tier(OWNER, ALICE, "gold".to_string(), NOW).unwrap();
    p.contribute(ALICE, 400, NOW).unwrap();
    assert_eq!(p.refund(ALICE, NOW), Err(PresaleError::PresaleNotClosed));
    p.close_presale(OWNER, false, NOW).unwrap();
    assert_eq!(p.refund(ALICE, NOW), Err(PresaleError::RefundsNotAllowed));
}

#[test]
fn refund_without_contribution_is_rejected() {
    let mut p = two_tier_sale();
    p.assign_tier(OWNER, ALICE, "gold".to_string(), NOW).unwrap();
    p.close_presale(OWNER, true, NOW).unwrap();
    assert_eq!(p.refund(ALICE, NOW), Err(PresaleError::NoContributionsToRefund));
}

#[test]
fn names_are_normalized_for_lookup() {
    // The stored key is the trimmed, case-folded name, so any casing and
    // padding of the same name reaches the same tier.
    let mut p =
        Presale::initialize(OWNER, MINT, names(&[" Gold "]), vec![1000], 10, 1000).unwrap();
    assert_eq!(p.tiers[0].name, "gold");
    p.assign_tier(OWNER, ALICE, "GOLD".to_string(), NOW).unwrap();
    assert_eq!(p.whitelist[0].tier_name, "gold");
    p.contribute(ALICE, 50, NOW).unwrap();
    assert_eq!(
        p.assign_tier(OWNER, BOB, "gold  ".to_string(), NOW).unwrap().max_contribution,
        1000
    );
}

#[test]
fn normalize_tier_name_folds_and_trims() {
    assert_eq!(normalize_tier_name("  GoLd\t"), "gold");
    assert_eq!(normalize_tier_name("silver"), "silver");
    assert_eq!(normalize_tier_name(""), "");
}

#[test]
fn tier_name_format_is_validated() {
    assert_eq!(validate_tier_name("gold_2"), Ok(()));
    assert_eq!(validate_tier_name("GOLD"), Ok(()));
    assert_eq!(validate_tier_name("bad name"), Err(PresaleError::InvalidTierNameFormat));
    assert_eq!(validate_tier_name("gold-2"), Err(PresaleError::InvalidTierNameFormat));
    let mut p = two_tier_sale();
    assert_eq!(
        p.create_tier(OWNER, "no spaces".to_string(), 10, NOW),
        Err(PresaleError::InvalidTierNameFormat)
    );
}

#[test]
fn create_tier_validations() {
    let mut p = two_tier_sale();
    assert_eq!(
        p.create_tier(BOB, "bronze".to_string(), 10, NOW),
        Err(PresaleError::NotOwner)
    );
    assert_eq!(
        p.create_tier(OWNER, "a".repeat(33), 10, NOW),
        Err(PresaleError::TierNameTooLong)
    );
    assert_eq!(
        p.create_tier(OWNER, "bronze".to_string(), 0, NOW),
        Err(PresaleError::InvalidMaxContribution)
    );
    assert_eq!(
        p.create_tier(OWNER, "GOLD".to_string(), 10, NOW),
        Err(PresaleError::TierAlreadyExists)
    );
    p.create_tier(OWNER, "bronze".to_string(), 10, NOW).unwrap();
    assert_eq!(p.tiers.len(), 3);
}

#[test]
fn tier_registry_is_bounded() {
    let mut p =
        Presale::initialize(OWNER, MINT, Vec::new(), Vec::new(), 10, u64::MAX).unwrap();
    for i in 0..10u64 {
        p.create_tier(OWNER, format!("tier_{}", i), 10, NOW).unwrap();
    }
    assert_eq!(
        p.create_tier(OWNER, "one_more".to_string(), 10, NOW),
        Err(PresaleError::ExceedsMaxTiers)
    );
}

#[test]
fn assign_tier_validations() {
    let mut p = two_tier_sale();
    assert_eq!(
        p.assign_tier(BOB, ALICE, "gold".to_string(), NOW),
        Err(PresaleError::NotOwner)
    );
    assert_eq!(
        p.assign_tier(OWNER, ALICE, "platinum".to_string(), NOW),
        Err(PresaleError::TierDoesNotExist)
    );
    p.assign_tier(OWNER, ALICE, "gold".to_string(), NOW).unwrap();
    assert_eq!(
        p.assign_tier(OWNER, ALICE, "silver".to_string(), NOW),
        Err(PresaleError::UserAlreadyWhitelisted)
    );
}

#[test]
fn reassignment_respects_recorded_contribution() {
    // A participant who already holds a recorded contribution cannot be
    // re-whitelisted into a tier whose cap that contribution exceeds.
    let mut p = two_tier_sale();
    p.assign_tier(OWNER, ALICE, "gold".to_string(), NOW).unwrap();
    p.contribute(ALICE, 800, NOW).unwrap();
    p.remove_user_from_whitelist(OWNER, ALICE, NOW).unwrap();
    assert_eq!(
        p.assign_tier(OWNER, ALICE, "silver".to_string(), NOW),
        Err(PresaleError::AboveMaxContribution)
    );
    p.assign_tier(OWNER, ALICE, "gold".to_string(), NOW).unwrap();
}

#[test]
fn remove_user_requires_presence() {
    let mut p = two_tier_sale();
    assert_eq!(
        p.remove_user_from_whitelist(OWNER, ALICE, NOW),
        Err(PresaleError::UserNotWhitelisted)
    );
    p.assign_tier(OWNER, ALICE, "gold".to_string(), NOW).unwrap();
    p.remove_user_from_whitelist(OWNER, ALICE, NOW).unwrap();
    assert!(p.whitelist.is_empty());
}

#[test]
fn bulk_assign_success() {
    let mut p = two_tier_sale();
    let evs = p
        .bulk_assign_tiers(
            OWNER,
            vec![ALICE, BOB],
            names(&["gold", "SILVER"]),
            NOW,
        )
        .unwrap();
    assert_eq!(evs.len(), 2);
    assert_eq!(evs[0].max_contribution, 1000);
    assert_eq!(evs[1].max_contribution, 500);
    assert_eq!(p.whitelist.len(), 2);
    assert_eq!(p.whitelist[1].tier_name, "silver");
}

#[test]
fn bulk_assign_is_atomic() {
    // One invalid pair among valid ones leaves the whitelist untouched.
    let mut p = two_tier_sale();
    let r = p.bulk_assign_tiers(
        OWNER,
        vec![ALICE, BOB, 102],
        names(&["gold", "no_such_tier", "silver"]),
        NOW,
    );
    assert_eq!(r, Err(PresaleError::TierDoesNotExist));
    assert!(p.whitelist.is_empty());
}

#[test]
fn bulk_assign_validations() {
    let mut p = two_tier_sale();
    assert_eq!(
        p.bulk_assign_tiers(OWNER, vec![ALICE], names(&["gold", "silver"]), NOW),
        Err(PresaleError::MismatchUsersTiers)
    );
    let many_users: Vec<u64> = (0..51).collect();
    let many_tiers: Vec<String> = (0..51).map(|_| "gold".to_string()).collect();
    assert_eq!(
        p.bulk_assign_tiers(OWNER, many_users, many_tiers, NOW),
        Err(PresaleError::ExceedsBulkAssignLimit)
    );
}

#[test]
fn whitelist_is_bounded() {
    let mut p =
        Presale::initialize(OWNER, MINT, names(&["gold"]), vec![1000], 10, 1000).unwrap();
    for u in 0..1000u64 {
        p.assign_tier(OWNER, 10_000 + u, "gold".to_string(), NOW).unwrap();
    }
    assert_eq!(
        p.assign_tier(OWNER, 99_999, "gold".to_string(), NOW),
        Err(PresaleError::ExceedsMaxUsers)
    );
}

#[test]
fn update_user_tier_moves_tier_totals() {
    let mut p = Presale::initialize(
        OWNER,
        MINT,
        names(&["gold", "silver", "platinum"]),
        vec![1000, 200, 1000],
        10,
        2200,
    )
    .unwrap();
    p.assign_tier(OWNER, ALICE, "gold".to_string(), NOW).unwrap();
    p.contribute(ALICE, 300, NOW).unwrap();

    assert_eq!(
        p.update_user_tier(OWNER, ALICE, "silver".to_string(), NOW),
        Err(PresaleError::ExceedsNewTierMaxContribution)
    );

    let ev = p.update_user_tier(OWNER, ALICE, "platinum".to_string(), NOW).unwrap().unwrap();
    assert_eq!(ev.max_contribution, 1000);
    assert_eq!(p.whitelist[0].tier_name, "platinum");
    assert_eq!(p.tier_total_contributions.len(), 1);
    assert_eq!(p.tier_total_contributions[0].name, "platinum");
    assert_eq!(p.tier_total_contributions[0].total, 300);

    // Moving back shifts the bucket out of platinum again.
    p.update_user_tier(OWNER, ALICE, "gold".to_string(), NOW).unwrap().unwrap();
    assert_eq!(p.tier_total_contributions[0].total, 0);
    assert_eq!(p.tier_total_contributions[1].name, "gold");
    assert_eq!(p.tier_total_contributions[1].total, 300);
}

#[test]
fn update_user_tier_same_tier_is_noop() {
    let mut p = two_tier_sale();
    p.assign_tier(OWNER, ALICE, "gold".to_string(), NOW).unwrap();
    let r = p.update_user_tier(OWNER, ALICE, " GOLD".to_string(), NOW).unwrap();
    assert!(r.is_none());
    assert_eq!(p.whitelist[0].tier_name, "gold");
}

#[test]
fn update_user_tier_total_overflow_is_atomic() {
    let mut p = two_tier_sale();
    p.assign_tier(OWNER, ALICE, "gold".to_string(), NOW).unwrap();
    p.contribute(ALICE, 300, NOW).unwrap();
    // A silver bucket already at the numeric limit cannot absorb the move.
    p.tier_total_contributions.push(TierTotal {
        name: "silver".to_string(),
        total: u64::MAX,
    });
    assert_eq!(
        p.update_user_tier(OWNER, ALICE, "silver".to_string(), NOW),
        Err(PresaleError::Overflow)
    );
    assert_eq!(p.whitelist[0].tier_name, "gold");
    assert_eq!(p.tier_total_contributions[0].total, u64::MAX);
}

#[test]
fn contribute_requires_whitelisting_and_minimum() {
    let mut p = two_tier_sale();
    assert_eq!(p.contribute(ALICE, 100, NOW), Err(PresaleError::UserNotWhitelisted));
    p.assign_tier(OWNER, ALICE, "gold".to_string(), NOW).unwrap();
    assert_eq!(p.contribute(ALICE, 9, NOW), Err(PresaleError::BelowMinContribution));
    p.contribute(ALICE, 10, NOW).unwrap();
    // Later top-ups may be small: the minimum binds the cumulative amount.
    p.contribute(ALICE, 1, NOW).unwrap();
    assert_eq!(p.contributions[0].amount, 11);
}

#[test]
fn contribute_total_overflow_is_reported() {
    let mut p =
        Presale::initialize(OWNER, MINT, names(&["gold"]), vec![u64::MAX], 1, u64::MAX)
            .unwrap();
    p.assign_tier(OWNER, ALICE, "gold".to_string(), NOW).unwrap();
    p.assign_tier(OWNER, BOB, "gold".to_string(), NOW).unwrap();
    p.contribute(ALICE, u64::MAX, NOW).unwrap();
    assert_eq!(p.contribute(BOB, 1, NOW), Err(PresaleError::Overflow));
}

#[test]
fn lifecycle_gates_contribution() {
    let mut p = two_tier_sale();
    p.assign_tier(OWNER, ALICE, "gold".to_string(), NOW).unwrap();
    p.pause_presale(OWNER, NOW).unwrap();
    assert_eq!(p.contribute(ALICE, 100, NOW), Err(PresaleError::PresalePaused));
    assert_eq!(p.close_presale(OWNER, false, NOW), Err(PresaleError::PresalePaused));
    p.unpause_presale(OWNER, NOW).unwrap();
    p.close_presale(OWNER, false, NOW).unwrap();
    assert_eq!(p.contribute(ALICE, 100, NOW), Err(PresaleError::PresaleNotActive));
}

#[test]
fn pause_transitions_are_guarded() {
    let mut p = two_tier_sale();
    assert_eq!(p.unpause_presale(OWNER, NOW), Err(PresaleError::PresaleNotPaused));
    p.pause_presale(OWNER, NOW).unwrap();
    assert_eq!(p.pause_presale(OWNER, NOW), Err(PresaleError::PresaleAlreadyPaused));
    assert_eq!(p.pause_presale(BOB, NOW), Err(PresaleError::NotOwner));
}

#[test]
fn close_twice_reports_inactive() {
    let mut p = two_tier_sale();
    let ev = p.close_presale(OWNER, true, NOW).unwrap();
    assert!(ev.refunds_allowed);
    assert_eq!(p.close_presale(OWNER, true, NOW), Err(PresaleError::PresaleNotActive));
}

#[test]
fn inconsistent_flags_report_closed() {
    // A state holding both flags at once reports the closed check, which
    // otherwise sits behind the activity check.
    let mut p = two_tier_sale();
    p.assign_tier(OWNER, ALICE, "gold".to_string(), NOW).unwrap();
    p.is_closed = true;
    assert_eq!(p.contribute(ALICE, 100, NOW), Err(PresaleError::PresaleClosed));
    assert_eq!(p.close_presale(OWNER, false, NOW), Err(PresaleError::PresaleAlreadyClosed));
}

#[test]
fn dangling_tier_reference_is_reported() {
    let mut p = two_tier_sale();
    p.whitelist.push(WhitelistEntry { user: ALICE, tier_name: "ghost".to_string() });
    assert_eq!(p.contribute(ALICE, 100, NOW), Err(PresaleError::TierDoesNotExist));
}

#[test]
fn setters_validate_their_inputs() {
    let mut p = two_tier_sale();
    p.assign_tier(OWNER, ALICE, "gold".to_string(), NOW).unwrap();
    p.contribute(ALICE, 500, NOW).unwrap();
    assert_eq!(
        p.set_min_contribution(OWNER, 0, NOW),
        Err(PresaleError::InvalidMinContribution)
    );
    assert_eq!(p.set_hard_cap(OWNER, 0, NOW), Err(PresaleError::InvalidHardCap));
    assert_eq!(
        p.set_hard_cap(OWNER, 499, NOW),
        Err(PresaleError::HardCapLessThanTotal)
    );
    p.set_hard_cap(OWNER, 500, NOW).unwrap();
    p.set_min_contribution(OWNER, 20, NOW).unwrap();
    assert_eq!(p.min_contribution, 20);
    assert_eq!(p.hard_cap, 500);
    assert_eq!(p.set_min_contribution(BOB, 5, NOW), Err(PresaleError::NotOwner));
}

#[test]
fn withdraw_requires_closed_sale_and_funds() {
    let mut p = two_tier_sale();
    assert_eq!(
        p.withdraw_funds(OWNER, 500, NOW),
        Err(PresaleError::PresaleNotClosed)
    );
    p.close_presale(OWNER, false, NOW).unwrap();
    assert_eq!(p.withdraw_funds(OWNER, 0, NOW), Err(PresaleError::NoFundsToWithdraw));
    assert_eq!(p.withdraw_funds(BOB, 500, NOW), Err(PresaleError::NotOwner));
    let ev = p.withdraw_funds(OWNER, 500, NOW).unwrap();
    assert_eq!(ev.amount, 500);
}

#[test]
fn initialize_validations() {
    let e = |r: Result<Presale, PresaleError>| r.err().unwrap();
    assert_eq!(
        e(Presale::initialize(OWNER, MINT, names(&["g"]), vec![10], 0, 100)),
        PresaleError::InvalidMinContribution
    );
    assert_eq!(
        e(Presale::initialize(OWNER, MINT, names(&["g"]), vec![10], 1, 0)),
        PresaleError::InvalidHardCap
    );
    assert_eq!(
        e(Presale::initialize(OWNER, MINT, names(&["g", "s"]), vec![10], 1, 100)),
        PresaleError::TierDataMismatch
    );
    let eleven: Vec<String> = (0..11).map(|i| format!("t{}", i)).collect();
    assert_eq!(
        e(Presale::initialize(OWNER, MINT, eleven, vec![1; 11], 1, 100)),
        PresaleError::ExceedsMaxTiers
    );
    assert_eq!(
        e(Presale::initialize(OWNER, MINT, names(&["g", "s"]), vec![60, 50], 1, 100)),
        PresaleError::HardCapLessThanTierMax
    );
    assert_eq!(
        e(Presale::initialize(
            OWNER,
            MINT,
            names(&["g", "s"]),
            vec![u64::MAX, 1],
            1,
            u64::MAX
        )),
        PresaleError::Overflow
    );
    assert_eq!(
        e(Presale::initialize(OWNER, MINT, vec!["a".repeat(33)], vec![10], 1, 100)),
        PresaleError::TierNameTooLong
    );
    assert_eq!(
        e(Presale::initialize(OWNER, MINT, names(&["g", "G "]), vec![10, 10], 1, 100)),
        PresaleError::TierAlreadyExists
    );
    assert_eq!(
        e(Presale::initialize(OWNER, MINT, names(&["g"]), vec![0], 1, 100)),
        PresaleError::InvalidMaxContribution
    );
}

#[test]
fn bulk_assign_last_pair_wins_for_repeated_user() {
    // A user repeated within one valid batch ends up in the tier of the
    // last pair naming them, as a map insert would leave it.
    let mut p = two_tier_sale();
    p.bulk_assign_tiers(OWNER, vec![ALICE, ALICE], names(&["gold", "silver"]), NOW)
        .unwrap();
    let entries: Vec<&WhitelistEntry> =
        p.whitelist.iter().filter(|e| e.user == ALICE).collect();
    assert_eq!(entries.len(), 1);
    assert_eq!(entries[0].tier_name, "silver");
}

#[test]
fn update_user_tier_validations() {
    let mut p = two_tier_sale();
    assert_eq!(
        p.update_user_tier(BOB, ALICE, "gold".to_string(), NOW),
        Err(PresaleError::NotOwner)
    );
    assert_eq!(
        p.update_user_tier(OWNER, ALICE, "a".repeat(33), NOW),
        Err(PresaleError::TierNameTooLong)
    );
    assert_eq!(
        p.update_user_tier(OWNER, ALICE, "bronze".to_string(), NOW),
        Err(PresaleError::TierDoesNotExist)
    );
    assert_eq!(
        p.update_user_tier(OWNER, ALICE, "gold".to_string(), NOW),
        Err(PresaleError::UserNotWhitelisted)
    );
}

#[test]
fn refund_updates_a_cleared_mark_in_place() {
    // A record whose flag was never set does not block the refund; the mark
    // is set on that record rather than duplicated.
    let mut p = two_tier_sale();
    p.assign_tier(OWNER, ALICE, "gold".to_string(), NOW).unwrap();
    p.contribute(ALICE, 100, NOW).unwrap();
    p.close_presale(OWNER, true, NOW).unwrap();
    p.refunded.push(RefundRecord { user: ALICE, refunded: false });
    p.refund(ALICE, NOW).unwrap();
    assert_eq!(p.refunded.len(), 1);
    assert!(p.refunded[0].refunded);
    assert_eq!(p.refund(ALICE, NOW), Err(PresaleError::AlreadyRefunded));
}

#[test]
fn bulk_assign_respects_capacity_headroom() {
    let mut p =
        Presale::initialize(OWNER, MINT, names(&["gold"]), vec![1000], 10, 1000).unwrap();
    for u in 0..990u64 {
        p.assign_tier(OWNER, 10_000 + u, "gold".to_string(), NOW).unwrap();
    }
    let users: Vec<u64> = (0..11).collect();
    let tiers: Vec<String> = (0..11).map(|_| "gold".to_string()).collect();
    assert_eq!(
        p.bulk_assign_tiers(OWNER, users, tiers, NOW),
        Err(PresaleError::ExceedsMaxUsers)
    );
    assert_eq!(p.whitelist.len(), 990);
}

#[test]
fn pause_gates_administrative_operations() {
    // The paused flag gates every mutating presale operation, the
    // registry and whitelist administration included.
    let mut p = two_tier_sale();
    p.assign_tier(OWNER, ALICE, "gold".to_string(), NOW).unwrap();
    p.pause_presale(OWNER, NOW).unwrap();

    assert_eq!(
        p.create_tier(OWNER, "bronze".to_string(), 10, NOW),
        Err(PresaleError::PresalePaused)
    );
    assert_eq!(
        p.assign_tier(OWNER, BOB, "gold".to_string(), NOW),
        Err(PresaleError::PresalePaused)
    );
    assert_eq!(
        p.bulk_assign_tiers(OWNER, vec![BOB], names(&["gold"]), NOW),
        Err(PresaleError::PresalePaused)
    );
    assert_eq!(
        p.remove_user_from_whitelist(OWNER, ALICE, NOW),
        Err(PresaleError::PresalePaused)
    );
    assert_eq!(
        p.update_user_tier(OWNER, ALICE, "silver".to_string(), NOW),
        Err(PresaleError::PresalePaused)
    );
    assert_eq!(
        p.set_min_contribution(OWNER, 20, NOW),
        Err(PresaleError::PresalePaused)
    );
    assert_eq!(p.set_hard_cap(OWNER, 2000, NOW), Err(PresaleError::PresalePaused));
    // The owner check still comes first.
    assert_eq!(
        p.create_tier(BOB, "bronze".to_string(), 10, NOW),
        Err(PresaleError::NotOwner)
    );

    p.unpause_presale(OWNER, NOW).unwrap();
    p.create_tier(OWNER, "bronze".to_string(), 10, NOW).unwrap();
    p.assign_tier(OWNER, BOB, "bronze".to_string(), NOW).unwrap();
    p.set_min_contribution(OWNER, 20, NOW).unwrap();
    p.set_hard_cap(OWNER, 2000, NOW).unwrap();
}
