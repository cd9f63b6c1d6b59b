//! The presale ledger: tier registry, whitelist, contribution accounting
//! under a hard cap, lifecycle flags, and one-shot refunds.
//!
//! Identities (owner, participants, currency) are plain `u64` values supplied
//! explicitly by the caller; the host environment that authenticates signers
//! and moves funds sits outside this crate. Every operation either fully
//! applies its effect and returns a notification record, or returns an error
//! and leaves the ledger exactly as it was.

use vstd::prelude::*;
use vstd::string::StrSliceExecFns;
use crate::errors::PresaleError;
use crate::events;
use crate::names::{normalized, normalize_tier_name, valid_tier_name, validate_tier_name};
use crate::sums::{
    sum_all, sum_prefix, lemma_sum_push, lemma_sum_update, lemma_sum_elem_le,
    lemma_sum_prefix_monotonic,
};

verus! {

/// Most tiers a registry may hold.
pub const MAX_TIERS: usize = 10;

/// Most users a whitelist may hold.
pub const MAX_USERS: usize = 1000;

/// Longest accepted tier name, in characters, before normalization.
pub const MAX_TIER_NAME_LENGTH: usize = 32;

/// Largest accepted batch for bulk tier assignment.
pub const MAX_BULK_ASSIGN: usize = 50;

/// A named contribution-cap bucket. The stored name is normalized.
#[derive(Clone)]
pub struct Tier {
    pub name: String,
    pub max_contribution: u64,
}

/// One whitelist binding: a participant and their tier's normalized name.
#[derive(Clone)]
pub struct WhitelistEntry {
    pub user: u64,
    pub tier_name: String,
}

/// One participant's cumulative contribution.
#[derive(Clone, Copy, Debug, PartialEq, Eq, Structural)]
pub struct ContributionEntry {
    pub user: u64,
    pub amount: u64,
}

/// One participant's refund flag, set exactly once.
#[derive(Clone, Copy, Debug, PartialEq, Eq, Structural)]
pub struct RefundRecord {
    pub user: u64,
    pub refunded: bool,
}

/// Running total of contributions attributed to one tier.
#[derive(Clone)]
pub struct TierTotal {
    pub name: String,
    pub total: u64,
}

// Key uniqueness and keyed lookup over the backing sequences.

/// No two tiers share a name.
pub open spec fn tier_keys_unique(s: Seq<Tier>) -> bool {
    forall|i: int, j: int| 0 <= i < j < s.len() ==> (#[trigger] s[i]).name@ != (#[trigger] s[j]).name@
}

/// Whether a tier of the given (normalized) name is present.
pub open spec fn has_tier_in(s: Seq<Tier>, name: Seq<char>) -> bool {
    exists|i: int| 0 <= i < s.len() && (#[trigger] s[i]).name@ == name
}

/// Index of the tier of the given name.
pub open spec fn tier_idx_in(s: Seq<Tier>, name: Seq<char>) -> int {
    choose|i: int| 0 <= i < s.len() && (#[trigger] s[i]).name@ == name
}

/// Cap of the tier of the given name.
pub open spec fn tier_cap_in(s: Seq<Tier>, name: Seq<char>) -> u64 {
    s[tier_idx_in(s, name)].max_contribution
}

/// No two whitelist entries share a user.
pub open spec fn wl_keys_unique(s: Seq<WhitelistEntry>) -> bool {
    forall|i: int, j: int| 0 <= i < j < s.len() ==> (#[trigger] s[i]).user != (#[trigger] s[j]).user
}

/// Whether the user is whitelisted.
pub open spec fn wl_has(s: Seq<WhitelistEntry>, user: u64) -> bool {
    exists|i: int| 0 <= i < s.len() && (#[trigger] s[i]).user == user
}

/// Index of the user's whitelist entry.
pub open spec fn wl_idx(s: Seq<WhitelistEntry>, user: u64) -> int {
    choose|i: int| 0 <= i < s.len() && (#[trigger] s[i]).user == user
}

/// Normalized tier name the user is bound to.
pub open spec fn wl_tier(s: Seq<WhitelistEntry>, user: u64) -> Seq<char> {
    s[wl_idx(s, user)].tier_name@
}

/// No two contribution entries share a user.
pub open spec fn ce_keys_unique(s: Seq<ContributionEntry>) -> bool {
    forall|i: int, j: int| 0 <= i < j < s.len() ==> (#[trigger] s[i]).user != (#[trigger] s[j]).user
}

/// Whether the user has a contribution record.
pub open spec fn ce_has(s: Seq<ContributionEntry>, user: u64) -> bool {
    exists|i: int| 0 <= i < s.len() && (#[trigger] s[i]).user == user
}

/// Index of the user's contribution record.
pub open spec fn ce_idx(s: Seq<ContributionEntry>, user: u64) -> int {
    choose|i: int| 0 <= i < s.len() && (#[trigger] s[i]).user == user
}

/// The user's cumulative recorded contribution; zero if no record exists.
pub open spec fn ce_amount(s: Seq<ContributionEntry>, user: u64) -> u64 {
    if ce_has(s, user) {
        s[ce_idx(s, user)].amount
    } else {
        0
    }
}

/// No two refund records share a user.
pub open spec fn rf_keys_unique(s: Seq<RefundRecord>) -> bool {
    forall|i: int, j: int| 0 <= i < j < s.len() ==> (#[trigger] s[i]).user != (#[trigger] s[j]).user
}

/// Whether the user holds a refund record marked refunded.
pub open spec fn rf_refunded(s: Seq<RefundRecord>, user: u64) -> bool {
    exists|i: int| 0 <= i < s.len() && (#[trigger] s[i]).user == user && s[i].refunded
}

/// No two tier totals share a name.
pub open spec fn tt_keys_unique(s: Seq<TierTotal>) -> bool {
    forall|i: int, j: int| 0 <= i < j < s.len() ==> (#[trigger] s[i]).name@ != (#[trigger] s[j]).name@
}

/// Whether a running total is recorded for the tier name.
pub open spec fn tt_has(s: Seq<TierTotal>, name: Seq<char>) -> bool {
    exists|i: int| 0 <= i < s.len() && (#[trigger] s[i]).name@ == name
}

/// Index of the tier name's running total.
pub open spec fn tt_idx(s: Seq<TierTotal>, name: Seq<char>) -> int {
    choose|i: int| 0 <= i < s.len() && (#[trigger] s[i]).name@ == name
}

/// The tier name's running total; zero if none is recorded.
pub open spec fn tt_total(s: Seq<TierTotal>, name: Seq<char>) -> u64 {
    if tt_has(s, name) {
        s[tt_idx(s, name)].total
    } else {
        0
    }
}

/// The amounts of a contribution ledger, in record order.
pub open spec fn amounts_of(s: Seq<ContributionEntry>) -> Seq<u64> {
    s.map_values(|e: ContributionEntry| e.amount)
}

// Lookup agreement: an index whose key matches is the index the keyed
// lookup functions speak of, provided keys are unique.

pub proof fn lemma_tier_at(s: Seq<Tier>, i: int)
    requires
        tier_keys_unique(s),
        0 <= i < s.len(),
    ensures
        has_tier_in(s, s[i].name@),
        tier_idx_in(s, s[i].name@) == i,
        tier_cap_in(s, s[i].name@) == s[i].max_contribution,
{
    assert(has_tier_in(s, s[i].name@));
    let j = tier_idx_in(s, s[i].name@);
    assert(0 <= j < s.len() && s[j].name@ == s[i].name@);
}

pub proof fn lemma_wl_at(s: Seq<WhitelistEntry>, i: int)
    requires
        wl_keys_unique(s),
        0 <= i < s.len(),
    ensures
        wl_has(s, s[i].user),
        wl_idx(s, s[i].user) == i,
        wl_tier(s, s[i].user) == s[i].tier_name@,
{
    assert(wl_has(s, s[i].user));
    let j = wl_idx(s, s[i].user);
    assert(0 <= j < s.len() && s[j].user == s[i].user);
}

pub proof fn lemma_ce_at(s: Seq<ContributionEntry>, i: int)
    requires
        ce_keys_unique(s),
        0 <= i < s.len(),
    ensures
        ce_has(s, s[i].user),
        ce_idx(s, s[i].user) == i,
        ce_amount(s, s[i].user) == s[i].amount,
{
    assert(ce_has(s, s[i].user));
    let j = ce_idx(s, s[i].user);
    assert(0 <= j < s.len() && s[j].user == s[i].user);
}

pub proof fn lemma_tt_at(s: Seq<TierTotal>, i: int)
    requires
        tt_keys_unique(s),
        0 <= i < s.len(),
    ensures
        tt_has(s, s[i].name@),
        tt_idx(s, s[i].name@) == i,
        tt_total(s, s[i].name@) == s[i].total,
{
    assert(tt_has(s, s[i].name@));
    let j = tt_idx(s, s[i].name@);
    assert(0 <= j < s.len() && s[j].name@ == s[i].name@);
}

// Frame rules: how the keyed views change under one update or push.

/// Replacing record `i`'s amount changes that user's amount and nothing else.
pub proof fn lemma_ce_update(s: Seq<ContributionEntry>, i: int, a: u64)
    requires
        ce_keys_unique(s),
        0 <= i < s.len(),
    ensures
        ce_keys_unique(s.update(i, ContributionEntry { user: s[i].user, amount: a })),
        forall|u: u64|
            ce_has(#[trigger] s.update(i, ContributionEntry { user: s[i].user, amount: a }), u)
                == ce_has(s, u),
        ce_amount(s.update(i, ContributionEntry { user: s[i].user, amount: a }), s[i].user) == a,
        forall|u: u64|
            u != s[i].user ==> ce_amount(
                #[trigger] s.update(i, ContributionEntry { user: s[i].user, amount: a }),
                u,
            ) == ce_amount(s, u),
{
    let s2 = s.update(i, ContributionEntry { user: s[i].user, amount: a });
    assert(forall|j: int| 0 <= j < s.len() ==> (#[trigger] s2[j]).user == s[j].user);
    assert forall|u: u64| ce_has(s2, u) == ce_has(s, u) by {
        if ce_has(s, u) {
            let j = ce_idx(s, u);
            assert(s2[j].user == u);
        }
        if ce_has(s2, u) {
            let j = choose|j: int| 0 <= j < s2.len() && (#[trigger] s2[j]).user == u;
            assert(s[j].user == u);
        }
    }
    lemma_ce_at(s2, i);
    assert forall|u: u64| u != s[i].user implies ce_amount(s2, u) == ce_amount(s, u) by {
        if ce_has(s, u) {
            let j = ce_idx(s, u);
            assert(j != i);
            lemma_ce_at(s2, j);
            lemma_ce_at(s, j);
        }
    }
}

/// Appending a record for a fresh user sets that user's amount and nothing else.
pub proof fn lemma_ce_push(s: Seq<ContributionEntry>, u0: u64, a: u64)
    requires
        ce_keys_unique(s),
        !ce_has(s, u0),
    ensures
        ce_keys_unique(s.push(ContributionEntry { user: u0, amount: a })),
        ce_has(s.push(ContributionEntry { user: u0, amount: a }), u0),
        ce_amount(s.push(ContributionEntry { user: u0, amount: a }), u0) == a,
        forall|u: u64|
            u != u0 ==> ce_has(#[trigger] s.push(ContributionEntry { user: u0, amount: a }), u)
                == ce_has(s, u),
        forall|u: u64|
            u != u0 ==> ce_amount(#[trigger] s.push(ContributionEntry { user: u0, amount: a }), u)
                == ce_amount(s, u),
{
    let s2 = s.push(ContributionEntry { user: u0, amount: a });
    assert(forall|j: int| 0 <= j < s.len() ==> (#[trigger] s2[j]).user == s[j].user);
    assert(s2[s.len() as int].user == u0);
    assert(ce_keys_unique(s2));
    lemma_ce_at(s2, s.len() as int);
    assert forall|u: u64| u != u0 implies ce_has(s2, u) == ce_has(s, u) by {
        if ce_has(s, u) {
            let j = ce_idx(s, u);
            assert(s2[j].user == u);
        }
        if ce_has(s2, u) {
            let j = choose|j: int| 0 <= j < s2.len() && (#[trigger] s2[j]).user == u;
            assert(j < s.len());
            assert(s[j].user == u);
        }
    }
    assert forall|u: u64| u != u0 implies ce_amount(s2, u) == ce_amount(s, u) by {
        if ce_has(s, u) {
            let j = ce_idx(s, u);
            lemma_ce_at(s2, j);
            lemma_ce_at(s, j);
        }
    }
}

/// Appending a tier with a fresh name adds that binding and no other.
pub proof fn lemma_tier_push(s: Seq<Tier>, t: Tier)
    requires
        tier_keys_unique(s),
        !has_tier_in(s, t.name@),
    ensures
        tier_keys_unique(s.push(t)),
        has_tier_in(s.push(t), t.name@),
        tier_cap_in(s.push(t), t.name@) == t.max_contribution,
        forall|n: Seq<char>|
            n != t.name@ ==> has_tier_in(#[trigger] s.push(t), n) == has_tier_in(s, n),
        forall|n: Seq<char>|
            n != t.name@ && has_tier_in(s, n) ==> tier_cap_in(#[trigger] s.push(t), n)
                == tier_cap_in(s, n),
{
    let s2 = s.push(t);
    assert(forall|j: int| 0 <= j < s.len() ==> #[trigger] s2[j] == s[j]);
    assert(s2[s.len() as int] == t);
    assert(tier_keys_unique(s2));
    lemma_tier_at(s2, s.len() as int);
    assert forall|n: Seq<char>| n != t.name@ implies has_tier_in(s2, n) == has_tier_in(s, n) by {
        if has_tier_in(s, n) {
            let j = tier_idx_in(s, n);
            assert(s2[j].name@ == n);
        }
        if has_tier_in(s2, n) {
            let j = choose|j: int| 0 <= j < s2.len() && (#[trigger] s2[j]).name@ == n;
            assert(j < s.len());
            assert(s[j].name@ == n);
        }
    }
    assert forall|n: Seq<char>| n != t.name@ && has_tier_in(s, n) implies tier_cap_in(s2, n)
        == tier_cap_in(s, n) by {
        let j = tier_idx_in(s, n);
        lemma_tier_at(s, j);
        lemma_tier_at(s2, j);
    }
}

/// Rebinding entry `i` to a new tier changes that user's binding and no other.
pub proof fn lemma_wl_update(s: Seq<WhitelistEntry>, i: int, e: WhitelistEntry)
    requires
        wl_keys_unique(s),
        0 <= i < s.len(),
        e.user == s[i].user,
    ensures
        wl_keys_unique(s.update(i, e)),
        forall|u: u64| wl_has(#[trigger] s.update(i, e), u) == wl_has(s, u),
        wl_tier(s.update(i, e), e.user) == e.tier_name@,
        forall|u: u64|
            u != e.user && wl_has(s, u) ==> wl_tier(#[trigger] s.update(i, e), u) == wl_tier(s, u),
{
    let s2 = s.update(i, e);
    assert(forall|j: int| 0 <= j < s.len() ==> (#[trigger] s2[j]).user == s[j].user);
    assert forall|u: u64| wl_has(s2, u) == wl_has(s, u) by {
        if wl_has(s, u) {
            let j = wl_idx(s, u);
            assert(s2[j].user == u);
        }
        if wl_has(s2, u) {
            let j = choose|j: int| 0 <= j < s2.len() && (#[trigger] s2[j]).user == u;
            assert(s[j].user == u);
        }
    }
    lemma_wl_at(s2, i);
    assert forall|u: u64| u != e.user && wl_has(s, u) implies wl_tier(s2, u) == wl_tier(s, u) by {
        let j = wl_idx(s, u);
        lemma_wl_at(s, j);
        assert(j != i);
        lemma_wl_at(s2, j);
    }
}

/// Appending an entry for a fresh user adds that binding and no other.
pub proof fn lemma_wl_push(s: Seq<WhitelistEntry>, e: WhitelistEntry)
    requires
        wl_keys_unique(s),
        !wl_has(s, e.user),
    ensures
        wl_keys_unique(s.push(e)),
        wl_has(s.push(e), e.user),
        wl_tier(s.push(e), e.user) == e.tier_name@,
        forall|u: u64| u != e.user ==> wl_has(#[trigger] s.push(e), u) == wl_has(s, u),
        forall|u: u64|
            u != e.user && wl_has(s, u) ==> wl_tier(#[trigger] s.push(e), u) == wl_tier(s, u),
{
    let s2 = s.push(e);
    assert(forall|j: int| 0 <= j < s.len() ==> #[trigger] s2[j] == s[j]);
    assert(s2[s.len() as int] == e);
    assert(wl_keys_unique(s2));
    lemma_wl_at(s2, s.len() as int);
    assert forall|u: u64| u != e.user implies wl_has(s2, u) == wl_has(s, u) by {
        if wl_has(s, u) {
            let j = wl_idx(s, u);
            assert(s2[j].user == u);
        }
        if wl_has(s2, u) {
            let j = choose|j: int| 0 <= j < s2.len() && (#[trigger] s2[j]).user == u;
            assert(j < s.len());
            assert(s[j].user == u);
        }
    }
    assert forall|u: u64| u != e.user && wl_has(s, u) implies wl_tier(s2, u) == wl_tier(s, u) by {
        let j = wl_idx(s, u);
        lemma_wl_at(s, j);
        lemma_wl_at(s2, j);
    }
}

/// Removing entry `i` drops that user's binding and no other.
pub proof fn lemma_wl_remove(s: Seq<WhitelistEntry>, i: int)
    requires
        wl_keys_unique(s),
        0 <= i < s.len(),
    ensures
        wl_keys_unique(s.remove(i)),
        !wl_has(s.remove(i), s[i].user),
        forall|u: u64| u != s[i].user ==> wl_has(#[trigger] s.remove(i), u) == wl_has(s, u),
        forall|u: u64|
            u != s[i].user && wl_has(s, u) ==> wl_tier(#[trigger] s.remove(i), u) == wl_tier(s, u),
{
    let s2 = s.remove(i);
    assert(forall|j: int| 0 <= j < i ==> #[trigger] s2[j] == s[j]);
    assert(forall|j: int| i <= j < s2.len() ==> #[trigger] s2[j] == s[j + 1]);
    assert(wl_keys_unique(s2));
    assert forall|u: u64| u != s[i].user implies wl_has(s2, u) == wl_has(s, u) by {
        if wl_has(s, u) {
            let j = wl_idx(s, u);
            assert(j != i);
            if j < i {
                assert(s2[j].user == u);
            } else {
                assert(s2[j - 1].user == u);
            }
        }
        if wl_has(s2, u) {
            let j = choose|j: int| 0 <= j < s2.len() && (#[trigger] s2[j]).user == u;
            if j < i {
                assert(s[j].user == u);
            } else {
                assert(s[j + 1].user == u);
            }
        }
    }
    if wl_has(s2, s[i].user) {
        let j = choose|j: int| 0 <= j < s2.len() && (#[trigger] s2[j]).user == s[i].user;
        if j < i {
            assert(s[j].user == s[i].user);
            assert(false);
        } else {
            assert(s[j + 1].user == s[i].user);
            assert(false);
        }
    }
    assert forall|u: u64| u != s[i].user && wl_has(s, u) implies wl_tier(s2, u) == wl_tier(s, u) by {
        let j = wl_idx(s, u);
        lemma_wl_at(s, j);
        if j < i {
            lemma_wl_at(s2, j);
        } else {
            lemma_wl_at(s2, j - 1);
        }
    }
}

/// Replacing total `i`'s amount changes that name's total and no other.
pub proof fn lemma_tt_update(s: Seq<TierTotal>, i: int, v: u64)
    requires
        tt_keys_unique(s),
        0 <= i < s.len(),
    ensures
        tt_keys_unique(s.update(i, TierTotal { name: s[i].name, total: v })),
        forall|n: Seq<char>|
            tt_has(#[trigger] s.update(i, TierTotal { name: s[i].name, total: v }), n)
                == tt_has(s, n),
        tt_total(s.update(i, TierTotal { name: s[i].name, total: v }), s[i].name@) == v,
        forall|n: Seq<char>|
            n != s[i].name@ ==> tt_total(
                #[trigger] s.update(i, TierTotal { name: s[i].name, total: v }),
                n,
            ) == tt_total(s, n),
{
    let s2 = s.update(i, TierTotal { name: s[i].name, total: v });
    assert(forall|j: int| 0 <= j < s.len() ==> (#[trigger] s2[j]).name@ == s[j].name@);
    assert forall|n: Seq<char>| tt_has(s2, n) == tt_has(s, n) by {
        if tt_has(s, n) {
            let j = tt_idx(s, n);
            assert(s2[j].name@ == n);
        }
        if tt_has(s2, n) {
            let j = choose|j: int| 0 <= j < s2.len() && (#[trigger] s2[j]).name@ == n;
            assert(s[j].name@ == n);
        }
    }
    lemma_tt_at(s2, i);
    assert forall|n: Seq<char>| n != s[i].name@ implies tt_total(s2, n) == tt_total(s, n) by {
        if tt_has(s, n) {
            let j = tt_idx(s, n);
            lemma_tt_at(s, j);
            assert(j != i);
            lemma_tt_at(s2, j);
        }
    }
}

/// Appending a total under a fresh name adds that binding and no other.
pub proof fn lemma_tt_push(s: Seq<TierTotal>, t: TierTotal)
    requires
        tt_keys_unique(s),
        !tt_has(s, t.name@),
    ensures
        tt_keys_unique(s.push(t)),
        tt_has(s.push(t), t.name@),
        tt_total(s.push(t), t.name@) == t.total,
        forall|n: Seq<char>| n != t.name@ ==> tt_has(#[trigger] s.push(t), n) == tt_has(s, n),
        forall|n: Seq<char>| n != t.name@ ==> tt_total(#[trigger] s.push(t), n) == tt_total(s, n),
{
    let s2 = s.push(t);
    assert(forall|j: int| 0 <= j < s.len() ==> #[trigger] s2[j] == s[j]);
    assert(s2[s.len() as int] == t);
    assert(tt_keys_unique(s2));
    lemma_tt_at(s2, s.len() as int);
    assert forall|n: Seq<char>| n != t.name@ implies tt_has(s2, n) == tt_has(s, n) by {
        if tt_has(s, n) {
            let j = tt_idx(s, n);
            assert(s2[j].name@ == n);
        }
        if tt_has(s2, n) {
            let j = choose|j: int| 0 <= j < s2.len() && (#[trigger] s2[j]).name@ == n;
            assert(j < s.len());
            assert(s[j].name@ == n);
        }
    }
    assert forall|n: Seq<char>| n != t.name@ implies tt_total(s2, n) == tt_total(s, n) by {
        if tt_has(s, n) {
            let j = tt_idx(s, n);
            lemma_tt_at(s, j);
            lemma_tt_at(s2, j);
        }
    }
}

/// Setting record `i`'s flag changes that user's mark and no other.
pub proof fn lemma_rf_update(s: Seq<RefundRecord>, i: int, b: bool)
    requires
        rf_keys_unique(s),
        0 <= i < s.len(),
    ensures
        rf_keys_unique(s.update(i, RefundRecord { user: s[i].user, refunded: b })),
        rf_refunded(s.update(i, RefundRecord { user: s[i].user, refunded: b }), s[i].user) == b,
        forall|u: u64|
            u != s[i].user ==> rf_refunded(
                #[trigger] s.update(i, RefundRecord { user: s[i].user, refunded: b }),
                u,
            ) == rf_refunded(s, u),
{
    let s2 = s.update(i, RefundRecord { user: s[i].user, refunded: b });
    assert(forall|j: int| 0 <= j < s.len() ==> (#[trigger] s2[j]).user == s[j].user);
    if b {
        assert(s2[i].user == s[i].user && s2[i].refunded);
        assert(rf_refunded(s2, s[i].user));
    } else {
        if rf_refunded(s2, s[i].user) {
            let j = choose|j: int|
                0 <= j < s2.len() && (#[trigger] s2[j]).user == s[i].user && s2[j].refunded;
            assert(j == i);
            assert(false);
        }
    }
    assert forall|u: u64| u != s[i].user implies rf_refunded(s2, u) == rf_refunded(s, u) by {
        if rf_refunded(s, u) {
            let j = choose|j: int|
                0 <= j < s.len() && (#[trigger] s[j]).user == u && s[j].refunded;
            assert(j != i);
            assert(s2[j].user == u && s2[j].refunded);
        }
        if rf_refunded(s2, u) {
            let j = choose|j: int|
                0 <= j < s2.len() && (#[trigger] s2[j]).user == u && s2[j].refunded;
            assert(j != i);
            assert(s[j].user == u && s[j].refunded);
        }
    }
}

/// Appending a refund record for a fresh user marks that user and no other.
pub proof fn lemma_rf_push(s: Seq<RefundRecord>, e: RefundRecord)
    requires
        rf_keys_unique(s),
        forall|j: int| 0 <= j < s.len() ==> (#[trigger] s[j]).user != e.user,
    ensures
        rf_keys_unique(s.push(e)),
        rf_refunded(s.push(e), e.user) == e.refunded,
        forall|u: u64| u != e.user ==> rf_refunded(#[trigger] s.push(e), u) == rf_refunded(s, u),
{
    let s2 = s.push(e);
    assert(forall|j: int| 0 <= j < s.len() ==> #[trigger] s2[j] == s[j]);
    assert(s2[s.len() as int] == e);
    assert(rf_keys_unique(s2));
    if e.refunded {
        assert(rf_refunded(s2, e.user));
    } else {
        if rf_refunded(s2, e.user) {
            let j = choose|j: int|
                0 <= j < s2.len() && (#[trigger] s2[j]).user == e.user && s2[j].refunded;
            assert(j < s.len() ==> s[j].user == e.user);
            assert(false);
        }
    }
    assert forall|u: u64| u != e.user implies rf_refunded(s2, u) == rf_refunded(s, u) by {
        if rf_refunded(s, u) {
            let j = choose|j: int|
                0 <= j < s.len() && (#[trigger] s[j]).user == u && s[j].refunded;
            assert(s2[j].user == u && s2[j].refunded);
        }
        if rf_refunded(s2, u) {
            let j = choose|j: int|
                0 <= j < s2.len() && (#[trigger] s2[j]).user == u && s2[j].refunded;
            assert(j < s.len());
            assert(s[j].user == u && s[j].refunded);
        }
    }
}

// Linear searches over the backing vectors.

fn find_tier_index(tiers: &Vec<Tier>, name: &String) -> (r: Option<usize>)
    ensures
        match r {
            Some(i) => i < tiers@.len() && tiers@[i as int].name@ == name@,
            None => !has_tier_in(tiers@, name@),
        },
{
    let n = tiers.len();
    let mut i: usize = 0;
    while i < n
        invariant
            n == tiers@.len(),
            i <= n,
            forall|j: int| 0 <= j < i ==> (#[trigger] tiers@[j]).name@ != name@,
        decreases n - i,
    {
        if tiers[i].name == *name {
            return Some(i);
        }
        i = i + 1;
    }
    None
}

fn find_wl_index(wl: &Vec<WhitelistEntry>, user: u64) -> (r: Option<usize>)
    ensures
        match r {
            Some(i) => i < wl@.len() && wl@[i as int].user == user,
            None => !wl_has(wl@, user),
        },
{
    let n = wl.len();
    let mut i: usize = 0;
    while i < n
        invariant
            n == wl@.len(),
            i <= n,
            forall|j: int| 0 <= j < i ==> (#[trigger] wl@[j]).user != user,
        decreases n - i,
    {
        if wl[i].user == user {
            return Some(i);
        }
        i = i + 1;
    }
    None
}

fn find_ce_index(ces: &Vec<ContributionEntry>, user: u64) -> (r: Option<usize>)
    ensures
        match r {
            Some(i) => i < ces@.len() && ces@[i as int].user == user,
            None => !ce_has(ces@, user),
        },
{
    let n = ces.len();
    let mut i: usize = 0;
    while i < n
        invariant
            n == ces@.len(),
            i <= n,
            forall|j: int| 0 <= j < i ==> (#[trigger] ces@[j]).user != user,
        decreases n - i,
    {
        if ces[i].user == user {
            return Some(i);
        }
        i = i + 1;
    }
    None
}

fn find_rf_index(rfs: &Vec<RefundRecord>, user: u64) -> (r: Option<usize>)
    ensures
        match r {
            Some(i) => i < rfs@.len() && rfs@[i as int].user == user,
            None => forall|j: int| 0 <= j < rfs@.len() ==> (#[trigger] rfs@[j]).user != user,
        },
{
    let n = rfs.len();
    let mut i: usize = 0;
    while i < n
        invariant
            n == rfs@.len(),
            i <= n,
            forall|j: int| 0 <= j < i ==> (#[trigger] rfs@[j]).user != user,
        decreases n - i,
    {
        if rfs[i].user == user {
            return Some(i);
        }
        i = i + 1;
    }
    None
}

fn find_tt_index(tts: &Vec<TierTotal>, name: &String) -> (r: Option<usize>)
    ensures
        match r {
            Some(i) => i < tts@.len() && tts@[i as int].name@ == name@,
            None => !tt_has(tts@, name@),
        },
{
    let n = tts.len();
    let mut i: usize = 0;
    while i < n
        invariant
            n == tts@.len(),
            i <= n,
            forall|j: int| 0 <= j < i ==> (#[trigger] tts@[j]).name@ != name@,
        decreases n - i,
    {
        if tts[i].name == *name {
            return Some(i);
        }
        i = i + 1;
    }
    None
}

/// First failing per-tier check of `Presale::initialize`, scanning the tier
/// list from position `i` on: an over-long name, a name already present in
/// normalized form among the earlier tiers, or a zero cap.
pub open spec fn init_tier_err(names: Seq<String>, caps: Seq<u64>, i: int) -> Option<PresaleError>
    decreases names.len() - i,
{
    if i < 0 || i >= names.len() {
        None
    } else if names[i]@.len() > MAX_TIER_NAME_LENGTH {
        Some(PresaleError::TierNameTooLong)
    } else if exists|j: int| 0 <= j < i && normalized((#[trigger] names[j])@) == normalized(
        names[i]@,
    ) {
        Some(PresaleError::TierAlreadyExists)
    } else if caps[i] == 0 {
        Some(PresaleError::InvalidMaxContribution)
    } else {
        init_tier_err(names, caps, i + 1)
    }
}

/// Whether `v` occurs among the first `k` elements of `users`.
pub open spec fn occurs_before(users: Seq<u64>, v: u64, k: int) -> bool {
    exists|j: int| 0 <= j < k && users[j] == v
}

/// Whether position `j` is the last occurrence of its user before `k`.
pub open spec fn last_occurrence_before(users: Seq<u64>, j: int, k: int) -> bool {
    forall|l: int| j < l < k ==> users[l] != users[j]
}

/// The presale ledger.
#[derive(Clone)]
pub struct Presale {
    pub owner: u64,
    pub usdt_mint: u64,
    pub min_contribution: u64,
    pub hard_cap: u64,
    pub total_contributions: u64,
    pub is_active: bool,
    pub is_closed: bool,
    pub refunds_allowed: bool,
    pub paused: bool,
    pub tiers: Vec<Tier>,
    pub whitelist: Vec<WhitelistEntry>,
    pub contributions: Vec<ContributionEntry>,
    pub refunded: Vec<RefundRecord>,
    pub contributors: Vec<u64>,
    pub tier_total_contributions: Vec<TierTotal>,
}

impl Presale {
    /// Whether a tier of the given normalized name exists.
    pub open spec fn has_tier(self, name: Seq<char>) -> bool {
        has_tier_in(self.tiers@, name)
    }

    /// Cap of the tier of the given normalized name.
    pub open spec fn tier_cap(self, name: Seq<char>) -> u64 {
        tier_cap_in(self.tiers@, name)
    }

    /// Whether the user is whitelisted.
    pub open spec fn is_whitelisted(self, user: u64) -> bool {
        wl_has(self.whitelist@, user)
    }

    /// Normalized name of the user's assigned tier.
    pub open spec fn tier_of(self, user: u64) -> Seq<char> {
        wl_tier(self.whitelist@, user)
    }

    /// The user's cumulative recorded contribution; zero without a record.
    pub open spec fn contribution_of(self, user: u64) -> u64 {
        ce_amount(self.contributions@, user)
    }

    /// Whether the user holds a contribution record.
    pub open spec fn has_record(self, user: u64) -> bool {
        ce_has(self.contributions@, user)
    }

    /// Whether the user was refunded.
    pub open spec fn is_refunded(self, user: u64) -> bool {
        rf_refunded(self.refunded@, user)
    }

    /// Running total recorded against the tier name; zero without a record.
    pub open spec fn tier_total_of(self, name: Seq<char>) -> u64 {
        tt_total(self.tier_total_contributions@, name)
    }

    /// Configuration fields are the same in both states.
    pub open spec fn same_config(self, other: Presale) -> bool {
        &&& other.owner == self.owner
        &&& other.usdt_mint == self.usdt_mint
        &&& other.min_contribution == self.min_contribution
        &&& other.hard_cap == self.hard_cap
    }

    /// Lifecycle flags are the same in both states.
    pub open spec fn same_flags(self, other: Presale) -> bool {
        &&& other.is_active == self.is_active
        &&& other.is_closed == self.is_closed
        &&& other.refunds_allowed == self.refunds_allowed
        &&& other.paused == self.paused
    }

    /// Well-formedness: the invariants every operation preserves.
    ///
    /// They state that the registry, whitelist, ledger and settlement records
    /// are keyed uniquely and bounded; that the running total equals the sum
    /// of the recorded contributions and never exceeds the hard cap; that each
    /// whitelisted participant's record fits their tier's cap; and that the
    /// contributor list mirrors exactly the users holding records.
    pub open spec fn wf(self) -> bool {
        &&& self.min_contribution > 0
        &&& self.hard_cap > 0
        &&& self.tiers@.len() <= MAX_TIERS
        &&& tier_keys_unique(self.tiers@)
        &&& forall|i: int|
            0 <= i < self.tiers@.len() ==> (#[trigger] self.tiers@[i]).max_contribution > 0
        &&& self.whitelist@.len() <= MAX_USERS
        &&& wl_keys_unique(self.whitelist@)
        &&& ce_keys_unique(self.contributions@)
        &&& rf_keys_unique(self.refunded@)
        &&& tt_keys_unique(self.tier_total_contributions@)
        &&& self.contributors@.no_duplicates()
        &&& forall|i: int|
            0 <= i < self.contributions@.len() ==> self.contributors@.contains(
                (#[trigger] self.contributions@[i]).user,
            )
        &&& forall|i: int|
            0 <= i < self.contributors@.len() ==> ce_has(
                self.contributions@,
                #[trigger] self.contributors@[i],
            )
        &&& sum_all(amounts_of(self.contributions@)) == self.total_contributions
        &&& self.total_contributions <= self.hard_cap
        &&& forall|i: int|
            0 <= i < self.whitelist@.len() ==> {
                let e = #[trigger] self.whitelist@[i];
                &&& self.has_tier(e.tier_name@)
                &&& ce_amount(self.contributions@, e.user) <= self.tier_cap(e.tier_name@)
            }
        &&& !self.is_closed ==> forall|i: int|
            0 <= i < self.contributions@.len() ==> (#[trigger] self.contributions@[i]).amount > 0
    }

    /// The bookkeeping collections are the same in both states.
    pub open spec fn same_books(self, other: Presale) -> bool {
        &&& other.tiers == self.tiers
        &&& other.whitelist == self.whitelist
        &&& other.contributions == self.contributions
        &&& other.refunded == self.refunded
        &&& other.contributors == self.contributors
        &&& other.tier_total_contributions == self.tier_total_contributions
    }

    /// First failing check of `create_tier`, if any.
    pub open spec fn create_tier_err(self, caller: u64, tier_name: Seq<char>, max_contribution: u64)
        -> Option<PresaleError> {
        if caller != self.owner {
            Some(PresaleError::NotOwner)
        } else if self.paused {
            Some(PresaleError::PresalePaused)
        } else if !valid_tier_name(tier_name) {
            Some(PresaleError::InvalidTierNameFormat)
        } else if self.tiers@.len() >= MAX_TIERS {
            Some(PresaleError::ExceedsMaxTiers)
        } else if tier_name.len() > MAX_TIER_NAME_LENGTH {
            Some(PresaleError::TierNameTooLong)
        } else if max_contribution == 0 {
            Some(PresaleError::InvalidMaxContribution)
        } else if self.has_tier(normalized(tier_name)) {
            Some(PresaleError::TierAlreadyExists)
        } else {
            None
        }
    }

    /// Adds a tier under the normalized form of `tier_name`.
    pub fn create_tier(&mut self, caller: u64, tier_name: String, max_contribution: u64, now: u64)
        -> (r: Result<events::UserLimitSet, PresaleError>)
        requires
            old(self).wf(),
        ensures
            final(self).wf(),
            match r {
                Err(e) => {
                    &&& Some(e) == old(self).create_tier_err(caller, tier_name@, max_contribution)
                    &&& *final(self) == *old(self)
                },
                Ok(ev) => {
                    &&& old(self).create_tier_err(caller, tier_name@, max_contribution) is None
                    &&& ev == (events::UserLimitSet {
                        user: caller,
                        max_contribution,
                        timestamp: now,
                    })
                    &&& final(self).has_tier(normalized(tier_name@))
                    &&& final(self).tier_cap(normalized(tier_name@)) == max_contribution
                    &&& forall|n: Seq<char>|
                        n != normalized(tier_name@) ==> #[trigger] final(self).has_tier(n)
                            == old(self).has_tier(n)
                    &&& forall|n: Seq<char>|
                        n != normalized(tier_name@) && old(self).has_tier(n)
                            ==> #[trigger] final(self).tier_cap(n) == old(self).tier_cap(n)
                    &&& final(self).tiers@.len() == old(self).tiers@.len() + 1
                    &&& forall|j: int|
                        0 <= j < old(self).tiers@.len() ==> #[trigger] final(self).tiers@[j]
                            == old(self).tiers@[j]
                    &&& final(self).whitelist == old(self).whitelist
                    &&& final(self).contributions == old(self).contributions
                    &&& final(self).refunded == old(self).refunded
                    &&& final(self).contributors == old(self).contributors
                    &&& final(self).tier_total_contributions == old(
                        self,
                    ).tier_total_contributions
                    &&& old(self).same_config(*final(self))
                    &&& old(self).same_flags(*final(self))
                    &&& final(self).total_contributions == old(self).total_contributions
                },
            },
    {
        if caller != self.owner {
            return Err(PresaleError::NotOwner);
        }
        if self.paused {
            return Err(PresaleError::PresalePaused);
        }
        if let Err(e) = validate_tier_name(tier_name.as_str()) {
            return Err(e);
        }
        if self.tiers.len() >= MAX_TIERS {
            return Err(PresaleError::ExceedsMaxTiers);
        }
        if tier_name.as_str().unicode_len() > MAX_TIER_NAME_LENGTH {
            return Err(PresaleError::TierNameTooLong);
        }
        if max_contribution == 0 {
            return Err(PresaleError::InvalidMaxContribution);
        }
        let normalized_tier = normalize_tier_name(tier_name.as_str());
        if find_tier_index(&self.tiers, &normalized_tier).is_some() {
            return Err(PresaleError::TierAlreadyExists);
        }
        let ghost pre = *self;
        let t = Tier { name: normalized_tier, max_contribution };
        proof {
            lemma_tier_push(self.tiers@, t);
        }
        self.tiers.push(t);
        proof {
            assert forall|i: int| 0 <= i < self.whitelist@.len() implies {
                let e = #[trigger] self.whitelist@[i];
                &&& self.has_tier(e.tier_name@)
                &&& ce_amount(self.contributions@, e.user) <= self.tier_cap(e.tier_name@)
            } by {
                let e = self.whitelist@[i];
                if e.tier_name@ == t.name@ {
                    assert(pre.has_tier(e.tier_name@));
                    assert(false);
                }
            }
        }
        Ok(events::UserLimitSet { user: caller, max_contribution, timestamp: now })
    }

    /// First failing check of `assign_tier`, if any.
    ///
    /// Binding a user to a tier whose cap their recorded contribution already
    /// exceeds is rejected, so that the cap invariant holds in every state.
    pub open spec fn assign_tier_err(self, caller: u64, user: u64, tier_name: Seq<char>) -> Option<
        PresaleError,
    > {
        if caller != self.owner {
            Some(PresaleError::NotOwner)
        } else if self.paused {
            Some(PresaleError::PresalePaused)
        } else if tier_name.len() > MAX_TIER_NAME_LENGTH {
            Some(PresaleError::TierNameTooLong)
        } else if !self.has_tier(normalized(tier_name)) {
            Some(PresaleError::TierDoesNotExist)
        } else if self.is_whitelisted(user) {
            Some(PresaleError::UserAlreadyWhitelisted)
        } else if self.whitelist@.len() >= MAX_USERS {
            Some(PresaleError::ExceedsMaxUsers)
        } else if self.contribution_of(user) > self.tier_cap(normalized(tier_name)) {
            Some(PresaleError::AboveMaxContribution)
        } else {
            None
        }
    }

    /// Whitelists a user under the tier of the given name.
    pub fn assign_tier(&mut self, caller: u64, user: u64, tier_name: String, now: u64) -> (r:
        Result<events::UserLimitSet, PresaleError>)
        requires
            old(self).wf(),
        ensures
            final(self).wf(),
            match r {
                Err(e) => {
                    &&& Some(e) == old(self).assign_tier_err(caller, user, tier_name@)
                    &&& *final(self) == *old(self)
                },
                Ok(ev) => {
                    &&& old(self).assign_tier_err(caller, user, tier_name@) is None
                    &&& ev == (events::UserLimitSet {
                        user,
                        max_contribution: old(self).tier_cap(normalized(tier_name@)),
                        timestamp: now,
                    })
                    &&& final(self).is_whitelisted(user)
                    &&& final(self).tier_of(user) == normalized(tier_name@)
                    &&& forall|v: u64|
                        v != user ==> #[trigger] final(self).is_whitelisted(v)
                            == old(self).is_whitelisted(v)
                    &&& forall|v: u64|
                        v != user && old(self).is_whitelisted(v)
                            ==> #[trigger] final(self).tier_of(v) == old(self).tier_of(v)
                    &&& final(self).whitelist@.len() == old(self).whitelist@.len() + 1
                    &&& final(self).tiers == old(self).tiers
                    &&& final(self).contributions == old(self).contributions
                    &&& final(self).refunded == old(self).refunded
                    &&& final(self).contributors == old(self).contributors
                    &&& final(self).tier_total_contributions == old(
                        self,
                    ).tier_total_contributions
                    &&& old(self).same_config(*final(self))
                    &&& old(self).same_flags(*final(self))
                    &&& final(self).total_contributions == old(self).total_contributions
                },
            },
    {
        if caller != self.owner {
            return Err(PresaleError::NotOwner);
        }
        if self.paused {
            return Err(PresaleError::PresalePaused);
        }
        if tier_name.as_str().unicode_len() > MAX_TIER_NAME_LENGTH {
            return Err(PresaleError::TierNameTooLong);
        }
        let normalized_tier = normalize_tier_name(tier_name.as_str());
        let cap = match find_tier_index(&self.tiers, &normalized_tier) {
            Some(i) => {
                proof {
                    lemma_tier_at(self.tiers@, i as int);
                }
                self.tiers[i].max_contribution
            },
            None => {
                return Err(PresaleError::TierDoesNotExist);
            },
        };
        if find_wl_index(&self.whitelist, user).is_some() {
            return Err(PresaleError::UserAlreadyWhitelisted);
        }
        if self.whitelist.len() >= MAX_USERS {
            return Err(PresaleError::ExceedsMaxUsers);
        }
        let recorded = match find_ce_index(&self.contributions, user) {
            Some(i) => {
                proof {
                    lemma_ce_at(self.contributions@, i as int);
                }
                self.contributions[i].amount
            },
            None => 0,
        };
        if recorded > cap {
            return Err(PresaleError::AboveMaxContribution);
        }
        let ghost pre = *self;
        let e = WhitelistEntry { user, tier_name: normalized_tier };
        proof {
            lemma_wl_push(self.whitelist@, e);
        }
        self.whitelist.push(e);
        proof {
            assert forall|i: int| 0 <= i < self.whitelist@.len() implies {
                let en = #[trigger] self.whitelist@[i];
                &&& self.has_tier(en.tier_name@)
                &&& ce_amount(self.contributions@, en.user) <= self.tier_cap(en.tier_name@)
            } by {
                if i < pre.whitelist@.len() {
                    assert(self.whitelist@[i] == pre.whitelist@[i]);
                } else {
                    assert(self.whitelist@[i] == e);
                }
            }
        }
        Ok(events::UserLimitSet { user, max_contribution: cap, timestamp: now })
    }

    /// First failing check of `remove_user_from_whitelist`, if any.
    pub open spec fn remove_user_err(self, caller: u64, user: u64) -> Option<PresaleError> {
        if caller != self.owner {
            Some(PresaleError::NotOwner)
        } else if self.paused {
            Some(PresaleError::PresalePaused)
        } else if !self.is_whitelisted(user) {
            Some(PresaleError::UserNotWhitelisted)
        } else {
            None
        }
    }

    /// Removes a user's whitelist entry. Their contribution record stays.
    pub fn remove_user_from_whitelist(&mut self, caller: u64, user: u64, now: u64) -> (r: Result<
        events::UserRemoved,
        PresaleError,
    >)
        requires
            old(self).wf(),
        ensures
            final(self).wf(),
            match r {
                Err(e) => {
                    &&& Some(e) == old(self).remove_user_err(caller, user)
                    &&& *final(self) == *old(self)
                },
                Ok(ev) => {
                    &&& old(self).remove_user_err(caller, user) is None
                    &&& ev == (events::UserRemoved { user, timestamp: now })
                    &&& !final(self).is_whitelisted(user)
                    &&& forall|v: u64|
                        v != user ==> #[trigger] final(self).is_whitelisted(v)
                            == old(self).is_whitelisted(v)
                    &&& forall|v: u64|
                        v != user && old(self).is_whitelisted(v)
                            ==> #[trigger] final(self).tier_of(v) == old(self).tier_of(v)
                    &&& final(self).whitelist@.len() == old(self).whitelist@.len() - 1
                    &&& final(self).tiers == old(self).tiers
                    &&& final(self).contributions == old(self).contributions
                    &&& final(self).refunded == old(self).refunded
                    &&& final(self).contributors == old(self).contributors
                    &&& final(self).tier_total_contributions == old(
                        self,
                    ).tier_total_contributions
                    &&& old(self).same_config(*final(self))
                    &&& old(self).same_flags(*final(self))
                    &&& final(self).total_contributions == old(self).total_contributions
                },
            },
    {
        if caller != self.owner {
            return Err(PresaleError::NotOwner);
        }
        if self.paused {
            return Err(PresaleError::PresalePaused);
        }
        let i = match find_wl_index(&self.whitelist, user) {
            Some(i) => i,
            None => {
                return Err(PresaleError::UserNotWhitelisted);
            },
        };
        let ghost pre = *self;
        proof {
            lemma_wl_at(self.whitelist@, i as int);
            lemma_wl_remove(self.whitelist@, i as int);
        }
        self.whitelist.remove(i);
        proof {
            assert forall|k: int| 0 <= k < self.whitelist@.len() implies {
                let en = #[trigger] self.whitelist@[k];
                &&& self.has_tier(en.tier_name@)
                &&& ce_amount(self.contributions@, en.user) <= self.tier_cap(en.tier_name@)
            } by {
                if k < i as int {
                    assert(self.whitelist@[k] == pre.whitelist@[k]);
                } else {
                    assert(self.whitelist@[k] == pre.whitelist@[k + 1]);
                }
            }
        }
        Ok(events::UserRemoved { user, timestamp: now })
    }

    /// Sum law: in every well-formed presale state the running total equals
    /// the sum of the recorded per-participant contributions.
    pub proof fn lemma_total_contributions_is_sum(self)
        requires
            self.wf(),
        ensures
            sum_all(amounts_of(self.contributions@)) == self.total_contributions,
    {
    }

    /// Cap law: in every well-formed presale state, a whitelisted
    /// participant's recorded contribution fits their assigned tier's cap,
    /// and the running total fits the hard cap.
    pub proof fn lemma_caps_respected(self, user: u64)
        requires
            self.wf(),
            self.is_whitelisted(user),
        ensures
            self.has_tier(self.tier_of(user)),
            self.contribution_of(user) <= self.tier_cap(self.tier_of(user)),
            self.total_contributions <= self.hard_cap,
    {
        let i = wl_idx(self.whitelist@, user);
        assert(0 <= i < self.whitelist@.len() && self.whitelist@[i].user == user);
        assert(self.has_tier(self.whitelist@[i].tier_name@) && ce_amount(
            self.contributions@,
            self.whitelist@[i].user,
        ) <= self.tier_cap(self.whitelist@[i].tier_name@));
        lemma_wl_at(self.whitelist@, i);
    }

    /// One-shot refund law: after a successful refund of `user` from a
    /// well-formed state, any state `t` that `refund` may leave behind — the
    /// lifecycle flags as they were and the one-shot mark set, exactly what
    /// `refund`'s postcondition gives for `final(self)` — answers a second
    /// refund by the same user with `AlreadyRefunded`.
    pub proof fn lemma_refund_one_shot(self, t: Presale, user: u64)
        requires
            self.wf(),
            self.refund_err(user) is None,
            t.paused == self.paused,
            t.is_closed == self.is_closed,
            t.refunds_allowed == self.refunds_allowed,
            t.is_refunded(user),
        ensures
            t.refund_err(user) == Some(PresaleError::AlreadyRefunded),
    {
    }

    /// First failing check of `Presale::initialize`, if any.
    pub open spec fn initialize_err(
        tier_names: Seq<String>,
        tier_max_contributions: Seq<u64>,
        min_contribution: u64,
        hard_cap: u64,
    ) -> Option<PresaleError> {
        if min_contribution == 0 {
            Some(PresaleError::InvalidMinContribution)
        } else if hard_cap == 0 {
            Some(PresaleError::InvalidHardCap)
        } else if tier_names.len() > MAX_TIERS {
            Some(PresaleError::ExceedsMaxTiers)
        } else if tier_names.len() != tier_max_contributions.len() {
            Some(PresaleError::TierDataMismatch)
        } else if sum_all(tier_max_contributions) > u64::MAX {
            Some(PresaleError::Overflow)
        } else if hard_cap < sum_all(tier_max_contributions) {
            Some(PresaleError::HardCapLessThanTierMax)
        } else {
            init_tier_err(tier_names, tier_max_contributions, 0)
        }
    }

    /// Creates a presale with its initial tier registry.
    ///
    /// The hard cap must cover the sum of all tier caps; tier names are
    /// stored normalized and must be distinct in that form. The ledger starts
    /// active, unpaused, with nothing contributed and nobody whitelisted.
    pub fn initialize(
        owner: u64,
        usdt_mint: u64,
        tier_names: Vec<String>,
        tier_max_contributions: Vec<u64>,
        min_contribution: u64,
        hard_cap: u64,
    ) -> (r: Result<Presale, PresaleError>)
        ensures
            match r {
                Err(e) => Some(e) == Self::initialize_err(
                    tier_names@,
                    tier_max_contributions@,
                    min_contribution,
                    hard_cap,
                ),
                Ok(p) => {
                    &&& Self::initialize_err(
                        tier_names@,
                        tier_max_contributions@,
                        min_contribution,
                        hard_cap,
                    ) is None
                    &&& p.wf()
                    &&& p.owner == owner
                    &&& p.usdt_mint == usdt_mint
                    &&& p.min_contribution == min_contribution
                    &&& p.hard_cap == hard_cap
                    &&& p.total_contributions == 0
                    &&& p.is_active
                    &&& !p.is_closed
                    &&& !p.refunds_allowed
                    &&& !p.paused
                    &&& p.tiers@.len() == tier_names@.len()
                    &&& forall|i: int|
                        0 <= i < tier_names@.len() ==> (#[trigger] p.tiers@[i]).name@ == normalized(
                            tier_names@[i]@,
                        ) && p.tiers@[i].max_contribution == tier_max_contributions@[i]
                    &&& p.whitelist@.len() == 0
                    &&& p.contributions@.len() == 0
                    &&& p.refunded@.len() == 0
                    &&& p.contributors@.len() == 0
                    &&& p.tier_total_contributions@.len() == 0
                },
            },
    {
        if min_contribution == 0 {
            return Err(PresaleError::InvalidMinContribution);
        }
        if hard_cap == 0 {
            return Err(PresaleError::InvalidHardCap);
        }
        let n = tier_names.len();
        if n > MAX_TIERS {
            return Err(PresaleError::ExceedsMaxTiers);
        }
        if n != tier_max_contributions.len() {
            return Err(PresaleError::TierDataMismatch);
        }
        let mut sum_tier_max: u64 = 0;
        let mut k: usize = 0;
        while k < n
            invariant
                k <= n,
                min_contribution > 0,
                hard_cap > 0,
                n <= MAX_TIERS,
                n == tier_names@.len(),
                n == tier_max_contributions@.len(),
                sum_tier_max == sum_prefix(tier_max_contributions@, k as int),
            decreases n - k,
        {
            let cap = tier_max_contributions[k];
            if cap > u64::MAX - sum_tier_max {
                proof {
                    assert(sum_prefix(tier_max_contributions@, k as int + 1) == sum_prefix(
                        tier_max_contributions@,
                        k as int,
                    ) + tier_max_contributions@[k as int]);
                    lemma_sum_prefix_monotonic(tier_max_contributions@, k as int + 1, n as int);
                }
                return Err(PresaleError::Overflow);
            }
            sum_tier_max = sum_tier_max + cap;
            k = k + 1;
        }
        if hard_cap < sum_tier_max {
            return Err(PresaleError::HardCapLessThanTierMax);
        }
        let mut tiers: Vec<Tier> = Vec::new();
        let mut i: usize = 0;
        while i < n
            invariant
                i <= n,
                min_contribution > 0,
                hard_cap > 0,
                n <= MAX_TIERS,
                n == tier_names@.len(),
                n == tier_max_contributions@.len(),
                sum_all(tier_max_contributions@) <= u64::MAX,
                hard_cap >= sum_all(tier_max_contributions@),
                tiers@.len() == i,
                tier_keys_unique(tiers@),
                forall|j: int|
                    0 <= j < i ==> (#[trigger] tiers@[j]).name@ == normalized(tier_names@[j]@)
                        && tiers@[j].max_contribution == tier_max_contributions@[j]
                        && tiers@[j].max_contribution > 0,
                init_tier_err(tier_names@, tier_max_contributions@, 0) == init_tier_err(
                    tier_names@,
                    tier_max_contributions@,
                    i as int,
                ),
            decreases n - i,
        {
            let max_contribution = tier_max_contributions[i];
            if tier_names[i].as_str().unicode_len() > MAX_TIER_NAME_LENGTH {
                return Err(PresaleError::TierNameTooLong);
            }
            let normalized_tier = normalize_tier_name(tier_names[i].as_str());
            if find_tier_index(&tiers, &normalized_tier).is_some() {
                proof {
                    let t = choose|t: int|
                        0 <= t < tiers@.len() && (#[trigger] tiers@[t]).name@ == normalized_tier@;
                    assert(normalized(tier_names@[t]@) == normalized(tier_names@[i as int]@));
                }
                return Err(PresaleError::TierAlreadyExists);
            }
            if max_contribution == 0 {
                proof {
                    if exists|j: int|
                        0 <= j < i && normalized((#[trigger] tier_names@[j])@) == normalized(
                            tier_names@[i as int]@,
                        ) {
                        let j = choose|j: int|
                            0 <= j < i && normalized((#[trigger] tier_names@[j])@) == normalized(
                                tier_names@[i as int]@,
                            );
                        assert(tiers@[j].name@ == normalized_tier@);
                        assert(has_tier_in(tiers@, normalized_tier@));
                    }
                }
                return Err(PresaleError::InvalidMaxContribution);
            }
            proof {
                if exists|j: int|
                    0 <= j < i && normalized((#[trigger] tier_names@[j])@) == normalized(
                        tier_names@[i as int]@,
                    ) {
                    let j = choose|j: int|
                        0 <= j < i && normalized((#[trigger] tier_names@[j])@) == normalized(
                            tier_names@[i as int]@,
                        );
                    assert(tiers@[j].name@ == normalized_tier@);
                    assert(has_tier_in(tiers@, normalized_tier@));
                }
                lemma_tier_push(tiers@, Tier { name: normalized_tier, max_contribution });
            }
            tiers.push(Tier { name: normalized_tier, max_contribution });
            i = i + 1;
        }
        let p = Presale {
            owner,
            usdt_mint,
            min_contribution,
            hard_cap,
            total_contributions: 0,
            is_active: true,
            is_closed: false,
            refunds_allowed: false,
            paused: false,
            tiers,
            whitelist: Vec::new(),
            contributions: Vec::new(),
            refunded: Vec::new(),
            contributors: Vec::new(),
            tier_total_contributions: Vec::new(),
        };
        proof {
            assert(amounts_of(p.contributions@) =~= Seq::<u64>::empty());
        }
        Ok(p)
    }

    /// First failing per-pair check of `bulk_assign_tiers`, scanning the
    /// batch from position `i` on, always against the state before the call.
    pub open spec fn bulk_pair_err(self, users: Seq<u64>, tiers: Seq<String>, i: int) -> Option<
        PresaleError,
    >
        decreases tiers.len() - i,
    {
        if i < 0 || i >= tiers.len() {
            None
        } else if tiers[i]@.len() > MAX_TIER_NAME_LENGTH {
            Some(PresaleError::TierNameTooLong)
        } else if !self.has_tier(normalized(tiers[i]@)) {
            Some(PresaleError::TierDoesNotExist)
        } else if self.is_whitelisted(users[i]) {
            Some(PresaleError::UserAlreadyWhitelisted)
        } else if self.contribution_of(users[i]) > self.tier_cap(normalized(tiers[i]@)) {
            Some(PresaleError::AboveMaxContribution)
        } else {
            None
        }
    }

    /// First failing per-pair check of the whole batch from position `i` on.
    pub open spec fn bulk_pairs_err(self, users: Seq<u64>, tiers: Seq<String>, i: int) -> Option<
        PresaleError,
    >
        decreases tiers.len() - i,
    {
        if i < 0 || i >= tiers.len() {
            None
        } else if self.bulk_pair_err(users, tiers, i) is Some {
            self.bulk_pair_err(users, tiers, i)
        } else {
            self.bulk_pairs_err(users, tiers, i + 1)
        }
    }

    /// First failing check of `bulk_assign_tiers`, if any.
    pub open spec fn bulk_assign_tiers_err(self, caller: u64, users: Seq<u64>, tiers: Seq<String>)
        -> Option<PresaleError> {
        if caller != self.owner {
            Some(PresaleError::NotOwner)
        } else if self.paused {
            Some(PresaleError::PresalePaused)
        } else if users.len() != tiers.len() {
            Some(PresaleError::MismatchUsersTiers)
        } else if users.len() > MAX_BULK_ASSIGN {
            Some(PresaleError::ExceedsBulkAssignLimit)
        } else if self.whitelist@.len() + users.len() > MAX_USERS {
            Some(PresaleError::ExceedsMaxUsers)
        } else {
            self.bulk_pairs_err(users, tiers, 0)
        }
    }

    /// When the whole batch validates, every pair of it does.
    proof fn lemma_bulk_pairs_ok(self, users: Seq<u64>, tiers: Seq<String>, i: int)
        requires
            users.len() == tiers.len(),
            0 <= i <= tiers.len(),
            self.bulk_pairs_err(users, tiers, i) is None,
        ensures
            forall|k: int|
                i <= k < tiers.len() ==> self.bulk_pair_err(users, tiers, k) is None,
        decreases tiers.len() - i,
    {
        if i < tiers.len() {
            self.lemma_bulk_pairs_ok(users, tiers, i + 1);
        }
    }

    /// Whitelists a whole batch of users, all or nothing.
    ///
    /// Every pair is validated against the pre-call state before any entry is
    /// written, so one invalid pair leaves the whitelist untouched. When a
    /// user appears more than once in the batch, the last pair wins.
    pub fn bulk_assign_tiers(&mut self, caller: u64, users: Vec<u64>, tiers: Vec<String>, now: u64)
        -> (r: Result<Vec<events::UserLimitSet>, PresaleError>)
        requires
            old(self).wf(),
        ensures
            final(self).wf(),
            match r {
                Err(e) => {
                    &&& Some(e) == old(self).bulk_assign_tiers_err(caller, users@, tiers@)
                    &&& *final(self) == *old(self)
                },
                Ok(evs) => {
                    &&& old(self).bulk_assign_tiers_err(caller, users@, tiers@) is None
                    &&& evs@.len() == users@.len()
                    &&& forall|j: int|
                        0 <= j < users@.len() ==> #[trigger] evs@[j] == (events::UserLimitSet {
                            user: users@[j],
                            max_contribution: old(self).tier_cap(normalized(tiers@[j]@)),
                            timestamp: now,
                        })
                    &&& forall|j: int|
                        0 <= j < users@.len() ==> #[trigger] final(self).is_whitelisted(users@[j])
                    &&& forall|j: int|
                        0 <= j < users@.len() && last_occurrence_before(
                            users@,
                            j,
                            users@.len() as int,
                        ) ==> #[trigger] final(self).tier_of(users@[j]) == normalized(tiers@[j]@)
                    &&& forall|v: u64|
                        !occurs_before(users@, v, users@.len() as int)
                            ==> #[trigger] final(self).is_whitelisted(v) == old(
                            self,
                        ).is_whitelisted(v)
                    &&& forall|v: u64|
                        !occurs_before(users@, v, users@.len() as int) && old(self).is_whitelisted(
                            v,
                        ) ==> #[trigger] final(self).tier_of(v) == old(self).tier_of(v)
                    &&& final(self).tiers == old(self).tiers
                    &&& final(self).contributions == old(self).contributions
                    &&& final(self).refunded == old(self).refunded
                    &&& final(self).contributors == old(self).contributors
                    &&& final(self).tier_total_contributions == old(
                        self,
                    ).tier_total_contributions
                    &&& old(self).same_config(*final(self))
                    &&& old(self).same_flags(*final(self))
                    &&& final(self).total_contributions == old(self).total_contributions
                },
            },
    {
        if caller != self.owner {
            return Err(PresaleError::NotOwner);
        }
        if self.paused {
            return Err(PresaleError::PresalePaused);
        }
        let n = users.len();
        if n != tiers.len() {
            return Err(PresaleError::MismatchUsersTiers);
        }
        if n > MAX_BULK_ASSIGN {
            return Err(PresaleError::ExceedsBulkAssignLimit);
        }
        if self.whitelist.len() > MAX_USERS - n {
            return Err(PresaleError::ExceedsMaxUsers);
        }
        // First pass: validate every pair against the untouched state.
        let mut i: usize = 0;
        while i < n
            invariant
                i <= n,
                n == users@.len(),
                n == tiers@.len(),
                caller == self.owner,
                !self.paused,
                n <= MAX_BULK_ASSIGN,
                self.whitelist@.len() + n <= MAX_USERS,
                self.wf(),
                self.bulk_pairs_err(users@, tiers@, 0) == self.bulk_pairs_err(
                    users@,
                    tiers@,
                    i as int,
                ),
            decreases n - i,
        {
            if tiers[i].as_str().unicode_len() > MAX_TIER_NAME_LENGTH {
                return Err(PresaleError::TierNameTooLong);
            }
            let normalized_tier = normalize_tier_name(tiers[i].as_str());
            let cap = match find_tier_index(&self.tiers, &normalized_tier) {
                Some(ti) => {
                    proof {
                        lemma_tier_at(self.tiers@, ti as int);
                    }
                    self.tiers[ti].max_contribution
                },
                None => {
                    return Err(PresaleError::TierDoesNotExist);
                },
            };
            if find_wl_index(&self.whitelist, users[i]).is_some() {
                return Err(PresaleError::UserAlreadyWhitelisted);
            }
            let recorded = match find_ce_index(&self.contributions, users[i]) {
                Some(ci) => {
                    proof {
                        lemma_ce_at(self.contributions@, ci as int);
                    }
                    self.contributions[ci].amount
                },
                None => 0,
            };
            if recorded > cap {
                return Err(PresaleError::AboveMaxContribution);
            }
            i = i + 1;
        }
        let ghost pre = *self;
        proof {
            pre.lemma_bulk_pairs_ok(users@, tiers@, 0);
        }
        // Second pass: apply every pair; the batch can no longer fail.
        let mut events_out: Vec<events::UserLimitSet> = Vec::new();
        let mut k: usize = 0;
        while k < n
            invariant
                k <= n,
                n == users@.len(),
                n == tiers@.len(),
                pre.wf(),
                self.wf(),
                !pre.paused,
                forall|j: int|
                    0 <= j < n ==> pre.bulk_pair_err(users@, tiers@, j) is None,
                pre.whitelist@.len() + n <= MAX_USERS,
                self.whitelist@.len() <= pre.whitelist@.len() + k,
                self.tiers == pre.tiers,
                self.contributions == pre.contributions,
                self.refunded == pre.refunded,
                self.contributors == pre.contributors,
                self.tier_total_contributions == pre.tier_total_contributions,
                self.owner == pre.owner,
                self.usdt_mint == pre.usdt_mint,
                self.min_contribution == pre.min_contribution,
                self.hard_cap == pre.hard_cap,
                self.total_contributions == pre.total_contributions,
                self.is_active == pre.is_active,
                self.is_closed == pre.is_closed,
                self.refunds_allowed == pre.refunds_allowed,
                self.paused == pre.paused,
                events_out@.len() == k,
                forall|j: int|
                    0 <= j < k ==> #[trigger] events_out@[j] == (events::UserLimitSet {
                        user: users@[j],
                        max_contribution: pre.tier_cap(normalized(tiers@[j]@)),
                        timestamp: now,
                    }),
                forall|j: int| 0 <= j < k ==> #[trigger] self.is_whitelisted(users@[j]),
                forall|j: int|
                    0 <= j < k && last_occurrence_before(users@, j, k as int)
                        ==> #[trigger] self.tier_of(users@[j]) == normalized(tiers@[j]@),
                forall|v: u64|
                    !occurs_before(users@, v, k as int) ==> #[trigger] self.is_whitelisted(v)
                        == pre.is_whitelisted(v),
                forall|v: u64|
                    !occurs_before(users@, v, k as int) && pre.is_whitelisted(v)
                        ==> #[trigger] self.tier_of(v) == pre.tier_of(v),
            decreases n - k,
        {
            let ghost mid = *self;
            let user = users[k];
            let normalized_tier = normalize_tier_name(tiers[k].as_str());
            proof {
                assert(pre.bulk_pair_err(users@, tiers@, k as int) is None);
            }
            let cap = match find_tier_index(&self.tiers, &normalized_tier) {
                Some(ti) => {
                    proof {
                        lemma_tier_at(self.tiers@, ti as int);
                    }
                    self.tiers[ti].max_contribution
                },
                None => {
                    // Unreachable: the first pass established that this
                    // tier exists, and the registry has not changed since.
                    proof {
                        assert(false);
                    }
                    return Err(PresaleError::TierDoesNotExist);
                },
            };
            let e = WhitelistEntry { user, tier_name: normalized_tier };
            match find_wl_index(&self.whitelist, user) {
                Some(wi) => {
                    proof {
                        lemma_wl_at(self.whitelist@, wi as int);
                        lemma_wl_update(self.whitelist@, wi as int, e);
                    }
                    self.whitelist[wi] = e;
                },
                None => {
                    proof {
                        lemma_wl_push(self.whitelist@, e);
                    }
                    self.whitelist.push(e);
                },
            }
            proof {
                assert forall|w: int| 0 <= w < self.whitelist@.len() implies {
                    let en = #[trigger] self.whitelist@[w];
                    &&& self.has_tier(en.tier_name@)
                    &&& ce_amount(self.contributions@, en.user) <= self.tier_cap(en.tier_name@)
                } by {
                    let en = self.whitelist@[w];
                    if en.user == user && en.tier_name@ == normalized_tier@ {
                        assert(pre.contribution_of(user) <= pre.tier_cap(normalized_tier@));
                    } else {
                        if w < mid.whitelist@.len() {
                            assert(en == mid.whitelist@[w]);
                        } else {
                            assert(en == e);
                        }
                    }
                }
            }
            events_out.push(events::UserLimitSet { user, max_contribution: cap, timestamp: now });
            k = k + 1;
            proof {
                assert(users@[k as int - 1] == user);
                assert forall|j: int| 0 <= j < k implies #[trigger] self.is_whitelisted(
                    users@[j],
                ) by {
                    if users@[j] == user {
                        assert(self.is_whitelisted(user));
                    } else {
                        assert(j < k - 1);
                        assert(mid.is_whitelisted(users@[j]));
                        assert(self.is_whitelisted(users@[j]) == mid.is_whitelisted(users@[j]));
                    }
                }
                assert forall|j: int|
                    0 <= j < k && last_occurrence_before(users@, j, k as int) implies
                    #[trigger] self.tier_of(users@[j]) == normalized(tiers@[j]@) by {
                    if j == k - 1 {
                        assert(self.tier_of(user) == normalized_tier@);
                    } else {
                        assert(users@[k as int - 1] != users@[j]);
                        assert(last_occurrence_before(users@, j, k as int - 1));
                        assert(mid.is_whitelisted(users@[j]));
                        assert(mid.tier_of(users@[j]) == normalized(tiers@[j]@));
                        assert(self.tier_of(users@[j]) == mid.tier_of(users@[j]));
                    }
                }
                assert forall|v: u64| !occurs_before(users@, v, k as int) implies
                    #[trigger] self.is_whitelisted(v) == pre.is_whitelisted(v) by {
                    assert(users@[k as int - 1] == user);
                    assert(v != user);
                    if occurs_before(users@, v, k as int - 1) {
                        let j = choose|j: int| 0 <= j < k as int - 1 && users@[j] == v;
                        assert(occurs_before(users@, v, k as int));
                    }
                    assert(mid.is_whitelisted(v) == pre.is_whitelisted(v));
                }
                assert forall|v: u64|
                    !occurs_before(users@, v, k as int) && pre.is_whitelisted(v) implies
                    #[trigger] self.tier_of(v) == pre.tier_of(v) by {
                    assert(users@[k as int - 1] == user);
                    assert(v != user);
                    if occurs_before(users@, v, k as int - 1) {
                        let j = choose|j: int| 0 <= j < k as int - 1 && users@[j] == v;
                        assert(occurs_before(users@, v, k as int));
                    }
                    assert(mid.is_whitelisted(v) == pre.is_whitelisted(v));
                    assert(mid.tier_of(v) == pre.tier_of(v));
                }
            }
        }
        Ok(events_out)
    }

    /// First failing check of `update_user_tier`, if any. A move that all
    /// checks allow but that changes nothing (same tier) yields `None` too.
    pub open spec fn update_user_tier_err(self, caller: u64, user: u64, new_tier: Seq<char>)
        -> Option<PresaleError> {
        if caller != self.owner {
            Some(PresaleError::NotOwner)
        } else if self.paused {
            Some(PresaleError::PresalePaused)
        } else if new_tier.len() > MAX_TIER_NAME_LENGTH {
            Some(PresaleError::TierNameTooLong)
        } else if !self.has_tier(normalized(new_tier)) {
            Some(PresaleError::TierDoesNotExist)
        } else if !self.is_whitelisted(user) {
            Some(PresaleError::UserNotWhitelisted)
        } else if self.tier_of(user) == normalized(new_tier) {
            None
        } else if self.contribution_of(user) > self.tier_cap(normalized(new_tier)) {
            Some(PresaleError::ExceedsNewTierMaxContribution)
        } else if self.contribution_of(user) > 0 && tt_has(
            self.tier_total_contributions@,
            self.tier_of(user),
        ) && self.tier_total_of(self.tier_of(user)) < self.contribution_of(user) {
            Some(PresaleError::Overflow)
        } else if self.contribution_of(user) > 0 && self.tier_total_of(normalized(new_tier))
            + self.contribution_of(user) > u64::MAX {
            Some(PresaleError::Overflow)
        } else {
            None
        }
    }

    /// Whether `update_user_tier` would change nothing: the user is already
    /// bound to the requested tier.
    pub open spec fn update_user_tier_noop(self, user: u64, new_tier: Seq<char>) -> bool {
        self.tier_of(user) == normalized(new_tier)
    }

    /// Moves a whitelisted user to another tier. The user's recorded
    /// contribution must fit the new tier's cap, and is shifted from the old
    /// tier's running total to the new tier's. Both adjustments are validated
    /// before anything is written, so a failure leaves the ledger unchanged.
    pub fn update_user_tier(&mut self, caller: u64, user: u64, new_tier: String, now: u64) -> (r:
        Result<Option<events::UserLimitSet>, PresaleError>)
        requires
            old(self).wf(),
        ensures
            final(self).wf(),
            match r {
                Err(e) => {
                    &&& Some(e) == old(self).update_user_tier_err(caller, user, new_tier@)
                    &&& *final(self) == *old(self)
                },
                Ok(opt) => {
                    &&& old(self).update_user_tier_err(caller, user, new_tier@) is None
                    &&& if old(self).update_user_tier_noop(user, new_tier@) {
                        opt is None && *final(self) == *old(self)
                    } else {
                        let c = old(self).contribution_of(user);
                        let ot = old(self).tier_of(user);
                        let nt = normalized(new_tier@);
                        &&& opt == Some(
                            events::UserLimitSet {
                                user,
                                max_contribution: old(self).tier_cap(nt),
                                timestamp: now,
                            },
                        )
                        &&& final(self).is_whitelisted(user)
                        &&& final(self).tier_of(user) == nt
                        &&& forall|v: u64|
                            v != user ==> #[trigger] final(self).is_whitelisted(v)
                                == old(self).is_whitelisted(v)
                        &&& forall|v: u64|
                            v != user && old(self).is_whitelisted(v)
                                ==> #[trigger] final(self).tier_of(v) == old(self).tier_of(v)
                        &&& final(self).tier_total_of(ot) == old(self).tier_total_of(ot) - (
                        if c > 0 && tt_has(old(self).tier_total_contributions@, ot) {
                            c as int
                        } else {
                            0
                        })
                        &&& c > 0 ==> final(self).tier_total_of(nt) == old(self).tier_total_of(nt)
                            + c
                        &&& c == 0 ==> final(self).tier_total_contributions == old(
                            self,
                        ).tier_total_contributions
                        &&& forall|n: Seq<char>|
                            n != ot && n != nt ==> #[trigger] final(self).tier_total_of(n)
                                == old(self).tier_total_of(n)
                        &&& final(self).tiers == old(self).tiers
                        &&& final(self).contributions == old(self).contributions
                        &&& final(self).refunded == old(self).refunded
                        &&& final(self).contributors == old(self).contributors
                        &&& old(self).same_config(*final(self))
                        &&& old(self).same_flags(*final(self))
                        &&& final(self).total_contributions == old(self).total_contributions
                    }
                },
            },
    {
        if caller != self.owner {
            return Err(PresaleError::NotOwner);
        }
        if self.paused {
            return Err(PresaleError::PresalePaused);
        }
        if new_tier.as_str().unicode_len() > MAX_TIER_NAME_LENGTH {
            return Err(PresaleError::TierNameTooLong);
        }
        let normalized_tier = normalize_tier_name(new_tier.as_str());
        let new_cap = match find_tier_index(&self.tiers, &normalized_tier) {
            Some(ti) => {
                proof {
                    lemma_tier_at(self.tiers@, ti as int);
                }
                self.tiers[ti].max_contribution
            },
            None => {
                return Err(PresaleError::TierDoesNotExist);
            },
        };
        let wi = match find_wl_index(&self.whitelist, user) {
            Some(wi) => wi,
            None => {
                return Err(PresaleError::UserNotWhitelisted);
            },
        };
        proof {
            lemma_wl_at(self.whitelist@, wi as int);
        }
        if self.whitelist[wi].tier_name == normalized_tier {
            return Ok(None);
        }
        let c = match find_ce_index(&self.contributions, user) {
            Some(ci) => {
                proof {
                    lemma_ce_at(self.contributions@, ci as int);
                }
                self.contributions[ci].amount
            },
            None => 0,
        };
        if c > new_cap {
            return Err(PresaleError::ExceedsNewTierMaxContribution);
        }
        let ghost pre = *self;
        let ghost ot = self.whitelist@[wi as int].tier_name@;
        let ghost nt = normalized_tier@;
        if c > 0 {
            // Validate both running-total adjustments before writing either.
            let o_idx = find_tt_index(&self.tier_total_contributions, &self.whitelist[wi].tier_name);
            let n_idx = find_tt_index(&self.tier_total_contributions, &normalized_tier);
            let reduced_old = match o_idx {
                Some(oi) => {
                    proof {
                        lemma_tt_at(self.tier_total_contributions@, oi as int);
                    }
                    let t = self.tier_total_contributions[oi].total;
                    if t < c {
                        return Err(PresaleError::Overflow);
                    }
                    Some(t - c)
                },
                None => None,
            };
            let current_new = match n_idx {
                Some(ni) => {
                    proof {
                        lemma_tt_at(self.tier_total_contributions@, ni as int);
                    }
                    self.tier_total_contributions[ni].total
                },
                None => 0,
            };
            if current_new > u64::MAX - c {
                return Err(PresaleError::Overflow);
            }
            let ghost s0 = self.tier_total_contributions@;
            if let Some(oi) = o_idx {
                let v = reduced_old.unwrap();
                let nm = self.tier_total_contributions[oi].name.clone();
                proof {
                    lemma_tt_update(self.tier_total_contributions@, oi as int, v);
                }
                self.tier_total_contributions[oi] = TierTotal { name: nm, total: v };
            }
            let ghost s1 = self.tier_total_contributions@;
            match n_idx {
                Some(ni) => {
                    proof {
                        assert(s1[ni as int].name@ == nt && s1[ni as int].total == current_new);
                        lemma_tt_at(s1, ni as int);
                        lemma_tt_update(s1, ni as int, (current_new + c) as u64);
                    }
                    let nm2 = self.tier_total_contributions[ni].name.clone();
                    self.tier_total_contributions[ni] = TierTotal {
                        name: nm2,
                        total: current_new + c,
                    };
                },
                None => {
                    let entry = TierTotal { name: normalized_tier.clone(), total: c };
                    proof {
                        assert(!tt_has(s1, nt));
                        lemma_tt_push(s1, entry);
                    }
                    self.tier_total_contributions.push(entry);
                },
            }
        }
        let e2 = WhitelistEntry { user, tier_name: normalized_tier };
        proof {
            lemma_wl_update(self.whitelist@, wi as int, e2);
        }
        self.whitelist[wi] = e2;
        proof {
            assert forall|i: int| 0 <= i < self.whitelist@.len() implies {
                let en = #[trigger] self.whitelist@[i];
                &&& self.has_tier(en.tier_name@)
                &&& ce_amount(self.contributions@, en.user) <= self.tier_cap(en.tier_name@)
            } by {
                let en = self.whitelist@[i];
                if i == wi as int {
                    assert(en.tier_name@ == nt);
                } else {
                    assert(en == pre.whitelist@[i]);
                }
            }
        }
        Ok(Some(events::UserLimitSet { user, max_contribution: new_cap, timestamp: now }))
    }

    /// First failing check of `contribute`, if any.
    pub open spec fn contribute_err(self, user: u64, amount: u64) -> Option<PresaleError> {
        if self.paused {
            Some(PresaleError::PresalePaused)
        } else if !self.is_active {
            Some(PresaleError::PresaleNotActive)
        } else if self.is_closed {
            Some(PresaleError::PresaleClosed)
        } else if !self.is_whitelisted(user) {
            Some(PresaleError::UserNotWhitelisted)
        } else if !self.has_tier(self.tier_of(user)) {
            Some(PresaleError::TierDoesNotExist)
        } else if self.total_contributions + amount > u64::MAX {
            Some(PresaleError::Overflow)
        } else if self.total_contributions + amount > self.hard_cap {
            Some(PresaleError::ExceedsHardCap)
        } else if self.contribution_of(user) + amount > u64::MAX {
            Some(PresaleError::Overflow)
        } else if self.contribution_of(user) + amount < self.min_contribution {
            Some(PresaleError::BelowMinContribution)
        } else if self.contribution_of(user) + amount > self.tier_cap(self.tier_of(user)) {
            Some(PresaleError::AboveMaxContribution)
        } else {
            None
        }
    }

    /// Records a contribution by `user`.
    ///
    /// All checks run before any write, so a failure leaves the ledger
    /// unchanged. On success the host must move exactly `amount` from the
    /// user into custody, and discard the updated ledger if that transfer
    /// fails, so that bookkeeping and transfer commit as one unit.
    pub fn contribute(&mut self, user: u64, amount: u64, now: u64) -> (r: Result<
        events::Contribution,
        PresaleError,
    >)
        requires
            old(self).wf(),
        ensures
            final(self).wf(),
            match r {
                Err(e) => {
                    &&& Some(e) == old(self).contribute_err(user, amount)
                    &&& *final(self) == *old(self)
                },
                Ok(ev) => {
                    &&& old(self).contribute_err(user, amount) is None
                    &&& ev == (events::Contribution { contributor: user, amount, timestamp: now })
                    &&& final(self).contribution_of(user) == old(self).contribution_of(user)
                        + amount
                    &&& final(self).total_contributions == old(self).total_contributions + amount
                    &&& forall|v: u64|
                        v != user ==> #[trigger] final(self).contribution_of(v)
                            == old(self).contribution_of(v)
                    &&& final(self).contributors@ == if old(self).has_record(user) {
                        old(self).contributors@
                    } else {
                        old(self).contributors@.push(user)
                    }
                    &&& final(self).tiers == old(self).tiers
                    &&& final(self).whitelist == old(self).whitelist
                    &&& final(self).refunded == old(self).refunded
                    &&& final(self).tier_total_contributions == old(
                        self,
                    ).tier_total_contributions
                    &&& old(self).same_config(*final(self))
                    &&& old(self).same_flags(*final(self))
                },
            },
    {
        if self.paused {
            return Err(PresaleError::PresalePaused);
        }
        if !self.is_active {
            return Err(PresaleError::PresaleNotActive);
        }
        if self.is_closed {
            return Err(PresaleError::PresaleClosed);
        }
        let wi = match find_wl_index(&self.whitelist, user) {
            Some(wi) => wi,
            None => {
                return Err(PresaleError::UserNotWhitelisted);
            },
        };
        proof {
            lemma_wl_at(self.whitelist@, wi as int);
        }
        let tier_max = match find_tier_index(&self.tiers, &self.whitelist[wi].tier_name) {
            Some(ti) => {
                proof {
                    lemma_tier_at(self.tiers@, ti as int);
                }
                self.tiers[ti].max_contribution
            },
            None => {
                return Err(PresaleError::TierDoesNotExist);
            },
        };
        if amount > u64::MAX - self.total_contributions {
            return Err(PresaleError::Overflow);
        }
        let new_total = self.total_contributions + amount;
        if new_total > self.hard_cap {
            return Err(PresaleError::ExceedsHardCap);
        }
        let record = find_ce_index(&self.contributions, user);
        let previous_contribution = match record {
            Some(ci) => {
                proof {
                    lemma_ce_at(self.contributions@, ci as int);
                }
                self.contributions[ci].amount
            },
            None => 0,
        };
        if amount > u64::MAX - previous_contribution {
            return Err(PresaleError::Overflow);
        }
        let user_contribution = previous_contribution + amount;
        if user_contribution < self.min_contribution {
            return Err(PresaleError::BelowMinContribution);
        }
        if user_contribution > tier_max {
            return Err(PresaleError::AboveMaxContribution);
        }
        let ghost pre = *self;
        match record {
            Some(ci) => {
                proof {
                    lemma_ce_update(self.contributions@, ci as int, user_contribution);
                    assert(amounts_of(
                        self.contributions@.update(
                            ci as int,
                            ContributionEntry { user, amount: user_contribution },
                        ),
                    ) =~= amounts_of(self.contributions@).update(ci as int, user_contribution));
                    lemma_sum_update(amounts_of(self.contributions@), ci as int, user_contribution);
                }
                self.contributions[ci] = ContributionEntry { user, amount: user_contribution };
            },
            None => {
                proof {
                    lemma_ce_push(self.contributions@, user, user_contribution);
                    assert(amounts_of(
                        self.contributions@.push(
                            ContributionEntry { user, amount: user_contribution },
                        ),
                    ) =~= amounts_of(self.contributions@).push(user_contribution));
                    lemma_sum_push(amounts_of(self.contributions@), user_contribution);
                    if self.contributors@.contains(user) {
                        let j = choose|j: int|
                            0 <= j < self.contributors@.len() && self.contributors@[j] == user;
                        assert(ce_has(self.contributions@, self.contributors@[j]));
                        assert(false);
                    }
                }
                self.contributors.push(user);
                self.contributions.push(ContributionEntry { user, amount: user_contribution });
            },
        }
        self.total_contributions = new_total;
        proof {
            assert forall|i: int| 0 <= i < self.whitelist@.len() implies {
                let en = #[trigger] self.whitelist@[i];
                &&& self.has_tier(en.tier_name@)
                &&& ce_amount(self.contributions@, en.user) <= self.tier_cap(en.tier_name@)
            } by {
                let en = self.whitelist@[i];
                if en.user != user {
                    assert(ce_amount(self.contributions@, en.user)
                        == ce_amount(pre.contributions@, en.user));
                } else {
                    assert(i == wi as int);
                    assert(en.tier_name@ == pre.tier_of(user));
                }
            }
            assert forall|i: int| 0 <= i < self.contributions@.len() implies
                self.contributors@.contains((#[trigger] self.contributions@[i]).user) by {
                if i < pre.contributions@.len() {
                    assert(self.contributions@[i].user == pre.contributions@[i].user);
                    assert(pre.contributors@.contains(pre.contributions@[i].user));
                    let j = choose|j: int|
                        0 <= j < pre.contributors@.len() && pre.contributors@[j]
                            == pre.contributions@[i].user;
                    assert(self.contributors@[j] == pre.contributions@[i].user);
                } else {
                    assert(self.contributions@[i].user == user);
                    assert(self.contributors@[self.contributors@.len() - 1] == user);
                }
            }
            assert forall|i: int| 0 <= i < self.contributors@.len() implies ce_has(
                self.contributions@,
                #[trigger] self.contributors@[i],
            ) by {
                if i < pre.contributors@.len() {
                    assert(self.contributors@[i] == pre.contributors@[i]);
                    assert(ce_has(pre.contributions@, pre.contributors@[i]));
                } else {
                    assert(self.contributors@[i] == user);
                    assert(ce_has(self.contributions@, user));
                }
            }
        }
        Ok(events::Contribution { contributor: user, amount, timestamp: now })
    }

    /// First failing check of `refund`, if any. A repeated refund reports
    /// `AlreadyRefunded`: the one-shot mark is examined before the zeroed
    /// contribution.
    pub open spec fn refund_err(self, user: u64) -> Option<PresaleError> {
        if self.paused {
            Some(PresaleError::PresalePaused)
        } else if !self.is_closed {
            Some(PresaleError::PresaleNotClosed)
        } else if !self.refunds_allowed {
            Some(PresaleError::RefundsNotAllowed)
        } else if self.is_refunded(user) {
            Some(PresaleError::AlreadyRefunded)
        } else if self.contribution_of(user) == 0 {
            Some(PresaleError::NoContributionsToRefund)
        } else {
            None
        }
    }

    /// Returns a participant's recorded contribution after a refundable close.
    ///
    /// The contribution is zeroed, the running total reduced, and the one-shot
    /// refund mark set, all before the host pays the returned amount out of
    /// custody: the mark-then-pay ordering of this design. A transfer that
    /// fails afterwards forfeits the refund unless the host restores the
    /// previous ledger state.
    pub fn refund(&mut self, user: u64, now: u64) -> (r: Result<events::Refund, PresaleError>)
        requires
            old(self).wf(),
        ensures
            final(self).wf(),
            match r {
                Err(e) => {
                    &&& Some(e) == old(self).refund_err(user)
                    &&& *final(self) == *old(self)
                },
                Ok(ev) => {
                    &&& old(self).refund_err(user) is None
                    &&& ev == (events::Refund {
                        contributor: user,
                        amount: old(self).contribution_of(user),
                        timestamp: now,
                    })
                    &&& final(self).contribution_of(user) == 0
                    &&& final(self).is_refunded(user)
                    &&& final(self).total_contributions == old(self).total_contributions - old(
                        self,
                    ).contribution_of(user)
                    &&& forall|v: u64|
                        v != user ==> #[trigger] final(self).contribution_of(v)
                            == old(self).contribution_of(v)
                    &&& forall|v: u64|
                        v != user ==> #[trigger] final(self).is_refunded(v)
                            == old(self).is_refunded(v)
                    &&& final(self).tiers == old(self).tiers
                    &&& final(self).whitelist == old(self).whitelist
                    &&& final(self).contributors == old(self).contributors
                    &&& final(self).tier_total_contributions == old(
                        self,
                    ).tier_total_contributions
                    &&& old(self).same_config(*final(self))
                    &&& old(self).same_flags(*final(self))
                },
            },
    {
        if self.paused {
            return Err(PresaleError::PresalePaused);
        }
        if !self.is_closed {
            return Err(PresaleError::PresaleNotClosed);
        }
        if !self.refunds_allowed {
            return Err(PresaleError::RefundsNotAllowed);
        }
        let mark = find_rf_index(&self.refunded, user);
        if let Some(ri) = mark {
            if self.refunded[ri].refunded {
                proof {
                    assert(rf_refunded(self.refunded@, user));
                }
                return Err(PresaleError::AlreadyRefunded);
            }
        }
        proof {
            if rf_refunded(self.refunded@, user) {
                let j = choose|j: int|
                    0 <= j < self.refunded@.len() && (#[trigger] self.refunded@[j]).user == user
                        && self.refunded@[j].refunded;
                assert(false);
            }
        }
        let ci = match find_ce_index(&self.contributions, user) {
            Some(ci) => ci,
            None => {
                return Err(PresaleError::NoContributionsToRefund);
            },
        };
        proof {
            lemma_ce_at(self.contributions@, ci as int);
        }
        let contribution = self.contributions[ci].amount;
        if contribution == 0 {
            return Err(PresaleError::NoContributionsToRefund);
        }
        let ghost pre = *self;
        proof {
            lemma_sum_elem_le(amounts_of(self.contributions@), ci as int);
            lemma_ce_update(self.contributions@, ci as int, 0);
            assert(amounts_of(
                self.contributions@.update(ci as int, ContributionEntry { user, amount: 0 }),
            ) =~= amounts_of(self.contributions@).update(ci as int, 0));
            lemma_sum_update(amounts_of(self.contributions@), ci as int, 0);
        }
        self.contributions[ci] = ContributionEntry { user, amount: 0 };
        match mark {
            Some(ri) => {
                proof {
                    lemma_rf_update(self.refunded@, ri as int, true);
                }
                self.refunded[ri] = RefundRecord { user, refunded: true };
            },
            None => {
                proof {
                    lemma_rf_push(self.refunded@, RefundRecord { user, refunded: true });
                }
                self.refunded.push(RefundRecord { user, refunded: true });
            },
        }
        self.total_contributions = self.total_contributions - contribution;
        proof {
            assert forall|i: int| 0 <= i < self.whitelist@.len() implies {
                let en = #[trigger] self.whitelist@[i];
                &&& self.has_tier(en.tier_name@)
                &&& ce_amount(self.contributions@, en.user) <= self.tier_cap(en.tier_name@)
            } by {
                let en = self.whitelist@[i];
                if en.user != user {
                    assert(ce_amount(self.contributions@, en.user)
                        == ce_amount(pre.contributions@, en.user));
                }
            }
            assert forall|i: int| 0 <= i < self.contributions@.len() implies
                self.contributors@.contains((#[trigger] self.contributions@[i]).user) by {
                assert(self.contributions@[i].user == pre.contributions@[i].user);
                assert(pre.contributors@.contains(pre.contributions@[i].user));
            }
            assert forall|i: int| 0 <= i < self.contributors@.len() implies ce_has(
                self.contributions@,
                #[trigger] self.contributors@[i],
            ) by {
                assert(ce_has(pre.contributions@, pre.contributors@[i]));
            }
        }
        Ok(events::Refund { contributor: user, amount: contribution, timestamp: now })
    }

    /// First failing check of `close_presale`, if any.
    pub open spec fn close_presale_err(self, caller: u64) -> Option<PresaleError> {
        if caller != self.owner {
            Some(PresaleError::NotOwner)
        } else if self.paused {
            Some(PresaleError::PresalePaused)
        } else if !self.is_active {
            Some(PresaleError::PresaleNotActive)
        } else if self.is_closed {
            Some(PresaleError::PresaleAlreadyClosed)
        } else {
            None
        }
    }

    /// Closes the presale, fixing whether refunds are allowed afterwards.
    pub fn close_presale(&mut self, caller: u64, refunds_allowed: bool, now: u64) -> (r: Result<
        events::PresaleClosed,
        PresaleError,
    >)
        requires
            old(self).wf(),
        ensures
            final(self).wf(),
            match r {
                Err(e) => {
                    &&& Some(e) == old(self).close_presale_err(caller)
                    &&& *final(self) == *old(self)
                },
                Ok(ev) => {
                    &&& old(self).close_presale_err(caller) is None
                    &&& ev == (events::PresaleClosed { timestamp: now, refunds_allowed })
                    &&& final(self).is_closed
                    &&& !final(self).is_active
                    &&& final(self).refunds_allowed == refunds_allowed
                    &&& final(self).paused == old(self).paused
                    &&& old(self).same_config(*final(self))
                    &&& old(self).same_books(*final(self))
                    &&& final(self).total_contributions == old(self).total_contributions
                },
            },
    {
        if caller != self.owner {
            return Err(PresaleError::NotOwner);
        }
        if self.paused {
            return Err(PresaleError::PresalePaused);
        }
        if !self.is_active {
            return Err(PresaleError::PresaleNotActive);
        }
        if self.is_closed {
            return Err(PresaleError::PresaleAlreadyClosed);
        }
        self.is_closed = true;
        self.is_active = false;
        self.refunds_allowed = refunds_allowed;
        Ok(events::PresaleClosed { timestamp: now, refunds_allowed })
    }

    /// First failing check of `withdraw_funds`, if any.
    pub open spec fn withdraw_funds_err(self, caller: u64, custody_balance: u64) -> Option<
        PresaleError,
    > {
        if caller != self.owner {
            Some(PresaleError::NotOwner)
        } else if self.paused {
            Some(PresaleError::PresalePaused)
        } else if !self.is_closed {
            Some(PresaleError::PresaleNotClosed)
        } else if custody_balance == 0 {
            Some(PresaleError::NoFundsToWithdraw)
        } else {
            None
        }
    }

    /// Authorizes releasing the whole custodied balance to the owner.
    ///
    /// `custody_balance` is the balance the host read from the custody
    /// account; on success the host must transfer exactly that amount under
    /// the ledger's authority. The ledger itself keeps no custody field, so
    /// nothing is mutated here.
    pub fn withdraw_funds(&self, caller: u64, custody_balance: u64, now: u64) -> (r: Result<
        events::FundsWithdrawn,
        PresaleError,
    >)
        ensures
            match r {
                Err(e) => Some(e) == self.withdraw_funds_err(caller, custody_balance),
                Ok(ev) => {
                    &&& self.withdraw_funds_err(caller, custody_balance) is None
                    &&& ev == (events::FundsWithdrawn { amount: custody_balance, timestamp: now })
                },
            },
    {
        if caller != self.owner {
            return Err(PresaleError::NotOwner);
        }
        if self.paused {
            return Err(PresaleError::PresalePaused);
        }
        if !self.is_closed {
            return Err(PresaleError::PresaleNotClosed);
        }
        if custody_balance == 0 {
            return Err(PresaleError::NoFundsToWithdraw);
        }
        Ok(events::FundsWithdrawn { amount: custody_balance, timestamp: now })
    }

    /// First failing check of `set_min_contribution`, if any.
    pub open spec fn set_min_contribution_err(self, caller: u64, new_min: u64) -> Option<
        PresaleError,
    > {
        if caller != self.owner {
            Some(PresaleError::NotOwner)
        } else if self.paused {
            Some(PresaleError::PresalePaused)
        } else if new_min == 0 {
            Some(PresaleError::InvalidMinContribution)
        } else {
            None
        }
    }

    /// Sets the minimum cumulative contribution required of a participant.
    pub fn set_min_contribution(&mut self, caller: u64, new_min: u64, now: u64) -> (r: Result<
        events::MinContributionUpdated,
        PresaleError,
    >)
        requires
            old(self).wf(),
        ensures
            final(self).wf(),
            match r {
                Err(e) => {
                    &&& Some(e) == old(self).set_min_contribution_err(caller, new_min)
                    &&& *final(self) == *old(self)
                },
                Ok(ev) => {
                    &&& old(self).set_min_contribution_err(caller, new_min) is None
                    &&& ev == (events::MinContributionUpdated {
                        new_min_contribution: new_min,
                        timestamp: now,
                    })
                    &&& final(self).min_contribution == new_min
                    &&& final(self).hard_cap == old(self).hard_cap
                    &&& final(self).owner == old(self).owner
                    &&& final(self).usdt_mint == old(self).usdt_mint
                    &&& old(self).same_flags(*final(self))
                    &&& old(self).same_books(*final(self))
                    &&& final(self).total_contributions == old(self).total_contributions
                },
            },
    {
        if caller != self.owner {
            return Err(PresaleError::NotOwner);
        }
        if self.paused {
            return Err(PresaleError::PresalePaused);
        }
        if new_min == 0 {
            return Err(PresaleError::InvalidMinContribution);
        }
        self.min_contribution = new_min;
        Ok(events::MinContributionUpdated { new_min_contribution: new_min, timestamp: now })
    }

    /// First failing check of `set_hard_cap`, if any.
    pub open spec fn set_hard_cap_err(self, caller: u64, new_hard_cap: u64) -> Option<
        PresaleError,
    > {
        if caller != self.owner {
            Some(PresaleError::NotOwner)
        } else if self.paused {
            Some(PresaleError::PresalePaused)
        } else if new_hard_cap == 0 {
            Some(PresaleError::InvalidHardCap)
        } else if new_hard_cap < self.total_contributions {
            Some(PresaleError::HardCapLessThanTotal)
        } else {
            None
        }
    }

    /// Sets the hard cap; it must still cover everything already raised.
    pub fn set_hard_cap(&mut self, caller: u64, new_hard_cap: u64, now: u64) -> (r: Result<
        events::HardCapUpdated,
        PresaleError,
    >)
        requires
            old(self).wf(),
        ensures
            final(self).wf(),
            match r {
                Err(e) => {
                    &&& Some(e) == old(self).set_hard_cap_err(caller, new_hard_cap)
                    &&& *final(self) == *old(self)
                },
                Ok(ev) => {
                    &&& old(self).set_hard_cap_err(caller, new_hard_cap) is None
                    &&& ev == (events::HardCapUpdated { new_hard_cap, timestamp: now })
                    &&& final(self).hard_cap == new_hard_cap
                    &&& final(self).min_contribution == old(self).min_contribution
                    &&& final(self).owner == old(self).owner
                    &&& final(self).usdt_mint == old(self).usdt_mint
                    &&& old(self).same_flags(*final(self))
                    &&& old(self).same_books(*final(self))
                    &&& final(self).total_contributions == old(self).total_contributions
                },
            },
    {
        if caller != self.owner {
            return Err(PresaleError::NotOwner);
        }
        if self.paused {
            return Err(PresaleError::PresalePaused);
        }
        if new_hard_cap == 0 {
            return Err(PresaleError::InvalidHardCap);
        }
        if new_hard_cap < self.total_contributions {
            return Err(PresaleError::HardCapLessThanTotal);
        }
        self.hard_cap = new_hard_cap;
        Ok(events::HardCapUpdated { new_hard_cap, timestamp: now })
    }

    /// First failing check of `pause_presale`, if any.
    pub open spec fn pause_presale_err(self, caller: u64) -> Option<PresaleError> {
        if caller != self.owner {
            Some(PresaleError::NotOwner)
        } else if self.paused {
            Some(PresaleError::PresaleAlreadyPaused)
        } else {
            None
        }
    }

    /// Pauses every mutating presale operation.
    pub fn pause_presale(&mut self, caller: u64, now: u64) -> (r: Result<
        events::PresalePaused,
        PresaleError,
    >)
        requires
            old(self).wf(),
        ensures
            final(self).wf(),
            match r {
                Err(e) => {
                    &&& Some(e) == old(self).pause_presale_err(caller)
                    &&& *final(self) == *old(self)
                },
                Ok(ev) => {
                    &&& old(self).pause_presale_err(caller) is None
                    &&& ev == (events::PresalePaused { timestamp: now })
                    &&& final(self).paused
                    &&& final(self).is_active == old(self).is_active
                    &&& final(self).is_closed == old(self).is_closed
                    &&& final(self).refunds_allowed == old(self).refunds_allowed
                    &&& old(self).same_config(*final(self))
                    &&& old(self).same_books(*final(self))
                    &&& final(self).total_contributions == old(self).total_contributions
                },
            },
    {
        if caller != self.owner {
            return Err(PresaleError::NotOwner);
        }
        if self.paused {
            return Err(PresaleError::PresaleAlreadyPaused);
        }
        self.paused = true;
        Ok(events::PresalePaused { timestamp: now })
    }

    /// First failing check of `unpause_presale`, if any.
    pub open spec fn unpause_presale_err(self, caller: u64) -> Option<PresaleError> {
        if caller != self.owner {
            Some(PresaleError::NotOwner)
        } else if !self.paused {
            Some(PresaleError::PresaleNotPaused)
        } else {
            None
        }
    }

    /// Lifts a pause.
    pub fn unpause_presale(&mut self, caller: u64, now: u64) -> (r: Result<
        events::PresaleUnpaused,
        PresaleError,
    >)
        requires
            old(self).wf(),
        ensures
            final(self).wf(),
            match r {
                Err(e) => {
                    &&& Some(e) == old(self).unpause_presale_err(caller)
                    &&& *final(self) == *old(self)
                },
                Ok(ev) => {
                    &&& old(self).unpause_presale_err(caller) is None
                    &&& ev == (events::PresaleUnpaused { timestamp: now })
                    &&& !final(self).paused
                    &&& final(self).is_active == old(self).is_active
                    &&& final(self).is_closed == old(self).is_closed
                    &&& final(self).refunds_allowed == old(self).refunds_allowed
                    &&& old(self).same_config(*final(self))
                    &&& old(self).same_books(*final(self))
                    &&& final(self).total_contributions == old(self).total_contributions
                },
            },
    {
        if caller != self.owner {
            return Err(PresaleError::NotOwner);
        }
        if !self.paused {
            return Err(PresaleError::PresaleNotPaused);
        }
        self.paused = false;
        Ok(events::PresaleUnpaused { timestamp: now })
    }
}

} // verus!
