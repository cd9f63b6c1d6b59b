//! The distribution ledger: batched recording of contributions, a one-time
//! pro-rata allocation of a fixed token supply, and one-shot claims.
//!
//! As in the presale ledger, identities are plain `u64` values and the host
//! that authenticates callers, reads the token balance and moves tokens sits
//! outside this crate.

use vstd::prelude::*;
use crate::errors::DistributionError;
use crate::events::DistributionEvent;
use crate::sums::{
    sum_all, sum_prefix, lemma_sum_elem_le, lemma_sum_prefix_monotonic, lemma_sum_prefix_nonneg,
    lemma_sum_prefix_congruent,
};
use vstd::arithmetic::div_mod::{
    lemma_fundamental_div_mod, lemma_div_multiples_vanish_fancy, lemma_div_multiples_vanish,
    lemma_div_is_ordered, lemma_mod_division_less_than_divisor,
};
use vstd::arithmetic::mul::{
    lemma_mul_inequality, lemma_mul_is_distributive_add, lemma_mul_is_distributive_add_other_way,
    lemma_mul_nonnegative,
};

verus! {

/// One contributor's record: identity, recorded contribution, and the token
/// allocation computed for it.
#[derive(Clone, Copy, Debug, PartialEq, Eq, Structural)]
pub struct Contributor {
    pub user: u64,
    pub contribution: u64,
    pub allocation: u64,
}

/// No two contributor records share a user.
pub open spec fn co_keys_unique(s: Seq<Contributor>) -> bool {
    forall|i: int, j: int| 0 <= i < j < s.len() ==> (#[trigger] s[i]).user != (#[trigger] s[j]).user
}

/// Whether the user has a contributor record.
pub open spec fn co_has(s: Seq<Contributor>, user: u64) -> bool {
    exists|i: int| 0 <= i < s.len() && (#[trigger] s[i]).user == user
}

/// Index of the user's contributor record.
pub open spec fn co_idx(s: Seq<Contributor>, user: u64) -> int {
    choose|i: int| 0 <= i < s.len() && (#[trigger] s[i]).user == user
}

/// The user's recorded contribution; zero without a record.
pub open spec fn co_contribution(s: Seq<Contributor>, user: u64) -> u64 {
    if co_has(s, user) {
        s[co_idx(s, user)].contribution
    } else {
        0
    }
}

/// The user's computed allocation; zero without a record.
pub open spec fn co_allocation(s: Seq<Contributor>, user: u64) -> u64 {
    if co_has(s, user) {
        s[co_idx(s, user)].allocation
    } else {
        0
    }
}

/// The recorded contributions, in record order.
pub open spec fn contributions_of(s: Seq<Contributor>) -> Seq<u64> {
    s.map_values(|c: Contributor| c.contribution)
}

/// The computed allocations, in record order.
pub open spec fn allocations_of(s: Seq<Contributor>) -> Seq<u64> {
    s.map_values(|c: Contributor| c.allocation)
}

/// An index whose user matches is the index the keyed lookups speak of,
/// provided users are unique.
pub proof fn lemma_co_at(s: Seq<Contributor>, i: int)
    requires
        co_keys_unique(s),
        0 <= i < s.len(),
    ensures
        co_has(s, s[i].user),
        co_idx(s, s[i].user) == i,
        co_contribution(s, s[i].user) == s[i].contribution,
        co_allocation(s, s[i].user) == s[i].allocation,
{
    assert(co_has(s, s[i].user));
    let j = co_idx(s, s[i].user);
    assert(0 <= j < s.len() && s[j].user == s[i].user);
}

/// Replacing record `i` (same user) changes that user's values and no other.
pub proof fn lemma_co_update(s: Seq<Contributor>, i: int, e: Contributor)
    requires
        co_keys_unique(s),
        0 <= i < s.len(),
        e.user == s[i].user,
    ensures
        co_keys_unique(s.update(i, e)),
        forall|u: u64| co_has(#[trigger] s.update(i, e), u) == co_has(s, u),
        co_contribution(s.update(i, e), e.user) == e.contribution,
        co_allocation(s.update(i, e), e.user) == e.allocation,
        forall|u: u64|
            u != e.user ==> co_contribution(#[trigger] s.update(i, e), u) == co_contribution(s, u),
        forall|u: u64|
            u != e.user ==> co_allocation(#[trigger] s.update(i, e), u) == co_allocation(s, u),
{
    let s2 = s.update(i, e);
    assert(forall|j: int| 0 <= j < s.len() ==> (#[trigger] s2[j]).user == s[j].user);
    assert forall|u: u64| co_has(s2, u) == co_has(s, u) by {
        if co_has(s, u) {
            let j = co_idx(s, u);
            assert(s2[j].user == u);
        }
        if co_has(s2, u) {
            let j = choose|j: int| 0 <= j < s2.len() && (#[trigger] s2[j]).user == u;
            assert(s[j].user == u);
        }
    }
    lemma_co_at(s2, i);
    assert forall|u: u64| u != e.user implies co_contribution(s2, u) == co_contribution(s, u)
        && co_allocation(s2, u) == co_allocation(s, u) by {
        if co_has(s, u) {
            let j = co_idx(s, u);
            assert(j != i);
            lemma_co_at(s2, j);
            lemma_co_at(s, j);
        }
    }
}

/// Appending a record for a fresh user adds that record and no other.
pub proof fn lemma_co_push(s: Seq<Contributor>, e: Contributor)
    requires
        co_keys_unique(s),
        !co_has(s, e.user),
    ensures
        co_keys_unique(s.push(e)),
        co_has(s.push(e), e.user),
        co_contribution(s.push(e), e.user) == e.contribution,
        co_allocation(s.push(e), e.user) == e.allocation,
        forall|u: u64| u != e.user ==> co_has(#[trigger] s.push(e), u) == co_has(s, u),
        forall|u: u64|
            u != e.user ==> co_contribution(#[trigger] s.push(e), u) == co_contribution(s, u),
        forall|u: u64|
            u != e.user ==> co_allocation(#[trigger] s.push(e), u) == co_allocation(s, u),
{
    let s2 = s.push(e);
    assert(forall|j: int| 0 <= j < s.len() ==> #[trigger] s2[j] == s[j]);
    assert(s2[s.len() as int] == e);
    assert(co_keys_unique(s2));
    lemma_co_at(s2, s.len() as int);
    assert forall|u: u64| u != e.user implies co_has(s2, u) == co_has(s, u) by {
        if co_has(s, u) {
            let j = co_idx(s, u);
            assert(s2[j].user == u);
        }
        if co_has(s2, u) {
            let j = choose|j: int| 0 <= j < s2.len() && (#[trigger] s2[j]).user == u;
            assert(j < s.len());
            assert(s[j].user == u);
        }
    }
    assert forall|u: u64| u != e.user implies co_contribution(s2, u) == co_contribution(s, u)
        && co_allocation(s2, u) == co_allocation(s, u) by {
        if co_has(s, u) {
            let j = co_idx(s, u);
            lemma_co_at(s2, j);
            lemma_co_at(s, j);
        }
    }
}

/// The running total after the first `i` batch pairs are applied to a ledger
/// whose records are `s` and whose total is `total`: each pair replaces its
/// user's recorded contribution, so the total moves by the difference.
pub open spec fn batch_total(
    s: Seq<Contributor>,
    total: int,
    users: Seq<u64>,
    amounts: Seq<u64>,
    i: int,
) -> int
    decreases i,
{
    if i <= 0 {
        total
    } else {
        batch_total(s, total, users, amounts, i - 1) - co_contribution(s, users[i - 1])
            + amounts[i - 1]
    }
}

fn has_earlier_occurrence(users: &Vec<u64>, k: usize) -> (b: bool)
    requires
        k < users@.len(),
    ensures
        b == exists|l: int| 0 <= l < k && users@[l] == users@[k as int],
{
    let user = users[k];
    let mut j: usize = 0;
    while j < k
        invariant
            j <= k < users@.len(),
            user == users@[k as int],
            forall|l: int| 0 <= l < j ==> users@[l] != user,
        decreases k - j,
    {
        if users[j] == user {
            return true;
        }
        j = j + 1;
    }
    false
}

fn find_co_index(cos: &Vec<Contributor>, user: u64) -> (r: Option<usize>)
    ensures
        match r {
            Some(i) => i < cos@.len() && cos@[i as int].user == user,
            None => !co_has(cos@, user),
        },
{
    let n = cos.len();
    let mut i: usize = 0;
    while i < n
        invariant
            n == cos@.len(),
            i <= n,
            forall|j: int| 0 <= j < i ==> (#[trigger] cos@[j]).user != user,
        decreases n - i,
    {
        if cos[i].user == user {
            return Some(i);
        }
        i = i + 1;
    }
    None
}

/// Floor division distributes superadditively over a sum of numerators.
pub proof fn lemma_div_superadditive(x: int, y: int, d: int)
    requires
        d > 0,
        x >= 0,
        y >= 0,
    ensures
        x / d + y / d <= (x + y) / d,
{
    lemma_fundamental_div_mod(x, d);
    lemma_fundamental_div_mod(y, d);
    lemma_mod_division_less_than_divisor(x, d);
    lemma_mod_division_less_than_divisor(y, d);
    let q = x / d + y / d;
    let b = x % d + y % d;
    lemma_mul_is_distributive_add(d, x / d, y / d);
    assert(x + y == d * q + b);
    if b < d {
        lemma_div_multiples_vanish_fancy(q, b, d);
        assert((d * q + b) / d == q);
    } else {
        lemma_mul_is_distributive_add(d, q, 1);
        assert(d * (q + 1) == d * q + d * 1);
        assert(x + y == d * (q + 1) + (b - d));
        lemma_div_multiples_vanish_fancy(q + 1, b - d, d);
        assert((d * (q + 1) + (b - d)) / d == q + 1);
    }
}

/// The distribution ledger.
#[derive(Clone)]
pub struct DistributionState {
    pub owner: u64,
    pub token_mint: u64,
    pub total_raised: u64,
    pub allocation_calculated: bool,
    pub claim_enabled: bool,
    pub max_batch_size: u64,
    pub claim_period_open: bool,
    pub paused: bool,
    pub contributors: Vec<Contributor>,
}

impl DistributionState {
    /// Whether the user has a contributor record.
    pub open spec fn has_contributor(self, user: u64) -> bool {
        co_has(self.contributors@, user)
    }

    /// The user's recorded contribution; zero without a record.
    pub open spec fn contribution_of(self, user: u64) -> u64 {
        co_contribution(self.contributors@, user)
    }

    /// The user's computed allocation; zero without a record.
    pub open spec fn allocation_of(self, user: u64) -> u64 {
        co_allocation(self.contributors@, user)
    }

    /// Well-formedness: records are keyed uniquely, every recorded
    /// contribution is positive, the running total equals their sum, and no
    /// allocation is set before the allocation pass has run.
    pub open spec fn wf(self) -> bool {
        &&& self.max_batch_size > 0
        &&& co_keys_unique(self.contributors@)
        &&& forall|i: int|
            0 <= i < self.contributors@.len() ==> (#[trigger] self.contributors@[i]).contribution
                > 0
        &&& sum_all(contributions_of(self.contributors@)) == self.total_raised
        &&& !self.allocation_calculated ==> forall|i: int|
            0 <= i < self.contributors@.len() ==> (#[trigger] self.contributors@[i]).allocation
                == 0
    }

    /// Configuration and lifecycle fields are the same in both states.
    pub open spec fn same_meta(self, other: DistributionState) -> bool {
        &&& other.owner == self.owner
        &&& other.token_mint == self.token_mint
        &&& other.max_batch_size == self.max_batch_size
        &&& other.allocation_calculated == self.allocation_calculated
        &&& other.claim_enabled == self.claim_enabled
        &&& other.claim_period_open == self.claim_period_open
        &&& other.paused == self.paused
    }

    /// First failing check of `initialize_distribution`, if any.
    pub open spec fn initialize_distribution_err(max_batch_size: u64) -> Option<
        DistributionError,
    > {
        if max_batch_size == 0 {
            Some(DistributionError::InvalidBatchSize)
        } else {
            None
        }
    }

    /// Creates a distribution ledger with an empty contributor list and all
    /// lifecycle flags cleared. The token identifier starts as the null
    /// identifier (zero) and must be set before allocations are calculated.
    pub fn initialize_distribution(owner: u64, max_batch_size: u64) -> (r: Result<
        (DistributionState, DistributionEvent),
        DistributionError,
    >)
        ensures
            match r {
                Err(e) => Some(e) == Self::initialize_distribution_err(max_batch_size),
                Ok(p) => {
                    &&& Self::initialize_distribution_err(max_batch_size) is None
                    &&& p.1 == (DistributionEvent::Initialized { owner, max_batch_size })
                    &&& p.0.wf()
                    &&& p.0.owner == owner
                    &&& p.0.token_mint == 0
                    &&& p.0.total_raised == 0
                    &&& !p.0.allocation_calculated
                    &&& !p.0.claim_enabled
                    &&& p.0.max_batch_size == max_batch_size
                    &&& !p.0.claim_period_open
                    &&& !p.0.paused
                    &&& p.0.contributors@.len() == 0
                },
            },
    {
        if max_batch_size == 0 {
            return Err(DistributionError::InvalidBatchSize);
        }
        let s = DistributionState {
            owner,
            token_mint: 0,
            total_raised: 0,
            allocation_calculated: false,
            claim_enabled: false,
            max_batch_size,
            claim_period_open: false,
            paused: false,
            contributors: Vec::new(),
        };
        proof {
            assert(contributions_of(s.contributors@) =~= Seq::<u64>::empty());
        }
        Ok((s, DistributionEvent::Initialized { owner, max_batch_size }))
    }

    /// First failing check of `set_token`, if any.
    pub open spec fn set_token_err(self, caller: u64, token_mint: u64) -> Option<
        DistributionError,
    > {
        if caller != self.owner {
            Some(DistributionError::NotOwner)
        } else if self.paused {
            Some(DistributionError::ContractPaused)
        } else if self.claim_period_open {
            Some(DistributionError::ClaimPeriodActive)
        } else if self.allocation_calculated {
            Some(DistributionError::AllocationAlreadyCalculated)
        } else if token_mint == 0 {
            Some(DistributionError::InvalidTokenMint)
        } else {
            None
        }
    }

    /// Sets the token to distribute. Not allowed once allocations are
    /// calculated or the claim period has opened.
    pub fn set_token(&mut self, caller: u64, token_mint: u64) -> (r: Result<
        DistributionEvent,
        DistributionError,
    >)
        requires
            old(self).wf(),
        ensures
            final(self).wf(),
            match r {
                Err(e) => {
                    &&& Some(e) == old(self).set_token_err(caller, token_mint)
                    &&& *final(self) == *old(self)
                },
                Ok(ev) => {
                    &&& old(self).set_token_err(caller, token_mint) is None
                    &&& ev == (DistributionEvent::TokenUpdated { token_mint })
                    &&& final(self).token_mint == token_mint
                    &&& *final(self) == (DistributionState {
                        token_mint,
                        ..*old(self)
                    })
                },
            },
    {
        if caller != self.owner {
            return Err(DistributionError::NotOwner);
        }
        if self.paused {
            return Err(DistributionError::ContractPaused);
        }
        if self.claim_period_open {
            return Err(DistributionError::ClaimPeriodActive);
        }
        if self.allocation_calculated {
            return Err(DistributionError::AllocationAlreadyCalculated);
        }
        if token_mint == 0 {
            return Err(DistributionError::InvalidTokenMint);
        }
        self.token_mint = token_mint;
        Ok(DistributionEvent::TokenUpdated { token_mint })
    }

    /// First failing per-pair check of `batch_set_contributions`, scanning
    /// the batch from position `i` on, against the state before the call: a
    /// user repeated within the batch, a zero amount, or a running total that
    /// checked addition could not represent.
    pub open spec fn batch_pairs_err(self, users: Seq<u64>, amounts: Seq<u64>, i: int) -> Option<
        DistributionError,
    >
        decreases users.len() - i,
    {
        if i < 0 || i >= users.len() {
            None
        } else if exists|j: int| 0 <= j < i && users[j] == users[i] {
            Some(DistributionError::DuplicateContributor)
        } else if amounts[i] == 0 {
            Some(DistributionError::InvalidAmount)
        } else if batch_total(self.contributors@, self.total_raised as int, users, amounts, i)
            - co_contribution(self.contributors@, users[i]) + amounts[i] > u64::MAX {
            Some(DistributionError::Overflow)
        } else {
            self.batch_pairs_err(users, amounts, i + 1)
        }
    }

    /// First failing check of `batch_set_contributions`, if any.
    pub open spec fn batch_set_contributions_err(
        self,
        caller: u64,
        users: Seq<u64>,
        amounts: Seq<u64>,
    ) -> Option<DistributionError> {
        if caller != self.owner {
            Some(DistributionError::NotOwner)
        } else if self.paused {
            Some(DistributionError::ContractPaused)
        } else if self.allocation_calculated {
            Some(DistributionError::AllocationAlreadyCalculated)
        } else if users.len() != amounts.len() {
            Some(DistributionError::ArrayLengthMismatch)
        } else if users.len() > self.max_batch_size {
            Some(DistributionError::BatchTooLarge)
        } else {
            self.batch_pairs_err(users, amounts, 0)
        }
    }

    /// Records a batch of contributions, all or nothing.
    ///
    /// Each pair sets its user's recorded contribution to the given amount,
    /// replacing any earlier value rather than adding to it, and moves the
    /// running total by the difference; a user without a record is appended.
    /// The batch is applied to a working copy first, so any failure leaves
    /// the ledger untouched. Repeating the call for a user keeps only the
    /// amount supplied last.
    pub fn batch_set_contributions(&mut self, caller: u64, users: Vec<u64>, amounts: Vec<u64>)
        -> (r: Result<DistributionEvent, DistributionError>)
        requires
            old(self).wf(),
        ensures
            final(self).wf(),
            match r {
                Err(e) => {
                    &&& Some(e) == old(self).batch_set_contributions_err(caller, users@, amounts@)
                    &&& *final(self) == *old(self)
                },
                Ok(ev) => {
                    &&& old(self).batch_set_contributions_err(caller, users@, amounts@) is None
                    &&& ev == DistributionEvent::ContributionsUpdated
                    &&& forall|j: int|
                        0 <= j < users@.len() ==> {
                            &&& #[trigger] final(self).has_contributor(users@[j])
                            &&& final(self).contribution_of(users@[j]) == amounts@[j]
                            &&& final(self).allocation_of(users@[j])
                                == old(self).allocation_of(users@[j])
                        }
                    &&& forall|v: u64|
                        !users@.contains(v) ==> {
                            &&& #[trigger] final(self).has_contributor(v)
                                == old(self).has_contributor(v)
                            &&& final(self).contribution_of(v) == old(self).contribution_of(v)
                            &&& final(self).allocation_of(v) == old(self).allocation_of(v)
                        }
                    &&& final(self).total_raised == batch_total(
                        old(self).contributors@,
                        old(self).total_raised as int,
                        users@,
                        amounts@,
                        users@.len() as int,
                    )
                    &&& old(self).same_meta(*final(self))
                },
            },
    {
        if caller != self.owner {
            return Err(DistributionError::NotOwner);
        }
        if self.paused {
            return Err(DistributionError::ContractPaused);
        }
        if self.allocation_calculated {
            return Err(DistributionError::AllocationAlreadyCalculated);
        }
        let n = users.len();
        if n != amounts.len() {
            return Err(DistributionError::ArrayLengthMismatch);
        }
        if n as u64 > self.max_batch_size {
            return Err(DistributionError::BatchTooLarge);
        }
        // Work on a copy of the records; the ledger is only touched once the
        // whole batch has gone through.
        let ghost pre = *self;
        let mut work: Vec<Contributor> = Vec::new();
        let mut ci: usize = 0;
        while ci < self.contributors.len()
            invariant
                ci <= self.contributors@.len(),
                work@ == self.contributors@.take(ci as int),
            decreases self.contributors@.len() - ci,
        {
            proof {
                assert(self.contributors@.take(ci as int).push(self.contributors@[ci as int])
                    =~= self.contributors@.take(ci as int + 1));
            }
            work.push(self.contributors[ci]);
            ci = ci + 1;
        }
        proof {
            assert(self.contributors@.take(self.contributors@.len() as int)
                =~= self.contributors@);
        }
        let mut wt: u64 = self.total_raised;
        let mut k: usize = 0;
        while k < n
            invariant
                k <= n,
                n == users@.len(),
                n == amounts@.len(),
                *self == pre,
                pre.wf(),
                caller == pre.owner,
                !pre.paused,
                !pre.allocation_calculated,
                n as u64 <= pre.max_batch_size,
                co_keys_unique(work@),
                forall|i: int|
                    0 <= i < work@.len() ==> (#[trigger] work@[i]).contribution > 0,
                forall|i: int| 0 <= i < work@.len() ==> (#[trigger] work@[i]).allocation == 0,
                sum_all(contributions_of(work@)) == wt,
                wt == batch_total(
                    pre.contributors@,
                    pre.total_raised as int,
                    users@,
                    amounts@,
                    k as int,
                ),
                pre.batch_pairs_err(users@, amounts@, 0) == pre.batch_pairs_err(
                    users@,
                    amounts@,
                    k as int,
                ),
                forall|j: int|
                    0 <= j < k ==> co_has(work@, #[trigger] users@[j]) && co_contribution(
                        work@,
                        users@[j],
                    ) == amounts@[j] && co_allocation(work@, users@[j]) == 0,
                forall|v: u64|
                    (forall|l: int| 0 <= l < k ==> users@[l] != v) ==> {
                        &&& #[trigger] co_has(work@, v) == co_has(pre.contributors@, v)
                        &&& co_contribution(work@, v) == co_contribution(pre.contributors@, v)
                        &&& co_allocation(work@, v) == co_allocation(pre.contributors@, v)
                    },
            decreases n - k,
        {
            let ghost workpre = work@;
            let user = users[k];
            let amount = amounts[k];
            if has_earlier_occurrence(&users, k) {
                return Err(DistributionError::DuplicateContributor);
            }
            if amount == 0 {
                return Err(DistributionError::InvalidAmount);
            }
            proof {
                assert(co_contribution(work@, user) == co_contribution(pre.contributors@, user));
            }
            match find_co_index(&work, user) {
                Some(wi) => {
                    proof {
                        lemma_co_at(work@, wi as int);
                        lemma_sum_elem_le(contributions_of(work@), wi as int);
                    }
                    let old_c = work[wi].contribution;
                    let base = wt - old_c;
                    if amount > u64::MAX - base {
                        return Err(DistributionError::Overflow);
                    }
                    let alloc = work[wi].allocation;
                    proof {
                        lemma_co_update(
                            work@,
                            wi as int,
                            Contributor { user, contribution: amount, allocation: alloc },
                        );
                        assert(contributions_of(
                            work@.update(
                                wi as int,
                                Contributor { user, contribution: amount, allocation: alloc },
                            ),
                        ) =~= contributions_of(work@).update(wi as int, amount));
                        crate::sums::lemma_sum_update(contributions_of(work@), wi as int, amount);
                    }
                    work[wi] = Contributor { user, contribution: amount, allocation: alloc };
                    wt = base + amount;
                },
                None => {
                    if amount > u64::MAX - wt {
                        return Err(DistributionError::Overflow);
                    }
                    proof {
                        lemma_co_push(
                            work@,
                            Contributor { user, contribution: amount, allocation: 0 },
                        );
                        assert(contributions_of(
                            work@.push(Contributor { user, contribution: amount, allocation: 0 }),
                        ) =~= contributions_of(work@).push(amount));
                        crate::sums::lemma_sum_push(contributions_of(work@), amount);
                    }
                    work.push(Contributor { user, contribution: amount, allocation: 0 });
                    wt = wt + amount;
                },
            }
            k = k + 1;
            proof {
                assert(users@[k as int - 1] == user);
                assert forall|j: int| 0 <= j < k implies co_has(work@, #[trigger] users@[j])
                    && co_contribution(work@, users@[j]) == amounts@[j] && co_allocation(
                    work@,
                    users@[j],
                ) == 0 by {
                    if j == k - 1 {
                        assert(co_contribution(work@, user) == amount);
                    } else {
                        assert(users@[j] != user);
                        assert(co_has(workpre, users@[j]));
                        assert(co_has(work@, users@[j]) == co_has(workpre, users@[j]));
                    }
                }
                assert forall|v: u64| (forall|l: int| 0 <= l < k ==> users@[l] != v) implies {
                    &&& #[trigger] co_has(work@, v) == co_has(pre.contributors@, v)
                    &&& co_contribution(work@, v) == co_contribution(pre.contributors@, v)
                    &&& co_allocation(work@, v) == co_allocation(pre.contributors@, v)
                } by {
                    assert(v != user);
                    assert(forall|l: int| 0 <= l < k - 1 ==> users@[l] != v);
                    assert(co_has(workpre, v) == co_has(pre.contributors@, v));
                    assert(co_contribution(workpre, v) == co_contribution(pre.contributors@, v));
                    assert(co_allocation(workpre, v) == co_allocation(pre.contributors@, v));
                    assert(co_has(work@, v) == co_has(workpre, v));
                    assert(co_contribution(work@, v) == co_contribution(workpre, v));
                    assert(co_allocation(work@, v) == co_allocation(workpre, v));
                }
            }
        }
        self.contributors = work;
        self.total_raised = wt;
        Ok(DistributionEvent::ContributionsUpdated)
    }

    /// First failing check of `enable_claims`, if any.
    pub open spec fn enable_claims_err(self, caller: u64) -> Option<DistributionError> {
        if caller != self.owner {
            Some(DistributionError::NotOwner)
        } else if self.paused {
            Some(DistributionError::ContractPaused)
        } else if !self.allocation_calculated {
            Some(DistributionError::AllocationNotCalculated)
        } else {
            None
        }
    }

    /// Opens claiming: only once allocations have been calculated.
    pub fn enable_claims(&mut self, caller: u64) -> (r: Result<
        DistributionEvent,
        DistributionError,
    >)
        requires
            old(self).wf(),
        ensures
            final(self).wf(),
            match r {
                Err(e) => {
                    &&& Some(e) == old(self).enable_claims_err(caller)
                    &&& *final(self) == *old(self)
                },
                Ok(ev) => {
                    &&& old(self).enable_claims_err(caller) is None
                    &&& ev == DistributionEvent::ClaimsOpened
                    &&& *final(self) == (DistributionState {
                        claim_enabled: true,
                        claim_period_open: true,
                        ..*old(self)
                    })
                },
            },
    {
        if caller != self.owner {
            return Err(DistributionError::NotOwner);
        }
        if self.paused {
            return Err(DistributionError::ContractPaused);
        }
        if !self.allocation_calculated {
            return Err(DistributionError::AllocationNotCalculated);
        }
        self.claim_enabled = true;
        self.claim_period_open = true;
        Ok(DistributionEvent::ClaimsOpened)
    }

    /// First failing check of `calculate_allocations`, if any.
    pub open spec fn calculate_allocations_err(self, caller: u64, total_tokens: u64) -> Option<
        DistributionError,
    > {
        if caller != self.owner {
            Some(DistributionError::NotOwner)
        } else if self.paused {
            Some(DistributionError::ContractPaused)
        } else if self.token_mint == 0 {
            Some(DistributionError::InvalidTokenMint)
        } else if self.total_raised == 0 {
            Some(DistributionError::NoContributions)
        } else if self.allocation_calculated {
            Some(DistributionError::AllocationAlreadyCalculated)
        } else if total_tokens == 0 {
            Some(DistributionError::NoTokenBalance)
        } else {
            None
        }
    }

    /// Computes every contributor's pro-rata allocation, once.
    ///
    /// `total_tokens` is the token balance the host read from the pool at
    /// this moment; the engine reads it exactly once, here. Each allocation
    /// is the floor of `contribution * total_tokens / total_raised`, computed
    /// on a widened intermediate product so the multiplication cannot
    /// overflow; rounding dust stays unclaimed in the pool. The sum of all
    /// allocations is proved, not merely checked, to stay within
    /// `total_tokens`.
    pub fn calculate_allocations(&mut self, caller: u64, total_tokens: u64) -> (r: Result<
        DistributionEvent,
        DistributionError,
    >)
        requires
            old(self).wf(),
        ensures
            final(self).wf(),
            match r {
                Err(e) => {
                    &&& Some(e) == old(self).calculate_allocations_err(caller, total_tokens)
                    &&& *final(self) == *old(self)
                },
                Ok(ev) => {
                    &&& old(self).calculate_allocations_err(caller, total_tokens) is None
                    &&& ev == (DistributionEvent::AllocationsCalculated {
                        total_raised: old(self).total_raised,
                    })
                    &&& final(self).allocation_calculated
                    &&& final(self).contributors@.len() == old(self).contributors@.len()
                    &&& forall|j: int|
                        0 <= j < old(self).contributors@.len() ==> {
                            &&& (#[trigger] final(self).contributors@[j]).user == old(
                                self,
                            ).contributors@[j].user
                            &&& final(self).contributors@[j].contribution == old(
                                self,
                            ).contributors@[j].contribution
                            &&& final(self).contributors@[j].allocation == (old(
                                self,
                            ).contributors@[j].contribution as int) * (total_tokens as int) / (old(
                                self,
                            ).total_raised as int)
                        }
                    &&& sum_all(allocations_of(final(self).contributors@)) <= total_tokens
                    &&& final(self).total_raised == old(self).total_raised
                    &&& final(self).owner == old(self).owner
                    &&& final(self).token_mint == old(self).token_mint
                    &&& final(self).max_batch_size == old(self).max_batch_size
                    &&& final(self).claim_enabled == old(self).claim_enabled
                    &&& final(self).claim_period_open == old(self).claim_period_open
                    &&& final(self).paused == old(self).paused
                },
            },
    {
        if caller != self.owner {
            return Err(DistributionError::NotOwner);
        }
        if self.paused {
            return Err(DistributionError::ContractPaused);
        }
        if self.token_mint == 0 {
            return Err(DistributionError::InvalidTokenMint);
        }
        if self.total_raised == 0 {
            return Err(DistributionError::NoContributions);
        }
        if self.allocation_calculated {
            return Err(DistributionError::AllocationAlreadyCalculated);
        }
        if total_tokens == 0 {
            return Err(DistributionError::NoTokenBalance);
        }
        let ghost pre = *self;
        let ghost cpre = contributions_of(pre.contributors@);
        let ghost tt = total_tokens as int;
        let ghost rr = pre.total_raised as int;
        let total_raised = self.total_raised;
        let n = self.contributors.len();
        let mut allocated: u64 = 0;
        let mut i: usize = 0;
        while i < n
            invariant
                i <= n,
                n == self.contributors@.len(),
                n == pre.contributors@.len(),
                pre.wf(),
                rr == pre.total_raised as int,
                tt == total_tokens as int,
                rr > 0,
                tt > 0,
                total_raised == pre.total_raised,
                cpre == contributions_of(pre.contributors@),
                self.owner == pre.owner,
                self.token_mint == pre.token_mint,
                self.total_raised == pre.total_raised,
                self.allocation_calculated == pre.allocation_calculated,
                self.claim_enabled == pre.claim_enabled,
                self.max_batch_size == pre.max_batch_size,
                self.claim_period_open == pre.claim_period_open,
                self.paused == pre.paused,
                forall|j: int|
                    i <= j < n ==> #[trigger] self.contributors@[j] == pre.contributors@[j],
                forall|j: int|
                    0 <= j < i ==> {
                        &&& (#[trigger] self.contributors@[j]).user == pre.contributors@[j].user
                        &&& self.contributors@[j].contribution == pre.contributors@[
                            j
                        ].contribution
                        &&& self.contributors@[j].allocation == (pre.contributors@[
                            j
                        ].contribution as int) * tt / rr
                    },
                allocated == sum_prefix(allocations_of(self.contributors@), i as int),
                allocated <= sum_prefix(cpre, i as int) * tt / rr,
            decreases n - i,
        {
            let ghost spre = self.contributors@;
            let rec = self.contributors[i];
            let c = rec.contribution;
            proof {
                assert((c as int) * (total_tokens as int) <= 0xffffffffffffffff
                    * 0xffffffffffffffff) by (nonlinear_arith)
                    requires
                        0 <= c as int <= 0xffffffffffffffff,
                        0 <= total_tokens as int <= 0xffffffffffffffff,
                ;
            }
            let wide: u128 = (c as u128) * (total_tokens as u128);
            let a128: u128 = wide / (total_raised as u128);
            proof {
                lemma_sum_elem_le(cpre, i as int);
                assert(cpre[i as int] == c);
                assert(c as int <= rr);
                lemma_mul_inequality(c as int, rr, tt);
                lemma_div_is_ordered((c as int) * tt, rr * tt, rr);
                lemma_div_multiples_vanish(tt, rr);
                assert(rr * tt == (pre.total_raised as int) * tt);
                assert(a128 as int == (c as int) * tt / rr);
                assert(a128 as int <= tt);
            }
            let a = a128 as u64;
            proof {
                // allocated + a stays within the pro-rata bound for the
                // longer prefix, hence within total_tokens.
                let spi = sum_prefix(cpre, i as int);
                lemma_sum_prefix_nonneg(cpre, i as int);
                lemma_mul_nonnegative(spi, tt);
                lemma_mul_nonnegative(c as int, tt);
                lemma_div_superadditive(spi * tt, (c as int) * tt, rr);
                lemma_mul_is_distributive_add_other_way(tt, spi, c as int);
                assert(sum_prefix(cpre, i as int + 1) == spi + c);
                assert(spi * tt + (c as int) * tt == (spi + c) * tt);
                assert(allocated + a <= (spi + c) * tt / rr);
                lemma_sum_prefix_monotonic(cpre, i as int + 1, n as int);
                assert(sum_all(cpre) == rr);
                lemma_mul_inequality(spi + c, rr, tt);
                lemma_div_is_ordered((spi + c) * tt, rr * tt, rr);
                lemma_div_multiples_vanish(tt, rr);
                assert((spi + c) * tt / rr <= tt);
            }
            let updated = Contributor { user: rec.user, contribution: c, allocation: a };
            self.contributors[i] = updated;
            allocated = allocated + a;
            i = i + 1;
            proof {
                lemma_sum_prefix_congruent(
                    allocations_of(self.contributors@),
                    allocations_of(spre),
                    i as int - 1,
                );
                assert(allocations_of(self.contributors@)[i as int - 1] == a);
                assert(sum_prefix(allocations_of(self.contributors@), i as int) == sum_prefix(
                    allocations_of(spre),
                    i as int - 1,
                ) + a);
            }
        }
        self.allocation_calculated = true;
        proof {
            assert(sum_all(allocations_of(self.contributors@)) == allocated);
            let spn = sum_prefix(cpre, n as int);
            assert(spn == sum_all(cpre));
            assert(spn == rr);
            lemma_div_multiples_vanish(tt, rr);
            assert(rr * tt == spn * tt) by (nonlinear_arith)
                requires
                    spn == rr,
            ;
            assert(spn * tt / rr == tt);
            assert(allocated <= tt);
            assert(sum_all(contributions_of(self.contributors@)) == self.total_raised) by {
                assert(contributions_of(self.contributors@) =~= cpre);
            }
        }
        Ok(DistributionEvent::AllocationsCalculated { total_raised })
    }

    /// First failing check of `claim`, if any.
    pub open spec fn claim_err(self, caller: u64) -> Option<DistributionError> {
        if self.paused {
            Some(DistributionError::ContractPaused)
        } else if !self.claim_enabled {
            Some(DistributionError::ClaimingNotEnabled)
        } else if !self.claim_period_open {
            Some(DistributionError::ClaimPeriodClosed)
        } else if !self.has_contributor(caller) {
            Some(DistributionError::NotContributor)
        } else if self.allocation_of(caller) == 0 {
            Some(DistributionError::NothingToClaim)
        } else {
            None
        }
    }

    /// Pays out the caller's allocation, once.
    ///
    /// The stored allocation is zeroed before the host transfers the returned
    /// amount — the zero-then-transfer ordering, so a repeated or re-entered
    /// call cannot be paid twice. A transfer that fails after the zeroing
    /// forfeits the claim unless the host restores the previous ledger state.
    pub fn claim(&mut self, caller: u64) -> (r: Result<DistributionEvent, DistributionError>)
        requires
            old(self).wf(),
        ensures
            final(self).wf(),
            match r {
                Err(e) => {
                    &&& Some(e) == old(self).claim_err(caller)
                    &&& *final(self) == *old(self)
                },
                Ok(ev) => {
                    &&& old(self).claim_err(caller) is None
                    &&& ev == (DistributionEvent::Claimed {
                        user: caller,
                        amount: old(self).allocation_of(caller),
                    })
                    &&& final(self).has_contributor(caller)
                    &&& final(self).allocation_of(caller) == 0
                    &&& final(self).contribution_of(caller) == old(self).contribution_of(caller)
                    &&& forall|v: u64|
                        v != caller ==> {
                            &&& #[trigger] final(self).has_contributor(v)
                                == old(self).has_contributor(v)
                            &&& final(self).contribution_of(v) == old(self).contribution_of(v)
                            &&& final(self).allocation_of(v) == old(self).allocation_of(v)
                        }
                    &&& final(self).total_raised == old(self).total_raised
                    &&& old(self).same_meta(*final(self))
                },
            },
    {
        if self.paused {
            return Err(DistributionError::ContractPaused);
        }
        if !self.claim_enabled {
            return Err(DistributionError::ClaimingNotEnabled);
        }
        if !self.claim_period_open {
            return Err(DistributionError::ClaimPeriodClosed);
        }
        let ci = match find_co_index(&self.contributors, caller) {
            Some(ci) => ci,
            None => {
                return Err(DistributionError::NotContributor);
            },
        };
        proof {
            lemma_co_at(self.contributors@, ci as int);
        }
        let rec = self.contributors[ci];
        let claim_amount = rec.allocation;
        if claim_amount == 0 {
            return Err(DistributionError::NothingToClaim);
        }
        let ghost pre = *self;
        let updated = Contributor {
            user: rec.user,
            contribution: rec.contribution,
            allocation: 0,
        };
        proof {
            lemma_co_update(self.contributors@, ci as int, updated);
            assert(contributions_of(self.contributors@.update(ci as int, updated))
                =~= contributions_of(self.contributors@));
        }
        self.contributors[ci] = updated;
        Ok(DistributionEvent::Claimed { user: caller, amount: claim_amount })
    }

    /// One-shot claim law: after a successful claim by `user` from a
    /// well-formed state `s`, any state `t` that `claim` may leave behind —
    /// the lifecycle flags as they were, the caller's record kept with its
    /// allocation zeroed, exactly what `claim`'s postcondition gives for
    /// `final(self)` — answers a second claim by the same user with
    /// `NothingToClaim`.
    pub proof fn lemma_claim_one_shot(s: DistributionState, t: DistributionState, user: u64)
        requires
            s.wf(),
            s.claim_err(user) is None,
            t.paused == s.paused,
            t.claim_enabled == s.claim_enabled,
            t.claim_period_open == s.claim_period_open,
            t.has_contributor(user),
            t.allocation_of(user) == 0,
        ensures
            t.claim_err(user) == Some(DistributionError::NothingToClaim),
    {
    }

    /// Sum law: in every well-formed distribution state the running total
    /// equals the sum of the recorded contributions.
    pub proof fn lemma_total_raised_is_sum(s: DistributionState)
        requires
            s.wf(),
        ensures
            sum_all(contributions_of(s.contributors@)) == s.total_raised,
    {
    }

    /// First failing check of `pause`, if any.
    pub open spec fn pause_err(self, caller: u64) -> Option<DistributionError> {
        if caller != self.owner {
            Some(DistributionError::NotOwner)
        } else if self.paused {
            Some(DistributionError::ContractPaused)
        } else {
            None
        }
    }

    /// Pauses every mutating distribution operation.
    pub fn pause(&mut self, caller: u64) -> (r: Result<DistributionEvent, DistributionError>)
        requires
            old(self).wf(),
        ensures
            final(self).wf(),
            match r {
                Err(e) => {
                    &&& Some(e) == old(self).pause_err(caller)
                    &&& *final(self) == *old(self)
                },
                Ok(ev) => {
                    &&& old(self).pause_err(caller) is None
                    &&& ev == DistributionEvent::Paused
                    &&& *final(self) == (DistributionState { paused: true, ..*old(self) })
                },
            },
    {
        if caller != self.owner {
            return Err(DistributionError::NotOwner);
        }
        if self.paused {
            return Err(DistributionError::ContractPaused);
        }
        self.paused = true;
        Ok(DistributionEvent::Paused)
    }

    /// First failing check of `unpause`, if any.
    pub open spec fn unpause_err(self, caller: u64) -> Option<DistributionError> {
        if caller != self.owner {
            Some(DistributionError::NotOwner)
        } else if !self.paused {
            Some(DistributionError::ContractNotPaused)
        } else {
            None
        }
    }

    /// Lifts a pause.
    pub fn unpause(&mut self, caller: u64) -> (r: Result<DistributionEvent, DistributionError>)
        requires
            old(self).wf(),
        ensures
            final(self).wf(),
            match r {
                Err(e) => {
                    &&& Some(e) == old(self).unpause_err(caller)
                    &&& *final(self) == *old(self)
                },
                Ok(ev) => {
                    &&& old(self).unpause_err(caller) is None
                    &&& ev == DistributionEvent::Unpaused
                    &&& *final(self) == (DistributionState { paused: false, ..*old(self) })
                },
            },
    {
        if caller != self.owner {
            return Err(DistributionError::NotOwner);
        }
        if !self.paused {
            return Err(DistributionError::ContractNotPaused);
        }
        self.paused = false;
        Ok(DistributionEvent::Unpaused)
    }
}

} // verus!

