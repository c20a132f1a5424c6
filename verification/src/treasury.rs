//! The treasury: per-token fee balances, native-token burn bookkeeping,
//! and the piecewise-linear vesting schedule that defines the native
//! token's circulating supply.

use vstd::prelude::*;
use crate::idmap::IdMap;
use crate::u256::{p128, mul_div};
use crate::arith::{lemma_muldiv_le, lemma_div_sum_le, lemma_div_le_numerator};
use crate::{Balance, Timestamp, TimestampSec, TokenAccountId, NANOS_PER_SEC};

verus! {

/// A vesting interval as supplied at initialization, in seconds.
#[derive(Clone, Copy, Debug, PartialEq, Eq, Structural)]
pub struct VestingIntervalInput {
    pub start_timestamp: TimestampSec,
    pub end_timestamp: TimestampSec,
    pub amount: Balance,
}

/// A vesting interval in nanoseconds.  `amount` unlocks linearly between
/// the two instants; intervals may overlap and are summed independently.
#[derive(Clone, Copy, Debug, PartialEq, Eq, Structural)]
pub struct VestingInterval {
    pub start_timestamp: Timestamp,
    pub end_timestamp: Timestamp,
    pub amount: Balance,
}

impl From<VestingIntervalInput> for VestingInterval {
    fn from(vs: VestingIntervalInput) -> (r: VestingInterval) {
        VestingInterval {
            start_timestamp: crate::to_nano(vs.start_timestamp),
            end_timestamp: crate::to_nano(vs.end_timestamp),
            amount: vs.amount,
        }
    }
}

impl vstd::std_specs::convert::FromSpecImpl<VestingIntervalInput> for VestingInterval {
    open spec fn obeys_from_spec() -> bool {
        true
    }

    open spec fn from_spec(vs: VestingIntervalInput) -> VestingInterval {
        VestingInterval {
            start_timestamp: (vs.start_timestamp * NANOS_PER_SEC) as u64,
            end_timestamp: (vs.end_timestamp * NANOS_PER_SEC) as u64,
            amount: vs.amount,
        }
    }
}

/// How much of one interval has unlocked by `now`.
pub open spec fn spec_unlocked(vi: VestingInterval, now: Timestamp) -> int {
    if now <= vi.start_timestamp {
        0
    } else if now >= vi.end_timestamp {
        vi.amount as int
    } else {
        (now - vi.start_timestamp) * vi.amount / (vi.end_timestamp - vi.start_timestamp)
    }
}

/// Total vested over a schedule by `now`.
pub open spec fn spec_vested(s: Seq<VestingInterval>, now: Timestamp) -> int
    decreases s.len(),
{
    if s.len() == 0 {
        0
    } else {
        spec_vested(s.drop_last(), now) + spec_unlocked(s.last(), now)
    }
}

/// Total amount a schedule will ever vest.
pub open spec fn spec_vesting_total(s: Seq<VestingInterval>) -> int
    decreases s.len(),
{
    if s.len() == 0 {
        0
    } else {
        spec_vesting_total(s.drop_last()) + s.last().amount
    }
}

/// One interval never unlocks more than its amount, nor a negative amount.
pub proof fn lemma_unlocked_bounds(vi: VestingInterval, now: Timestamp)
    ensures
        0 <= spec_unlocked(vi, now) <= vi.amount,
{
    if vi.start_timestamp < now < vi.end_timestamp {
        lemma_muldiv_le(
            vi.amount as int,
            now - vi.start_timestamp,
            vi.end_timestamp - vi.start_timestamp,
        );
        vstd::arithmetic::mul::lemma_mul_is_commutative(
            vi.amount as int,
            now - vi.start_timestamp,
        );
        vstd::arithmetic::div_mod::lemma_div_pos_is_pos(
            (now - vi.start_timestamp) * vi.amount,
            vi.end_timestamp - vi.start_timestamp,
        );
        vstd::arithmetic::mul::lemma_mul_nonnegative(
            now - vi.start_timestamp,
            vi.amount as int,
        );
    }
}

/// What a schedule has vested never exceeds what it will ever vest.
pub proof fn lemma_vested_le_total(s: Seq<VestingInterval>, now: Timestamp)
    ensures
        0 <= spec_vested(s, now) <= spec_vesting_total(s),
    decreases s.len(),
{
    if s.len() > 0 {
        lemma_vested_le_total(s.drop_last(), now);
        lemma_unlocked_bounds(s.last(), now);
    }
}

/// A prefix of a schedule vests at most what the whole schedule does.
pub proof fn lemma_vesting_total_prefix(s: Seq<VestingInterval>, i: int)
    requires
        0 <= i <= s.len(),
    ensures
        spec_vesting_total(s.subrange(0, i)) <= spec_vesting_total(s),
    decreases s.len() - i,
{
    if i == s.len() {
        assert(s.subrange(0, i) == s);
    } else {
        assert(s.subrange(0, i + 1).drop_last() == s.subrange(0, i));
        lemma_vesting_total_prefix(s, i + 1);
    }
}

/// Unlocking is monotone in time, interval by interval.
pub proof fn lemma_unlocked_monotone(vi: VestingInterval, t1: Timestamp, t2: Timestamp)
    requires
        t1 <= t2,
    ensures
        spec_unlocked(vi, t1) <= spec_unlocked(vi, t2),
{
    lemma_unlocked_bounds(vi, t1);
    lemma_unlocked_bounds(vi, t2);
    if vi.start_timestamp < t1 < vi.end_timestamp && vi.start_timestamp < t2 < vi.end_timestamp {
        let d = vi.end_timestamp - vi.start_timestamp;
        vstd::arithmetic::mul::lemma_mul_inequality(
            t1 - vi.start_timestamp,
            t2 - vi.start_timestamp,
            vi.amount as int,
        );
        lemma_div_le_numerator(
            (t1 - vi.start_timestamp) * vi.amount,
            (t2 - vi.start_timestamp) * vi.amount,
            d,
        );
        vstd::arithmetic::mul::lemma_mul_nonnegative(t1 - vi.start_timestamp, vi.amount as int);
    }
}

/// The vested amount of a whole schedule is monotone in time.  Since the
/// circulating supply is the vested amount minus the burned amount, the
/// supply is monotone non-decreasing in time while nothing new is burned.
pub proof fn lemma_vested_monotone(s: Seq<VestingInterval>, t1: Timestamp, t2: Timestamp)
    requires
        t1 <= t2,
    ensures
        spec_vested(s, t1) <= spec_vested(s, t2),
    decreases s.len(),
{
    if s.len() > 0 {
        lemma_vested_monotone(s.drop_last(), t1, t2);
        lemma_unlocked_monotone(s.last(), t1, t2);
    }
}

/// Once every interval has ended, the vested amount equals the schedule's
/// total, so the circulating supply settles at `total - burned`.
pub proof fn lemma_vested_settles(s: Seq<VestingInterval>, now: Timestamp)
    requires
        forall|i: int| 0 <= i < s.len() ==> now >= (#[trigger] s[i]).end_timestamp,
        forall|i: int|
            0 <= i < s.len() ==> (#[trigger] s[i]).start_timestamp < s[i].end_timestamp,
    ensures
        spec_vested(s, now) == spec_vesting_total(s),
    decreases s.len(),
{
    if s.len() > 0 {
        assert(s.last() == s[s.len() - 1]);
        assert(forall|i: int|
            0 <= i < s.drop_last().len() ==> now >= (#[trigger] s.drop_last()[i]).end_timestamp
                && (#[trigger] s.drop_last()[i]).start_timestamp
                < s.drop_last()[i].end_timestamp);
        lemma_vested_settles(s.drop_last(), now);
    }
}

/// The treasury.  The native token is never held in `balances`; burning
/// it only raises `skyward_burned_amount`.
#[derive(Clone, Debug)]
pub struct Treasury {
    pub balances: IdMap<Balance>,
    pub skyward_token_id: TokenAccountId,
    pub skyward_burned_amount: Balance,
    pub skyward_vesting_schedule: Vec<VestingInterval>,
    pub listing_fee_near: Balance,
    pub w_near_token_id: TokenAccountId,
}

impl Treasury {
    pub open spec fn wf(self) -> bool {
        &&& self.balances.wf()
        &&& !self.balances.contains_key(self.skyward_token_id)
        &&& self.skyward_token_id != self.w_near_token_id
        &&& spec_vesting_total(self.skyward_vesting_schedule@) < p128()
    }

    /// The stored balance of a token, zero when unregistered.
    pub open spec fn spec_balance(self, token: TokenAccountId) -> int {
        match self.balances.spec_get(token) {
            Some(b) => b as int,
            None => 0,
        }
    }

    pub fn new(
        skyward_token_id: TokenAccountId,
        skyward_vesting_schedule: Vec<VestingInterval>,
        listing_fee_near: Balance,
        w_near_token_id: TokenAccountId,
    ) -> (r: Treasury)
        requires
            skyward_token_id != w_near_token_id,
            spec_vesting_total(skyward_vesting_schedule@) < p128(),
        ensures
            r.wf(),
            r.skyward_token_id == skyward_token_id,
            r.skyward_burned_amount == 0,
            r.skyward_vesting_schedule == skyward_vesting_schedule,
            r.listing_fee_near == listing_fee_near,
            r.w_near_token_id == w_near_token_id,
            r.balances@ == Seq::<(u64, Balance)>::empty(),
    {
        Treasury {
            balances: IdMap::new(),
            skyward_token_id,
            skyward_burned_amount: 0,
            skyward_vesting_schedule,
            listing_fee_near,
            w_near_token_id,
        }
    }

    /// Credits a non-native token, registering it at zero first if it was
    /// absent.
    pub fn internal_deposit(&mut self, token_account_id: TokenAccountId, amount: Balance)
        requires
            old(self).wf(),
            token_account_id != old(self).skyward_token_id,
            old(self).spec_balance(token_account_id) + amount < p128(),
        ensures
            final(self).wf(),
            final(self).spec_balance(token_account_id) == old(self).spec_balance(token_account_id)
                + amount,
            forall|t: TokenAccountId|
                t != token_account_id ==> final(self).spec_balance(t) == old(self).spec_balance(t),
            final(self).balances.contains_key(token_account_id),
            final(self).skyward_token_id == old(self).skyward_token_id,
            final(self).skyward_burned_amount == old(self).skyward_burned_amount,
            final(self).skyward_vesting_schedule == old(self).skyward_vesting_schedule,
            final(self).listing_fee_near == old(self).listing_fee_near,
            final(self).w_near_token_id == old(self).w_near_token_id,
    {
        let balance = match self.balances.get(token_account_id) {
            Some(b) => *b,
            None => 0,
        };
        self.balances.insert(token_account_id, balance + amount);
    }

    /// Debits a token balance; the caller must know it suffices.
    pub fn internal_withdraw(&mut self, token_account_id: TokenAccountId, amount: Balance)
        requires
            old(self).wf(),
            amount <= old(self).spec_balance(token_account_id),
            token_account_id != old(self).skyward_token_id || amount == 0,
        ensures
            final(self).wf(),
            final(self).spec_balance(token_account_id) == old(self).spec_balance(token_account_id)
                - amount,
            forall|t: TokenAccountId|
                t != token_account_id ==> final(self).spec_balance(t) == old(self).spec_balance(t),
            final(self).skyward_token_id == old(self).skyward_token_id,
            final(self).skyward_burned_amount == old(self).skyward_burned_amount,
            final(self).skyward_vesting_schedule == old(self).skyward_vesting_schedule,
            final(self).listing_fee_near == old(self).listing_fee_near,
            final(self).w_near_token_id == old(self).w_near_token_id,
    {
        if token_account_id == self.skyward_token_id {
            // The native token is never held here; only a zero debit can
            // be asked for, and it changes nothing.
            return ;
        }
        let balance = match self.balances.get(token_account_id) {
            Some(b) => *b,
            None => 0,
        };
        self.balances.insert(token_account_id, balance - amount);
    }

    /// Donating the native token burns it; donating any other token
    /// credits the treasury.
    pub fn internal_donate(&mut self, token_account_id: TokenAccountId, amount: Balance)
        requires
            old(self).wf(),
            token_account_id == old(self).skyward_token_id ==> old(self).skyward_burned_amount
                + amount < p128(),
            token_account_id != old(self).skyward_token_id ==> old(self).spec_balance(
                token_account_id,
            ) + amount < p128(),
        ensures
            final(self).wf(),
            token_account_id == old(self).skyward_token_id ==> {
                &&& final(self).skyward_burned_amount == old(self).skyward_burned_amount + amount
                &&& final(self).balances == old(self).balances
            },
            token_account_id != old(self).skyward_token_id ==> {
                &&& final(self).skyward_burned_amount == old(self).skyward_burned_amount
                &&& final(self).spec_balance(token_account_id) == old(self).spec_balance(
                    token_account_id,
                ) + amount
                &&& forall|t: TokenAccountId|
                    t != token_account_id ==> final(self).spec_balance(t) == old(
                        self,
                    ).spec_balance(t)
            },
            final(self).skyward_token_id == old(self).skyward_token_id,
            final(self).skyward_vesting_schedule == old(self).skyward_vesting_schedule,
            final(self).listing_fee_near == old(self).listing_fee_near,
            final(self).w_near_token_id == old(self).w_near_token_id,
    {
        if token_account_id == self.skyward_token_id {
            self.skyward_burned_amount = self.skyward_burned_amount + amount;
        } else {
            self.internal_deposit(token_account_id, amount);
        }
    }

    /// The circulating supply at `now`: what the schedule has vested,
    /// minus what has been burned.
    pub open spec fn spec_circulating_supply(self, now: Timestamp) -> int {
        spec_vested(self.skyward_vesting_schedule@, now) - self.skyward_burned_amount
    }

    pub fn circulating_supply(&self, now: Timestamp) -> (r: Balance)
        requires
            self.wf(),
            self.skyward_burned_amount <= spec_vested(self.skyward_vesting_schedule@, now),
        ensures
            r == self.spec_circulating_supply(now),
    {
        let ghost s = self.skyward_vesting_schedule@;
        let mut balance: u128 = 0;
        let mut i: usize = 0;
        while i < self.skyward_vesting_schedule.len()
            invariant
                self.wf(),
                i <= s.len(),
                s == self.skyward_vesting_schedule@,
                balance == spec_vested(s.subrange(0, i as int), now),
            decreases s.len() - i,
        {
            let vi = self.skyward_vesting_schedule[i];
            proof {
                assert(s.subrange(0, i + 1).drop_last() == s.subrange(0, i as int));
                assert(s.subrange(0, i + 1).last() == vi);
                lemma_unlocked_bounds(vi, now);
                lemma_vested_le_total(s.subrange(0, i as int), now);
                lemma_vesting_total_prefix(s, i + 1);
                assert(s.subrange(0, i + 1).drop_last() == s.subrange(0, i as int));
            }
            let unlocked: u128 = if now <= vi.start_timestamp {
                0
            } else if now >= vi.end_timestamp {
                vi.amount
            } else {
                proof {
                    lemma_muldiv_le(
                        vi.amount as int,
                        (now - vi.start_timestamp) as int,
                        (vi.end_timestamp - vi.start_timestamp) as int,
                    );
                    vstd::arithmetic::mul::lemma_mul_is_commutative(
                        vi.amount as int,
                        (now - vi.start_timestamp) as int,
                    );
                }
                mul_div(
                    (now - vi.start_timestamp) as u128,
                    vi.amount,
                    (vi.end_timestamp - vi.start_timestamp) as u128,
                )
            };
            balance = balance + unlocked;
            i = i + 1;
        }
        proof {
            assert(s.subrange(0, s.len() as int) == s);
        }
        balance - self.skyward_burned_amount
    }
}

/// The amounts a redemption credits: each requested balance scaled by
/// `native_amount / supply`, floored.
pub open spec fn spec_credited_total(bals: Seq<Balance>, n: Balance, d: Balance) -> int
    decreases bals.len(),
{
    if bals.len() == 0 {
        0
    } else {
        spec_credited_total(bals.drop_last(), n, d) + bals.last() * n / (d as int)
    }
}

pub open spec fn spec_balance_total(bals: Seq<Balance>) -> int
    decreases bals.len(),
{
    if bals.len() == 0 {
        0
    } else {
        spec_balance_total(bals.drop_last()) + bals.last()
    }
}

pub proof fn lemma_balance_total_nonneg(bals: Seq<Balance>)
    ensures
        0 <= spec_balance_total(bals),
    decreases bals.len(),
{
    if bals.len() > 0 {
        lemma_balance_total_nonneg(bals.drop_last());
    }
}

/// Redemption never pays out more than the redeemer's share of the whole
/// treasury: the credited amounts sum to at most
/// `native_amount * (sum of balances) / supply`, floor-bounded; the
/// rounding dust stays in the treasury.
pub proof fn lemma_redeem_credit_bound(bals: Seq<Balance>, n: Balance, d: Balance)
    requires
        d >= 1,
    ensures
        spec_credited_total(bals, n, d) <= spec_balance_total(bals) * n / (d as int),
    decreases bals.len(),
{
    if bals.len() == 0 {
        assert(0 * n == 0) by {
            vstd::arithmetic::mul::lemma_mul_by_zero_is_zero(n as int);
        }
    } else {
        lemma_redeem_credit_bound(bals.drop_last(), n, d);
        lemma_balance_total_nonneg(bals.drop_last());
        let a = spec_balance_total(bals.drop_last());
        let b = bals.last() as int;
        vstd::arithmetic::mul::lemma_mul_nonnegative(a, n as int);
        vstd::arithmetic::mul::lemma_mul_nonnegative(b, n as int);
        lemma_div_sum_le(a * n, b * n, d as int);
        assert((a + b) * n == a * n + b * n) by {
            vstd::arithmetic::mul::lemma_mul_is_distributive_add_other_way(n as int, a, b);
        }
    }
}

} // verus!
