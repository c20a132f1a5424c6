//! Per-(account, sale) subscriptions with lazy accrual from the sale's
//! per-share accumulators.

use vstd::prelude::*;
use crate::sale::Sale;
use crate::u256::{U256, p128, p256};
use crate::{AccountId, Balance, MULTIPLIER};

verus! {

/// A participant's position in one sale.
#[derive(Clone, Debug)]
pub struct Subscription {
    pub shares: Balance,
    /// The in-balance backed by `shares` when the position was last
    /// deposited to or withdrawn from.
    pub last_in_balance: Balance,
    /// Historical contribution no longer backed by shares.
    pub spent_in_balance_without_shares: Balance,
    /// Snapshot of each out-token's accumulator at the last accrual.
    pub last_out_token_per_share: Vec<U256>,
    pub claimed_out_balance: Vec<Balance>,
    pub referral_id: Option<AccountId>,
}

/// A versioned subscription record.
pub enum VSubscription {
    Current(Subscription),
}

impl From<Subscription> for VSubscription {
    fn from(subscription: Subscription) -> (r: VSubscription) {
        VSubscription::Current(subscription)
    }
}

impl vstd::std_specs::convert::FromSpecImpl<Subscription> for VSubscription {
    open spec fn obeys_from_spec() -> bool {
        true
    }

    open spec fn from_spec(subscription: Subscription) -> VSubscription {
        VSubscription::Current(subscription)
    }
}

impl From<VSubscription> for Subscription {
    fn from(v_subscription: VSubscription) -> (r: Subscription) {
        match v_subscription {
            VSubscription::Current(subscription) => subscription,
        }
    }
}

impl vstd::std_specs::convert::FromSpecImpl<VSubscription> for Subscription {
    open spec fn obeys_from_spec() -> bool {
        true
    }

    open spec fn from_spec(v_subscription: VSubscription) -> Subscription {
        match v_subscription {
            VSubscription::Current(subscription) => subscription,
        }
    }
}

/// What a subscription accrues from one out-token since its snapshot:
/// the accumulator growth times its shares, unscaled.
pub open spec fn spec_accrued(cur: U256, prev: U256, shares: Balance) -> int {
    if cur.v() == 0 {
        0
    } else {
        (cur.v() - prev.v()) * (shares as int) / (MULTIPLIER as int)
    }
}

impl Subscription {
    /// The snapshots never run ahead of the sale's accumulators, and the
    /// parallel lists match the sale's out-tokens.
    pub open spec fn valid_for(self, sale: Sale) -> bool {
        &&& self.last_out_token_per_share@.len() == sale.out_tokens@.len()
        &&& self.claimed_out_balance@.len() == sale.out_tokens@.len()
        &&& self.shares <= sale.total_shares
        &&& forall|i: int|
            0 <= i < sale.out_tokens@.len()
                ==> (#[trigger] self.last_out_token_per_share@[i]).v()
                <= sale.out_tokens@[i].per_share.v()
    }

    /// The accrual at index `i` stays within machine bounds.
    pub open spec fn accrual_fits(self, sale: Sale, i: int) -> bool {
        let cur = sale.out_tokens@[i].per_share;
        let prev = self.last_out_token_per_share@[i];
        &&& (cur.v() - prev.v()) * (self.shares as int) < p256()
        &&& spec_accrued(cur, prev, self.shares) < p128()
    }

    /// A fresh position: no shares, snapshots at the sale's current
    /// accumulators so nothing already distributed is accrued.
    pub fn new(sale: &Sale, referral_id: Option<AccountId>) -> (r: Subscription)
        ensures
            r.shares == 0,
            r.last_in_balance == 0,
            r.spent_in_balance_without_shares == 0,
            r.referral_id == referral_id,
            r.last_out_token_per_share@.len() == sale.out_tokens@.len(),
            forall|i: int|
                0 <= i < sale.out_tokens@.len() ==> #[trigger] r.last_out_token_per_share@[i]
                    == sale.out_tokens@[i].per_share,
            r.claimed_out_balance@.len() == sale.out_tokens@.len(),
            forall|i: int|
                0 <= i < sale.out_tokens@.len() ==> #[trigger] r.claimed_out_balance@[i] == 0,
            sale.total_shares >= 0 ==> r.valid_for(*sale),
    {
        let mut last_out_token_per_share: Vec<U256> = Vec::new();
        let mut claimed_out_balance: Vec<Balance> = Vec::new();
        let mut i: usize = 0;
        while i < sale.out_tokens.len()
            invariant
                i <= sale.out_tokens@.len(),
                last_out_token_per_share@.len() == i as int,
                claimed_out_balance@.len() == i as int,
                forall|j: int|
                    0 <= j < i as int ==> #[trigger] last_out_token_per_share@[j]
                        == sale.out_tokens@[j].per_share,
                forall|j: int| 0 <= j < i as int ==> #[trigger] claimed_out_balance@[j] == 0,
            decreases sale.out_tokens@.len() - i,
        {
            last_out_token_per_share.push(sale.out_tokens[i].per_share);
            claimed_out_balance.push(0);
            i = i + 1;
        }
        Subscription {
            shares: 0,
            last_in_balance: 0,
            spent_in_balance_without_shares: 0,
            last_out_token_per_share,
            claimed_out_balance,
            referral_id,
        }
    }

    /// Accrues what each out-token has distributed to this position since
    /// the last accrual, and moves the snapshots forward.
    pub fn touch(&mut self, sale: &Sale) -> (out_amounts: Vec<Balance>)
        requires
            old(self).last_out_token_per_share@.len() == sale.out_tokens@.len(),
            forall|i: int|
                0 <= i < sale.out_tokens@.len()
                    ==> (#[trigger] old(self).last_out_token_per_share@[i]).v()
                    <= sale.out_tokens@[i].per_share.v(),
            forall|i: int|
                0 <= i < sale.out_tokens@.len() ==> old(self).accrual_fits(*sale, i),
        ensures
            out_amounts@.len() == sale.out_tokens@.len(),
            forall|i: int|
                0 <= i < sale.out_tokens@.len() ==> #[trigger] out_amounts@[i] == spec_accrued(
                    sale.out_tokens@[i].per_share,
                    old(self).last_out_token_per_share@[i],
                    old(self).shares,
                ),
            final(self).last_out_token_per_share@.len() == sale.out_tokens@.len(),
            forall|i: int|
                0 <= i < sale.out_tokens@.len()
                    ==> #[trigger] final(self).last_out_token_per_share@[i]
                    == sale.out_tokens@[i].per_share,
            final(self).shares == old(self).shares,
            final(self).last_in_balance == old(self).last_in_balance,
            final(self).spent_in_balance_without_shares
                == old(self).spent_in_balance_without_shares,
            final(self).claimed_out_balance == old(self).claimed_out_balance,
            final(self).referral_id == old(self).referral_id,
    {
        let ghost pre = *self;
        let mut out_amounts: Vec<Balance> = Vec::new();
        let mut new_snapshot: Vec<U256> = Vec::new();
        let mut i: usize = 0;
        while i < sale.out_tokens.len()
            invariant
                *self == pre,
                pre.last_out_token_per_share@.len() == sale.out_tokens@.len(),
                forall|j: int|
                    0 <= j < sale.out_tokens@.len()
                        ==> (#[trigger] pre.last_out_token_per_share@[j]).v()
                        <= sale.out_tokens@[j].per_share.v(),
                forall|j: int|
                    0 <= j < sale.out_tokens@.len() ==> pre.accrual_fits(*sale, j),
                i <= sale.out_tokens@.len(),
                out_amounts@.len() == i as int,
                new_snapshot@.len() == i as int,
                forall|j: int|
                    0 <= j < i as int ==> #[trigger] out_amounts@[j] == spec_accrued(
                        sale.out_tokens@[j].per_share,
                        pre.last_out_token_per_share@[j],
                        pre.shares,
                    ),
                forall|j: int|
                    0 <= j < i as int ==> #[trigger] new_snapshot@[j]
                        == sale.out_tokens@[j].per_share,
            decreases sale.out_tokens@.len() - i,
        {
            let cur = sale.out_tokens[i].per_share;
            let prev = self.last_out_token_per_share[i];
            proof {
                assert(pre.accrual_fits(*sale, i as int));
            }
            if cur.is_zero() {
                // Nothing distributed yet; the snapshot, pinned below the
                // accumulator, is already zero.
                proof {
                    assert(prev.v() == 0);
                    assert(prev == cur);
                }
                out_amounts.push(0);
                new_snapshot.push(prev);
            } else {
                let diff = cur.minus(prev);
                let scaled = diff.mul_u128(self.shares);
                let (q, _r) = scaled.div_rem(MULTIPLIER);
                out_amounts.push(q.as_u128());
                new_snapshot.push(cur);
            }
            i = i + 1;
        }
        self.last_out_token_per_share = new_snapshot;
        out_amounts
    }
}

/// Accrual is idempotent: right after `touch`, a second `touch` against
/// the same sale state accrues nothing, because the snapshots have caught
/// up with the accumulators.
pub proof fn lemma_accrual_idempotent(cur: U256, shares: Balance)
    ensures
        spec_accrued(cur, cur, shares) == 0,
{
    if cur.v() != 0 {
        assert((cur.v() - cur.v()) * (shares as int) == 0) by {
            vstd::arithmetic::mul::lemma_mul_by_zero_is_zero(shares as int);
        }
    }
}


/// A view of a subscription against the current sale state.
#[derive(Clone, Debug, PartialEq, Eq)]
pub struct SubscriptionOutput {
    pub remaining_in_balance: Balance,
    pub spent_in_balance: Balance,
    pub unclaimed_out_balances: Vec<Balance>,
    pub claimed_out_balance: Vec<Balance>,
    pub shares: Balance,
    pub referral_id: Option<AccountId>,
}

impl Subscription {
    /// What each out-token has accrued since the snapshots, without
    /// moving them.
    pub fn peek_accruals(&self, sale: &Sale) -> (out_amounts: Vec<Balance>)
        requires
            self.last_out_token_per_share@.len() == sale.out_tokens@.len(),
            forall|i: int|
                0 <= i < sale.out_tokens@.len()
                    ==> (#[trigger] self.last_out_token_per_share@[i]).v()
                    <= sale.out_tokens@[i].per_share.v(),
            forall|i: int| 0 <= i < sale.out_tokens@.len() ==> self.accrual_fits(*sale, i),
        ensures
            out_amounts@.len() == sale.out_tokens@.len(),
            forall|i: int|
                0 <= i < sale.out_tokens@.len() ==> #[trigger] out_amounts@[i] == spec_accrued(
                    sale.out_tokens@[i].per_share,
                    self.last_out_token_per_share@[i],
                    self.shares,
                ),
    {
        let mut out_amounts: Vec<Balance> = Vec::new();
        let mut i: usize = 0;
        while i < sale.out_tokens.len()
            invariant
                self.last_out_token_per_share@.len() == sale.out_tokens@.len(),
                forall|j: int|
                    0 <= j < sale.out_tokens@.len()
                        ==> (#[trigger] self.last_out_token_per_share@[j]).v()
                        <= sale.out_tokens@[j].per_share.v(),
                forall|j: int|
                    0 <= j < sale.out_tokens@.len() ==> self.accrual_fits(*sale, j),
                i <= sale.out_tokens@.len(),
                out_amounts@.len() == i as int,
                forall|j: int|
                    0 <= j < i as int ==> #[trigger] out_amounts@[j] == spec_accrued(
                        sale.out_tokens@[j].per_share,
                        self.last_out_token_per_share@[j],
                        self.shares,
                    ),
            decreases sale.out_tokens@.len() - i,
        {
            let cur = sale.out_tokens[i].per_share;
            let prev = self.last_out_token_per_share[i];
            proof {
                assert(self.accrual_fits(*sale, i as int));
            }
            if cur.is_zero() {
                out_amounts.push(0);
            } else {
                let diff = cur.minus(prev);
                let scaled = diff.mul_u128(self.shares);
                let (q, _r) = scaled.div_rem(MULTIPLIER);
                out_amounts.push(q.as_u128());
            }
            i = i + 1;
        }
        out_amounts
    }
}

} // verus!
