//! A participant's wallet inside the engine: custody balances, active
//! subscriptions and owned sales.

use vstd::prelude::*;
use crate::idmap::IdMap;
use crate::sale::Sale;
use crate::sub::Subscription;
use crate::u256::p128;
use crate::{Balance, TokenAccountId};

verus! {

/// An account: token custody balances, subscriptions by sale id, and the
/// ids of sales this account created.
#[derive(Clone, Debug)]
pub struct Account {
    pub balances: IdMap<Balance>,
    pub subs: IdMap<Subscription>,
    pub sales: Vec<u64>,
}

/// A versioned account record.
pub enum VAccount {
    Current(Account),
}

impl From<Account> for VAccount {
    fn from(account: Account) -> (r: VAccount) {
        VAccount::Current(account)
    }
}

impl vstd::std_specs::convert::FromSpecImpl<Account> for VAccount {
    open spec fn obeys_from_spec() -> bool {
        true
    }

    open spec fn from_spec(account: Account) -> VAccount {
        VAccount::Current(account)
    }
}

impl From<VAccount> for Account {
    fn from(v_account: VAccount) -> (r: Account) {
        match v_account {
            VAccount::Current(account) => account,
        }
    }
}

impl vstd::std_specs::convert::FromSpecImpl<VAccount> for Account {
    open spec fn obeys_from_spec() -> bool {
        true
    }

    open spec fn from_spec(v_account: VAccount) -> Account {
        match v_account {
            VAccount::Current(account) => account,
        }
    }
}

impl Account {
    pub open spec fn wf(self) -> bool {
        &&& self.balances.wf()
        &&& self.subs.wf()
        &&& forall|i: int, j: int|
            0 <= i < j < self.sales@.len() ==> self.sales@[i] != self.sales@[j]
    }

    /// The custody balance of a token, or zero when unregistered.
    pub open spec fn spec_balance(self, token: TokenAccountId) -> int {
        match self.balances.spec_get(token) {
            Some(b) => b as int,
            None => 0,
        }
    }

    pub fn new() -> (r: Account)
        ensures
            r.wf(),
            r.balances@ == Seq::<(u64, Balance)>::empty(),
            r.subs@ == Seq::<(u64, Subscription)>::empty(),
            r.sales@ == Seq::<u64>::empty(),
    {
        Account { balances: IdMap::new(), subs: IdMap::new(), sales: Vec::new() }
    }

    /// Credits a registered token.
    pub fn internal_token_deposit(&mut self, token_account_id: TokenAccountId, amount: Balance)
        requires
            old(self).wf(),
            old(self).balances.contains_key(token_account_id),
            old(self).spec_balance(token_account_id) + amount < p128(),
        ensures
            final(self).wf(),
            final(self).spec_balance(token_account_id) == old(self).spec_balance(token_account_id)
                + amount,
            final(self).balances.contains_key(token_account_id),
            forall|t: TokenAccountId|
                t != token_account_id ==> final(self).balances.spec_get(t) == old(
                    self,
                ).balances.spec_get(t),
            final(self).balances@.len() == old(self).balances@.len(),
            final(self).subs == old(self).subs,
            final(self).sales == old(self).sales,
    {
        let balance = match self.balances.get(token_account_id) {
            Some(b) => *b,
            None => 0,
        };
        self.balances.insert(token_account_id, balance + amount);
    }

    /// Debits a registered token with a sufficient balance.
    pub fn internal_token_withdraw(&mut self, token_account_id: TokenAccountId, amount: Balance)
        requires
            old(self).wf(),
            old(self).balances.contains_key(token_account_id),
            amount <= old(self).spec_balance(token_account_id),
        ensures
            final(self).wf(),
            final(self).spec_balance(token_account_id) == old(self).spec_balance(token_account_id)
                - amount,
            final(self).balances.contains_key(token_account_id),
            forall|t: TokenAccountId|
                t != token_account_id ==> final(self).balances.spec_get(t) == old(
                    self,
                ).balances.spec_get(t),
            final(self).balances@.len() == old(self).balances@.len(),
            final(self).subs == old(self).subs,
            final(self).sales == old(self).sales,
    {
        let balance = match self.balances.get(token_account_id) {
            Some(b) => *b,
            None => 0,
        };
        self.balances.insert(token_account_id, balance - amount);
    }

    /// Registers a token at a zero balance if it is absent.
    pub fn internal_maybe_register_token(&mut self, token_account_id: TokenAccountId)
        requires
            old(self).wf(),
        ensures
            final(self).wf(),
            final(self).balances.contains_key(token_account_id),
            final(self).spec_balance(token_account_id) == old(self).spec_balance(token_account_id),
            forall|t: TokenAccountId|
                t != token_account_id ==> final(self).balances.spec_get(t) == old(
                    self,
                ).balances.spec_get(t),
            old(self).balances.contains_key(token_account_id) ==> final(self).balances == old(
                self,
            ).balances,
            final(self).subs == old(self).subs,
            final(self).sales == old(self).sales,
    {
        if !self.balances.contains(token_account_id) {
            self.balances.insert(token_account_id, 0);
        }
    }

    /// Stores a subscription, or deletes the position once it holds no
    /// shares.
    pub fn internal_save_subscription(&mut self, sale_id: u64, subscription: Subscription)
        requires
            old(self).wf(),
        ensures
            final(self).wf(),
            subscription.shares == 0 ==> final(self).subs.spec_get(sale_id) is None,
            subscription.shares > 0 ==> final(self).subs.spec_get(sale_id) == Some(subscription),
            forall|s2: u64|
                s2 != sale_id ==> final(self).subs.spec_get(s2) == old(self).subs.spec_get(s2),
            final(self).balances == old(self).balances,
            final(self).sales == old(self).sales,
    {
        if subscription.shares == 0 {
            self.subs.remove(sale_id);
        } else {
            self.subs.insert(sale_id, subscription);
        }
    }

    /// Records that this account created a sale.
    pub fn internal_add_sale(&mut self, sale_id: u64)
        requires
            old(self).wf(),
            forall|i: int| 0 <= i < old(self).sales@.len() ==> old(self).sales@[i] != sale_id,
        ensures
            final(self).wf(),
            final(self).sales@ == old(self).sales@.push(sale_id),
            final(self).balances == old(self).balances,
            final(self).subs == old(self).subs,
    {
        self.sales.push(sale_id);
    }
}


impl Account {
    /// The view of this account's position in a sale, if it has one with
    /// shares or pending accruals.
    pub fn internal_subscription_output(&self, sale_id: u64, sale: &Sale) -> (r: Option<
        crate::sub::SubscriptionOutput,
    >)
        requires
            self.wf(),
            sale.wf(),
            match self.subs.spec_get(sale_id) {
                Some(sub) => {
                    &&& sub.valid_for(*sale)
                    &&& forall|i: int|
                        0 <= i < sale.out_tokens@.len() ==> sub.accrual_fits(*sale, i)
                    &&& sub.last_in_balance >= sale.spec_shares_to_in_balance(sub.shares)
                    &&& sub.spent_in_balance_without_shares + sub.last_in_balance < crate::u256::p128()
                },
                None => true,
            },
        ensures
            match self.subs.spec_get(sale_id) {
                Some(sub) => match r {
                    Some(out) => {
                        &&& out.shares == sub.shares
                        &&& out.remaining_in_balance == sale.spec_shares_to_in_balance(sub.shares)
                        &&& out.spent_in_balance == sub.spent_in_balance_without_shares
                            + sub.last_in_balance - sale.spec_shares_to_in_balance(sub.shares)
                        &&& out.claimed_out_balance@ == sub.claimed_out_balance@
                        &&& out.referral_id == sub.referral_id
                        &&& out.unclaimed_out_balances@.len() == sale.out_tokens@.len()
                        &&& forall|i: int|
                            0 <= i < sale.out_tokens@.len()
                                ==> #[trigger] out.unclaimed_out_balances@[i]
                                == crate::sub::spec_accrued(
                                sale.out_tokens@[i].per_share,
                                sub.last_out_token_per_share@[i],
                                sub.shares,
                            )
                    },
                    None => sub.shares == 0 && forall|i: int|
                        0 <= i < sale.out_tokens@.len() ==> crate::sub::spec_accrued(
                            sale.out_tokens@[i].per_share,
                            #[trigger] sub.last_out_token_per_share@[i],
                            sub.shares,
                        ) == 0,
                },
                None => r is None,
            },
    {
        let subscription = match self.subs.get(sale_id) {
            Some(s) => s,
            None => {
                return None;
            },
        };
        let out_token_remaining = subscription.peek_accruals(sale);
        let mut any_pending = false;
        let mut i: usize = 0;
        while i < out_token_remaining.len()
            invariant
                i <= out_token_remaining@.len(),
                any_pending <==> exists|k: int|
                    0 <= k < i as int && out_token_remaining@[k] > 0,
            decreases out_token_remaining@.len() - i,
        {
            if out_token_remaining[i] > 0 {
                any_pending = true;
            }
            i = i + 1;
        }
        if subscription.shares > 0 || any_pending {
            let remaining_in_balance = sale.shares_to_in_balance(subscription.shares);
            let mut claimed_out_balance: Vec<Balance> = Vec::new();
            let mut j: usize = 0;
            while j < subscription.claimed_out_balance.len()
                invariant
                    j <= subscription.claimed_out_balance@.len(),
                    claimed_out_balance@.len() == j as int,
                    forall|k: int|
                        0 <= k < j as int ==> #[trigger] claimed_out_balance@[k]
                            == subscription.claimed_out_balance@[k],
                decreases subscription.claimed_out_balance@.len() - j,
            {
                claimed_out_balance.push(subscription.claimed_out_balance[j]);
                j = j + 1;
            }
            proof {
                assert(claimed_out_balance@ =~= subscription.claimed_out_balance@);
            }
            Some(
                crate::sub::SubscriptionOutput {
                    remaining_in_balance,
                    spent_in_balance: subscription.spent_in_balance_without_shares + (
                    subscription.last_in_balance - remaining_in_balance),
                    unclaimed_out_balances: out_token_remaining,
                    claimed_out_balance,
                    shares: subscription.shares,
                    referral_id: subscription.referral_id,
                },
            )
        } else {
            None
        }
    }
}

} // verus!
