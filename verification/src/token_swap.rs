//! A minimal swap-registry contract: incoming transfers of one fixed
//! token are recorded against a linked account.

use vstd::prelude::*;
use crate::idmap::IdMap;
use crate::u256::p128;
use crate::{AccountId, Balance, TokenAccountId};

verus! {

/// The swap registry: recorded balances by linked account, for one
/// accepted token.
pub struct Contract {
    pub accounts: IdMap<Balance>,
    pub token_account_id: TokenAccountId,
}

impl Contract {
    pub open spec fn wf(self) -> bool {
        self.accounts.wf()
    }

    pub open spec fn spec_balance(self, account_id: AccountId) -> int {
        match self.accounts.spec_get(account_id) {
            Some(b) => b as int,
            None => 0,
        }
    }

    pub fn new(token_account_id: TokenAccountId) -> (r: Contract)
        ensures
            r.wf(),
            r.token_account_id == token_account_id,
            forall|a: AccountId| r.spec_balance(a) == 0,
            r.accounts@.len() == 0,
    {
        Contract { accounts: IdMap::new(), token_account_id }
    }

    pub fn get_balance(&self, account_id: AccountId) -> (r: Balance)
        requires
            self.wf(),
        ensures
            r == self.spec_balance(account_id),
    {
        match self.accounts.get(account_id) {
            Some(b) => *b,
            None => 0,
        }
    }

    /// The recorded accounts in insertion order, from `from_index`, at
    /// most `limit` of them.
    pub fn get_accounts(&self, from_index: usize, limit: usize) -> (r: Vec<(AccountId, Balance)>)
        requires
            self.wf(),
        ensures
            ({
                let upto = if from_index + limit <= self.accounts@.len() {
                    from_index + limit
                } else {
                    self.accounts@.len() as int
                };
                &&& r@.len() == (if from_index as int <= upto {
                    upto - from_index
                } else {
                    0int
                })
                &&& forall|j: int|
                    0 <= j < r@.len() ==> #[trigger] r@[j] == self.accounts@[from_index + j]
            }),
    {
        let n = self.accounts.len();
        let upto = if from_index <= n && limit <= n - from_index {
            from_index + limit
        } else {
            n
        };
        let mut r: Vec<(AccountId, Balance)> = Vec::new();
        let mut i: usize = from_index;
        while i < upto
            invariant
                self.wf(),
                upto <= self.accounts@.len(),
                from_index <= i <= upto || (from_index >= upto && i == from_index),
                r@.len() == (if from_index as int <= i as int {
                    i - from_index
                } else {
                    0int
                }),
                forall|j: int|
                    0 <= j < r@.len() ==> #[trigger] r@[j] == self.accounts@[from_index + j],
            decreases (if i <= upto {
                upto - i
            } else {
                0int
            }),
        {
            let entry = self.accounts.at(i);
            r.push((entry.0, entry.1));
            i = i + 1;
        }
        r
    }

    /// Records an incoming transfer of the accepted token against the
    /// linked account.
    pub fn internal_token_deposit(&mut self, account_id: AccountId, amount: Balance)
        requires
            old(self).wf(),
            old(self).spec_balance(account_id) + amount < p128(),
        ensures
            final(self).wf(),
            final(self).spec_balance(account_id) == old(self).spec_balance(account_id) + amount,
            forall|a: AccountId|
                a != account_id ==> final(self).spec_balance(a) == old(self).spec_balance(a),
            final(self).token_account_id == old(self).token_account_id,
    {
        let current_balance = match self.accounts.get(account_id) {
            Some(b) => *b,
            None => 0,
        };
        self.accounts.insert(account_id, current_balance + amount);
    }
}

} // verus!
