//! The external approval oracle consulted on first deposits to a
//! permissioned sale: a plain allow-list managed by its owner.

use vstd::prelude::*;
use crate::idmap::IdMap;
use crate::AccountId;

verus! {

/// The permissions contract: an owner-managed set of approved accounts.
pub struct Contract {
    pub approved_accounts: IdMap<()>,
    pub owner_id: AccountId,
}

impl Contract {
    pub open spec fn wf(self) -> bool {
        self.approved_accounts.wf()
    }

    pub open spec fn spec_is_approved(self, account_id: AccountId) -> bool {
        self.approved_accounts.contains_key(account_id)
    }

    pub fn new(owner_id: AccountId) -> (r: Contract)
        ensures
            r.wf(),
            r.owner_id == owner_id,
            forall|a: AccountId| !r.spec_is_approved(a),
    {
        Contract { approved_accounts: IdMap::new(), owner_id }
    }

    /// Marks this contract as an approval oracle.
    pub fn is_permissions_contract(&self) -> (r: bool)
        ensures
            r,
    {
        true
    }

    /// Whether the account may join the sale; the sale id plays no role
    /// in this oracle.
    pub fn is_approved(&self, account_id: AccountId, _sale_id: u64) -> (r: bool)
        requires
            self.wf(),
        ensures
            r == self.spec_is_approved(account_id),
    {
        self.approved_accounts.contains(account_id)
    }

    /// Adds an account to the allow-list; only the owner may call this.
    pub fn approve(&mut self, caller_id: AccountId, account_id: AccountId)
        requires
            old(self).wf(),
            caller_id == old(self).owner_id,
        ensures
            final(self).wf(),
            final(self).spec_is_approved(account_id),
            forall|a: AccountId|
                a != account_id ==> final(self).spec_is_approved(a) == old(self).spec_is_approved(
                    a,
                ),
            final(self).owner_id == old(self).owner_id,
    {
        self.approved_accounts.insert(account_id, ());
    }

    /// Removes an account from the allow-list; only the owner may call
    /// this.
    pub fn reject(&mut self, caller_id: AccountId, account_id: AccountId)
        requires
            old(self).wf(),
            caller_id == old(self).owner_id,
        ensures
            final(self).wf(),
            !final(self).spec_is_approved(account_id),
            forall|a: AccountId|
                a != account_id ==> final(self).spec_is_approved(a) == old(self).spec_is_approved(
                    a,
                ),
            final(self).owner_id == old(self).owner_id,
    {
        self.approved_accounts.remove(account_id);
    }
}

} // verus!
