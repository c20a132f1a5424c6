//! The sale engine: orchestrates accounts, sales and the treasury.
//!
//! Every entry point takes the caller's account id and the current block
//! time as explicit arguments; persistence and token transfers live
//! outside the engine.

use vstd::prelude::*;
use crate::account::Account;
use crate::idmap::IdMap;
use crate::sale::{Sale, SaleInput, SaleOutToken};
use crate::sub::{Subscription, spec_accrued};
use crate::treasury::{Treasury, VestingInterval, VestingIntervalInput, spec_vesting_total};
use crate::u256::p128;
use crate::{
    AccountId, Balance, Timestamp, TokenAccountId, REFERRAL_FEE_DENOMINATOR,
    TREASURY_FEE_DENOMINATOR,
};

verus! {

/// Total amount named by a schedule given in seconds.
pub open spec fn spec_input_total(s: Seq<VestingIntervalInput>) -> int
    decreases s.len(),
{
    if s.len() == 0 {
        0
    } else {
        spec_input_total(s.drop_last()) + s.last().amount
    }
}

/// The engine's root state.
pub struct Contract {
    pub accounts: IdMap<Account>,
    pub sales: IdMap<Sale>,
    /// The next sale id; sale ids are assigned densely from zero.
    pub num_sales: u64,
    pub treasury: Treasury,
}

impl Contract {
    pub open spec fn wf(self) -> bool {
        &&& self.accounts.wf()
        &&& self.sales.wf()
        &&& self.treasury.wf()
        &&& forall|i: int|
            0 <= i < self.accounts@.len() ==> (#[trigger] self.accounts@[i]).1.wf()
        &&& forall|i: int| 0 <= i < self.sales@.len() ==> (#[trigger] self.sales@[i]).1.wf()
    }

    /// The stored account, if registered.
    pub open spec fn spec_account(self, account_id: AccountId) -> Option<Account> {
        self.accounts.spec_get(account_id)
    }

    /// The stored sale, if it exists.
    pub open spec fn spec_sale(self, sale_id: u64) -> Option<Sale> {
        self.sales.spec_get(sale_id)
    }

    /// A fresh engine around a native token, its vesting schedule, and
    /// the wrapped native token.
    pub fn new(
        skyward_token_id: TokenAccountId,
        skyward_vesting_schedule: Vec<VestingIntervalInput>,
        listing_fee_near: Balance,
        w_near_token_id: TokenAccountId,
    ) -> (r: Contract)
        requires
            skyward_token_id != w_near_token_id,
            spec_input_total(skyward_vesting_schedule@) < p128(),
        ensures
            r.wf(),
            r.accounts@ == Seq::<(u64, Account)>::empty(),
            r.sales@ == Seq::<(u64, Sale)>::empty(),
            r.num_sales == 0,
            r.treasury.skyward_token_id == skyward_token_id,
            r.treasury.skyward_burned_amount == 0,
            r.treasury.listing_fee_near == listing_fee_near,
            r.treasury.w_near_token_id == w_near_token_id,
            r.treasury.balances@ == Seq::<(u64, Balance)>::empty(),
            r.treasury.skyward_vesting_schedule@.len() == skyward_vesting_schedule@.len(),
            forall|i: int|
                0 <= i < skyward_vesting_schedule@.len() ==> {
                    let inp = skyward_vesting_schedule@[i];
                    let vi = #[trigger] r.treasury.skyward_vesting_schedule@[i];
                    &&& vi.start_timestamp == inp.start_timestamp * crate::NANOS_PER_SEC
                    &&& vi.end_timestamp == inp.end_timestamp * crate::NANOS_PER_SEC
                    &&& vi.amount == inp.amount
                },
    {
        let mut schedule: Vec<VestingInterval> = Vec::new();
        let mut i: usize = 0;
        while i < skyward_vesting_schedule.len()
            invariant
                i <= skyward_vesting_schedule@.len(),
                schedule@.len() == i as int,
                spec_vesting_total(schedule@) == spec_input_total(
                    skyward_vesting_schedule@.subrange(0, i as int),
                ),
                forall|j: int|
                    0 <= j < i as int ==> {
                        let inp = skyward_vesting_schedule@[j];
                        let vi = #[trigger] schedule@[j];
                        &&& vi.start_timestamp == inp.start_timestamp * crate::NANOS_PER_SEC
                        &&& vi.end_timestamp == inp.end_timestamp * crate::NANOS_PER_SEC
                        &&& vi.amount == inp.amount
                    },
            decreases skyward_vesting_schedule@.len() - i,
        {
            let inp = skyward_vesting_schedule[i];
            proof {
                assert(skyward_vesting_schedule@.subrange(0, i + 1).drop_last()
                    == skyward_vesting_schedule@.subrange(0, i as int));
                assert(skyward_vesting_schedule@.subrange(0, i + 1).last() == inp);
            }
            let ghost pre_schedule = schedule@;
            schedule.push(
                VestingInterval {
                    start_timestamp: crate::to_nano(inp.start_timestamp),
                    end_timestamp: crate::to_nano(inp.end_timestamp),
                    amount: inp.amount,
                },
            );
            proof {
                assert(schedule@.drop_last() == pre_schedule);
            }
            i = i + 1;
        }
        proof {
            assert(skyward_vesting_schedule@.subrange(0, skyward_vesting_schedule@.len() as int)
                == skyward_vesting_schedule@);
        }
        Contract {
            accounts: IdMap::new(),
            sales: IdMap::new(),
            num_sales: 0,
            treasury: Treasury::new(
                skyward_token_id,
                schedule,
                listing_fee_near,
                w_near_token_id,
            ),
        }
    }
}

/// What the sale owner is credited when unclaimed in-tokens are
/// distributed: everything after the treasury fee, or everything for a
/// native-token sale; nothing for the engine's own sales.
pub open spec fn spec_dist_owner_credit(
    sale: Sale,
    engine_id: AccountId,
    sky: TokenAccountId,
) -> int {
    let pu = sale.in_token_paid_unclaimed as int;
    if pu == 0 || sale.owner_id == engine_id {
        0
    } else if sale.in_token_account_id != sky {
        pu - pu / (TREASURY_FEE_DENOMINATOR as int)
    } else {
        pu
    }
}

/// What the treasury's in-token balance gains on distribution: the whole
/// amount for an engine-owned sale, the one-percent fee otherwise.
pub open spec fn spec_dist_treasury_in_credit(
    sale: Sale,
    engine_id: AccountId,
    sky: TokenAccountId,
) -> int {
    let pu = sale.in_token_paid_unclaimed as int;
    if pu == 0 {
        0
    } else if sale.owner_id == engine_id {
        if sale.in_token_account_id == sky {
            0
        } else {
            pu
        }
    } else if sale.in_token_account_id != sky {
        pu / (TREASURY_FEE_DENOMINATOR as int)
    } else {
        0
    }
}

/// What gets burned on distribution: an engine-owned sale paid in the
/// native token donates it, which burns it.
pub open spec fn spec_dist_burn(sale: Sale, engine_id: AccountId, sky: TokenAccountId) -> int {
    let pu = sale.in_token_paid_unclaimed as int;
    if pu > 0 && sale.owner_id == engine_id && sale.in_token_account_id == sky {
        pu
    } else {
        0
    }
}

impl Contract {
    /// Settles a sale's unclaimed amounts: the attributed in-tokens go to
    /// the owner minus the treasury fee (or to the treasury for the
    /// engine's own sales), and every out-token's fee bucket moves into
    /// the treasury.
    #[verifier::loop_isolation(false)]
    pub fn internal_distribute_unclaimed_tokens(
        &mut self,
        sale: &mut Sale,
        current_account_id: AccountId,
    )
        requires
            old(self).wf(),
            old(sale).wf(),
            old(sale).spec_out_tokens_unique(),
            old(sale).spec_out_tokens_distinct_from_in(),
            forall|i: int|
                0 <= i < old(sale).out_tokens@.len() ==> ((#[trigger] old(
                    sale,
                ).out_tokens@[i]).treasury_unclaimed is Some ==> old(sale).out_tokens@[i].token_account_id
                    != old(self).treasury.skyward_token_id),
            ({
                let pu = old(sale).in_token_paid_unclaimed;
                let owner = old(sale).owner_id;
                let in_t = old(sale).in_token_account_id;
                pu > 0 && owner != current_account_id ==> match old(self).spec_account(owner) {
                    Some(acc) => acc.balances.contains_key(in_t) && acc.spec_balance(in_t) + pu
                        < p128(),
                    None => false,
                }
            }),
            old(self).treasury.skyward_burned_amount + spec_dist_burn(
                *old(sale),
                current_account_id,
                old(self).treasury.skyward_token_id,
            ) < p128(),
            old(self).treasury.spec_balance(old(sale).in_token_account_id)
                + spec_dist_treasury_in_credit(
                *old(sale),
                current_account_id,
                old(self).treasury.skyward_token_id,
            ) < p128(),
            forall|i: int|
                0 <= i < old(sale).out_tokens@.len() ==> old(self).treasury.spec_balance(
                    (#[trigger] old(sale).out_tokens@[i]).token_account_id,
                ) + old(sale).out_tokens@[i].fee_bucket() < p128(),
            old(sale).in_token_account_id != old(self).treasury.skyward_token_id ==> old(
                self,
            ).treasury.spec_balance(old(sale).in_token_account_id) >= 0,
        ensures
            final(self).wf(),
            final(sale).wf(),
            crate::sale::sale_meta_unchanged(*old(sale), *final(sale)),
            final(sale).in_token_paid_unclaimed == 0,
            final(sale).in_token_remaining == old(sale).in_token_remaining,
            final(sale).in_token_paid == old(sale).in_token_paid,
            final(sale).last_timestamp == old(sale).last_timestamp,
            final(sale).out_tokens@.len() == old(sale).out_tokens@.len(),
            forall|i: int|
                0 <= i < old(sale).out_tokens@.len() ==> {
                    let o = old(sale).out_tokens@[i];
                    let n = #[trigger] final(sale).out_tokens@[i];
                    &&& n.token_account_id == o.token_account_id
                    &&& n.remaining == o.remaining
                    &&& n.distributed == o.distributed
                    &&& n.per_share == o.per_share
                    &&& n.treasury_unclaimed == match o.treasury_unclaimed {
                        Some(_) => Some(0u128),
                        None => None::<Balance>,
                    }
                },
            final(self).treasury.skyward_burned_amount == old(self).treasury.skyward_burned_amount
                + spec_dist_burn(
                *old(sale),
                current_account_id,
                old(self).treasury.skyward_token_id,
            ),
            final(self).treasury.spec_balance(old(sale).in_token_account_id) == old(
                self,
            ).treasury.spec_balance(old(sale).in_token_account_id) + spec_dist_treasury_in_credit(
                *old(sale),
                current_account_id,
                old(self).treasury.skyward_token_id,
            ),
            forall|i: int|
                0 <= i < old(sale).out_tokens@.len() ==> final(self).treasury.spec_balance(
                    (#[trigger] old(sale).out_tokens@[i]).token_account_id,
                ) == old(self).treasury.spec_balance(old(sale).out_tokens@[i].token_account_id)
                    + old(sale).out_tokens@[i].fee_bucket(),
            forall|t: TokenAccountId|
                (t != old(sale).in_token_account_id && (forall|i: int|
                    0 <= i < old(sale).out_tokens@.len() ==> (#[trigger] old(
                        sale,
                    ).out_tokens@[i]).token_account_id != t)) ==> final(self).treasury.spec_balance(
                    t,
                ) == old(self).treasury.spec_balance(t),
            final(self).treasury.skyward_token_id == old(self).treasury.skyward_token_id,
            final(self).treasury.skyward_vesting_schedule == old(
                self,
            ).treasury.skyward_vesting_schedule,
            final(self).treasury.listing_fee_near == old(self).treasury.listing_fee_near,
            final(self).treasury.w_near_token_id == old(self).treasury.w_near_token_id,
            ({
                let pu = old(sale).in_token_paid_unclaimed;
                let owner = old(sale).owner_id;
                if pu == 0 || owner == current_account_id {
                    final(self).accounts == old(self).accounts
                } else {
                    &&& forall|aid: AccountId|
                        aid != owner ==> final(self).spec_account(aid) == old(self).spec_account(
                            aid,
                        )
                    &&& match (old(self).spec_account(owner), final(self).spec_account(owner)) {
                        (Some(acc0), Some(acc1)) => {
                            &&& acc1.balances.contains_key(old(sale).in_token_account_id)
                            &&& acc1.spec_balance(old(sale).in_token_account_id) == acc0.spec_balance(
                                old(sale).in_token_account_id,
                            ) + spec_dist_owner_credit(
                                *old(sale),
                                current_account_id,
                                old(self).treasury.skyward_token_id,
                            )
                            &&& forall|t: TokenAccountId|
                                t != old(sale).in_token_account_id ==> acc1.balances.spec_get(t)
                                    == acc0.balances.spec_get(t)
                            &&& acc1.subs == acc0.subs
                            &&& acc1.sales == acc0.sales
                        },
                        _ => false,
                    }
                }
            }),
            final(self).accounts@.len() == old(self).accounts@.len(),
            final(self).sales == old(self).sales,
            final(self).num_sales == old(self).num_sales,
    {
        let pu = sale.in_token_paid_unclaimed;
        if pu > 0 {
            if sale.owner_id == current_account_id {
                self.treasury.internal_donate(sale.in_token_account_id, pu);
            } else {
                let ghost pre_accounts = self.accounts@;
                let mut account = match self.accounts.remove(sale.owner_id) {
                    Some(a) => a,
                    None => {
                        proof {
                            assert(false);
                        }
                        Account::new()
                    },
                };
                proof {
                    crate::idmap::lemma_seq_get_present(pre_accounts, sale.owner_id);
                }
                if sale.in_token_account_id != self.treasury.skyward_token_id {
                    let treasury_fee = pu / (TREASURY_FEE_DENOMINATOR as u128);
                    self.treasury.internal_deposit(sale.in_token_account_id, treasury_fee);
                    account.internal_token_deposit(sale.in_token_account_id, pu - treasury_fee);
                } else {
                    account.internal_token_deposit(sale.in_token_account_id, pu);
                }
                self.accounts.insert(sale.owner_id, account);
            }
            sale.in_token_paid_unclaimed = 0;
        }
        let ghost mid_self = *self;
        let ghost mid_sale = *sale;
        let mut i: usize = 0;
        while i < sale.out_tokens.len()
            invariant
                self.wf(),
                i <= old(sale).out_tokens@.len(),
                sale.out_tokens@.len() == old(sale).out_tokens@.len(),
                *sale == (Sale { out_tokens: sale.out_tokens, ..mid_sale }),
                forall|j: int|
                    i as int <= j < old(sale).out_tokens@.len() ==> #[trigger] sale.out_tokens@[j]
                        == old(sale).out_tokens@[j],
                forall|j: int|
                    0 <= j < i as int ==> {
                        let o = old(sale).out_tokens@[j];
                        let n = #[trigger] sale.out_tokens@[j];
                        &&& n.token_account_id == o.token_account_id
                        &&& n.remaining == o.remaining
                        &&& n.distributed == o.distributed
                        &&& n.per_share == o.per_share
                        &&& n.treasury_unclaimed == match o.treasury_unclaimed {
                            Some(_) => Some(0u128),
                            None => None::<Balance>,
                        }
                    },
                forall|j: int|
                    0 <= j < i as int ==> self.treasury.spec_balance(
                        (#[trigger] old(sale).out_tokens@[j]).token_account_id,
                    ) == mid_self.treasury.spec_balance(old(sale).out_tokens@[j].token_account_id)
                        + old(sale).out_tokens@[j].fee_bucket(),
                forall|j: int|
                    i as int <= j < old(sale).out_tokens@.len() ==> self.treasury.spec_balance(
                        (#[trigger] old(sale).out_tokens@[j]).token_account_id,
                    ) == mid_self.treasury.spec_balance(old(sale).out_tokens@[j].token_account_id),
                forall|t: TokenAccountId|
                    (forall|j: int|
                        0 <= j < old(sale).out_tokens@.len() ==> (#[trigger] old(
                            sale,
                        ).out_tokens@[j]).token_account_id != t) ==> self.treasury.spec_balance(t)
                        == mid_self.treasury.spec_balance(t),
                self.treasury.skyward_burned_amount == mid_self.treasury.skyward_burned_amount,
                self.treasury.skyward_token_id == mid_self.treasury.skyward_token_id,
                self.treasury.skyward_vesting_schedule
                    == mid_self.treasury.skyward_vesting_schedule,
                self.treasury.listing_fee_near == mid_self.treasury.listing_fee_near,
                self.treasury.w_near_token_id == mid_self.treasury.w_near_token_id,
                self.accounts == mid_self.accounts,
                self.sales == mid_self.sales,
                self.num_sales == mid_self.num_sales,
            decreases old(sale).out_tokens@.len() - i,
        {
            let o = sale.out_tokens[i];
            if let Some(treasury_unclaimed) = o.treasury_unclaimed {
                self.treasury.internal_deposit(o.token_account_id, treasury_unclaimed);
                sale.out_tokens[i] = SaleOutToken { treasury_unclaimed: Some(0), ..o };
            }
            i = i + 1;
        }
        proof {
            assert forall|t: TokenAccountId|
                (t != old(sale).in_token_account_id && (forall|j: int|
                    0 <= j < old(sale).out_tokens@.len() ==> (#[trigger] old(
                        sale,
                    ).out_tokens@[j]).token_account_id != t)) implies self.treasury.spec_balance(t)
                == old(self).treasury.spec_balance(t) by {
                assert(self.treasury.spec_balance(t) == mid_self.treasury.spec_balance(t));
                assert(mid_self.treasury.spec_balance(t) == old(self).treasury.spec_balance(t));
            }
        }
    }
}

/// What a subscription has accrued from out-token `i` of a sale.
pub open spec fn spec_accrued_at(sale: Sale, sub: Subscription, i: int) -> int {
    spec_accrued(sale.out_tokens@[i].per_share, sub.last_out_token_per_share@[i], sub.shares)
}

/// The referral cut taken from the accrual of out-token `i`: one percent
/// of a native-token accrual, when that percent is positive.
pub open spec fn spec_refcut_at(sale: Sale, sub: Subscription, sky: TokenAccountId, i: int) -> int {
    let a = spec_accrued_at(sale, sub, i);
    if sale.out_tokens@[i].token_account_id == sky && a / (REFERRAL_FEE_DENOMINATOR as int) > 0 {
        a / (REFERRAL_FEE_DENOMINATOR as int)
    } else {
        0
    }
}

/// What the subscriber is credited from out-token `i`: the accrual minus
/// the referral cut.
pub open spec fn spec_credited_at(sale: Sale, sub: Subscription, sky: TokenAccountId, i: int) -> int {
    spec_accrued_at(sale, sub, i) - spec_refcut_at(sale, sub, sky, i)
}

/// Referral cuts over the first `n` out-tokens.
pub open spec fn spec_refcut_total(sale: Sale, sub: Subscription, sky: TokenAccountId, n: int) -> int
    decreases n,
{
    if n <= 0 {
        0
    } else {
        spec_refcut_total(sale, sub, sky, n - 1) + spec_refcut_at(sale, sub, sky, n - 1)
    }
}

/// Accruals and their referral cuts are non-negative, and the cut never
/// exceeds the accrual.
pub proof fn lemma_accrual_nonneg(sale: Sale, sub: Subscription, sky: TokenAccountId, i: int)
    requires
        0 <= i < sale.out_tokens@.len(),
        sub.valid_for(sale),
    ensures
        0 <= spec_refcut_at(sale, sub, sky, i) <= spec_accrued_at(sale, sub, i),
{
    let cur = sale.out_tokens@[i].per_share;
    let prev = sub.last_out_token_per_share@[i];
    if cur.v() != 0 {
        vstd::arithmetic::mul::lemma_mul_nonnegative(cur.v() - prev.v(), sub.shares as int);
        vstd::arithmetic::div_mod::lemma_div_pos_is_pos(
            (cur.v() - prev.v()) * (sub.shares as int),
            crate::MULTIPLIER as int,
        );
    }
    let a = spec_accrued_at(sale, sub, i);
    vstd::arithmetic::div_mod::lemma_fundamental_div_mod(a, REFERRAL_FEE_DENOMINATOR as int);
}

/// Partial referral-cut sums are non-negative and monotone.
pub proof fn lemma_refcut_total_mono(
    sale: Sale,
    sub: Subscription,
    sky: TokenAccountId,
    i: int,
    n: int,
)
    requires
        0 <= i <= n <= sale.out_tokens@.len(),
        sub.valid_for(sale),
    ensures
        0 <= spec_refcut_total(sale, sub, sky, i) <= spec_refcut_total(sale, sub, sky, n),
    decreases n - i, i,
{
    if i < n {
        lemma_refcut_total_mono(sale, sub, sky, i, n - 1);
        lemma_accrual_nonneg(sale, sub, sky, n - 1);
    } else if i > 0 {
        lemma_refcut_total_mono(sale, sub, sky, i - 1, i - 1);
        lemma_accrual_nonneg(sale, sub, sky, i - 1);
    }
}

/// Two sale states that agree on their out-tokens' identities and
/// accumulators yield the same accruals and referral cuts.
pub proof fn lemma_refcut_total_congruence(
    sa: Sale,
    sb: Sale,
    sub: Subscription,
    sky: TokenAccountId,
    n: int,
)
    requires
        sa.out_tokens@.len() == sb.out_tokens@.len(),
        n <= sa.out_tokens@.len(),
        forall|i: int|
            0 <= i < sa.out_tokens@.len() ==> (#[trigger] sb.out_tokens@[i]).token_account_id
                == sa.out_tokens@[i].token_account_id && sb.out_tokens@[i].per_share
                == sa.out_tokens@[i].per_share,
    ensures
        forall|i: int|
            0 <= i < n ==> #[trigger] spec_accrued_at(sb, sub, i) == spec_accrued_at(sa, sub, i),
        forall|i: int|
            0 <= i < n ==> #[trigger] spec_refcut_at(sb, sub, sky, i) == spec_refcut_at(
                sa,
                sub,
                sky,
                i,
            ),
        spec_refcut_total(sb, sub, sky, n) == spec_refcut_total(sa, sub, sky, n),
    decreases n,
{
    if n > 0 {
        lemma_refcut_total_congruence(sa, sb, sub, sky, n - 1);
    }
}

/// Whether a claim's referral cut can actually reach the referral: the
/// subscription names one, the referral has an account, and that account
/// has the native token registered.
pub open spec fn spec_referral_resolves(c: Contract, sub: Subscription) -> bool {
    match sub.referral_id {
        Some(rid) => match c.spec_account(rid) {
            Some(racc) => racc.balances.contains_key(c.treasury.skyward_token_id),
            None => false,
        },
        None => false,
    }
}

impl Contract {
    /// Loads (or freshly creates) the caller's subscription, accrues its
    /// share of everything distributed since its snapshots, credits the
    /// accruals to the account (diverting the referral cut of native
    /// accruals to the referral, or burning it), and frees the position's
    /// shares once they no longer back any in-balance.
    ///
    /// The subscription is taken out of the account; the caller stores
    /// the returned record with `internal_save_subscription`.
    #[verifier::loop_isolation(false)]
    #[verifier::rlimit(100)]
    pub fn internal_update_subscription(
        &mut self,
        account: &mut Account,
        sale_id: u64,
        sale: &mut Sale,
        referral_id: Option<AccountId>,
    ) -> (subscription: Subscription)
        requires
            old(self).wf(),
            old(account).wf(),
            old(sale).wf(),
            old(sale).spec_out_tokens_unique(),
            match old(account).subs.spec_get(sale_id) {
                Some(sub) => {
                    &&& sub.valid_for(*old(sale))
                    &&& forall|i: int|
                        0 <= i < old(sale).out_tokens@.len() ==> sub.accrual_fits(*old(sale), i)
                    &&& forall|i: int|
                        0 <= i < old(sale).out_tokens@.len() ==> (spec_accrued_at(
                            *old(sale),
                            sub,
                            i,
                        ) > 0 ==> old(account).balances.contains_key(
                            (#[trigger] old(sale).out_tokens@[i]).token_account_id,
                        ))
                    &&& forall|i: int|
                        0 <= i < old(sale).out_tokens@.len() ==> old(account).spec_balance(
                            (#[trigger] old(sale).out_tokens@[i]).token_account_id,
                        ) + spec_credited_at(
                            *old(sale),
                            sub,
                            old(self).treasury.skyward_token_id,
                            i,
                        ) < p128()
                    &&& forall|i: int|
                        0 <= i < old(sale).out_tokens@.len()
                            ==> (#[trigger] sub.claimed_out_balance@[i]) + spec_credited_at(
                            *old(sale),
                            sub,
                            old(self).treasury.skyward_token_id,
                            i,
                        ) < p128()
                    &&& old(self).treasury.skyward_burned_amount + spec_refcut_total(
                        *old(sale),
                        sub,
                        old(self).treasury.skyward_token_id,
                        old(sale).out_tokens@.len() as int,
                    ) < p128()
                    &&& (spec_referral_resolves(*old(self), sub) ==> match old(self).spec_account(
                        sub.referral_id->0,
                    ) {
                        Some(racc) => racc.spec_balance(old(self).treasury.skyward_token_id)
                            + spec_refcut_total(
                            *old(sale),
                            sub,
                            old(self).treasury.skyward_token_id,
                            old(sale).out_tokens@.len() as int,
                        ) < p128(),
                        None => false,
                    })
                },
                None => true,
            },
        ensures
            final(self).wf(),
            final(account).wf(),
            final(sale).wf(),
            final(account).subs.spec_get(sale_id) is None,
            forall|s2: u64|
                s2 != sale_id ==> final(account).subs.spec_get(s2) == old(account).subs.spec_get(
                    s2,
                ),
            final(account).sales == old(account).sales,
            final(self).sales == old(self).sales,
            final(self).num_sales == old(self).num_sales,
            final(self).treasury.skyward_token_id == old(self).treasury.skyward_token_id,
            final(self).treasury.skyward_vesting_schedule == old(
                self,
            ).treasury.skyward_vesting_schedule,
            final(self).treasury.listing_fee_near == old(self).treasury.listing_fee_near,
            final(self).treasury.w_near_token_id == old(self).treasury.w_near_token_id,
            final(self).treasury.balances == old(self).treasury.balances,
            final(sale).owner_id == old(sale).owner_id,
            final(sale).title == old(sale).title,
            final(sale).url == old(sale).url,
            final(sale).in_token_account_id == old(sale).in_token_account_id,
            final(sale).in_token_remaining == old(sale).in_token_remaining,
            final(sale).in_token_paid_unclaimed == old(sale).in_token_paid_unclaimed,
            final(sale).in_token_paid == old(sale).in_token_paid,
            final(sale).start_time == old(sale).start_time,
            final(sale).duration == old(sale).duration,
            final(sale).last_timestamp == old(sale).last_timestamp,
            final(sale).permissions_contract_id == old(sale).permissions_contract_id,
            final(sale).associated_sale_id == old(sale).associated_sale_id,
            final(sale).out_tokens == old(sale).out_tokens,
            subscription.valid_for(*final(sale)),
            subscription.last_out_token_per_share@.len() == old(sale).out_tokens@.len(),
            forall|i: int|
                0 <= i < old(sale).out_tokens@.len()
                    ==> #[trigger] subscription.last_out_token_per_share@[i]
                    == old(sale).out_tokens@[i].per_share,
            match old(account).subs.spec_get(sale_id) {
                Some(sub) => {
                    let sky = old(self).treasury.skyward_token_id;
                    let freed = sub.shares > 0 && old(sale).spec_shares_to_in_balance(sub.shares)
                        == 0;
                    let total_ref = spec_refcut_total(
                        *old(sale),
                        sub,
                        sky,
                        old(sale).out_tokens@.len() as int,
                    );
                    &&& subscription.shares == if freed {
                        0int
                    } else {
                        sub.shares as int
                    }
                    &&& final(sale).total_shares == if freed {
                        old(sale).total_shares - sub.shares
                    } else {
                        old(sale).total_shares as int
                    }
                    &&& subscription.last_in_balance == sub.last_in_balance
                    &&& subscription.spent_in_balance_without_shares
                        == sub.spent_in_balance_without_shares
                    &&& subscription.referral_id == sub.referral_id
                    &&& subscription.claimed_out_balance@.len() == old(sale).out_tokens@.len()
                    &&& forall|i: int|
                        0 <= i < old(sale).out_tokens@.len()
                            ==> #[trigger] subscription.claimed_out_balance@[i]
                            == sub.claimed_out_balance@[i] + spec_credited_at(
                            *old(sale),
                            sub,
                            sky,
                            i,
                        )
                    &&& forall|i: int|
                        0 <= i < old(sale).out_tokens@.len() ==> final(account).spec_balance(
                            (#[trigger] old(sale).out_tokens@[i]).token_account_id,
                        ) == old(account).spec_balance(old(sale).out_tokens@[i].token_account_id)
                            + spec_credited_at(*old(sale), sub, sky, i)
                    &&& forall|t: TokenAccountId|
                        (forall|i: int|
                            0 <= i < old(sale).out_tokens@.len() ==> (#[trigger] old(
                                sale,
                            ).out_tokens@[i]).token_account_id != t)
                            ==> final(account).balances.spec_get(t)
                            == old(account).balances.spec_get(t)
                    &&& (spec_referral_resolves(*old(self), sub) ==> {
                        &&& final(self).treasury.skyward_burned_amount == old(
                            self,
                        ).treasury.skyward_burned_amount
                        &&& match (
                            old(self).spec_account(sub.referral_id->0),
                            final(self).spec_account(sub.referral_id->0),
                        ) {
                            (Some(racc0), Some(racc1)) => {
                                &&& racc1.spec_balance(sky) == racc0.spec_balance(sky) + total_ref
                                &&& forall|t: TokenAccountId|
                                    t != sky ==> racc1.balances.spec_get(t)
                                        == racc0.balances.spec_get(t)
                                &&& racc1.subs == racc0.subs
                                &&& racc1.sales == racc0.sales
                            },
                            _ => false,
                        }
                        &&& forall|aid: AccountId|
                            aid != sub.referral_id->0 ==> final(self).spec_account(aid) == old(
                                self,
                            ).spec_account(aid)
                    })
                    &&& (!spec_referral_resolves(*old(self), sub) ==> {
                        &&& final(self).treasury.skyward_burned_amount == old(
                            self,
                        ).treasury.skyward_burned_amount + total_ref
                        &&& final(self).accounts == old(self).accounts
                    })
                },
                None => {
                    &&& subscription.shares == 0
                    &&& subscription.last_in_balance == 0
                    &&& subscription.spent_in_balance_without_shares == 0
                    &&& subscription.referral_id == referral_id
                    &&& subscription.claimed_out_balance@.len() == old(sale).out_tokens@.len()
                    &&& forall|i: int|
                        0 <= i < old(sale).out_tokens@.len()
                            ==> #[trigger] subscription.claimed_out_balance@[i] == 0
                    &&& final(sale).total_shares == old(sale).total_shares
                    &&& final(account).balances == old(account).balances
                    &&& final(self).accounts == old(self).accounts
                    &&& final(self).treasury.skyward_burned_amount == old(
                        self,
                    ).treasury.skyward_burned_amount
                },
            },
    {
        let ghost sky = self.treasury.skyward_token_id;
        let had_sub = account.subs.contains(sale_id);
        let mut subscription = if had_sub {
            match account.subs.remove(sale_id) {
                Some(s) => s,
                None => {
                    proof {
                        assert(false);
                    }
                    Subscription::new(sale, referral_id)
                },
            }
        } else {
            account.subs.remove(sale_id);
            Subscription::new(sale, referral_id)
        };
        proof {
            if !had_sub {
                assert forall|i: int|
                    0 <= i < sale.out_tokens@.len() implies subscription.accrual_fits(
                    *sale,
                    i,
                ) by {
                    let cur = sale.out_tokens@[i].per_share;
                    assert((cur.v() - cur.v()) * (subscription.shares as int) == 0) by {
                        vstd::arithmetic::mul::lemma_mul_by_zero_is_zero(
                            subscription.shares as int,
                        );
                    }
                }
            }
        }
        let ghost sub1 = subscription;
        let out_token_amounts = subscription.touch(sale);
        proof {
            assert forall|i: int|
                0 <= i < sale.out_tokens@.len() implies #[trigger] out_token_amounts@[i]
                == spec_accrued_at(*sale, sub1, i) by {
            }
            if had_sub {
                assert(sub1.valid_for(*sale));
            } else {
                assert forall|i: int|
                    0 <= i < sale.out_tokens@.len() implies spec_accrued_at(*sale, sub1, i)
                    == 0 by {
                    let cur = sale.out_tokens@[i].per_share;
                    assert((cur.v() - cur.v()) * (sub1.shares as int) == 0) by {
                        vstd::arithmetic::mul::lemma_mul_by_zero_is_zero(sub1.shares as int);
                    }
                }
            }
        }
        let ghost mid_self = *self;
        let ghost mid_account = *account;
        let ghost sub_touched = subscription;
        let n = sale.out_tokens.len();
        let mut i: usize = 0;
        while i < n
            invariant
                self.wf(),
                account.wf(),
                i <= n,
                n == sale.out_tokens@.len(),
                sub1.valid_for(*sale),
                out_token_amounts@.len() == sale.out_tokens@.len(),
                subscription.claimed_out_balance@.len() == sale.out_tokens@.len(),
                subscription.shares == sub_touched.shares,
                subscription.last_in_balance == sub_touched.last_in_balance,
                subscription.spent_in_balance_without_shares
                    == sub_touched.spent_in_balance_without_shares,
                subscription.last_out_token_per_share == sub_touched.last_out_token_per_share,
                subscription.referral_id == sub_touched.referral_id,
                forall|j: int|
                    i as int <= j < sale.out_tokens@.len()
                        ==> #[trigger] subscription.claimed_out_balance@[j]
                        == sub_touched.claimed_out_balance@[j],
                forall|j: int|
                    0 <= j < i as int ==> #[trigger] subscription.claimed_out_balance@[j]
                        == sub_touched.claimed_out_balance@[j] + spec_credited_at(
                        *sale,
                        sub1,
                        sky,
                        j,
                    ),
                forall|j: int|
                    0 <= j < i as int ==> account.spec_balance(
                        (#[trigger] sale.out_tokens@[j]).token_account_id,
                    ) == mid_account.spec_balance(sale.out_tokens@[j].token_account_id)
                        + spec_credited_at(*sale, sub1, sky, j),
                forall|t: TokenAccountId|
                    (forall|j: int|
                        0 <= j < i as int ==> (#[trigger] sale.out_tokens@[j]).token_account_id
                            != t) ==> account.balances.spec_get(t) == mid_account.balances.spec_get(
                        t,
                    ),
                account.subs == mid_account.subs,
                account.sales == mid_account.sales,
                self.sales == mid_self.sales,
                self.num_sales == mid_self.num_sales,
                self.treasury.skyward_token_id == sky,
                self.treasury.skyward_vesting_schedule
                    == mid_self.treasury.skyward_vesting_schedule,
                self.treasury.listing_fee_near == mid_self.treasury.listing_fee_near,
                self.treasury.w_near_token_id == mid_self.treasury.w_near_token_id,
                self.treasury.balances == mid_self.treasury.balances,
                spec_referral_resolves(mid_self, sub1) ==> {
                    &&& self.treasury.skyward_burned_amount
                        == mid_self.treasury.skyward_burned_amount
                    &&& match (
                        mid_self.spec_account(sub1.referral_id->0),
                        self.spec_account(sub1.referral_id->0),
                    ) {
                        (Some(racc0), Some(racc1)) => {
                            &&& racc1.balances.contains_key(sky)
                            &&& racc1.spec_balance(sky) == racc0.spec_balance(sky)
                                + spec_refcut_total(*sale, sub1, sky, i as int)
                            &&& forall|t: TokenAccountId|
                                t != sky ==> racc1.balances.spec_get(t) == racc0.balances.spec_get(
                                    t,
                                )
                            &&& racc1.subs == racc0.subs
                            &&& racc1.sales == racc0.sales
                        },
                        _ => false,
                    }
                    &&& forall|aid: AccountId|
                        aid != sub1.referral_id->0 ==> self.spec_account(aid)
                            == mid_self.spec_account(aid)
                },
                !spec_referral_resolves(mid_self, sub1) ==> {
                    &&& self.treasury.skyward_burned_amount
                        == mid_self.treasury.skyward_burned_amount + spec_refcut_total(
                        *sale,
                        sub1,
                        sky,
                        i as int,
                    )
                    &&& self.accounts == mid_self.accounts
                },
                (forall|j: int|
                    0 <= j < out_token_amounts@.len() ==> out_token_amounts@[j] == 0) ==> {
                    &&& account.balances == mid_account.balances
                    &&& self.accounts == mid_self.accounts
                    &&& self.treasury == mid_self.treasury
                },
            decreases n - i,
        {
            proof {
                lemma_accrual_nonneg(*sale, sub1, sky, i as int);
                lemma_refcut_total_mono(*sale, sub1, sky, i as int, n as int);
                lemma_refcut_total_mono(*sale, sub1, sky, i + 1, n as int);
                assert(spec_refcut_total(*sale, sub1, sky, i + 1) == spec_refcut_total(
                    *sale,
                    sub1,
                    sky,
                    i as int,
                ) + spec_refcut_at(*sale, sub1, sky, i as int));
            }
            let mut amount = out_token_amounts[i];
            if amount > 0 {
                let token_account_id = sale.out_tokens[i].token_account_id;
                if token_account_id == self.treasury.skyward_token_id {
                    let mut ref_amount = amount / (REFERRAL_FEE_DENOMINATOR as u128);
                    if ref_amount > 0 {
                        amount = amount - ref_amount;
                        if let Some(rid) = subscription.referral_id {
                            let can_credit = match self.accounts.get(rid) {
                                Some(racc) => {
                                    proof {
                                        crate::idmap::lemma_seq_get_present(self.accounts@, rid);
                                    }
                                    racc.balances.contains(token_account_id)
                                },
                                None => false,
                            };
                            if can_credit {
                                let ghost pre_accounts = self.accounts@;
                                let mut referral = match self.accounts.remove(rid) {
                                    Some(r) => r,
                                    None => {
                                        proof {
                                            assert(false);
                                        }
                                        Account::new()
                                    },
                                };
                                proof {
                                    crate::idmap::lemma_seq_get_present(pre_accounts, rid);
                                }
                                referral.internal_token_deposit(token_account_id, ref_amount);
                                self.accounts.insert(rid, referral);
                                ref_amount = 0;
                            }
                        }
                        if ref_amount > 0 {
                            self.treasury.skyward_burned_amount =
                                self.treasury.skyward_burned_amount + ref_amount;
                        }
                    }
                }
                let token_account_id = sale.out_tokens[i].token_account_id;
                account.internal_token_deposit(token_account_id, amount);
                let claimed = subscription.claimed_out_balance[i];
                subscription.claimed_out_balance[i] = claimed + amount;
            }
            i = i + 1;
        }
        if subscription.shares > 0 {
            let remaining_in_amount = sale.shares_to_in_balance(subscription.shares);
            if remaining_in_amount == 0 {
                proof {
                    // Freeing the whole pool's shares is only possible
                    // once no in-balance is left behind them.
                    if subscription.shares == sale.total_shares {
                        crate::arith::lemma_muldiv_exact(
                            sale.in_token_remaining as int,
                            sale.total_shares as int,
                        );
                    }
                }
                sale.total_shares = sale.total_shares - subscription.shares;
                subscription.shares = 0;
            }
        }
        subscription
    }
}



/// The conditions a deposit needs of the sale once it has been advanced
/// to `now`: an active pool must still be live, and the minted shares
/// must stay within machine bounds.
pub open spec fn spec_deposit_mid_ok(
    sub_shares: int,
    freed: bool,
    s1: Sale,
    in_amount: Balance,
) -> bool {
    let t2 = if freed {
        s1.total_shares - sub_shares
    } else {
        s1.total_shares as int
    };
    let r1 = s1.in_token_remaining as int;
    &&& (t2 > 0 ==> r1 > 0 && !s1.spec_has_ended())
    &&& (t2 > 0 ==> in_amount * t2 / r1 + t2 < p128() - 1)
    &&& (t2 == 0 ==> in_amount < p128() - 1)
}

impl Contract {
    /// Whether the subscription (if any) of `acc` to the sale in state
    /// `s1` can be accrued once the sale has been settled: snapshots
    /// behind the accumulators, shares covered by the total, accruals
    /// within machine bounds, and room in every balance they can touch,
    /// also after the settlement credits of
    /// `internal_distribute_unclaimed_tokens` land.
    pub open spec fn spec_sub_claimable(
        self,
        acc: Account,
        s1: Sale,
        sale_id: u64,
        engine_id: AccountId,
    ) -> bool {
        let sky = self.treasury.skyward_token_id;
        match acc.subs.spec_get(sale_id) {
            Some(sub) => {
                let total_ref = spec_refcut_total(s1, sub, sky, s1.out_tokens@.len() as int);
                &&& sub.valid_for(s1)
                &&& forall|i: int| 0 <= i < s1.out_tokens@.len() ==> sub.accrual_fits(s1, i)
                &&& forall|i: int|
                    0 <= i < s1.out_tokens@.len() ==> (spec_accrued_at(s1, sub, i) > 0
                        ==> acc.balances.contains_key(
                        (#[trigger] s1.out_tokens@[i]).token_account_id,
                    ))
                &&& forall|i: int|
                    0 <= i < s1.out_tokens@.len() ==> acc.spec_balance(
                        (#[trigger] s1.out_tokens@[i]).token_account_id,
                    ) + spec_credited_at(s1, sub, sky, i) < p128()
                &&& forall|i: int|
                    0 <= i < s1.out_tokens@.len() ==> (#[trigger] sub.claimed_out_balance@[i])
                        + spec_credited_at(s1, sub, sky, i) < p128()
                &&& self.treasury.skyward_burned_amount + spec_dist_burn(s1, engine_id, sky)
                    + total_ref < p128()
                &&& (spec_referral_resolves(self, sub) ==> match self.spec_account(
                    sub.referral_id->0,
                ) {
                    Some(racc) => racc.spec_balance(sky) + spec_dist_owner_credit(
                        s1,
                        engine_id,
                        sky,
                    ) + total_ref < p128(),
                    None => false,
                })
            },
            None => true,
        }
    }

    /// The conditions `internal_distribute_unclaimed_tokens` needs, as a
    /// predicate over the state it will run on.
    pub open spec fn spec_dist_ok(self, sale: Sale, current_account_id: AccountId) -> bool {
        &&& (sale.in_token_paid_unclaimed > 0 && sale.owner_id != current_account_id
            ==> match self.spec_account(sale.owner_id) {
            Some(acc) => acc.balances.contains_key(sale.in_token_account_id) && acc.spec_balance(
                sale.in_token_account_id,
            ) + sale.in_token_paid_unclaimed < p128(),
            None => false,
        })
        &&& self.treasury.skyward_burned_amount + spec_dist_burn(
            sale,
            current_account_id,
            self.treasury.skyward_token_id,
        ) < p128()
        &&& self.treasury.spec_balance(sale.in_token_account_id) + spec_dist_treasury_in_credit(
            sale,
            current_account_id,
            self.treasury.skyward_token_id,
        ) < p128()
        &&& forall|i: int|
            0 <= i < sale.out_tokens@.len() ==> self.treasury.spec_balance(
                (#[trigger] sale.out_tokens@[i]).token_account_id,
            ) + sale.out_tokens@[i].fee_bucket() < p128()
        &&& forall|i: int|
            0 <= i < sale.out_tokens@.len() ==> ((#[trigger] sale.out_tokens@[i]).treasury_unclaimed
                is Some ==> sale.out_tokens@[i].token_account_id
                != self.treasury.skyward_token_id)
    }

    /// Deposits `in_amount` of the sale's in-token: the sale is advanced
    /// to `now` and settled, pending accruals are credited, and new
    /// shares are minted against the grown pool with floor rounding, so
    /// the subscriber's shares and the sale's total grow by the same
    /// amount.
    ///
    /// If the sale names a permissions contract and the caller has no
    /// subscription yet (and the permission check has not been passed),
    /// nothing changes and the permissions contract id is returned so
    /// the outer dispatcher can consult the oracle.
    #[verifier::loop_isolation(false)]
    #[verifier::rlimit(100)]
    pub fn internal_deposit_in_amount(
        &mut self,
        sale_id: u64,
        account_id: AccountId,
        in_amount: Balance,
        referral_id: Option<AccountId>,
        passed_permission_check: bool,
        current_account_id: AccountId,
        now: Timestamp,
    ) -> (permissions_contract: Option<AccountId>)
        requires
            old(self).wf(),
            in_amount > 0,
            referral_id != Some(account_id),
            old(self).spec_sale(sale_id) is Some,
            old(self).spec_account(account_id) is Some,
            ({
                let sale0 = old(self).spec_sale(sale_id)->0;
                let acc0 = old(self).spec_account(account_id)->0;
                &&& sale0.spec_out_tokens_unique()
                &&& sale0.spec_out_tokens_distinct_from_in()
                &&& acc0.balances.contains_key(sale0.in_token_account_id)
                &&& acc0.spec_balance(sale0.in_token_account_id) >= in_amount
                &&& sale0.in_token_remaining + sale0.in_token_paid + in_amount < p128()
                &&& match acc0.subs.spec_get(sale_id) {
                    Some(sub) => {
                        &&& sub.last_in_balance >= sale0.spec_shares_to_in_balance(sub.shares)
                        &&& sub.spent_in_balance_without_shares + sub.last_in_balance < p128()
                    },
                    None => true,
                }
                &&& forall|s1: Sale| #[trigger] crate::sale::sale_touched(sale0, s1, now) ==> {
                    let sub_shares = match acc0.subs.spec_get(sale_id) {
                        Some(sub) => sub.shares as int,
                        None => 0,
                    };
                    let freed = match acc0.subs.spec_get(sale_id) {
                        Some(sub) => sub.shares > 0 && s1.spec_shares_to_in_balance(sub.shares)
                            == 0,
                        None => false,
                    };
                    &&& old(self).spec_dist_ok(s1, current_account_id)
                    &&& old(self).spec_sub_claimable(acc0, s1, sale_id, current_account_id)
                    &&& spec_deposit_mid_ok(sub_shares, freed, s1, in_amount)
                }
            }),
        ensures
            final(self).wf(),
            final(self).num_sales == old(self).num_sales,
            forall|sid: u64|
                sid != sale_id ==> final(self).spec_sale(sid) == old(self).spec_sale(sid),
            ({
                let sale0 = old(self).spec_sale(sale_id)->0;
                let acc0 = old(self).spec_account(account_id)->0;
                let rid_frame = match acc0.subs.spec_get(sale_id) {
            Some(sub) => sub.referral_id,
            None => referral_id,
        };
                forall|aid: AccountId|
                    (aid != account_id && aid != sale0.owner_id && Some(aid) != rid_frame)
                        ==> final(self).spec_account(aid) == old(self).spec_account(aid)
            }),
            permissions_contract is Some <==> (!passed_permission_check && old(self).spec_sale(
                sale_id,
            )->0.permissions_contract_id is Some && old(self).spec_account(
                account_id,
            )->0.subs.spec_get(sale_id) is None),
            ({
                let sale0 = old(self).spec_sale(sale_id)->0;
                let acc0 = old(self).spec_account(account_id)->0;
                match permissions_contract {
                    Some(pid) => {
                        &&& sale0.permissions_contract_id == Some(pid)
                        &&& !passed_permission_check
                        &&& acc0.subs.spec_get(sale_id) is None
                        &&& *final(self) == *old(self)
                    },
                    None => exists|s1: Sale|
                        {
                            &&& #[trigger] crate::sale::sale_touched(sale0, s1, now)
                            &&& match (
                                acc0.subs.spec_get(sale_id),
                                final(self).spec_sale(sale_id),
                                final(self).spec_account(account_id),
                            ) {
                                (sub_opt, Some(s2), Some(acc2)) => {
                                    let sub_shares = match sub_opt {
                                        Some(sub) => sub.shares as int,
                                        None => 0,
                                    };
                                    let freed = match sub_opt {
                                        Some(sub) => sub.shares > 0
                                            && s1.spec_shares_to_in_balance(sub.shares) == 0,
                                        None => false,
                                    };
                                    let kept = if freed {
                                        0int
                                    } else {
                                        sub_shares
                                    };
                                    let t2 = if freed {
                                        s1.total_shares - sub_shares
                                    } else {
                                        s1.total_shares as int
                                    };
                                    let minted = if t2 == 0 {
                                        in_amount as int
                                    } else {
                                        in_amount * t2 / (s1.in_token_remaining as int)
                                    };
                                    &&& s2.total_shares == t2 + minted
                                    &&& s2.in_token_remaining == s1.in_token_remaining + in_amount
                                    &&& s2.in_token_paid == s1.in_token_paid
                                    &&& s2.in_token_paid_unclaimed == 0
                                    &&& s2.last_timestamp == s1.last_timestamp
                                    &&& s2.owner_id == sale0.owner_id
                                    &&& s2.in_token_account_id == sale0.in_token_account_id
                                    &&& s2.start_time == sale0.start_time
                                    &&& s2.duration == sale0.duration
                                    &&& s2.total_shares - t2 == minted
                                    &&& match acc2.subs.spec_get(sale_id) {
                                        Some(sub2) => {
                                            &&& sub2.shares == kept + minted
                                            &&& sub2.last_in_balance
                                                == s2.spec_shares_to_in_balance(sub2.shares)
                                            &&& sub2.shares - kept == minted
                                            &&& sub2.spent_in_balance_without_shares == (match
                                            sub_opt {
                                                Some(sub) => sub.spent_in_balance_without_shares
                                                    + sub.last_in_balance - (if kept == 0 {
                                                    0int
                                                } else {
                                                    s1.in_token_remaining * kept / t2
                                                }),
                                                None => 0int,
                                            })
                                        },
                                        None => kept + minted == 0,
                                    }
                                    &&& acc2.spec_balance(sale0.in_token_account_id)
                                        == acc0.spec_balance(sale0.in_token_account_id) - in_amount
                                        + (if account_id == sale0.owner_id {
                                        spec_dist_owner_credit(
                                            s1,
                                            current_account_id,
                                            old(self).treasury.skyward_token_id,
                                        )
                                    } else {
                                        0int
                                    })
                                    &&& forall|i: int|
                                        0 <= i < s2.out_tokens@.len()
                                            ==> acc2.balances.contains_key(
                                            (#[trigger] s2.out_tokens@[i]).token_account_id,
                                        )
                                },
                                _ => false,
                            }
                        },
                }
            }),
    {
        let ghost sale0 = self.spec_sale(sale_id)->0;
        let ghost acc0 = self.spec_account(account_id)->0;
        if !passed_permission_check {
            let needs_check = match self.sales.get(sale_id) {
                Some(s) => s.permissions_contract_id,
                None => None,
            };
            if let Some(permissions_contract_id) = needs_check {
                let no_sub = match self.accounts.get(account_id) {
                    Some(a) => {
                        proof {
                            crate::idmap::lemma_seq_get_present(self.accounts@, account_id);
                        }
                        !a.subs.contains(sale_id)
                    },
                    None => true,
                };
                if no_sub {
                    // The oracle must be consulted before a first deposit.
                    return Some(permissions_contract_id);
                }
            }
        }
        let mut sale = match self.sales.remove(sale_id) {
            Some(s) => s,
            None => {
                proof {
                    assert(false);
                }
                Sale::from_input(
                    SaleInput {
                        title: String::new(),
                        url: None,
                        out_tokens: Vec::new(),
                        in_token_account_id: 0,
                        start_time: 0,
                        duration: 1,
                    },
                    0,
                    0,
                )
            },
        };
        proof {
            crate::idmap::lemma_seq_get_present(old(self).sales@, sale_id);
        }
        let ghost sales_after_remove = self.sales;
        let ghost rid_frame: Option<AccountId> = match acc0.subs.spec_get(sale_id) {
            Some(sub) => sub.referral_id,
            None => referral_id,
        };
        sale.touch(now);
        let ghost s1 = sale;
        self.internal_distribute_unclaimed_tokens(&mut sale, current_account_id);
        proof {
            // The settlement left the caller's account in place, with its
            // subscriptions untouched.
            if s1.in_token_paid_unclaimed == 0 || s1.owner_id == current_account_id {
                assert(self.spec_account(account_id) == old(self).spec_account(account_id));
            } else if account_id == s1.owner_id {
                assert(self.spec_account(account_id) is Some);
            } else {
                assert(self.spec_account(account_id) == old(self).spec_account(account_id));
            }
            assert(self.spec_account(account_id) is Some);
            assert(self.spec_account(account_id)->0.subs == acc0.subs);
            crate::idmap::lemma_seq_get_present(self.accounts@, account_id);
            assert(self.spec_account(account_id)->0.wf());
        }
        let ghost self_after_dist = *self;
        let mut account = match self.accounts.remove(account_id) {
            Some(a) => a,
            None => {
                proof {
                    assert(false);
                }
                Account::new()
            },
        };
        let ghost self_after_acc_remove = *self;
        proof {
            crate::idmap::lemma_seq_get_present(old(self).accounts@, account_id);
            crate::sale::lemma_touch_conserves(sale0, s1, now);
            // The settlement kept every accumulator and token identity,
            // so the accrual facts about the touched sale carry over.
            let sky = self.treasury.skyward_token_id;
            assert(account.subs == acc0.subs);
            if account.subs.spec_get(sale_id) is Some {
                let sub = account.subs.spec_get(sale_id)->0;
                lemma_refcut_total_congruence(
                    s1,
                    sale,
                    sub,
                    sky,
                    sale.out_tokens@.len() as int,
                );
                assert(sub.valid_for(sale)) by {
                    assert(forall|i: int|
                        0 <= i < sale.out_tokens@.len()
                            ==> (#[trigger] sub.last_out_token_per_share@[i]).v()
                            <= sale.out_tokens@[i].per_share.v());
                }
                assert forall|i: int|
                    0 <= i < sale.out_tokens@.len() implies sub.accrual_fits(sale, i) by {
                    assert(sub.accrual_fits(s1, i));
                }
                assert forall|i: int|
                    0 <= i < sale.out_tokens@.len() implies (spec_accrued_at(sale, sub, i) > 0
                    ==> account.balances.contains_key(
                    (#[trigger] sale.out_tokens@[i]).token_account_id,
                )) by {
                    assert(account.balances.spec_get(sale.out_tokens@[i].token_account_id)
                        == acc0.balances.spec_get(s1.out_tokens@[i].token_account_id));
                }
                assert forall|i: int|
                    0 <= i < sale.out_tokens@.len() implies account.spec_balance(
                    (#[trigger] sale.out_tokens@[i]).token_account_id,
                ) + spec_credited_at(sale, sub, sky, i) < p128() by {
                    assert(account.balances.spec_get(sale.out_tokens@[i].token_account_id)
                        == acc0.balances.spec_get(s1.out_tokens@[i].token_account_id));
                    assert(spec_credited_at(sale, sub, sky, i) == spec_credited_at(
                        s1,
                        sub,
                        sky,
                        i,
                    ));
                }
                assert forall|i: int|
                    0 <= i < sale.out_tokens@.len() implies (
                #[trigger] sub.claimed_out_balance@[i]) + spec_credited_at(sale, sub, sky, i)
                    < p128() by {
                    assert(spec_credited_at(sale, sub, sky, i) == spec_credited_at(
                        s1,
                        sub,
                        sky,
                        i,
                    ));
                }
                if spec_referral_resolves(*self, sub) {
                    let rid = sub.referral_id->0;
                    vstd::arithmetic::div_mod::lemma_fundamental_div_mod(
                        s1.in_token_paid_unclaimed as int,
                        TREASURY_FEE_DENOMINATOR as int,
                    );
                    if s1.in_token_paid_unclaimed > 0 && s1.owner_id != current_account_id
                        && rid == s1.owner_id {
                        let racc0 = old(self).spec_account(rid)->0;
                        let racc1 = self.spec_account(rid)->0;
                        if sky == s1.in_token_account_id {
                            assert(racc0.balances.contains_key(sky));
                            assert(racc1.spec_balance(sky) == racc0.spec_balance(sky)
                                + spec_dist_owner_credit(s1, current_account_id, sky));
                        } else {
                            assert(racc1.balances.spec_get(sky) == racc0.balances.spec_get(sky));
                        }
                    } else {
                        assert(self_after_dist.spec_account(rid) == old(self).spec_account(rid));
                        assert(self.spec_account(rid) == self_after_dist.spec_account(rid));
                    }
                    assert(spec_referral_resolves(*old(self), sub));
                    let racc0 = old(self).spec_account(rid)->0;
                    let racc1 = self.spec_account(rid)->0;
                    assert(racc1.spec_balance(sky) <= racc0.spec_balance(sky)
                        + spec_dist_owner_credit(s1, current_account_id, sky));
                }
            }
        }
        let mut subscription = self.internal_update_subscription(
            &mut account,
            sale_id,
            &mut sale,
            referral_id,
        );
        let ghost self_after_update = *self;
        account.internal_token_withdraw(sale.in_token_account_id, in_amount);
        let ghost acc_w = account;
        let n = sale.out_tokens.len();
        let mut i: usize = 0;
        while i < n
            invariant
                account.wf(),
                i <= n,
                forall|j: int|
                    0 <= j < i as int ==> account.balances.contains_key(
                        (#[trigger] sale.out_tokens@[j]).token_account_id,
                    ),
                forall|t: TokenAccountId|
                    account.spec_balance(t) == acc_w.spec_balance(t),
                forall|t: TokenAccountId|
                    acc_w.balances.contains_key(t) ==> account.balances.contains_key(t),
                account.subs == acc_w.subs,
                account.sales == acc_w.sales,
            decreases n - i,
        {
            account.internal_maybe_register_token(sale.out_tokens[i].token_account_id);
            i = i + 1;
        }
        proof {
            // The in-balance behind unchanged shares can only have shrunk
            // since the subscription's last bookkeeping.
            if subscription.shares > 0 {
                vstd::arithmetic::mul::lemma_mul_inequality(
                    sale.in_token_remaining as int,
                    sale0.in_token_remaining as int,
                    subscription.shares as int,
                );
                vstd::arithmetic::mul::lemma_mul_is_commutative(
                    sale.in_token_remaining as int,
                    subscription.shares as int,
                );
                vstd::arithmetic::mul::lemma_mul_is_commutative(
                    sale0.in_token_remaining as int,
                    subscription.shares as int,
                );
                crate::arith::lemma_div_le_numerator(
                    sale.in_token_remaining * subscription.shares,
                    sale0.in_token_remaining * subscription.shares,
                    sale.total_shares as int,
                );
            }
        }
        let remaining_in_balance = sale.shares_to_in_balance(subscription.shares);
        subscription.spent_in_balance_without_shares = subscription.spent_in_balance_without_shares
            + (subscription.last_in_balance - remaining_in_balance);
        let shares = sale.in_amount_to_shares(in_amount, false);
        subscription.shares = subscription.shares + shares;
        sale.total_shares = sale.total_shares + shares;
        sale.in_token_remaining = sale.in_token_remaining + in_amount;
        subscription.last_in_balance = sale.shares_to_in_balance(subscription.shares);
        account.internal_save_subscription(sale_id, subscription);
        self.accounts.insert(account_id, account);
        self.sales.insert(sale_id, sale);
        proof {
            // Nothing but this sale and the involved accounts changed.
            assert forall|sid: u64| sid != sale_id implies self.sales.spec_get(sid) == old(
                self,
            ).sales.spec_get(sid) by {
                assert(self.sales.spec_get(sid) == sales_after_remove.spec_get(sid));
                assert(sales_after_remove.spec_get(sid) == old(self).sales.spec_get(sid));
            }
            assert forall|aid: AccountId|
                (aid != account_id && aid != sale0.owner_id && Some(aid) != rid_frame)
                implies self.spec_account(aid) == old(self).spec_account(aid) by {
                assert(self.spec_account(aid) == self_after_update.spec_account(aid));
                assert(self_after_update.spec_account(aid) == self_after_acc_remove.spec_account(
                    aid,
                ));
                assert(self_after_acc_remove.spec_account(aid) == self_after_dist.spec_account(
                    aid,
                ));
                assert(self_after_dist.spec_account(aid) == old(self).spec_account(aid));
            }
        }
        None
    }
}


impl Contract {
    /// Burns `shares` of the caller's position (all of them when `None`)
    /// and returns the in-balance they back to the caller's custody
    /// balance: `in = shares_to_in_balance(shares)`, with the rounding
    /// dust staying in the pool.  The position's shares and the sale's
    /// total fall by the same amount.
    #[verifier::loop_isolation(false)]
    #[verifier::rlimit(100)]
    pub fn internal_withdraw_shares(
        &mut self,
        sale_id: u64,
        account_id: AccountId,
        shares: Option<Balance>,
        current_account_id: AccountId,
        now: Timestamp,
    ) -> (withdrawn: Balance)
        requires
            old(self).wf(),
            old(self).spec_sale(sale_id) is Some,
            old(self).spec_account(account_id) is Some,
            ({
                let sale0 = old(self).spec_sale(sale_id)->0;
                let acc0 = old(self).spec_account(account_id)->0;
                &&& sale0.spec_out_tokens_unique()
                &&& sale0.spec_out_tokens_distinct_from_in()
                &&& acc0.balances.contains_key(sale0.in_token_account_id)
                &&& acc0.spec_balance(sale0.in_token_account_id) + spec_dist_owner_credit(
                    sale0,
                    current_account_id,
                    old(self).treasury.skyward_token_id,
                ) + sale0.in_token_remaining + sale0.in_token_remaining < p128()
                &&& acc0.subs.spec_get(sale_id) is Some
                &&& ({
                    let sub = acc0.subs.spec_get(sale_id)->0;
                    &&& sub.last_in_balance >= sale0.spec_shares_to_in_balance(sub.shares)
                    &&& sub.spent_in_balance_without_shares + sub.last_in_balance < p128()
                })
                &&& forall|s1: Sale| #[trigger] crate::sale::sale_touched(sale0, s1, now) ==> {
                    let sub = acc0.subs.spec_get(sale_id)->0;
                    let freed = sub.shares > 0 && s1.spec_shares_to_in_balance(sub.shares) == 0;
                    let kept = if freed {
                        0int
                    } else {
                        sub.shares as int
                    };
                    &&& old(self).spec_dist_ok(s1, current_account_id)
                    &&& old(self).spec_sub_claimable(acc0, s1, sale_id, current_account_id)
                    &&& match shares {
                        Some(w) => 0 < w <= kept,
                        None => kept > 0,
                    }
                }
            }),
        ensures
            final(self).wf(),
            final(self).num_sales == old(self).num_sales,
            forall|sid: u64|
                sid != sale_id ==> final(self).spec_sale(sid) == old(self).spec_sale(sid),
            ({
                let sale0 = old(self).spec_sale(sale_id)->0;
                let acc0 = old(self).spec_account(account_id)->0;
                let rid_frame = match acc0.subs.spec_get(sale_id) {
            Some(sub) => sub.referral_id,
            None => None,
        };
                forall|aid: AccountId|
                    (aid != account_id && aid != sale0.owner_id && Some(aid) != rid_frame)
                        ==> final(self).spec_account(aid) == old(self).spec_account(aid)
            }),
            ({
                let sale0 = old(self).spec_sale(sale_id)->0;
                let acc0 = old(self).spec_account(account_id)->0;
                let sub = acc0.subs.spec_get(sale_id)->0;
                exists|s1: Sale|
                    {
                        &&& #[trigger] crate::sale::sale_touched(sale0, s1, now)
                        &&& match (final(self).spec_sale(sale_id), final(self).spec_account(
                            account_id,
                        )) {
                            (Some(s2), Some(acc2)) => {
                                let freed = sub.shares > 0 && s1.spec_shares_to_in_balance(
                                    sub.shares,
                                ) == 0;
                                let kept = if freed {
                                    0int
                                } else {
                                    sub.shares as int
                                };
                                let t2 = if freed {
                                    s1.total_shares - sub.shares
                                } else {
                                    s1.total_shares as int
                                };
                                let w = match shares {
                                    Some(w) => w as int,
                                    None => kept,
                                };
                                &&& withdrawn == (if w == 0 {
                                    0int
                                } else {
                                    s1.in_token_remaining * w / t2
                                })
                                &&& s2.total_shares == t2 - w
                                &&& s2.in_token_remaining == s1.in_token_remaining - withdrawn
                                &&& s2.in_token_paid == s1.in_token_paid
                                &&& s2.in_token_paid_unclaimed == 0
                                &&& s2.owner_id == sale0.owner_id
                                &&& s2.in_token_account_id == sale0.in_token_account_id
                                &&& match acc2.subs.spec_get(sale_id) {
                                    Some(sub2) => {
                                        &&& sub2.shares == kept - w
                                        &&& sub2.last_in_balance
                                            == s2.spec_shares_to_in_balance((kept - w) as u128)
                                        &&& sub2.spent_in_balance_without_shares
                                            == sub.spent_in_balance_without_shares
                                            + sub.last_in_balance - (if kept == 0 {
                                            0int
                                        } else {
                                            s1.in_token_remaining * kept / t2
                                        })
                                    },
                                    None => kept - w == 0,
                                }
                                &&& acc2.spec_balance(sale0.in_token_account_id)
                                    == acc0.spec_balance(sale0.in_token_account_id) + (if account_id
                                    == sale0.owner_id {
                                    spec_dist_owner_credit(
                                        s1,
                                        current_account_id,
                                        old(self).treasury.skyward_token_id,
                                    )
                                } else {
                                    0int
                                }) + withdrawn
                            },
                            _ => false,
                        }
                    }
            }),
    {
        let ghost sale0 = self.spec_sale(sale_id)->0;
        let ghost acc0 = self.spec_account(account_id)->0;
        let mut sale = match self.sales.remove(sale_id) {
            Some(s) => s,
            None => {
                proof {
                    assert(false);
                }
                Sale::from_input(
                    SaleInput {
                        title: String::new(),
                        url: None,
                        out_tokens: Vec::new(),
                        in_token_account_id: 0,
                        start_time: 0,
                        duration: 1,
                    },
                    0,
                    0,
                )
            },
        };
        proof {
            crate::idmap::lemma_seq_get_present(old(self).sales@, sale_id);
        }
        let ghost sales_after_remove = self.sales;
        let ghost rid_frame: Option<AccountId> = match acc0.subs.spec_get(sale_id) {
            Some(sub) => sub.referral_id,
            None => None,
        };
        sale.touch(now);
        let ghost s1 = sale;
        self.internal_distribute_unclaimed_tokens(&mut sale, current_account_id);
        proof {
            if s1.in_token_paid_unclaimed == 0 || s1.owner_id == current_account_id {
                assert(self.spec_account(account_id) == old(self).spec_account(account_id));
            } else if account_id == s1.owner_id {
                assert(self.spec_account(account_id) is Some);
            } else {
                assert(self.spec_account(account_id) == old(self).spec_account(account_id));
            }
            assert(self.spec_account(account_id) is Some);
            assert(self.spec_account(account_id)->0.subs == acc0.subs);
            crate::idmap::lemma_seq_get_present(self.accounts@, account_id);
            assert(self.spec_account(account_id)->0.wf());
        }
        let ghost self_after_dist = *self;
        let mut account = match self.accounts.remove(account_id) {
            Some(a) => a,
            None => {
                proof {
                    assert(false);
                }
                Account::new()
            },
        };
        let ghost self_after_acc_remove = *self;
        proof {
            crate::idmap::lemma_seq_get_present(old(self).accounts@, account_id);
            crate::sale::lemma_touch_conserves(sale0, s1, now);
            let sky = self.treasury.skyward_token_id;
            assert(account.subs == acc0.subs);
            let sub = account.subs.spec_get(sale_id)->0;
            lemma_refcut_total_congruence(s1, sale, sub, sky, sale.out_tokens@.len() as int);
            assert(sub.valid_for(sale)) by {
                assert(forall|i: int|
                    0 <= i < sale.out_tokens@.len()
                        ==> (#[trigger] sub.last_out_token_per_share@[i]).v()
                        <= sale.out_tokens@[i].per_share.v());
            }
            assert forall|i: int|
                0 <= i < sale.out_tokens@.len() implies sub.accrual_fits(sale, i) by {
                assert(sub.accrual_fits(s1, i));
            }
            assert forall|i: int|
                0 <= i < sale.out_tokens@.len() implies (spec_accrued_at(sale, sub, i) > 0
                ==> account.balances.contains_key(
                (#[trigger] sale.out_tokens@[i]).token_account_id,
            )) by {
                assert(account.balances.spec_get(sale.out_tokens@[i].token_account_id)
                    == acc0.balances.spec_get(s1.out_tokens@[i].token_account_id));
            }
            assert forall|i: int|
                0 <= i < sale.out_tokens@.len() implies account.spec_balance(
                (#[trigger] sale.out_tokens@[i]).token_account_id,
            ) + spec_credited_at(sale, sub, sky, i) < p128() by {
                assert(account.balances.spec_get(sale.out_tokens@[i].token_account_id)
                    == acc0.balances.spec_get(s1.out_tokens@[i].token_account_id));
                assert(spec_credited_at(sale, sub, sky, i) == spec_credited_at(s1, sub, sky, i));
            }
            assert forall|i: int|
                0 <= i < sale.out_tokens@.len() implies (#[trigger] sub.claimed_out_balance@[i])
                + spec_credited_at(sale, sub, sky, i) < p128() by {
                assert(spec_credited_at(sale, sub, sky, i) == spec_credited_at(s1, sub, sky, i));
            }
            if spec_referral_resolves(*self, sub) {
                let rid = sub.referral_id->0;
                vstd::arithmetic::div_mod::lemma_fundamental_div_mod(
                    s1.in_token_paid_unclaimed as int,
                    TREASURY_FEE_DENOMINATOR as int,
                );
                if s1.in_token_paid_unclaimed > 0 && s1.owner_id != current_account_id && rid
                    == s1.owner_id {
                    let racc0 = old(self).spec_account(rid)->0;
                    let racc1 = self.spec_account(rid)->0;
                    if sky == s1.in_token_account_id {
                        assert(racc0.balances.contains_key(sky));
                        assert(racc1.spec_balance(sky) == racc0.spec_balance(sky)
                            + spec_dist_owner_credit(s1, current_account_id, sky));
                    } else {
                        assert(racc1.balances.spec_get(sky) == racc0.balances.spec_get(sky));
                    }
                } else {
                    assert(self_after_dist.spec_account(rid) == old(self).spec_account(rid));
                    assert(self.spec_account(rid) == self_after_dist.spec_account(rid));
                }
                assert(spec_referral_resolves(*old(self), sub));
            }
        }
        let mut subscription = self.internal_update_subscription(
            &mut account,
            sale_id,
            &mut sale,
            None,
        );
        let ghost self_after_update = *self;
        let shares_to_burn = match shares {
            Some(s) => s,
            None => subscription.shares,
        };
        proof {
            // The in-balance behind unchanged shares can only have shrunk
            // since the subscription's last bookkeeping.
            if subscription.shares > 0 {
                vstd::arithmetic::mul::lemma_mul_inequality(
                    sale.in_token_remaining as int,
                    sale0.in_token_remaining as int,
                    subscription.shares as int,
                );
                vstd::arithmetic::mul::lemma_mul_is_commutative(
                    sale.in_token_remaining as int,
                    subscription.shares as int,
                );
                vstd::arithmetic::mul::lemma_mul_is_commutative(
                    sale0.in_token_remaining as int,
                    subscription.shares as int,
                );
                crate::arith::lemma_div_le_numerator(
                    sale.in_token_remaining * subscription.shares,
                    sale0.in_token_remaining * subscription.shares,
                    sale.total_shares as int,
                );
            }
        }
        let remaining_in_balance = sale.shares_to_in_balance(subscription.shares);
        subscription.spent_in_balance_without_shares = subscription.spent_in_balance_without_shares
            + (subscription.last_in_balance - remaining_in_balance);
        subscription.shares = subscription.shares - shares_to_burn;
        let in_token_amount = sale.shares_to_in_balance(shares_to_burn);
        if in_token_amount > 0 {
            account.internal_token_deposit(sale.in_token_account_id, in_token_amount);
        }
        sale.total_shares = sale.total_shares - shares_to_burn;
        sale.in_token_remaining = sale.in_token_remaining - in_token_amount;
        subscription.last_in_balance = sale.shares_to_in_balance(subscription.shares);
        account.internal_save_subscription(sale_id, subscription);
        self.accounts.insert(account_id, account);
        self.sales.insert(sale_id, sale);
        proof {
            // Nothing but this sale and the involved accounts changed.
            assert forall|sid: u64| sid != sale_id implies self.sales.spec_get(sid) == old(
                self,
            ).sales.spec_get(sid) by {
                assert(self.sales.spec_get(sid) == sales_after_remove.spec_get(sid));
                assert(sales_after_remove.spec_get(sid) == old(self).sales.spec_get(sid));
            }
            assert forall|aid: AccountId|
                (aid != account_id && aid != sale0.owner_id && Some(aid) != rid_frame)
                implies self.spec_account(aid) == old(self).spec_account(aid) by {
                assert(self.spec_account(aid) == self_after_update.spec_account(aid));
                assert(self_after_update.spec_account(aid) == self_after_acc_remove.spec_account(
                    aid,
                ));
                assert(self_after_acc_remove.spec_account(aid) == self_after_dist.spec_account(
                    aid,
                ));
                assert(self_after_dist.spec_account(aid) == old(self).spec_account(aid));
            }
        }
        in_token_amount
    }
}


impl Contract {
    /// Withdraws an exact in-token amount: the shares to burn are
    /// computed with ceiling rounding, so the exiting party can never
    /// take out more value than their shares back.
    #[verifier::loop_isolation(false)]
    #[verifier::rlimit(100)]
    pub fn internal_withdraw_in_token_exact(
        &mut self,
        sale_id: u64,
        account_id: AccountId,
        in_amount: Balance,
        current_account_id: AccountId,
        now: Timestamp,
    )
        requires
            old(self).wf(),
            in_amount > 0,
            old(self).spec_sale(sale_id) is Some,
            old(self).spec_account(account_id) is Some,
            ({
                let sale0 = old(self).spec_sale(sale_id)->0;
                let acc0 = old(self).spec_account(account_id)->0;
                &&& sale0.spec_out_tokens_unique()
                &&& sale0.spec_out_tokens_distinct_from_in()
                &&& acc0.balances.contains_key(sale0.in_token_account_id)
                &&& acc0.spec_balance(sale0.in_token_account_id) + spec_dist_owner_credit(
                    sale0,
                    current_account_id,
                    old(self).treasury.skyward_token_id,
                ) + sale0.in_token_remaining + sale0.in_token_remaining < p128()
                &&& acc0.subs.spec_get(sale_id) is Some
                &&& ({
                    let sub = acc0.subs.spec_get(sale_id)->0;
                    &&& sub.last_in_balance >= sale0.spec_shares_to_in_balance(sub.shares)
                    &&& sub.spent_in_balance_without_shares + sub.last_in_balance < p128()
                })
                &&& forall|s1: Sale| #[trigger] crate::sale::sale_touched(sale0, s1, now) ==> {
                    let sub = acc0.subs.spec_get(sale_id)->0;
                    let freed = sub.shares > 0 && s1.spec_shares_to_in_balance(sub.shares) == 0;
                    let kept = if freed {
                        0int
                    } else {
                        sub.shares as int
                    };
                    let t2 = if freed {
                        s1.total_shares - sub.shares
                    } else {
                        s1.total_shares as int
                    };
                    &&& old(self).spec_dist_ok(s1, current_account_id)
                    &&& old(self).spec_sub_claimable(acc0, s1, sale_id, current_account_id)
                    &&& (kept == 0 ==> in_amount == 0)
                    &&& (kept > 0 ==> in_amount <= s1.in_token_remaining * kept / t2)
                    &&& (t2 > 0 ==> s1.in_token_remaining > 0 && !s1.spec_has_ended())
                }
            }),
        ensures
            final(self).wf(),
            final(self).num_sales == old(self).num_sales,
            forall|sid: u64|
                sid != sale_id ==> final(self).spec_sale(sid) == old(self).spec_sale(sid),
            ({
                let sale0 = old(self).spec_sale(sale_id)->0;
                let acc0 = old(self).spec_account(account_id)->0;
                let rid_frame = match acc0.subs.spec_get(sale_id) {
            Some(sub) => sub.referral_id,
            None => None,
        };
                forall|aid: AccountId|
                    (aid != account_id && aid != sale0.owner_id && Some(aid) != rid_frame)
                        ==> final(self).spec_account(aid) == old(self).spec_account(aid)
            }),
            ({
                let sale0 = old(self).spec_sale(sale_id)->0;
                let acc0 = old(self).spec_account(account_id)->0;
                let sub = acc0.subs.spec_get(sale_id)->0;
                exists|s1: Sale|
                    {
                        &&& #[trigger] crate::sale::sale_touched(sale0, s1, now)
                        &&& match (final(self).spec_sale(sale_id), final(self).spec_account(
                            account_id,
                        )) {
                            (Some(s2), Some(acc2)) => {
                                let freed = sub.shares > 0 && s1.spec_shares_to_in_balance(
                                    sub.shares,
                                ) == 0;
                                let kept = if freed {
                                    0int
                                } else {
                                    sub.shares as int
                                };
                                let t2 = if freed {
                                    s1.total_shares - sub.shares
                                } else {
                                    s1.total_shares as int
                                };
                                let w = if t2 == 0 {
                                    in_amount as int
                                } else {
                                    (in_amount * t2 + s1.in_token_remaining - 1)
                                        / (s1.in_token_remaining as int)
                                };
                                &&& s2.total_shares == t2 - w
                                &&& s2.in_token_remaining == s1.in_token_remaining - in_amount
                                &&& s2.in_token_paid == s1.in_token_paid
                                &&& s2.in_token_paid_unclaimed == 0
                                &&& s2.owner_id == sale0.owner_id
                                &&& s2.in_token_account_id == sale0.in_token_account_id
                                &&& match acc2.subs.spec_get(sale_id) {
                                    Some(sub2) => {
                                        &&& sub2.shares == kept - w
                                        &&& sub2.last_in_balance
                                            == s2.spec_shares_to_in_balance((kept - w) as u128)
                                        &&& sub2.spent_in_balance_without_shares
                                            == sub.spent_in_balance_without_shares
                                            + sub.last_in_balance - (if kept == 0 {
                                            0int
                                        } else {
                                            s1.in_token_remaining * kept / t2
                                        })
                                    },
                                    None => kept - w == 0,
                                }
                                &&& acc2.spec_balance(sale0.in_token_account_id)
                                    == acc0.spec_balance(sale0.in_token_account_id) + (if account_id
                                    == sale0.owner_id {
                                    spec_dist_owner_credit(
                                        s1,
                                        current_account_id,
                                        old(self).treasury.skyward_token_id,
                                    )
                                } else {
                                    0int
                                }) + in_amount
                            },
                            _ => false,
                        }
                    }
            }),
    {
        let ghost sale0 = self.spec_sale(sale_id)->0;
        let ghost acc0 = self.spec_account(account_id)->0;
        let mut sale = match self.sales.remove(sale_id) {
            Some(s) => s,
            None => {
                proof {
                    assert(false);
                }
                Sale::from_input(
                    SaleInput {
                        title: String::new(),
                        url: None,
                        out_tokens: Vec::new(),
                        in_token_account_id: 0,
                        start_time: 0,
                        duration: 1,
                    },
                    0,
                    0,
                )
            },
        };
        proof {
            crate::idmap::lemma_seq_get_present(old(self).sales@, sale_id);
        }
        let ghost sales_after_remove = self.sales;
        let ghost rid_frame: Option<AccountId> = match acc0.subs.spec_get(sale_id) {
            Some(sub) => sub.referral_id,
            None => None,
        };
        sale.touch(now);
        let ghost s1 = sale;
        self.internal_distribute_unclaimed_tokens(&mut sale, current_account_id);
        proof {
            if s1.in_token_paid_unclaimed == 0 || s1.owner_id == current_account_id {
                assert(self.spec_account(account_id) == old(self).spec_account(account_id));
            } else if account_id == s1.owner_id {
                assert(self.spec_account(account_id) is Some);
            } else {
                assert(self.spec_account(account_id) == old(self).spec_account(account_id));
            }
            assert(self.spec_account(account_id) is Some);
            assert(self.spec_account(account_id)->0.subs == acc0.subs);
            crate::idmap::lemma_seq_get_present(self.accounts@, account_id);
            assert(self.spec_account(account_id)->0.wf());
        }
        let ghost self_after_dist = *self;
        let mut account = match self.accounts.remove(account_id) {
            Some(a) => a,
            None => {
                proof {
                    assert(false);
                }
                Account::new()
            },
        };
        let ghost self_after_acc_remove = *self;
        proof {
            crate::idmap::lemma_seq_get_present(old(self).accounts@, account_id);
            crate::sale::lemma_touch_conserves(sale0, s1, now);
            let sky = self.treasury.skyward_token_id;
            assert(account.subs == acc0.subs);
            let sub = account.subs.spec_get(sale_id)->0;
            lemma_refcut_total_congruence(s1, sale, sub, sky, sale.out_tokens@.len() as int);
            assert(sub.valid_for(sale)) by {
                assert(forall|i: int|
                    0 <= i < sale.out_tokens@.len()
                        ==> (#[trigger] sub.last_out_token_per_share@[i]).v()
                        <= sale.out_tokens@[i].per_share.v());
            }
            assert forall|i: int|
                0 <= i < sale.out_tokens@.len() implies sub.accrual_fits(sale, i) by {
                assert(sub.accrual_fits(s1, i));
            }
            assert forall|i: int|
                0 <= i < sale.out_tokens@.len() implies (spec_accrued_at(sale, sub, i) > 0
                ==> account.balances.contains_key(
                (#[trigger] sale.out_tokens@[i]).token_account_id,
            )) by {
                assert(account.balances.spec_get(sale.out_tokens@[i].token_account_id)
                    == acc0.balances.spec_get(s1.out_tokens@[i].token_account_id));
            }
            assert forall|i: int|
                0 <= i < sale.out_tokens@.len() implies account.spec_balance(
                (#[trigger] sale.out_tokens@[i]).token_account_id,
            ) + spec_credited_at(sale, sub, sky, i) < p128() by {
                assert(account.balances.spec_get(sale.out_tokens@[i].token_account_id)
                    == acc0.balances.spec_get(s1.out_tokens@[i].token_account_id));
                assert(spec_credited_at(sale, sub, sky, i) == spec_credited_at(s1, sub, sky, i));
            }
            assert forall|i: int|
                0 <= i < sale.out_tokens@.len() implies (#[trigger] sub.claimed_out_balance@[i])
                + spec_credited_at(sale, sub, sky, i) < p128() by {
                assert(spec_credited_at(sale, sub, sky, i) == spec_credited_at(s1, sub, sky, i));
            }
            if spec_referral_resolves(*self, sub) {
                let rid = sub.referral_id->0;
                vstd::arithmetic::div_mod::lemma_fundamental_div_mod(
                    s1.in_token_paid_unclaimed as int,
                    TREASURY_FEE_DENOMINATOR as int,
                );
                if s1.in_token_paid_unclaimed > 0 && s1.owner_id != current_account_id && rid
                    == s1.owner_id {
                    let racc0 = old(self).spec_account(rid)->0;
                    let racc1 = self.spec_account(rid)->0;
                    if sky == s1.in_token_account_id {
                        assert(racc0.balances.contains_key(sky));
                        assert(racc1.spec_balance(sky) == racc0.spec_balance(sky)
                            + spec_dist_owner_credit(s1, current_account_id, sky));
                    } else {
                        assert(racc1.balances.spec_get(sky) == racc0.balances.spec_get(sky));
                    }
                } else {
                    assert(self_after_dist.spec_account(rid) == old(self).spec_account(rid));
                    assert(self.spec_account(rid) == self_after_dist.spec_account(rid));
                }
                assert(spec_referral_resolves(*old(self), sub));
            }
        }
        let mut subscription = self.internal_update_subscription(
            &mut account,
            sale_id,
            &mut sale,
            None,
        );
        let ghost self_after_update = *self;
        proof {
            if subscription.shares > 0 {
                vstd::arithmetic::mul::lemma_mul_inequality(
                    sale.in_token_remaining as int,
                    sale0.in_token_remaining as int,
                    subscription.shares as int,
                );
                vstd::arithmetic::mul::lemma_mul_is_commutative(
                    sale.in_token_remaining as int,
                    subscription.shares as int,
                );
                vstd::arithmetic::mul::lemma_mul_is_commutative(
                    sale0.in_token_remaining as int,
                    subscription.shares as int,
                );
                crate::arith::lemma_div_le_numerator(
                    sale.in_token_remaining * subscription.shares,
                    sale0.in_token_remaining * subscription.shares,
                    sale.total_shares as int,
                );
            }
        }
        let remaining_in_balance = sale.shares_to_in_balance(subscription.shares);
        proof {
            // Ceiling rounding cannot burn more shares than the position
            // holds, because the requested amount is covered by them.
            let t = sale.total_shares as int;
            let rr = sale.in_token_remaining as int;
            let kept = subscription.shares as int;
            if t > 0 && kept > 0 {
                vstd::arithmetic::div_mod::lemma_fundamental_div_mod(rr * kept, t);
                vstd::arithmetic::mul::lemma_mul_inequality(in_amount as int, rr * kept / t, t);
                vstd::arithmetic::mul::lemma_mul_is_commutative(rr * kept / t, t);
                vstd::arithmetic::mul::lemma_mul_is_commutative(rr, kept);
                vstd::arithmetic::div_mod::lemma_div_is_ordered(
                    in_amount * t + rr - 1,
                    kept * rr + rr - 1,
                    rr,
                );
                crate::arith::lemma_muldiv_exact(kept, rr);
            }
        }
        let shares_to_burn = sale.in_amount_to_shares(in_amount, true);
        subscription.spent_in_balance_without_shares = subscription.spent_in_balance_without_shares
            + (subscription.last_in_balance - remaining_in_balance);
        subscription.shares = subscription.shares - shares_to_burn;
        account.internal_token_deposit(sale.in_token_account_id, in_amount);
        sale.total_shares = sale.total_shares - shares_to_burn;
        sale.in_token_remaining = sale.in_token_remaining - in_amount;
        subscription.last_in_balance = sale.shares_to_in_balance(subscription.shares);
        account.internal_save_subscription(sale_id, subscription);
        self.accounts.insert(account_id, account);
        self.sales.insert(sale_id, sale);
        proof {
            // Nothing but this sale and the involved accounts changed.
            assert forall|sid: u64| sid != sale_id implies self.sales.spec_get(sid) == old(
                self,
            ).sales.spec_get(sid) by {
                assert(self.sales.spec_get(sid) == sales_after_remove.spec_get(sid));
                assert(sales_after_remove.spec_get(sid) == old(self).sales.spec_get(sid));
            }
            assert forall|aid: AccountId|
                (aid != account_id && aid != sale0.owner_id && Some(aid) != rid_frame)
                implies self.spec_account(aid) == old(self).spec_account(aid) by {
                assert(self.spec_account(aid) == self_after_update.spec_account(aid));
                assert(self_after_update.spec_account(aid) == self_after_acc_remove.spec_account(
                    aid,
                ));
                assert(self_after_acc_remove.spec_account(aid) == self_after_dist.spec_account(
                    aid,
                ));
                assert(self_after_dist.spec_account(aid) == old(self).spec_account(aid));
            }
        }
    }

}


impl Contract {
    /// Settles the sale up to `now` and credits the caller everything
    /// their subscription has accrued; the position is deleted once no
    /// shares and no accruals remain.
    #[verifier::loop_isolation(false)]
    #[verifier::rlimit(100)]
    pub fn sale_claim_out_tokens(
        &mut self,
        sale_id: u64,
        account_id: AccountId,
        current_account_id: AccountId,
        now: Timestamp,
    )
        requires
            old(self).wf(),
            old(self).spec_sale(sale_id) is Some,
            old(self).spec_account(account_id) is Some,
            ({
                let sale0 = old(self).spec_sale(sale_id)->0;
                let acc0 = old(self).spec_account(account_id)->0;
                &&& sale0.spec_out_tokens_unique()
                &&& sale0.spec_out_tokens_distinct_from_in()
                &&& forall|s1: Sale| #[trigger] crate::sale::sale_touched(sale0, s1, now) ==> {
                    &&& old(self).spec_dist_ok(s1, current_account_id)
                    &&& old(self).spec_sub_claimable(acc0, s1, sale_id, current_account_id)
                }
            }),
        ensures
            final(self).wf(),
            final(self).num_sales == old(self).num_sales,
            final(self).treasury.skyward_token_id == old(self).treasury.skyward_token_id,
            final(self).treasury.skyward_vesting_schedule == old(
                self,
            ).treasury.skyward_vesting_schedule,
            final(self).treasury.listing_fee_near == old(self).treasury.listing_fee_near,
            final(self).treasury.w_near_token_id == old(self).treasury.w_near_token_id,
            forall|sid: u64|
                sid != sale_id ==> final(self).spec_sale(sid) == old(self).spec_sale(sid),
            ({
                let sale0 = old(self).spec_sale(sale_id)->0;
                let acc0 = old(self).spec_account(account_id)->0;
                let rid_frame = match acc0.subs.spec_get(sale_id) {
            Some(sub) => sub.referral_id,
            None => None,
        };
                forall|aid: AccountId|
                    (aid != account_id && aid != sale0.owner_id && Some(aid) != rid_frame)
                        ==> final(self).spec_account(aid) == old(self).spec_account(aid)
            }),
            ({
                let sale0 = old(self).spec_sale(sale_id)->0;
                let acc0 = old(self).spec_account(account_id)->0;
                exists|s1: Sale|
                    {
                        &&& #[trigger] crate::sale::sale_touched(sale0, s1, now)
                        &&& match (final(self).spec_sale(sale_id), final(self).spec_account(
                            account_id,
                        )) {
                            (Some(s2), Some(acc2)) => {
                                let sky = old(self).treasury.skyward_token_id;
                                &&& final(self).treasury.spec_balance(sale0.in_token_account_id)
                                    == old(self).treasury.spec_balance(sale0.in_token_account_id)
                                    + spec_dist_treasury_in_credit(s1, current_account_id, sky)
                                &&& forall|i: int|
                                    0 <= i < s1.out_tokens@.len() ==> final(self).treasury.spec_balance(
                                        (#[trigger] s1.out_tokens@[i]).token_account_id,
                                    ) == old(self).treasury.spec_balance(
                                        s1.out_tokens@[i].token_account_id,
                                    ) + s1.out_tokens@[i].fee_bucket()
                                &&& match acc0.subs.spec_get(sale_id) {
                                    Some(sub) => {
                                        let total_ref = spec_refcut_total(
                                            s1,
                                            sub,
                                            sky,
                                            s1.out_tokens@.len() as int,
                                        );
                                        let resolves = match sub.referral_id {
                                            Some(rid) => rid != account_id && (match old(
                                                self,
                                            ).spec_account(rid) {
                                                Some(racc) => racc.balances.contains_key(sky),
                                                None => false,
                                            }),
                                            None => false,
                                        };
                                        &&& (resolves ==> {
                                            &&& final(self).treasury.skyward_burned_amount
                                                == old(self).treasury.skyward_burned_amount
                                                + spec_dist_burn(s1, current_account_id, sky)
                                            &&& match (
                                                old(self).spec_account(sub.referral_id->0),
                                                final(self).spec_account(sub.referral_id->0),
                                            ) {
                                                (Some(racc0), Some(racc1)) => racc1.spec_balance(
                                                    sky,
                                                ) == racc0.spec_balance(sky) + total_ref + (
                                                if sub.referral_id->0 == sale0.owner_id
                                                    && sale0.in_token_account_id == sky {
                                                    spec_dist_owner_credit(
                                                        s1,
                                                        current_account_id,
                                                        sky,
                                                    )
                                                } else {
                                                    0int
                                                }),
                                                _ => false,
                                            }
                                        })
                                        &&& (!resolves ==> final(self).treasury.skyward_burned_amount == old(
                                            self,
                                        ).treasury.skyward_burned_amount + spec_dist_burn(
                                            s1,
                                            current_account_id,
                                            sky,
                                        ) + total_ref)
                                    },
                                    None => final(self).treasury.skyward_burned_amount == old(
                                        self,
                                    ).treasury.skyward_burned_amount + spec_dist_burn(
                                        s1,
                                        current_account_id,
                                        sky,
                                    ),
                                }
                                &&& match acc0.subs.spec_get(sale_id) {
                                    Some(sub) => {
                                        let freed = sub.shares > 0
                                            && s1.spec_shares_to_in_balance(sub.shares) == 0;
                                        &&& s2.total_shares == if freed {
                                            s1.total_shares - sub.shares
                                        } else {
                                            s1.total_shares as int
                                        }
                                        &&& s2.in_token_remaining == s1.in_token_remaining
                                        &&& s2.in_token_paid == s1.in_token_paid
                                        &&& s2.in_token_paid_unclaimed == 0
                                        &&& forall|i: int|
                                            0 <= i < s1.out_tokens@.len() ==> acc2.spec_balance(
                                                (#[trigger] s1.out_tokens@[i]).token_account_id,
                                            ) == acc0.spec_balance(
                                                s1.out_tokens@[i].token_account_id,
                                            ) + spec_credited_at(s1, sub, sky, i) + (if account_id
                                                == sale0.owner_id && s1.out_tokens@[i].token_account_id
                                                == sale0.in_token_account_id {
                                                spec_dist_owner_credit(
                                                    s1,
                                                    current_account_id,
                                                    sky,
                                                )
                                            } else {
                                                0int
                                            })
                                        &&& match acc2.subs.spec_get(sale_id) {
                                            Some(sub2) => {
                                                &&& (if freed {
                                                    0int
                                                } else {
                                                    sub.shares as int
                                                }) > 0
                                                &&& sub2.shares == if freed {
                                                    0int
                                                } else {
                                                    sub.shares as int
                                                }
                                                &&& forall|i: int|
                                                    0 <= i < s1.out_tokens@.len()
                                                        ==> #[trigger] sub2.claimed_out_balance@[i]
                                                        == sub.claimed_out_balance@[i]
                                                        + spec_credited_at(s1, sub, sky, i)
                                            },
                                            None => (if freed {
                                                0int
                                            } else {
                                                sub.shares as int
                                            }) == 0,
                                        }
                                    },
                                    None => {
                                        &&& s2.total_shares == s1.total_shares
                                        &&& acc2.subs.spec_get(sale_id) is None
                                        &&& acc2.balances == acc0.balances || account_id
                                            == sale0.owner_id
                                    },
                                }
                            },
                            _ => false,
                        }
                    }
            }),
    {
        let ghost sale0 = self.spec_sale(sale_id)->0;
        let ghost acc0 = self.spec_account(account_id)->0;
        let mut sale = match self.sales.remove(sale_id) {
            Some(s) => s,
            None => {
                proof {
                    assert(false);
                }
                Sale::from_input(
                    SaleInput {
                        title: String::new(),
                        url: None,
                        out_tokens: Vec::new(),
                        in_token_account_id: 0,
                        start_time: 0,
                        duration: 1,
                    },
                    0,
                    0,
                )
            },
        };
        proof {
            crate::idmap::lemma_seq_get_present(old(self).sales@, sale_id);
        }
        let ghost sales_after_remove = self.sales;
        let ghost rid_frame: Option<AccountId> = match acc0.subs.spec_get(sale_id) {
            Some(sub) => sub.referral_id,
            None => None,
        };
        sale.touch(now);
        let ghost s1 = sale;
        self.internal_distribute_unclaimed_tokens(&mut sale, current_account_id);
        proof {
            if s1.in_token_paid_unclaimed == 0 || s1.owner_id == current_account_id {
                assert(self.spec_account(account_id) == old(self).spec_account(account_id));
            } else if account_id == s1.owner_id {
                assert(self.spec_account(account_id) is Some);
            } else {
                assert(self.spec_account(account_id) == old(self).spec_account(account_id));
            }
            assert(self.spec_account(account_id) is Some);
            assert(self.spec_account(account_id)->0.subs == acc0.subs);
            crate::idmap::lemma_seq_get_present(self.accounts@, account_id);
            assert(self.spec_account(account_id)->0.wf());
        }
        let ghost self_after_dist = *self;
        let mut account = match self.accounts.remove(account_id) {
            Some(a) => a,
            None => {
                proof {
                    assert(false);
                }
                Account::new()
            },
        };
        let ghost self_after_acc_remove = *self;
        proof {
            crate::idmap::lemma_seq_get_present(old(self).accounts@, account_id);
            crate::sale::lemma_touch_conserves(sale0, s1, now);
            let sky = self.treasury.skyward_token_id;
            assert(account.subs == acc0.subs);
            if account.subs.spec_get(sale_id) is Some {
                let sub = account.subs.spec_get(sale_id)->0;
                lemma_refcut_total_congruence(s1, sale, sub, sky, sale.out_tokens@.len() as int);
                assert(sub.valid_for(sale)) by {
                    assert(forall|i: int|
                        0 <= i < sale.out_tokens@.len()
                            ==> (#[trigger] sub.last_out_token_per_share@[i]).v()
                            <= sale.out_tokens@[i].per_share.v());
                }
                assert forall|i: int|
                    0 <= i < sale.out_tokens@.len() implies sub.accrual_fits(sale, i) by {
                    assert(sub.accrual_fits(s1, i));
                }
                assert forall|i: int|
                    0 <= i < sale.out_tokens@.len() implies (spec_accrued_at(sale, sub, i) > 0
                    ==> account.balances.contains_key(
                    (#[trigger] sale.out_tokens@[i]).token_account_id,
                )) by {
                    assert(account.balances.spec_get(sale.out_tokens@[i].token_account_id)
                        == acc0.balances.spec_get(s1.out_tokens@[i].token_account_id));
                }
                assert forall|i: int|
                    0 <= i < sale.out_tokens@.len() implies account.spec_balance(
                    (#[trigger] sale.out_tokens@[i]).token_account_id,
                ) + spec_credited_at(sale, sub, sky, i) < p128() by {
                    assert(account.balances.spec_get(sale.out_tokens@[i].token_account_id)
                        == acc0.balances.spec_get(s1.out_tokens@[i].token_account_id));
                    assert(spec_credited_at(sale, sub, sky, i) == spec_credited_at(
                        s1,
                        sub,
                        sky,
                        i,
                    ));
                }
                assert forall|i: int|
                    0 <= i < sale.out_tokens@.len() implies (
                #[trigger] sub.claimed_out_balance@[i]) + spec_credited_at(sale, sub, sky, i)
                    < p128() by {
                    assert(spec_credited_at(sale, sub, sky, i) == spec_credited_at(
                        s1,
                        sub,
                        sky,
                        i,
                    ));
                }
                if spec_referral_resolves(*self, sub) {
                    let rid = sub.referral_id->0;
                    vstd::arithmetic::div_mod::lemma_fundamental_div_mod(
                        s1.in_token_paid_unclaimed as int,
                        TREASURY_FEE_DENOMINATOR as int,
                    );
                    if s1.in_token_paid_unclaimed > 0 && s1.owner_id != current_account_id && rid
                        == s1.owner_id {
                        let racc0 = old(self).spec_account(rid)->0;
                        let racc1 = self.spec_account(rid)->0;
                        if sky == s1.in_token_account_id {
                            assert(racc0.balances.contains_key(sky));
                            assert(racc1.spec_balance(sky) == racc0.spec_balance(sky)
                                + spec_dist_owner_credit(s1, current_account_id, sky));
                        } else {
                            assert(racc1.balances.spec_get(sky) == racc0.balances.spec_get(sky));
                        }
                    } else {
                        assert(self_after_dist.spec_account(rid) == old(self).spec_account(rid));
                        assert(self.spec_account(rid) == self_after_dist.spec_account(rid));
                    }
                    assert(spec_referral_resolves(*old(self), sub));
                }
            }
        }
        let subscription = self.internal_update_subscription(&mut account, sale_id, &mut sale, None);
        let ghost self_after_update = *self;
        account.internal_save_subscription(sale_id, subscription);
        self.accounts.insert(account_id, account);
        self.sales.insert(sale_id, sale);
        proof {
            // Nothing but this sale and the involved accounts changed.
            assert forall|sid: u64| sid != sale_id implies self.sales.spec_get(sid) == old(
                self,
            ).sales.spec_get(sid) by {
                assert(self.sales.spec_get(sid) == sales_after_remove.spec_get(sid));
                assert(sales_after_remove.spec_get(sid) == old(self).sales.spec_get(sid));
            }
            assert forall|aid: AccountId|
                (aid != account_id && aid != sale0.owner_id && Some(aid) != rid_frame)
                implies self.spec_account(aid) == old(self).spec_account(aid) by {
                assert(self.spec_account(aid) == self_after_update.spec_account(aid));
                assert(self_after_update.spec_account(aid) == self_after_acc_remove.spec_account(
                    aid,
                ));
                assert(self_after_acc_remove.spec_account(aid) == self_after_dist.spec_account(
                    aid,
                ));
                assert(self_after_dist.spec_account(aid) == old(self).spec_account(aid));
            }
        }
        proof {
            // The settlement credits and the referral disposition, chained
            // through the intermediate states.
            let sky = old(self).treasury.skyward_token_id;
            assert(self.treasury.balances == self_after_dist.treasury.balances);
            assert(self.treasury.skyward_burned_amount
                == self_after_update.treasury.skyward_burned_amount);
            if acc0.subs.spec_get(sale_id) is Some {
                let sub = acc0.subs.spec_get(sale_id)->0;
                let resolves_here = match sub.referral_id {
                    Some(rid) => rid != account_id && (match old(self).spec_account(rid) {
                        Some(racc) => racc.balances.contains_key(sky),
                        None => false,
                    }),
                    None => false,
                };
                assert(self_after_acc_remove.treasury.skyward_token_id == sky);
                assert(spec_referral_resolves(self_after_acc_remove, sub) <==> resolves_here) by {
                    match sub.referral_id {
                        Some(rid) => {
                            if rid == account_id {
                                assert(self_after_acc_remove.spec_account(rid) is None);
                            } else {
                                assert(self_after_acc_remove.spec_account(rid)
                                    == self_after_dist.spec_account(rid));
                                if s1.in_token_paid_unclaimed > 0 && s1.owner_id
                                    != current_account_id && rid == s1.owner_id {
                                    assert(old(self).spec_account(rid) is Some);
                                    assert(self_after_dist.spec_account(rid) is Some);
                                    let racc0 = old(self).spec_account(rid)->0;
                                    let racc1 = self_after_dist.spec_account(rid)->0;
                                    if sky == s1.in_token_account_id {
                                        assert(racc0.balances.contains_key(sky));
                                        assert(racc1.balances.contains_key(sky));
                                    } else {
                                        assert(racc1.balances.spec_get(sky)
                                            == racc0.balances.spec_get(sky));
                                    }
                                } else {
                                    assert(self_after_dist.spec_account(rid) == old(
                                        self,
                                    ).spec_account(rid));
                                }
                            }
                        },
                        None => {},
                    }
                }
                if resolves_here {
                    let rid = sub.referral_id->0;
                    assert(self.spec_account(rid) == self_after_update.spec_account(rid));
                    assert(self_after_acc_remove.spec_account(rid) == self_after_dist.spec_account(
                        rid,
                    ));
                    if s1.in_token_paid_unclaimed > 0 && s1.owner_id != current_account_id && rid
                        == s1.owner_id {
                        let racc0 = old(self).spec_account(rid)->0;
                        let racc1 = self_after_dist.spec_account(rid)->0;
                        if sky == s1.in_token_account_id {
                            assert(racc1.spec_balance(sky) == racc0.spec_balance(sky)
                                + spec_dist_owner_credit(s1, current_account_id, sky));
                        } else {
                            assert(racc1.balances.spec_get(sky) == racc0.balances.spec_get(sky));
                        }
                    } else {
                        assert(self_after_dist.spec_account(rid) == old(self).spec_account(rid));
                    }
                }
            }
        }
    }


    /// Advances a sale to `now` and moves its unclaimed amounts where
    /// they belong; anyone may call this.
    pub fn sale_distribute_unclaimed_tokens(
        &mut self,
        sale_id: u64,
        current_account_id: AccountId,
        now: Timestamp,
    )
        requires
            old(self).wf(),
            old(self).spec_sale(sale_id) is Some,
            ({
                let sale0 = old(self).spec_sale(sale_id)->0;
                &&& sale0.spec_out_tokens_unique()
                &&& sale0.spec_out_tokens_distinct_from_in()
                &&& forall|s1: Sale| #[trigger] crate::sale::sale_touched(sale0, s1, now)
                    ==> old(self).spec_dist_ok(s1, current_account_id)
            }),
        ensures
            final(self).wf(),
            final(self).num_sales == old(self).num_sales,
            ({
                let sale0 = old(self).spec_sale(sale_id)->0;
                exists|s1: Sale|
                    {
                        &&& #[trigger] crate::sale::sale_touched(sale0, s1, now)
                        &&& match final(self).spec_sale(sale_id) {
                            Some(s2) => {
                                &&& s2.in_token_paid_unclaimed == 0
                                &&& s2.in_token_remaining == s1.in_token_remaining
                                &&& s2.in_token_paid == s1.in_token_paid
                                &&& s2.total_shares == s1.total_shares
                                &&& s2.last_timestamp == s1.last_timestamp
                                &&& forall|i: int|
                                    0 <= i < s1.out_tokens@.len()
                                        ==> (#[trigger] s2.out_tokens@[i]).remaining
                                        == s1.out_tokens@[i].remaining
                                        && s2.out_tokens@[i].distributed
                                        == s1.out_tokens@[i].distributed
                                        && s2.out_tokens@[i].fee_bucket() == 0
                                &&& final(self).treasury.skyward_burned_amount == old(
                                    self,
                                ).treasury.skyward_burned_amount + spec_dist_burn(
                                    s1,
                                    current_account_id,
                                    old(self).treasury.skyward_token_id,
                                )
                            },
                            None => false,
                        }
                    }
            }),
    {
        let ghost sale0 = self.spec_sale(sale_id)->0;
        let mut sale = match self.sales.remove(sale_id) {
            Some(s) => s,
            None => {
                proof {
                    assert(false);
                }
                Sale::from_input(
                    SaleInput {
                        title: String::new(),
                        url: None,
                        out_tokens: Vec::new(),
                        in_token_account_id: 0,
                        start_time: 0,
                        duration: 1,
                    },
                    0,
                    0,
                )
            },
        };
        proof {
            crate::idmap::lemma_seq_get_present(old(self).sales@, sale_id);
        }
        sale.touch(now);
        let ghost s1 = sale;
        self.internal_distribute_unclaimed_tokens(&mut sale, current_account_id);
        self.sales.insert(sale_id, sale);
    }
}


/// The out-tokens a sale input stands up, before any companion split.
pub open spec fn spec_input_out_tokens(
    toks: Seq<crate::sale::SaleInputOutToken>,
    sky: TokenAccountId,
) -> Seq<SaleOutToken> {
    Seq::new(
        toks.len(),
        |i: int|
            SaleOutToken {
                token_account_id: toks[i].token_account_id,
                remaining: toks[i].balance,
                distributed: 0,
                treasury_unclaimed: if toks[i].token_account_id == sky {
                    None
                } else {
                    Some(0u128)
                },
                per_share: crate::u256::U256 { lo: 0, hi: 0 },
            },
    )
}

impl Contract {
    /// Registers a token for the account, and in the treasury when it is
    /// not the native token.
    pub fn internal_maybe_register_token(
        &mut self,
        account: &mut Account,
        token_account_id: TokenAccountId,
    )
        requires
            old(self).wf(),
            old(account).wf(),
        ensures
            final(self).wf(),
            final(account).wf(),
            final(account).balances.contains_key(token_account_id),
            final(account).spec_balance(token_account_id) == old(account).spec_balance(
                token_account_id,
            ),
            forall|t: TokenAccountId|
                t != token_account_id ==> final(account).balances.spec_get(t) == old(
                    account,
                ).balances.spec_get(t),
            old(account).balances.contains_key(token_account_id) ==> final(account).balances
                == old(account).balances,
            final(account).subs == old(account).subs,
            final(account).sales == old(account).sales,
            forall|t: TokenAccountId|
                final(self).treasury.spec_balance(t) == old(self).treasury.spec_balance(t),
            (!old(account).balances.contains_key(token_account_id) && token_account_id != old(
                self,
            ).treasury.skyward_token_id) ==> final(self).treasury.balances.contains_key(
                token_account_id,
            ),
            final(self).treasury.skyward_token_id == old(self).treasury.skyward_token_id,
            final(self).treasury.skyward_burned_amount == old(self).treasury.skyward_burned_amount,
            final(self).treasury.skyward_vesting_schedule == old(
                self,
            ).treasury.skyward_vesting_schedule,
            final(self).treasury.listing_fee_near == old(self).treasury.listing_fee_near,
            final(self).treasury.w_near_token_id == old(self).treasury.w_near_token_id,
            final(self).accounts == old(self).accounts,
            final(self).sales == old(self).sales,
            final(self).num_sales == old(self).num_sales,
    {
        if !account.balances.contains(token_account_id) {
            account.balances.insert(token_account_id, 0);
            if token_account_id != self.treasury.skyward_token_id {
                self.treasury.internal_deposit(token_account_id, 0);
            }
        }
    }

    /// Creates a sale from its input at the next free sale id; the input
    /// must already satisfy the admission rule for `now`.
    ///
    /// A sale owned by the engine itself seeds the native token from the
    /// treasury: exactly one native out-token is allowed and a matching
    /// vesting interval is appended to the schedule.  Any other owner
    /// pays the listed allocations out of their custody balances, and a
    /// companion sale selling a tenth of each non-native allocation
    /// against the native token is spawned at `sale_id + 1` when there
    /// is anything to split.
    #[verifier::loop_isolation(false)]
    #[verifier::rlimit(100)]
    pub fn sale_create(
        &mut self,
        sale: SaleInput,
        owner_id: AccountId,
        current_account_id: AccountId,
        spawn_companion: bool,
        now: Timestamp,
    ) -> (sale_id: u64)
        requires
            old(self).wf(),
            old(self).num_sales + 2 <= u64::MAX,
            old(self).spec_sale(old(self).num_sales) is None,
            old(self).spec_sale((old(self).num_sales + 1) as u64) is None,
            sale.start_time + sale.duration <= u64::MAX,
            sale.start_time >= now + crate::MIN_DURATION_BEFORE_START,
            sale.start_time < now + crate::MAX_DURATION_BEFORE_START,
            sale.duration <= crate::MAX_DURATION,
            sale.duration >= crate::MIN_DURATION,
            sale.out_tokens@.len() <= crate::MAX_NUM_OUT_TOKENS,
            sale.out_tokens@.len() >= 1,
            sale.title@.len() <= crate::MAX_TITLE_LENGTH,
            match sale.url {
                Some(u) => u@.len() <= crate::MAX_URL_LENGTH,
                None => true,
            },
            forall|i: int|
                0 <= i < sale.out_tokens@.len() ==> (#[trigger] sale.out_tokens@[i]).balance > 0,
            forall|i: int|
                0 <= i < sale.out_tokens@.len() ==> (#[trigger] sale.out_tokens@[i]).token_account_id
                    != sale.in_token_account_id,
            forall|i: int, j: int|
                0 <= i < j < sale.out_tokens@.len()
                    ==> (#[trigger] sale.out_tokens@[i]).token_account_id
                    != (#[trigger] sale.out_tokens@[j]).token_account_id,
            owner_id == current_account_id ==> {
                &&& sale.out_tokens@.len() == 1
                &&& sale.out_tokens@[0].token_account_id == old(self).treasury.skyward_token_id
                &&& spec_vesting_total(old(self).treasury.skyward_vesting_schedule@)
                    + sale.out_tokens@[0].balance < p128()
            },
            owner_id != current_account_id ==> {
                &&& old(self).spec_account(owner_id) is Some
                &&& ({
                    let acc = old(self).spec_account(owner_id)->0;
                    &&& forall|i: int|
                        0 <= i < sale.out_tokens@.len() ==> acc.balances.contains_key(
                            (#[trigger] sale.out_tokens@[i]).token_account_id,
                        ) && acc.spec_balance(sale.out_tokens@[i].token_account_id)
                            >= sale.out_tokens@[i].balance
                    &&& forall|i: int|
                        0 <= i < acc.sales@.len() ==> (#[trigger] acc.sales@[i]) != old(
                            self,
                        ).num_sales && acc.sales@[i] != old(self).num_sales + 1
                })
                &&& (spawn_companion && sale.in_token_account_id != old(
                    self,
                ).treasury.skyward_token_id ==> forall|i: int|
                    0 <= i < sale.out_tokens@.len() ==> ((#[trigger] sale.out_tokens@[i]).token_account_id
                        != old(self).treasury.skyward_token_id ==> sale.out_tokens@[i].balance
                        >= crate::IN_SKYWARD_DENOMINATOR))
            },
        ensures
            final(self).wf(),
            sale_id == old(self).num_sales,
            forall|sid: u64|
                sid != old(self).num_sales && sid != old(self).num_sales + 1 ==> final(self).spec_sale(sid) == old(self).spec_sale(sid),
            forall|aid: AccountId|
                aid != owner_id ==> final(self).spec_account(aid) == old(self).spec_account(aid),
            ({
                let sky = old(self).treasury.skyward_token_id;
                let base = spec_input_out_tokens(sale.out_tokens@, sky);
                let spawned = crate::sale::spawned_out_tokens(base, sky);
                let has_companion = spawn_companion && owner_id != current_account_id
                    && sale.in_token_account_id != sky && spawned.len() > 0;
                &&& final(self).num_sales == old(self).num_sales + (if has_companion {
                    2int
                } else {
                    1int
                })
                &&& match final(self).spec_sale(sale_id) {
                    Some(s) => {
                        &&& s.owner_id == owner_id
                        &&& s.title == sale.title
                        &&& s.url == sale.url
                        &&& s.in_token_account_id == sale.in_token_account_id
                        &&& s.in_token_remaining == 0
                        &&& s.in_token_paid == 0
                        &&& s.in_token_paid_unclaimed == 0
                        &&& s.total_shares == 0
                        &&& s.start_time == sale.start_time
                        &&& s.duration == sale.duration
                        &&& s.last_timestamp == sale.start_time
                        &&& s.associated_sale_id == (if has_companion {
                            Some((sale_id + 1) as u64)
                        } else {
                            None::<u64>
                        })
                        &&& s.out_tokens@.len() == base.len()
                        &&& forall|i: int|
                            0 <= i < base.len() ==> {
                                let b = base[i];
                                let o = #[trigger] s.out_tokens@[i];
                                &&& o.token_account_id == b.token_account_id
                                &&& o.distributed == 0
                                &&& o.per_share.v() == 0
                                &&& o.remaining == (if has_companion && b.token_account_id != sky {
                                    b.remaining - b.remaining as int
                                        / (crate::IN_SKYWARD_DENOMINATOR as int)
                                } else {
                                    b.remaining as int
                                })
                            }
                    },
                    None => false,
                }
                &&& (has_companion ==> match final(self).spec_sale((sale_id + 1) as u64) {
                    Some(c) => {
                        &&& c.owner_id == owner_id
                        &&& c.in_token_account_id == sky
                        &&& c.out_tokens@ == spawned
                        &&& c.total_shares == 0
                        &&& c.in_token_remaining == 0
                        &&& c.in_token_paid == 0
                        &&& c.start_time == sale.start_time
                        &&& c.duration == sale.duration
                        &&& c.associated_sale_id == Some(sale_id)
                    },
                    None => false,
                })
                &&& (owner_id == current_account_id ==> {
                    &&& final(self).treasury.skyward_vesting_schedule@ == old(
                        self,
                    ).treasury.skyward_vesting_schedule@.push(
                        VestingInterval {
                            start_timestamp: sale.start_time,
                            end_timestamp: (sale.start_time + sale.duration) as u64,
                            amount: sale.out_tokens@[0].balance,
                        },
                    )
                    &&& final(self).accounts == old(self).accounts
                })
                &&& (owner_id != current_account_id ==> {
                    &&& final(self).treasury.skyward_vesting_schedule == old(
                        self,
                    ).treasury.skyward_vesting_schedule
                    &&& match final(self).spec_account(owner_id) {
                        Some(acc1) => {
                            let acc0 = old(self).spec_account(owner_id)->0;
                            &&& forall|i: int|
                                0 <= i < base.len() ==> acc1.spec_balance(
                                    (#[trigger] base[i]).token_account_id,
                                ) == acc0.spec_balance(base[i].token_account_id)
                                    - base[i].remaining
                            &&& acc1.subs == acc0.subs
                        },
                        None => false,
                    }
                })
                &&& forall|t: TokenAccountId|
                    final(self).treasury.spec_balance(t) == old(self).treasury.spec_balance(t)
                &&& final(self).treasury.skyward_burned_amount == old(
                    self,
                ).treasury.skyward_burned_amount
            }),
    {
        let sale_id = self.num_sales;
        let skyward_token_id = self.treasury.skyward_token_id;
        let ghost base = spec_input_out_tokens(sale.out_tokens@, skyward_token_id);
        let mut new_sale = Sale::from_input(sale, owner_id, skyward_token_id);
        proof {
            assert forall|i: int|
                0 <= i < base.len() implies #[trigger] new_sale.out_tokens@[i] == base[i] by {
                let o = new_sale.out_tokens@[i];
                assert(o.per_share.v() == 0);
                assert(o.per_share.lo == 0 && o.per_share.hi == 0);
            }
            assert(new_sale.out_tokens@ =~= base);
        }
        if owner_id == current_account_id {
            // The engine's own sale seeds the native token: register the
            // in-token and extend the vesting schedule.
            self.treasury.internal_deposit(new_sale.in_token_account_id, 0);
            let ghost pre_sched = self.treasury.skyward_vesting_schedule@;
            let interval = VestingInterval {
                start_timestamp: new_sale.start_time,
                end_timestamp: new_sale.start_time + new_sale.duration,
                amount: new_sale.out_tokens[0].remaining,
            };
            self.treasury.skyward_vesting_schedule.push(interval);
            proof {
                assert(self.treasury.skyward_vesting_schedule@.drop_last() == pre_sched);
            }
            self.sales.insert(sale_id, new_sale);
            self.num_sales = self.num_sales + 1;
        } else {
            let mut account = match self.accounts.remove(owner_id) {
                Some(a) => a,
                None => {
                    proof {
                        assert(false);
                    }
                    Account::new()
                },
            };
            proof {
                crate::idmap::lemma_seq_get_present(old(self).accounts@, owner_id);
            }
            let ghost accounts_after_remove = self.accounts;
            let ghost acc0 = account;
            let n = new_sale.out_tokens.len();
            let mut i: usize = 0;
            while i < n
                invariant
                    account.wf(),
                    i <= n,
                    forall|j: int|
                        0 <= j < i as int ==> account.spec_balance(
                            (#[trigger] new_sale.out_tokens@[j]).token_account_id,
                        ) == acc0.spec_balance(new_sale.out_tokens@[j].token_account_id)
                            - new_sale.out_tokens@[j].remaining,
                    forall|t: TokenAccountId|
                        (forall|j: int|
                            0 <= j < i as int ==> (#[trigger] new_sale.out_tokens@[j]).token_account_id
                                != t) ==> account.balances.spec_get(t)
                            == acc0.balances.spec_get(t),
                    forall|t: TokenAccountId|
                        acc0.balances.contains_key(t) ==> account.balances.contains_key(t),
                    account.subs == acc0.subs,
                    account.sales == acc0.sales,
                decreases n - i,
            {
                let o = new_sale.out_tokens[i];
                if o.remaining > 0 {
                    account.internal_token_withdraw(o.token_account_id, o.remaining);
                }
                i = i + 1;
            }
            self.internal_maybe_register_token(&mut account, new_sale.in_token_account_id);
            account.internal_add_sale(sale_id);
            let companion = if spawn_companion {
                new_sale.spawn_in_skyward_sale(sale_id, skyward_token_id)
            } else {
                None
            };
            proof {
                // A tenth of an allocation stays within it.
                assert forall|i: int|
                    0 <= i < base.len() implies 0 <= (#[trigger] base[i]).remaining as int / (
                crate::IN_SKYWARD_DENOMINATOR as int) <= base[i].remaining by {
                    vstd::arithmetic::div_mod::lemma_fundamental_div_mod(
                        base[i].remaining as int,
                        crate::IN_SKYWARD_DENOMINATOR as int,
                    );
                    vstd::arithmetic::div_mod::lemma_div_pos_is_pos(
                        base[i].remaining as int,
                        crate::IN_SKYWARD_DENOMINATOR as int,
                    );
                }
            }
            match companion {
                Some(in_skyward_sale) => {
                    let in_skyward_sale_id = sale_id + 1;
                    self.internal_maybe_register_token(&mut account, skyward_token_id);
                    account.internal_add_sale(in_skyward_sale_id);
                    new_sale.associated_sale_id = Some(in_skyward_sale_id);
                    self.sales.insert(in_skyward_sale_id, in_skyward_sale);
                    self.num_sales = self.num_sales + 1;
                },
                None => {
                    proof {
                        if spawn_companion && new_sale.in_token_account_id != skyward_token_id {
                            crate::sale::lemma_spawned_empty(base, skyward_token_id);
                        }
                    }
                },
            }
            let ghost sales_mid = self.sales;
            self.accounts.insert(owner_id, account);
            self.sales.insert(sale_id, new_sale);
            self.num_sales = self.num_sales + 1;
            proof {
                // Only this sale, its companion and the owner changed.
                assert forall|sid: u64|
                    sid != sale_id && sid != old(self).num_sales + 1 implies self.sales.spec_get(
                    sid,
                ) == old(self).sales.spec_get(sid) by {
                    assert(self.sales.spec_get(sid) == sales_mid.spec_get(sid));
                }
                assert forall|aid: AccountId| aid != owner_id implies self.spec_account(aid)
                    == old(self).spec_account(aid) by {
                    assert(self.accounts.spec_get(aid) == accounts_after_remove.spec_get(aid));
                    assert(accounts_after_remove.spec_get(aid) == old(self).accounts.spec_get(
                        aid,
                    ));
                }
            }
        }
        sale_id
    }
}


/// Messages the engine accepts as a token recipient: credit the sender's
/// custody balance, or donate to the treasury.
pub enum FtOnTransferArgs {
    AccountDeposit,
    DonateToTreasury,
}

/// Sum of a sequence of share counts.
pub open spec fn spec_shares_sum(s: Seq<Balance>) -> int
    decreases s.len(),
{
    if s.len() == 0 {
        0
    } else {
        spec_shares_sum(s.drop_last()) + s.last()
    }
}

/// Updating one entry moves the sum by exactly the entry's change.
/// Together with the engine operations' postconditions, which move one
/// subscription's shares and the sale's `total_shares` by the same
/// delta, this keeps the invariant that the shares of all subscriptions
/// of a sale sum to the sale's `total_shares`.
pub proof fn lemma_shares_sum_update(s: Seq<Balance>, i: int, v: Balance)
    requires
        0 <= i < s.len(),
    ensures
        spec_shares_sum(s.update(i, v)) == spec_shares_sum(s) - s[i] + v,
    decreases s.len(),
{
    let t = s.update(i, v);
    if i == s.len() - 1 {
        assert(t.drop_last() == s.drop_last());
        assert(t.last() == v);
    } else {
        assert(t.drop_last() == s.drop_last().update(i, v));
        assert(t.last() == s.last());
        lemma_shares_sum_update(s.drop_last(), i, v);
    }
}

/// Every entry is bounded by the sum, so no subscription can hold more
/// shares than the sale's total once the sum matches the total.
pub proof fn lemma_shares_le_sum(s: Seq<Balance>, i: int)
    requires
        0 <= i < s.len(),
    ensures
        s[i] <= spec_shares_sum(s),
        0 <= spec_shares_sum(s),
    decreases s.len(),
{
    if s.len() == 1 {
    } else if i == s.len() - 1 {
        lemma_shares_le_sum(s.drop_last(), 0);
    } else {
        assert(s.drop_last()[i] == s[i]);
        lemma_shares_le_sum(s.drop_last(), i);
    }
}

impl Contract {
    /// The circulating native supply at `now`: vested minus burned.
    pub fn get_skyward_circulating_supply(&self, now: Timestamp) -> (r: Balance)
        requires
            self.wf(),
            self.treasury.skyward_burned_amount <= crate::treasury::spec_vested(
                self.treasury.skyward_vesting_schedule@,
                now,
            ),
        ensures
            r == self.treasury.spec_circulating_supply(now),
    {
        self.treasury.circulating_supply(now)
    }

    /// Redeems native tokens against the treasury: the caller's native
    /// tokens are burned, and for each requested token the caller is
    /// credited `balance * amount / supply`, floored, out of the
    /// treasury; the rounding dust stays in the treasury.
    ///
    /// The requested tokens are taken pairwise distinct, so each token's
    /// credit reads against the treasury balance the redemption started
    /// from; listing a token twice would only redeem the second time
    /// against the already reduced balance.
    #[verifier::loop_isolation(false)]
    #[verifier::rlimit(100)]
    pub fn redeem_skyward(
        &mut self,
        account_id: AccountId,
        skyward_amount: Balance,
        token_account_ids: Vec<TokenAccountId>,
        now: Timestamp,
    )
        requires
            old(self).wf(),
            skyward_amount > 0,
            old(self).spec_account(account_id) is Some,
            ({
                let acc = old(self).spec_account(account_id)->0;
                let sky = old(self).treasury.skyward_token_id;
                &&& acc.balances.contains_key(sky)
                &&& acc.spec_balance(sky) >= skyward_amount
                &&& old(self).treasury.skyward_burned_amount + skyward_amount < p128()
                &&& old(self).treasury.skyward_burned_amount <= crate::treasury::spec_vested(
                    old(self).treasury.skyward_vesting_schedule@,
                    now,
                )
                &&& old(self).treasury.spec_circulating_supply(now) >= skyward_amount
                &&& forall|i: int|
                    0 <= i < token_account_ids@.len() ==> old(self).treasury.balances.contains_key(
                        #[trigger] token_account_ids@[i],
                    )
                &&& forall|i: int|
                    0 <= i < token_account_ids@.len() ==> acc.balances.contains_key(
                        #[trigger] token_account_ids@[i],
                    ) && acc.spec_balance(token_account_ids@[i]) + old(self).treasury.spec_balance(
                        token_account_ids@[i],
                    ) < p128()
                &&& forall|i: int, j: int|
                    0 <= i < j < token_account_ids@.len() ==> token_account_ids@[i]
                        != token_account_ids@[j]
                &&& forall|i: int|
                    0 <= i < token_account_ids@.len() ==> #[trigger] token_account_ids@[i] != sky
            }),
        ensures
            final(self).wf(),
            ({
                let acc0 = old(self).spec_account(account_id)->0;
                let sky = old(self).treasury.skyward_token_id;
                let supply = old(self).treasury.spec_circulating_supply(now);
                &&& final(self).treasury.skyward_burned_amount == old(
                    self,
                ).treasury.skyward_burned_amount + skyward_amount
                &&& match final(self).spec_account(account_id) {
                    Some(acc1) => {
                        &&& acc1.spec_balance(sky) == acc0.spec_balance(sky) - skyward_amount
                        &&& forall|i: int|
                            0 <= i < token_account_ids@.len() ==> acc1.spec_balance(
                                #[trigger] token_account_ids@[i],
                            ) == acc0.spec_balance(token_account_ids@[i]) + old(
                                self,
                            ).treasury.spec_balance(token_account_ids@[i]) * skyward_amount
                                / supply
                        &&& forall|i: int|
                            0 <= i < token_account_ids@.len() ==> final(self).treasury.spec_balance(#[trigger] token_account_ids@[i]) == old(
                                self,
                            ).treasury.spec_balance(token_account_ids@[i]) - old(
                                self,
                            ).treasury.spec_balance(token_account_ids@[i]) * skyward_amount
                                / supply
                    },
                    None => false,
                }
                &&& forall|aid: AccountId|
                    aid != account_id ==> final(self).spec_account(aid) == old(self).spec_account(
                        aid,
                    )
            }),
    {
        let ghost acc0 = self.spec_account(account_id)->0;
        let ghost tre0 = self.treasury;
        let mut account = match self.accounts.remove(account_id) {
            Some(a) => a,
            None => {
                proof {
                    assert(false);
                }
                Account::new()
            },
        };
        proof {
            crate::idmap::lemma_seq_get_present(old(self).accounts@, account_id);
        }
        let ghost accs_mid = self.accounts;
        let sky = self.treasury.skyward_token_id;
        account.internal_token_withdraw(sky, skyward_amount);
        let denominator = self.treasury.circulating_supply(now);
        self.treasury.skyward_burned_amount = self.treasury.skyward_burned_amount
            + skyward_amount;
        let n = token_account_ids.len();
        let mut i: usize = 0;
        while i < n
            invariant
                account.wf(),
                self.wf(),
                i <= n,
                self.treasury.skyward_token_id == sky,
                self.treasury.skyward_burned_amount == tre0.skyward_burned_amount
                    + skyward_amount,
                self.treasury.skyward_vesting_schedule == tre0.skyward_vesting_schedule,
                self.treasury.listing_fee_near == tre0.listing_fee_near,
                self.treasury.w_near_token_id == tre0.w_near_token_id,
                self.accounts == accs_mid,
                self.sales == old(self).sales,
                self.num_sales == old(self).num_sales,
                forall|j: int|
                    0 <= j < i as int ==> account.spec_balance(#[trigger] token_account_ids@[j])
                        == acc0.spec_balance(token_account_ids@[j]) + tre0.spec_balance(
                        token_account_ids@[j],
                    ) * skyward_amount / (denominator as int),
                forall|j: int|
                    0 <= j < i as int ==> self.treasury.spec_balance(
                        #[trigger] token_account_ids@[j],
                    ) == tre0.spec_balance(token_account_ids@[j]) - tre0.spec_balance(
                        token_account_ids@[j],
                    ) * skyward_amount / (denominator as int),
                forall|t: TokenAccountId|
                    (forall|j: int|
                        0 <= j < i as int ==> #[trigger] token_account_ids@[j] != t)
                        ==> self.treasury.spec_balance(t) == tre0.spec_balance(t),
                forall|t: TokenAccountId|
                    (t != sky && (forall|j: int|
                        0 <= j < i as int ==> #[trigger] token_account_ids@[j] != t))
                        ==> account.balances.spec_get(t) == acc0.balances.spec_get(t),
                account.spec_balance(sky) == acc0.spec_balance(sky) - skyward_amount,
                account.balances.contains_key(sky),
                account.subs == acc0.subs,
                account.sales == acc0.sales,
            decreases n - i,
        {
            let token_account_id = token_account_ids[i];
            let treasury_balance = match self.treasury.balances.get(token_account_id) {
                Some(b) => *b,
                None => 0,
            };
            proof {
                crate::arith::lemma_muldiv_le(
                    treasury_balance as int,
                    skyward_amount as int,
                    denominator as int,
                );
            }
            let amount = crate::u256::mul_div(treasury_balance, skyward_amount, denominator);
            if amount > 0 {
                self.treasury.internal_withdraw(token_account_id, amount);
                account.internal_token_deposit(token_account_id, amount);
            }
            i = i + 1;
        }
        self.accounts.insert(account_id, account);
    }
}


impl Contract {
    /// Registers a batch of tokens for an account, creating the account
    /// if it does not exist yet.
    #[verifier::loop_isolation(false)]
    pub fn register_tokens(&mut self, account_id: AccountId, token_account_ids: Vec<TokenAccountId>)
        requires
            old(self).wf(),
        ensures
            final(self).wf(),
            match final(self).spec_account(account_id) {
                Some(acc1) => {
                    &&& forall|i: int|
                        0 <= i < token_account_ids@.len() ==> acc1.balances.contains_key(
                            #[trigger] token_account_ids@[i],
                        )
                    &&& forall|t: TokenAccountId|
                        acc1.spec_balance(t) == match old(self).spec_account(account_id) {
                            Some(acc0) => acc0.spec_balance(t),
                            None => 0,
                        }
                    &&& match old(self).spec_account(account_id) {
                        Some(acc0) => acc1.subs == acc0.subs && acc1.sales == acc0.sales,
                        None => acc1.subs@.len() == 0 && acc1.sales@.len() == 0,
                    }
                },
                None => false,
            },
            forall|aid: AccountId|
                aid != account_id ==> final(self).spec_account(aid) == old(self).spec_account(aid),
            final(self).sales == old(self).sales,
            final(self).num_sales == old(self).num_sales,
            forall|t: TokenAccountId|
                final(self).treasury.spec_balance(t) == old(self).treasury.spec_balance(t),
            final(self).treasury.skyward_burned_amount == old(self).treasury.skyward_burned_amount,
    {
        let ghost acc_opt0 = self.spec_account(account_id);
        let mut account = match self.accounts.remove(account_id) {
            Some(a) => {
                proof {
                    crate::idmap::lemma_seq_get_present(old(self).accounts@, account_id);
                }
                a
            },
            None => Account::new(),
        };
        let n = token_account_ids.len();
        let mut i: usize = 0;
        while i < n
            invariant
                self.wf(),
                account.wf(),
                i <= n,
                forall|j: int|
                    0 <= j < i as int ==> account.balances.contains_key(
                        #[trigger] token_account_ids@[j],
                    ),
                forall|t: TokenAccountId|
                    account.spec_balance(t) == match acc_opt0 {
                        Some(acc0) => acc0.spec_balance(t),
                        None => 0int,
                    },
                match acc_opt0 {
                    Some(acc0) => account.subs == acc0.subs && account.sales == acc0.sales,
                    None => account.subs@.len() == 0 && account.sales@.len() == 0,
                },
                self.accounts.spec_get(account_id) is None,
                forall|aid: AccountId|
                    aid != account_id ==> self.spec_account(aid) == old(self).spec_account(aid),
                self.sales == old(self).sales,
                self.num_sales == old(self).num_sales,
                forall|t: TokenAccountId|
                    self.treasury.spec_balance(t) == old(self).treasury.spec_balance(t),
                self.treasury.skyward_burned_amount == old(self).treasury.skyward_burned_amount,
                self.treasury.skyward_token_id == old(self).treasury.skyward_token_id,
            decreases n - i,
        {
            let ghost acc_prev = account;
            let token = token_account_ids[i];
            self.internal_maybe_register_token(&mut account, token);
            proof {
                assert forall|t: TokenAccountId|
                    account.spec_balance(t) == (match acc_opt0 {
                        Some(acc0) => acc0.spec_balance(t),
                        None => 0int,
                    }) by {
                    assert(acc_prev.spec_balance(t) == (match acc_opt0 {
                        Some(acc0) => acc0.spec_balance(t),
                        None => 0int,
                    }));
                    if t == token {
                        assert(account.spec_balance(t) == acc_prev.spec_balance(t));
                    } else {
                        assert(account.balances.spec_get(t) == acc_prev.balances.spec_get(t));
                    }
                }
            }
            i = i + 1;
        }
        self.accounts.insert(account_id, account);
    }

    /// Moves tokens from the caller's custody into the treasury; the
    /// native token is burned instead.
    pub fn donate_token_to_treasury(
        &mut self,
        account_id: AccountId,
        token_account_id: TokenAccountId,
        amount: Balance,
    )
        requires
            old(self).wf(),
            old(self).spec_account(account_id) is Some,
            ({
                let acc = old(self).spec_account(account_id)->0;
                let sky = old(self).treasury.skyward_token_id;
                &&& acc.balances.contains_key(token_account_id)
                &&& acc.spec_balance(token_account_id) >= amount
                &&& (token_account_id == sky ==> old(self).treasury.skyward_burned_amount + amount
                    < p128())
                &&& (token_account_id != sky ==> old(self).treasury.spec_balance(token_account_id)
                    + amount < p128())
            }),
        ensures
            final(self).wf(),
            match (old(self).spec_account(account_id), final(self).spec_account(account_id)) {
                (Some(acc0), Some(acc1)) => acc1.spec_balance(token_account_id) == acc0.spec_balance(
                    token_account_id,
                ) - amount,
                _ => false,
            },
            token_account_id == old(self).treasury.skyward_token_id ==> final(self).treasury.skyward_burned_amount == old(self).treasury.skyward_burned_amount + amount,
            token_account_id != old(self).treasury.skyward_token_id ==> final(self).treasury.spec_balance(token_account_id) == old(self).treasury.spec_balance(
                token_account_id,
            ) + amount,
            forall|aid: AccountId|
                aid != account_id ==> final(self).spec_account(aid) == old(self).spec_account(aid),
            final(self).sales == old(self).sales,
    {
        let mut account = match self.accounts.remove(account_id) {
            Some(a) => a,
            None => {
                proof {
                    assert(false);
                }
                Account::new()
            },
        };
        proof {
            crate::idmap::lemma_seq_get_present(old(self).accounts@, account_id);
        }
        account.internal_token_withdraw(token_account_id, amount);
        self.treasury.internal_donate(token_account_id, amount);
        self.accounts.insert(account_id, account);
    }

    /// Debits the caller for an outgoing token transfer; the transfer
    /// itself happens outside the engine, and `after_ft_transfer` settles
    /// its outcome.
    pub fn withdraw_token(
        &mut self,
        account_id: AccountId,
        token_account_id: TokenAccountId,
        amount: Balance,
    )
        requires
            old(self).wf(),
            old(self).spec_account(account_id) is Some,
            ({
                let acc = old(self).spec_account(account_id)->0;
                acc.balances.contains_key(token_account_id) && acc.spec_balance(token_account_id)
                    >= amount
            }),
        ensures
            final(self).wf(),
            match (old(self).spec_account(account_id), final(self).spec_account(account_id)) {
                (Some(acc0), Some(acc1)) => {
                    &&& acc1.spec_balance(token_account_id) == acc0.spec_balance(token_account_id)
                        - amount
                    &&& forall|t: TokenAccountId|
                        t != token_account_id ==> acc1.balances.spec_get(t)
                            == acc0.balances.spec_get(t)
                    &&& acc1.subs == acc0.subs
                },
                _ => false,
            },
            forall|aid: AccountId|
                aid != account_id ==> final(self).spec_account(aid) == old(self).spec_account(aid),
            final(self).sales == old(self).sales,
            final(self).treasury == old(self).treasury,
    {
        let mut account = match self.accounts.remove(account_id) {
            Some(a) => a,
            None => {
                proof {
                    assert(false);
                }
                Account::new()
            },
        };
        proof {
            crate::idmap::lemma_seq_get_present(old(self).accounts@, account_id);
        }
        account.internal_token_withdraw(token_account_id, amount);
        self.accounts.insert(account_id, account);
    }

    /// Settles the outcome of an outgoing token transfer: on failure the
    /// debited amount is restored to the account, so the engine's books
    /// match the tokens that actually left.
    pub fn after_ft_transfer(
        &mut self,
        account_id: AccountId,
        token_account_id: TokenAccountId,
        amount: Balance,
        promise_success: bool,
    ) -> (r: bool)
        requires
            old(self).wf(),
            !promise_success ==> old(self).spec_account(account_id) is Some && ({
                let acc = old(self).spec_account(account_id)->0;
                acc.balances.contains_key(token_account_id) && acc.spec_balance(token_account_id)
                    + amount < p128()
            }),
        ensures
            final(self).wf(),
            r == promise_success,
            promise_success ==> *final(self) == *old(self),
            !promise_success ==> {
                &&& match (
                    old(self).spec_account(account_id),
                    final(self).spec_account(account_id),
                ) {
                    (Some(acc0), Some(acc1)) => acc1.spec_balance(token_account_id)
                        == acc0.spec_balance(token_account_id) + amount,
                    _ => false,
                }
                &&& forall|aid: AccountId|
                    aid != account_id ==> final(self).spec_account(aid) == old(self).spec_account(
                        aid,
                    )
            },
    {
        if !promise_success {
            let mut account = match self.accounts.remove(account_id) {
                Some(a) => a,
                None => {
                    proof {
                        assert(false);
                    }
                    Account::new()
                },
            };
            proof {
                crate::idmap::lemma_seq_get_present(old(self).accounts@, account_id);
            }
            account.internal_token_deposit(token_account_id, amount);
            self.accounts.insert(account_id, account);
        }
        promise_success
    }

    /// Settles wrapping spare native balance: on success the wrapped
    /// amount lands in the treasury.
    pub fn after_near_deposit(&mut self, amount: Balance, promise_success: bool) -> (r: bool)
        requires
            old(self).wf(),
            promise_success ==> old(self).treasury.spec_balance(old(self).treasury.w_near_token_id)
                + amount < p128(),
        ensures
            final(self).wf(),
            r == promise_success,
            !promise_success ==> *final(self) == *old(self),
            promise_success ==> final(self).treasury.spec_balance(
                old(self).treasury.w_near_token_id,
            ) == old(self).treasury.spec_balance(old(self).treasury.w_near_token_id) + amount,
    {
        if promise_success {
            let w_near_token_id = self.treasury.w_near_token_id;
            self.treasury.internal_deposit(w_near_token_id, amount);
        }
        promise_success
    }

    /// The engine as a token recipient: an incoming transfer either
    /// credits the sender's custody balance or is donated to the
    /// treasury.  Returns the amount to refund, which is always zero.
    pub fn ft_on_transfer(
        &mut self,
        sender_id: AccountId,
        token_account_id: TokenAccountId,
        amount: Balance,
        args: FtOnTransferArgs,
    ) -> (refund: Balance)
        requires
            old(self).wf(),
            match args {
                FtOnTransferArgs::AccountDeposit => old(self).spec_account(sender_id) is Some && ({
                    let acc = old(self).spec_account(sender_id)->0;
                    acc.balances.contains_key(token_account_id) && acc.spec_balance(
                        token_account_id,
                    ) + amount < p128()
                }),
                FtOnTransferArgs::DonateToTreasury => {
                    let sky = old(self).treasury.skyward_token_id;
                    &&& (token_account_id == sky ==> old(self).treasury.skyward_burned_amount
                        + amount < p128())
                    &&& (token_account_id != sky ==> old(self).treasury.spec_balance(
                        token_account_id,
                    ) + amount < p128())
                },
            },
        ensures
            final(self).wf(),
            refund == 0,
            match args {
                FtOnTransferArgs::AccountDeposit => match (
                    old(self).spec_account(sender_id),
                    final(self).spec_account(sender_id),
                ) {
                    (Some(acc0), Some(acc1)) => acc1.spec_balance(token_account_id)
                        == acc0.spec_balance(token_account_id) + amount,
                    _ => false,
                },
                FtOnTransferArgs::DonateToTreasury => {
                    let sky = old(self).treasury.skyward_token_id;
                    &&& (token_account_id == sky ==> final(self).treasury.skyward_burned_amount
                        == old(self).treasury.skyward_burned_amount + amount)
                    &&& (token_account_id != sky ==> final(self).treasury.spec_balance(
                        token_account_id,
                    ) == old(self).treasury.spec_balance(token_account_id) + amount)
                },
            },
    {
        match args {
            FtOnTransferArgs::AccountDeposit => {
                let mut account = match self.accounts.remove(sender_id) {
                    Some(a) => a,
                    None => {
                        proof {
                            assert(false);
                        }
                        Account::new()
                    },
                };
                proof {
                    crate::idmap::lemma_seq_get_present(old(self).accounts@, sender_id);
                }
                account.internal_token_deposit(token_account_id, amount);
                self.accounts.insert(sender_id, account);
            },
            FtOnTransferArgs::DonateToTreasury => {
                self.treasury.internal_donate(token_account_id, amount);
            },
        }
        0
    }

    /// The custody balance of a token, if the account and token exist.
    pub fn balance_of(&self, account_id: AccountId, token_account_id: TokenAccountId) -> (r:
        Option<Balance>)
        requires
            self.wf(),
        ensures
            r == match self.spec_account(account_id) {
                Some(acc) => acc.balances.spec_get(token_account_id),
                None => None::<Balance>,
            },
    {
        match self.accounts.get(account_id) {
            Some(account) => {
                proof {
                    crate::idmap::lemma_seq_get_present(self.accounts@, account_id);
                }
                match account.balances.get(token_account_id) {
                    Some(b) => Some(*b),
                    None => None,
                }
            },
            None => None,
        }
    }

    /// The treasury's balance of a token, if registered there.
    pub fn get_treasury_balance(&self, token_account_id: TokenAccountId) -> (r: Option<Balance>)
        requires
            self.wf(),
        ensures
            r == self.treasury.balances.spec_get(token_account_id),
    {
        match self.treasury.balances.get(token_account_id) {
            Some(b) => Some(*b),
            None => None,
        }
    }

    pub fn get_treasury_num_balances(&self) -> (r: usize)
        ensures
            r == self.treasury.balances@.len(),
    {
        self.treasury.balances.len()
    }

    pub fn get_skyward_token_id(&self) -> (r: TokenAccountId)
        ensures
            r == self.treasury.skyward_token_id,
    {
        self.treasury.skyward_token_id
    }

    pub fn get_listing_fee(&self) -> (r: Balance)
        ensures
            r == self.treasury.listing_fee_near,
    {
        self.treasury.listing_fee_near
    }
}


/// Share conservation: if the shares of all subscriptions of a sale sum
/// to the sale's total, and an operation moves one subscription's shares
/// from `s[i]` to `v` while moving the sale's total by the same delta
/// (as the deposit, withdrawal and claim postconditions state), then the
/// new shares again sum to the new total, and no position can exceed it.
pub proof fn lemma_share_conservation(s: Seq<Balance>, i: int, v: Balance, total: Balance)
    requires
        0 <= i < s.len(),
        spec_shares_sum(s) == total,
    ensures
        spec_shares_sum(s.update(i, v)) == total + (v - s[i]),
        forall|j: int| 0 <= j < s.len() ==> s[j] <= total,
{
    lemma_shares_sum_update(s, i, v);
    assert forall|j: int| 0 <= j < s.len() implies s[j] <= total by {
        lemma_shares_le_sum(s, j);
    }
}

impl Contract {
    /// An account's balances in insertion order, from `from_index`, at
    /// most `limit` of them.
    pub fn balances_of(&self, account_id: AccountId, from_index: usize, limit: usize) -> (r: Vec<
        (TokenAccountId, Balance),
    >)
        requires
            self.wf(),
        ensures
            match self.spec_account(account_id) {
                Some(acc) => {
                    let upto = if from_index + limit <= acc.balances@.len() {
                        from_index + limit
                    } else {
                        acc.balances@.len() as int
                    };
                    &&& r@.len() == (if from_index as int <= upto {
                        upto - from_index
                    } else {
                        0int
                    })
                    &&& forall|j: int|
                        0 <= j < r@.len() ==> #[trigger] r@[j] == acc.balances@[from_index + j]
                },
                None => r@.len() == 0,
            },
    {
        let account = match self.accounts.get(account_id) {
            Some(a) => a,
            None => {
                return Vec::new();
            },
        };
        proof {
            crate::idmap::lemma_seq_get_present(self.accounts@, account_id);
        }
        let n = account.balances.len();
        let upto = if from_index <= n && limit <= n - from_index {
            from_index + limit
        } else {
            n
        };
        let mut r: Vec<(TokenAccountId, Balance)> = Vec::new();
        let mut i: usize = from_index;
        while i < upto
            invariant
                account.balances.wf(),
                upto <= account.balances@.len(),
                from_index <= i <= upto || (from_index >= upto && i == from_index),
                r@.len() == (if from_index as int <= i as int {
                    i - from_index
                } else {
                    0int
                }),
                forall|j: int|
                    0 <= j < r@.len() ==> #[trigger] r@[j] == account.balances@[from_index + j],
            decreases (if i <= upto {
                upto - i
            } else {
                0int
            }),
        {
            let entry = account.balances.at(i);
            r.push((entry.0, entry.1));
            i = i + 1;
        }
        r
    }

    pub fn get_num_balances(&self, account_id: AccountId) -> (r: usize)
        requires
            self.wf(),
        ensures
            r == match self.spec_account(account_id) {
                Some(acc) => acc.balances@.len() as int,
                None => 0int,
            },
    {
        match self.accounts.get(account_id) {
            Some(a) => a.balances.len(),
            None => 0,
        }
    }

    /// The treasury's balances in insertion order, from `from_index`, at
    /// most `limit` of them.
    pub fn get_treasury_balances(&self, from_index: usize, limit: usize) -> (r: Vec<
        (TokenAccountId, Balance),
    >)
        requires
            self.wf(),
        ensures
            ({
                let upto = if from_index + limit <= self.treasury.balances@.len() {
                    from_index + limit
                } else {
                    self.treasury.balances@.len() as int
                };
                &&& r@.len() == (if from_index as int <= upto {
                    upto - from_index
                } else {
                    0int
                })
                &&& forall|j: int|
                    0 <= j < r@.len() ==> #[trigger] r@[j] == self.treasury.balances@[from_index
                        + j]
            }),
    {
        let n = self.treasury.balances.len();
        let upto = if from_index <= n && limit <= n - from_index {
            from_index + limit
        } else {
            n
        };
        let mut r: Vec<(TokenAccountId, Balance)> = Vec::new();
        let mut i: usize = from_index;
        while i < upto
            invariant
                self.treasury.balances.wf(),
                upto <= self.treasury.balances@.len(),
                from_index <= i <= upto || (from_index >= upto && i == from_index),
                r@.len() == (if from_index as int <= i as int {
                    i - from_index
                } else {
                    0int
                }),
                forall|j: int|
                    0 <= j < r@.len() ==> #[trigger] r@[j] == self.treasury.balances@[from_index
                        + j],
            decreases (if i <= upto {
                upto - i
            } else {
                0int
            }),
        {
            let entry = self.treasury.balances.at(i);
            r.push((entry.0, entry.1));
            i = i + 1;
        }
        r
    }
}


impl Contract {
    /// The view of a sale as last persisted, with the viewer's
    /// subscription attached when an account is given.
    /// Whether the stored view of a sale can be produced for a viewer:
    /// the viewer's subscription, if any, must be in an accruable state.
    pub open spec fn spec_sale_viewable(self, account_id: Option<AccountId>, sale_id: u64) -> bool {
        match (account_id, self.spec_sale(sale_id)) {
            (Some(aid), Some(sale)) => match self.spec_account(aid) {
                Some(acc) => match acc.subs.spec_get(sale_id) {
                    Some(sub) => {
                        &&& sub.valid_for(sale)
                        &&& forall|i: int|
                            0 <= i < sale.out_tokens@.len() ==> sub.accrual_fits(sale, i)
                        &&& sub.last_in_balance >= sale.spec_shares_to_in_balance(sub.shares)
                        &&& sub.spent_in_balance_without_shares + sub.last_in_balance < p128()
                    },
                    None => true,
                },
                None => true,
            },
            _ => true,
        }
    }

    /// How a produced view reflects the stored sale.
    pub open spec fn spec_output_matches(self, out: crate::sale::SaleOutput) -> bool {
        match self.spec_sale(out.sale_id) {
            Some(sale) => {
                &&& out.owner_id == sale.owner_id
                &&& out.total_shares == sale.total_shares
                &&& out.in_token_remaining == sale.in_token_remaining
                &&& out.in_token_paid == sale.in_token_paid
            },
            None => false,
        }
    }

    pub fn get_sale(&self, sale_id: u64, account_id: Option<AccountId>) -> (r: Option<
        crate::sale::SaleOutput,
    >)
        requires
            self.wf(),
            self.spec_sale_viewable(account_id, sale_id),
        ensures
            r is Some <==> self.spec_sale(sale_id) is Some,
            match r {
                Some(out) => {
                    let sale = self.spec_sale(sale_id)->0;
                    &&& out.sale_id == sale_id
                    &&& out.owner_id == sale.owner_id
                    &&& out.total_shares == sale.total_shares
                    &&& out.in_token_remaining == sale.in_token_remaining
                    &&& out.in_token_paid == sale.in_token_paid
                    &&& (account_id is None ==> out.subscription is None)
                },
                None => true,
            },
    {
        let sale = match self.sales.get(sale_id) {
            Some(s) => s,
            None => {
                return None;
            },
        };
        proof {
            crate::idmap::lemma_seq_get_present(self.sales@, sale_id);
        }
        let subscription = match account_id {
            Some(aid) => match self.accounts.get(aid) {
                Some(account) => {
                    proof {
                        crate::idmap::lemma_seq_get_present(self.accounts@, aid);
                    }
                    account.internal_subscription_output(sale_id, sale)
                },
                None => None,
            },
            None => None,
        };
        Some(sale.into_output(sale_id, subscription))
    }
}


impl Contract {
    /// The views of the sales with ids in `[from_index, from_index + limit)`,
    /// in id order, skipping ids with no sale.
    #[verifier::loop_isolation(false)]
    pub fn get_sales(&self, account_id: Option<AccountId>, from_index: u64, limit: u64) -> (r: Vec<
        crate::sale::SaleOutput,
    >)
        requires
            self.wf(),
            forall|sid: u64| #[trigger] self.spec_sale_viewable(account_id, sid),
        ensures
            ({
                let upto = if from_index + limit <= self.num_sales {
                    from_index + limit
                } else {
                    self.num_sales as int
                };
                &&& forall|j: int|
                    0 <= j < r@.len() ==> from_index <= (#[trigger] r@[j]).sale_id < upto
                        && self.spec_output_matches(r@[j])
                &&& forall|j1: int, j2: int|
                    0 <= j1 < j2 < r@.len() ==> (#[trigger] r@[j1]).sale_id
                        < (#[trigger] r@[j2]).sale_id
                &&& forall|sid: u64|
                    from_index <= sid < upto && self.spec_sale(sid) is Some ==> exists|j: int|
                        0 <= j < r@.len() && (#[trigger] r@[j]).sale_id == sid
            }),
    {
        let n = self.num_sales;
        let upto = if from_index <= n && limit <= n - from_index {
            from_index + limit
        } else {
            n
        };
        let mut r: Vec<crate::sale::SaleOutput> = Vec::new();
        let mut sid: u64 = from_index;
        while sid < upto
            invariant
                from_index <= sid <= upto || (from_index >= upto && sid == from_index),
                forall|j: int|
                    0 <= j < r@.len() ==> from_index <= (#[trigger] r@[j]).sale_id < sid
                        && self.spec_output_matches(r@[j]),
                forall|j1: int, j2: int|
                    0 <= j1 < j2 < r@.len() ==> (#[trigger] r@[j1]).sale_id
                        < (#[trigger] r@[j2]).sale_id,
                forall|s2: u64|
                    from_index <= s2 < sid && self.spec_sale(s2) is Some ==> exists|j: int|
                        0 <= j < r@.len() && (#[trigger] r@[j]).sale_id == s2,
            decreases upto - sid,
        {
            let ghost old_r = r@;
            match self.get_sale(sid, account_id) {
                Some(out) => {
                    r.push(out);
                },
                None => {},
            }
            proof {
                assert forall|s2: u64|
                    from_index <= s2 < sid + 1 && self.spec_sale(s2) is Some implies exists|j: int|
                    0 <= j < r@.len() && (#[trigger] r@[j]).sale_id == s2 by {
                    if s2 == sid {
                        assert(r@[r@.len() - 1].sale_id == sid);
                    } else {
                        let j = choose|j: int|
                            0 <= j < old_r.len() && (#[trigger] old_r[j]).sale_id == s2;
                        assert(r@[j].sale_id == s2);
                    }
                }
            }
            sid = sid + 1;
        }
        r
    }

    /// The views of the sales this account is subscribed to, by
    /// subscription position in insertion order.
    #[verifier::loop_isolation(false)]
    pub fn get_subscribed_sales(&self, account_id: AccountId, from_index: usize, limit: usize)
        -> (r: Vec<crate::sale::SaleOutput>)
        requires
            self.wf(),
            forall|sid: u64| #[trigger] self.spec_sale_viewable(Some(account_id), sid),
        ensures
            match self.spec_account(account_id) {
                Some(acc) => {
                    let upto = if from_index + limit <= acc.subs@.len() {
                        from_index + limit
                    } else {
                        acc.subs@.len() as int
                    };
                    &&& forall|j: int|
                        0 <= j < r@.len() ==> self.spec_output_matches(#[trigger] r@[j])
                            && exists|p: int|
                            from_index <= p < upto && (#[trigger] acc.subs@[p]).0
                                == r@[j].sale_id
                    &&& forall|p: int|
                        from_index <= p < upto && self.spec_sale((#[trigger] acc.subs@[p]).0)
                            is Some ==> exists|j: int|
                            0 <= j < r@.len() && (#[trigger] r@[j]).sale_id == acc.subs@[p].0
                },
                None => r@.len() == 0,
            },
    {
        let account = match self.accounts.get(account_id) {
            Some(a) => a,
            None => {
                return Vec::new();
            },
        };
        proof {
            crate::idmap::lemma_seq_get_present(self.accounts@, account_id);
        }
        let n = account.subs.len();
        let upto = if from_index <= n && limit <= n - from_index {
            from_index + limit
        } else {
            n
        };
        let mut r: Vec<crate::sale::SaleOutput> = Vec::new();
        let mut p: usize = from_index;
        while p < upto
            invariant
                upto <= account.subs@.len(),
                from_index <= p <= upto || (from_index >= upto && p == from_index),
                forall|j: int|
                    0 <= j < r@.len() ==> self.spec_output_matches(#[trigger] r@[j])
                        && exists|q: int|
                        from_index <= q < upto && (#[trigger] account.subs@[q]).0
                            == r@[j].sale_id,
                forall|q: int|
                    from_index <= q < p as int && self.spec_sale((#[trigger] account.subs@[q]).0)
                        is Some ==> exists|j: int|
                        0 <= j < r@.len() && (#[trigger] r@[j]).sale_id == account.subs@[q].0,
            decreases upto - p,
        {
            let sid = account.subs.at(p).0;
            let ghost old_r = r@;
            match self.get_sale(sid, Some(account_id)) {
                Some(out) => {
                    r.push(out);
                },
                None => {},
            }
            proof {
                assert forall|q: int|
                    from_index <= q < p as int + 1 && self.spec_sale(
                        (#[trigger] account.subs@[q]).0,
                    ) is Some implies exists|j: int|
                    0 <= j < r@.len() && (#[trigger] r@[j]).sale_id == account.subs@[q].0 by {
                    if q == p as int {
                        assert(r@[r@.len() - 1].sale_id == sid);
                    } else {
                        let j = choose|j: int|
                            0 <= j < old_r.len() && (#[trigger] old_r[j]).sale_id
                                == account.subs@[q].0;
                        assert(r@[j].sale_id == account.subs@[q].0);
                    }
                }
            }
            p = p + 1;
        }
        r
    }

    /// The views of the sales this account created, by position in
    /// creation order.
    #[verifier::loop_isolation(false)]
    pub fn get_account_sales(&self, account_id: AccountId, from_index: usize, limit: usize) -> (r:
        Vec<crate::sale::SaleOutput>)
        requires
            self.wf(),
            forall|sid: u64| #[trigger] self.spec_sale_viewable(Some(account_id), sid),
        ensures
            match self.spec_account(account_id) {
                Some(acc) => {
                    let upto = if from_index + limit <= acc.sales@.len() {
                        from_index + limit
                    } else {
                        acc.sales@.len() as int
                    };
                    &&& forall|j: int|
                        0 <= j < r@.len() ==> self.spec_output_matches(#[trigger] r@[j])
                            && exists|p: int|
                            from_index <= p < upto && #[trigger] acc.sales@[p] == r@[j].sale_id
                    &&& forall|p: int|
                        from_index <= p < upto && self.spec_sale(#[trigger] acc.sales@[p])
                            is Some ==> exists|j: int|
                            0 <= j < r@.len() && (#[trigger] r@[j]).sale_id == acc.sales@[p]
                },
                None => r@.len() == 0,
            },
    {
        let account = match self.accounts.get(account_id) {
            Some(a) => a,
            None => {
                return Vec::new();
            },
        };
        proof {
            crate::idmap::lemma_seq_get_present(self.accounts@, account_id);
        }
        let n = account.sales.len();
        let upto = if from_index <= n && limit <= n - from_index {
            from_index + limit
        } else {
            n
        };
        let mut r: Vec<crate::sale::SaleOutput> = Vec::new();
        let mut p: usize = from_index;
        while p < upto
            invariant
                upto <= account.sales@.len(),
                from_index <= p <= upto || (from_index >= upto && p == from_index),
                forall|j: int|
                    0 <= j < r@.len() ==> self.spec_output_matches(#[trigger] r@[j])
                        && exists|q: int|
                        from_index <= q < upto && #[trigger] account.sales@[q] == r@[j].sale_id,
                forall|q: int|
                    from_index <= q < p as int && self.spec_sale(#[trigger] account.sales@[q])
                        is Some ==> exists|j: int|
                        0 <= j < r@.len() && (#[trigger] r@[j]).sale_id == account.sales@[q],
            decreases upto - p,
        {
            let sid = account.sales[p];
            let ghost old_r = r@;
            match self.get_sale(sid, Some(account_id)) {
                Some(out) => {
                    r.push(out);
                },
                None => {},
            }
            proof {
                assert forall|q: int|
                    from_index <= q < p as int + 1 && self.spec_sale(
                        #[trigger] account.sales@[q],
                    ) is Some implies exists|j: int|
                    0 <= j < r@.len() && (#[trigger] r@[j]).sale_id == account.sales@[q] by {
                    if q == p as int {
                        assert(r@[r@.len() - 1].sale_id == sid);
                    } else {
                        let j = choose|j: int|
                            0 <= j < old_r.len() && (#[trigger] old_r[j]).sale_id
                                == account.sales@[q];
                        assert(r@[j].sale_id == account.sales@[q]);
                    }
                }
            }
            p = p + 1;
        }
        r
    }
}

} // verus!
