//! The sale state machine: time-weighted distribution of out-tokens
//! against a shared in-token pool, with share accounting.

use vstd::prelude::*;
use vstd::arithmetic::div_mod::{lemma_div_pos_is_pos, lemma_div_is_ordered};
use vstd::arithmetic::mul::{
    lemma_mul_inequality, lemma_mul_is_commutative, lemma_mul_is_distributive_add_other_way,
    lemma_mul_nonnegative,
};
use crate::u256::{U256, p128, p256, mul_div, mul_div_up};
use crate::arith::{lemma_muldiv_le, lemma_muldiv_exact, lemma_div_le_numerator};
use crate::errors::SaleValidationError;
use crate::{
    AccountId, Balance, Timestamp, TokenAccountId, IN_SKYWARD_DENOMINATOR, MAX_DURATION,
    MAX_DURATION_BEFORE_START, MAX_NUM_OUT_TOKENS, MAX_TITLE_LENGTH, MAX_URL_LENGTH,
    MIN_DURATION, MIN_DURATION_BEFORE_START, MULTIPLIER, TREASURY_FEE_DENOMINATOR,
};

verus! {

/// One token being distributed by a sale.
#[derive(Clone, Copy, Debug)]
pub struct SaleOutToken {
    pub token_account_id: TokenAccountId,
    /// Undistributed supply.
    pub remaining: Balance,
    /// Supply already credited to the pool, the treasury fee included.
    pub distributed: Balance,
    /// Accrued protocol fee; present exactly when the token is not the
    /// native token.
    pub treasury_unclaimed: Option<Balance>,
    /// Accumulated distribution per share, scaled by `MULTIPLIER`.
    pub per_share: U256,
}

impl SaleOutToken {
    pub open spec fn wf(self) -> bool {
        &&& self.remaining + self.distributed < p128()
        &&& self.per_share.v() <= self.distributed * (MULTIPLIER as int)
        &&& match self.treasury_unclaimed {
            Some(t) => t <= self.distributed,
            None => true,
        }
    }

    /// The accrued fee, zero when the token has no fee bucket.
    pub open spec fn fee_bucket(self) -> int {
        match self.treasury_unclaimed {
            Some(t) => t as int,
            None => 0,
        }
    }
}

/// A sale.  `last_timestamp` only moves forward, within
/// `[start_time, start_time + duration]`.
#[derive(Clone, Debug)]
pub struct Sale {
    pub owner_id: AccountId,
    pub title: String,
    pub url: Option<String>,
    pub out_tokens: Vec<SaleOutToken>,
    pub in_token_account_id: TokenAccountId,
    /// In-tokens deposited and not yet attributed to elapsed time.
    pub in_token_remaining: Balance,
    /// Attributed in-tokens not yet moved to the owner or treasury.
    pub in_token_paid_unclaimed: Balance,
    /// Total attributed in-tokens over the sale's life.
    pub in_token_paid: Balance,
    pub start_time: Timestamp,
    pub duration: Timestamp,
    pub total_shares: Balance,
    pub last_timestamp: Timestamp,
    /// External approval oracle consulted on first deposits.
    pub permissions_contract_id: Option<AccountId>,
    /// Companion sale denominated in the native token.
    pub associated_sale_id: Option<u64>,
}

impl Sale {
    pub open spec fn spec_end_time(self) -> int {
        self.start_time + self.duration
    }

    pub open spec fn wf(self) -> bool {
        &&& 1 <= self.duration
        &&& self.start_time + self.duration <= u64::MAX
        &&& self.start_time <= self.last_timestamp <= self.spec_end_time()
        &&& self.in_token_remaining + self.in_token_paid < p128()
        &&& self.in_token_paid_unclaimed <= self.in_token_paid
        &&& forall|i: int|
            0 <= i < self.out_tokens@.len() ==> (#[trigger] self.out_tokens@[i]).wf()
    }

    pub open spec fn spec_has_ended(self) -> bool {
        self.last_timestamp >= self.spec_end_time()
    }

    pub fn has_ended(&self) -> (r: bool)
        requires
            self.wf(),
        ensures
            r == self.spec_has_ended(),
    {
        self.last_timestamp >= self.start_time + self.duration
    }
}

/// How one out-token advances over a time slice `dt` of the remaining
/// duration `rem`, with `ts > 0` shares outstanding: `remaining * dt / rem`
/// moves from `remaining` to `distributed`; of it, one percent accrues to
/// the fee bucket when there is one, and the rest raises the per-share
/// accumulator.
pub open spec fn out_token_touched(
    o: SaleOutToken,
    n: SaleOutToken,
    dt: int,
    rem: int,
    ts: int,
) -> bool {
    let amount = o.remaining * dt / rem;
    let fee = if o.treasury_unclaimed is Some {
        amount / (TREASURY_FEE_DENOMINATOR as int)
    } else {
        0
    };
    &&& n.token_account_id == o.token_account_id
    &&& n.remaining == o.remaining - amount
    &&& n.distributed == o.distributed + amount
    &&& n.treasury_unclaimed == match o.treasury_unclaimed {
        Some(t) => Some((t + fee) as u128),
        None => None::<u128>,
    }
    &&& n.per_share.v() == o.per_share.v() + if amount > 0 {
        (amount - fee) * (MULTIPLIER as int) / ts
    } else {
        0
    }
}

/// The fields of a sale that `touch` never changes.
pub open spec fn sale_meta_unchanged(pre: Sale, post: Sale) -> bool {
    &&& post.owner_id == pre.owner_id
    &&& post.title == pre.title
    &&& post.url == pre.url
    &&& post.in_token_account_id == pre.in_token_account_id
    &&& post.start_time == pre.start_time
    &&& post.duration == pre.duration
    &&& post.total_shares == pre.total_shares
    &&& post.permissions_contract_id == pre.permissions_contract_id
    &&& post.associated_sale_id == pre.associated_sale_id
}

/// Full specification of `Sale::touch`: how `post` arises from `pre` when
/// the sale is advanced to `now`.
pub open spec fn sale_touched(pre: Sale, post: Sale, now: Timestamp) -> bool {
    let end = pre.spec_end_time();
    let t = if now <= end { now as int } else { end };
    if t <= pre.last_timestamp {
        post == pre
    } else if pre.total_shares == 0 {
        &&& sale_meta_unchanged(pre, post)
        &&& post.out_tokens@ == pre.out_tokens@
        &&& post.in_token_remaining == pre.in_token_remaining
        &&& post.in_token_paid_unclaimed == pre.in_token_paid_unclaimed
        &&& post.in_token_paid == pre.in_token_paid
        &&& post.last_timestamp == t
    } else {
        let dt = t - pre.last_timestamp;
        let rem = end - pre.last_timestamp;
        let inc = pre.in_token_remaining * dt / rem;
        &&& sale_meta_unchanged(pre, post)
        &&& post.last_timestamp == t
        &&& post.out_tokens@.len() == pre.out_tokens@.len()
        &&& forall|i: int|
            0 <= i < pre.out_tokens@.len() ==> out_token_touched(
                pre.out_tokens@[i],
                #[trigger] post.out_tokens@[i],
                dt,
                rem,
                pre.total_shares as int,
            )
        &&& post.in_token_remaining == pre.in_token_remaining - inc
        &&& post.in_token_paid == pre.in_token_paid + inc
        &&& post.in_token_paid_unclaimed == pre.in_token_paid_unclaimed + inc
    }
}

impl Sale {
    /// Advances the sale to `now`, attributing the elapsed share of every
    /// remaining balance.
    pub fn touch(&mut self, now: Timestamp)
        requires
            old(self).wf(),
        ensures
            final(self).wf(),
            sale_touched(*old(self), *final(self), now),
    {
        let end_time = self.start_time + self.duration;
        let timestamp = if end_time < now {
            end_time
        } else {
            now
        };
        if timestamp <= self.last_timestamp {
            // The sale has not started, has already been advanced to
            // `now`, or is closed.
            return ;
        }
        if self.total_shares == 0 {
            // Nobody to allocate to; just advance the clock.
            self.last_timestamp = timestamp;
            return ;
        }
        let dt = timestamp - self.last_timestamp;
        let rem = end_time - self.last_timestamp;
        let ghost pre = *self;
        let ghost dts = dt as int;
        let ghost rems = rem as int;
        let mut new_tokens: Vec<SaleOutToken> = Vec::new();
        let mut i: usize = 0;
        while i < self.out_tokens.len()
            invariant
                pre.wf(),
                *self == pre,
                dt as int == dts,
                rem as int == rems,
                1 <= dts <= rems,
                rems == pre.spec_end_time() - pre.last_timestamp,
                pre.total_shares > 0,
                i <= pre.out_tokens@.len(),
                new_tokens@.len() == i as int,
                forall|j: int|
                    0 <= j < i as int ==> out_token_touched(
                        pre.out_tokens@[j],
                        #[trigger] new_tokens@[j],
                        dts,
                        rems,
                        pre.total_shares as int,
                    ),
                forall|j: int|
                    0 <= j < i as int ==> (#[trigger] new_tokens@[j]).wf(),
            decreases pre.out_tokens@.len() - i,
        {
            let o = self.out_tokens[i];
            proof {
                assert(o.wf());
                lemma_muldiv_le(o.remaining as int, dts, rems);
            }
            let amount = mul_div(o.remaining, dt as u128, rem as u128);
            let mut n = o;
            if amount > 0 {
                n.distributed = o.distributed + amount;
                n.remaining = o.remaining - amount;
                let mut credited = amount;
                if let Some(tu) = o.treasury_unclaimed {
                    let fee = amount / (TREASURY_FEE_DENOMINATOR as u128);
                    n.treasury_unclaimed = Some(tu + fee);
                    credited = amount - fee;
                }
                proof {
                    assert((MULTIPLIER as int) * p128() < p256()) by (nonlinear_arith);
                    lemma_mul_inequality(
                        credited as int,
                        p128() - 1,
                        MULTIPLIER as int,
                    );
                    lemma_mul_nonnegative(credited as int, MULTIPLIER as int);
                }
                let prod = U256::mul128(credited, MULTIPLIER);
                let (q, _r) = prod.div_rem(self.total_shares);
                proof {
                    // The increment is at most `credited * MULTIPLIER`, so
                    // the accumulator stays below `distributed * MULTIPLIER`.
                    lemma_div_le_numerator(0, prod.v(), self.total_shares as int);
                    lemma_mul_inequality(1, self.total_shares as int, q.v());
                    lemma_mul_is_commutative(q.v(), self.total_shares as int);
                    assert(q.v() <= credited * (MULTIPLIER as int));
                    assert((o.distributed + amount) * (MULTIPLIER as int)
                        == o.distributed * (MULTIPLIER as int) + amount * (MULTIPLIER as int)) by {
                        lemma_mul_is_distributive_add_other_way(
                            MULTIPLIER as int, o.distributed as int, amount as int);
                    }
                    lemma_mul_inequality(credited as int, amount as int, MULTIPLIER as int);
                    lemma_mul_nonnegative(o.distributed as int, MULTIPLIER as int);
                    assert((o.distributed + amount) * (MULTIPLIER as int) < p128() * (MULTIPLIER as int)) by (nonlinear_arith)
                        requires
                            o.distributed + amount < p128(),
                    {
                    }
                    assert(p128() * (MULTIPLIER as int) < p256()) by (nonlinear_arith);
                }
                n.per_share = o.per_share.plus(q);
            }
            new_tokens.push(n);
            i = i + 1;
        }
        proof {
            lemma_muldiv_le(self.in_token_remaining as int, dts, rems);
        }
        let in_amount = mul_div(self.in_token_remaining, dt as u128, rem as u128);
        self.in_token_paid_unclaimed = self.in_token_paid_unclaimed + in_amount;
        self.in_token_paid = self.in_token_paid + in_amount;
        self.in_token_remaining = self.in_token_remaining - in_amount;
        self.last_timestamp = timestamp;
        self.out_tokens = new_tokens;
    }

    /// The in-balance still backed by `shares` of this sale.
    pub open spec fn spec_shares_to_in_balance(self, shares: Balance) -> int {
        if shares == 0 {
            0
        } else {
            self.in_token_remaining * shares / (self.total_shares as int)
        }
    }

    pub fn shares_to_in_balance(&self, shares: Balance) -> (r: Balance)
        requires
            self.wf(),
            shares <= self.total_shares,
        ensures
            r == self.spec_shares_to_in_balance(shares),
            r <= self.in_token_remaining,
    {
        if shares == 0 {
            return 0;
        }
        proof {
            lemma_muldiv_le(
                self.in_token_remaining as int,
                shares as int,
                self.total_shares as int,
            );
        }
        mul_div(self.in_token_remaining, shares, self.total_shares)
    }

    /// How many shares an in-token amount buys (or, rounded up, how many
    /// shares an exact in-token withdrawal burns).
    pub open spec fn spec_in_amount_to_shares(self, in_amount: Balance, round_up: bool) -> int {
        if self.total_shares == 0 {
            in_amount as int
        } else if round_up {
            (in_amount * self.total_shares + self.in_token_remaining - 1)
                / (self.in_token_remaining as int)
        } else {
            in_amount * self.total_shares / (self.in_token_remaining as int)
        }
    }

    pub fn in_amount_to_shares(&self, in_amount: Balance, round_up: bool) -> (r: Balance)
        requires
            self.wf(),
            self.total_shares > 0 ==> self.in_token_remaining > 0 && !self.spec_has_ended(),
            self.total_shares > 0 && round_up ==> in_amount <= self.in_token_remaining,
            self.total_shares > 0 && !round_up ==> self.spec_in_amount_to_shares(in_amount, false)
                + self.total_shares < p128() - 1,
        ensures
            r == self.spec_in_amount_to_shares(in_amount, round_up),
    {
        if self.total_shares == 0 {
            return in_amount;
        }
        if round_up {
            proof {
                // `in_amount <= in_token_remaining` bounds the rounded-up
                // quotient by `total_shares`.
                let t = self.total_shares as int;
                let rr = self.in_token_remaining as int;
                lemma_mul_inequality(in_amount as int, rr, t);
                lemma_mul_is_commutative(in_amount as int, t);
                lemma_mul_is_commutative(rr, t);
                lemma_div_is_ordered(
                    in_amount * t + rr - 1,
                    rr * t + rr - 1,
                    rr,
                );
                lemma_muldiv_exact(t, rr);
                lemma_mul_is_commutative(t, rr);
            }
            mul_div_up(in_amount, self.total_shares, self.in_token_remaining)
        } else {
            mul_div(in_amount, self.total_shares, self.in_token_remaining)
        }
    }
}

/// Conservation under `touch`: for every out-token,
/// `remaining + distributed` is unchanged, and
/// `in_token_remaining + in_token_paid` is unchanged.
pub proof fn lemma_touch_conserves(pre: Sale, post: Sale, now: Timestamp)
    requires
        pre.wf(),
        sale_touched(pre, post, now),
    ensures
        post.out_tokens@.len() == pre.out_tokens@.len(),
        forall|i: int|
            0 <= i < pre.out_tokens@.len()
                ==> (#[trigger] post.out_tokens@[i]).remaining + post.out_tokens@[i].distributed
                == pre.out_tokens@[i].remaining + pre.out_tokens@[i].distributed,
        post.in_token_remaining + post.in_token_paid == pre.in_token_remaining
            + pre.in_token_paid,
{
}

/// A sale as submitted for creation.
#[derive(Clone, Debug)]
pub struct SaleInput {
    pub title: String,
    pub url: Option<String>,
    pub out_tokens: Vec<SaleInputOutToken>,
    pub in_token_account_id: TokenAccountId,
    pub start_time: Timestamp,
    pub duration: Timestamp,
}

#[derive(Clone, Copy, Debug, PartialEq, Eq, Structural)]
pub struct SaleInputOutToken {
    pub token_account_id: TokenAccountId,
    pub balance: Balance,
}

/// A versioned sale record, so the stored layout can evolve.
pub enum VSale {
    Current(Sale),
}

impl From<Sale> for VSale {
    fn from(sale: Sale) -> (r: VSale) {
        VSale::Current(sale)
    }
}

impl vstd::std_specs::convert::FromSpecImpl<Sale> for VSale {
    open spec fn obeys_from_spec() -> bool {
        true
    }

    open spec fn from_spec(sale: Sale) -> VSale {
        VSale::Current(sale)
    }
}

impl From<VSale> for Sale {
    fn from(v_sale: VSale) -> (r: Sale) {
        match v_sale {
            VSale::Current(sale) => sale,
        }
    }
}

impl vstd::std_specs::convert::FromSpecImpl<VSale> for Sale {
    open spec fn obeys_from_spec() -> bool {
        true
    }

    open spec fn from_spec(v_sale: VSale) -> Sale {
        match v_sale {
            VSale::Current(sale) => sale,
        }
    }
}

impl SaleOutToken {
    /// A freshly listed out-token: nothing distributed yet, and a fee
    /// bucket exactly when the token is not the native token.
    pub fn from_input(token: SaleInputOutToken, skyward_token_id: TokenAccountId) -> (r:
        SaleOutToken)
        ensures
            r.token_account_id == token.token_account_id,
            r.remaining == token.balance,
            r.distributed == 0,
            r.treasury_unclaimed == if token.token_account_id == skyward_token_id {
                None::<Balance>
            } else {
                Some(0u128)
            },
            r.per_share.v() == 0,
            r.wf(),
    {
        let is_skyward_token = token.token_account_id == skyward_token_id;
        SaleOutToken {
            token_account_id: token.token_account_id,
            remaining: token.balance,
            distributed: 0,
            treasury_unclaimed: if is_skyward_token {
                None
            } else {
                Some(0)
            },
            per_share: U256::zero(),
        }
    }
}

impl Sale {
    /// Builds the stored sale from its input: nothing deposited, clock at
    /// `start_time`.
    pub fn from_input(sale: SaleInput, owner_id: AccountId, skyward_token_id: TokenAccountId) -> (r:
        Sale)
        requires
            1 <= sale.duration,
            sale.start_time + sale.duration <= u64::MAX,
        ensures
            r.wf(),
            r.owner_id == owner_id,
            r.title == sale.title,
            r.url == sale.url,
            r.in_token_account_id == sale.in_token_account_id,
            r.in_token_remaining == 0,
            r.in_token_paid_unclaimed == 0,
            r.in_token_paid == 0,
            r.total_shares == 0,
            r.start_time == sale.start_time,
            r.duration == sale.duration,
            r.last_timestamp == sale.start_time,
            r.permissions_contract_id is None,
            r.associated_sale_id is None,
            r.out_tokens@.len() == sale.out_tokens@.len(),
            forall|i: int|
                0 <= i < sale.out_tokens@.len() ==> {
                    let o = #[trigger] r.out_tokens@[i];
                    let inp = sale.out_tokens@[i];
                    &&& o.token_account_id == inp.token_account_id
                    &&& o.remaining == inp.balance
                    &&& o.distributed == 0
                    &&& o.per_share.v() == 0
                    &&& o.treasury_unclaimed == if inp.token_account_id == skyward_token_id {
                        None::<Balance>
                    } else {
                        Some(0u128)
                    }
                },
    {
        let mut out_tokens: Vec<SaleOutToken> = Vec::new();
        let mut i: usize = 0;
        while i < sale.out_tokens.len()
            invariant
                i <= sale.out_tokens@.len(),
                out_tokens@.len() == i as int,
                forall|j: int|
                    0 <= j < i as int ==> {
                        let o = #[trigger] out_tokens@[j];
                        let inp = sale.out_tokens@[j];
                        &&& o.token_account_id == inp.token_account_id
                        &&& o.remaining == inp.balance
                        &&& o.distributed == 0
                        &&& o.per_share.v() == 0
                        &&& o.wf()
                        &&& o.treasury_unclaimed == if inp.token_account_id == skyward_token_id {
                            None::<Balance>
                        } else {
                            Some(0u128)
                        }
                    },
            decreases sale.out_tokens@.len() - i,
        {
            out_tokens.push(SaleOutToken::from_input(sale.out_tokens[i], skyward_token_id));
            i = i + 1;
        }
        Sale {
            owner_id,
            title: sale.title,
            url: sale.url,
            out_tokens,
            in_token_account_id: sale.in_token_account_id,
            in_token_remaining: 0,
            in_token_paid_unclaimed: 0,
            in_token_paid: 0,
            total_shares: 0,
            start_time: sale.start_time,
            duration: sale.duration,
            last_timestamp: sale.start_time,
            permissions_contract_id: None,
            associated_sale_id: None,
        }
    }

    /// Every out-token lists a positive amount and differs from the
    /// in-token.
    pub open spec fn spec_out_amounts_positive(self) -> bool {
        forall|i: int|
            0 <= i < self.out_tokens@.len() ==> (#[trigger] self.out_tokens@[i]).remaining > 0
    }

    pub open spec fn spec_out_tokens_distinct_from_in(self) -> bool {
        forall|i: int|
            0 <= i < self.out_tokens@.len() ==> (#[trigger] self.out_tokens@[i]).token_account_id
                != self.in_token_account_id
    }

    pub open spec fn spec_out_tokens_unique(self) -> bool {
        forall|i: int, j: int|
            0 <= i < j < self.out_tokens@.len()
                ==> (#[trigger] self.out_tokens@[i]).token_account_id
                != (#[trigger] self.out_tokens@[j]).token_account_id
    }

    /// The full admission rule for a new sale, with the first violated
    /// condition naming the error.
    pub open spec fn spec_validate_not_started(self, now: Timestamp) -> Result<
        (),
        SaleValidationError,
    > {
        if !(self.start_time >= now + MIN_DURATION_BEFORE_START) {
            Err(SaleValidationError::StartsTooSoon)
        } else if !(self.start_time < now + MAX_DURATION_BEFORE_START) {
            Err(SaleValidationError::StartsTooLate)
        } else if !(self.duration <= MAX_DURATION) {
            Err(SaleValidationError::TooLongDuration)
        } else if !(self.duration >= MIN_DURATION) {
            Err(SaleValidationError::TooShortDuration)
        } else if !(self.out_tokens@.len() <= MAX_NUM_OUT_TOKENS) {
            Err(SaleValidationError::TooManyOutTokens)
        } else if !(self.out_tokens@.len() >= 1) {
            Err(SaleValidationError::TooFewOutTokens)
        } else if !(self.title@.len() <= MAX_TITLE_LENGTH) {
            Err(SaleValidationError::TooLongTitle)
        } else if !(match self.url {
            Some(u) => u@.len() <= MAX_URL_LENGTH,
            None => true,
        }) {
            Err(SaleValidationError::TooLongUrl)
        } else if !self.spec_out_amounts_positive() {
            Err(SaleValidationError::ZeroOutAmount)
        } else if !self.spec_out_tokens_distinct_from_in() {
            Err(SaleValidationError::SameTokens)
        } else if !self.spec_out_tokens_unique() {
            Err(SaleValidationError::NonUniqueOutTokens)
        } else {
            Ok(())
        }
    }

    /// Checks that a sale may be created at `now`: it must start inside
    /// the allowed window, keep its duration and texts within bounds, and
    /// list positive, pairwise distinct out-tokens none of which is the
    /// in-token.
    #[verifier::loop_isolation(false)]
    pub fn validate_not_started(&self, now: Timestamp) -> (r: Result<(), SaleValidationError>)
        ensures
            r == self.spec_validate_not_started(now),
    {
        if (self.start_time as u128) < (now as u128) + (MIN_DURATION_BEFORE_START as u128) {
            return Err(SaleValidationError::StartsTooSoon);
        }
        if (self.start_time as u128) >= (now as u128) + (MAX_DURATION_BEFORE_START as u128) {
            return Err(SaleValidationError::StartsTooLate);
        }
        if self.duration > MAX_DURATION {
            return Err(SaleValidationError::TooLongDuration);
        }
        if self.duration < MIN_DURATION {
            return Err(SaleValidationError::TooShortDuration);
        }
        if self.out_tokens.len() > MAX_NUM_OUT_TOKENS {
            return Err(SaleValidationError::TooManyOutTokens);
        }
        if self.out_tokens.len() < 1 {
            return Err(SaleValidationError::TooFewOutTokens);
        }
        if self.title.as_str().unicode_len() > MAX_TITLE_LENGTH {
            return Err(SaleValidationError::TooLongTitle);
        }
        if let Some(url) = &self.url {
            if url.as_str().unicode_len() > MAX_URL_LENGTH {
                return Err(SaleValidationError::TooLongUrl);
            }
        }
        let mut i: usize = 0;
        while i < self.out_tokens.len()
            invariant
                i <= self.out_tokens@.len(),
                forall|j: int|
                    0 <= j < i as int ==> (#[trigger] self.out_tokens@[j]).remaining > 0,
            decreases self.out_tokens@.len() - i,
        {
            if self.out_tokens[i].remaining == 0 {
                return Err(SaleValidationError::ZeroOutAmount);
            }
            i = i + 1;
        }
        let mut i: usize = 0;
        while i < self.out_tokens.len()
            invariant
                i <= self.out_tokens@.len(),
                forall|j: int|
                    0 <= j < i as int ==> (#[trigger] self.out_tokens@[j]).token_account_id
                        != self.in_token_account_id,
            decreases self.out_tokens@.len() - i,
        {
            if self.out_tokens[i].token_account_id == self.in_token_account_id {
                return Err(SaleValidationError::SameTokens);
            }
            i = i + 1;
        }
        let mut i: usize = 0;
        while i < self.out_tokens.len()
            invariant
                i <= self.out_tokens@.len(),
                forall|a: int, b: int|
                    0 <= a < b < self.out_tokens@.len() && a < i as int
                        ==> (#[trigger] self.out_tokens@[a]).token_account_id
                        != (#[trigger] self.out_tokens@[b]).token_account_id,
            decreases self.out_tokens@.len() - i,
        {
            let mut j: usize = i + 1;
            while j < self.out_tokens.len()
                invariant
                    i < j,
                    i < self.out_tokens@.len(),
                    j <= self.out_tokens@.len(),
                    forall|b: int|
                        i < b < j as int ==> (#[trigger] self.out_tokens@[b]).token_account_id
                            != self.out_tokens@[i as int].token_account_id,
                decreases self.out_tokens@.len() - j,
            {
                if self.out_tokens[j].token_account_id == self.out_tokens[i].token_account_id {
                    return Err(SaleValidationError::NonUniqueOutTokens);
                }
                j = j + 1;
            }
            i = i + 1;
        }
        Ok(())
    }
}

/// The out-tokens of the spawned companion sale: every non-native
/// out-token contributes a tenth of its remaining allocation.
pub open spec fn spawned_out_tokens(s: Seq<SaleOutToken>, skyward_token_id: TokenAccountId) -> Seq<
    SaleOutToken,
>
    decreases s.len(),
{
    if s.len() == 0 {
        Seq::empty()
    } else {
        let rest = spawned_out_tokens(s.drop_last(), skyward_token_id);
        let o = s.last();
        if o.token_account_id == skyward_token_id {
            rest
        } else {
            rest.push(
                SaleOutToken {
                    remaining: (o.remaining as int / (IN_SKYWARD_DENOMINATOR as int)) as u128,
                    ..o
                },
            )
        }
    }
}

/// If the companion split yields nothing, every out-token was the
/// native token.
pub proof fn lemma_spawned_empty(s: Seq<SaleOutToken>, skyward_token_id: TokenAccountId)
    requires
        spawned_out_tokens(s, skyward_token_id).len() == 0,
    ensures
        forall|i: int|
            0 <= i < s.len() ==> (#[trigger] s[i]).token_account_id == skyward_token_id,
    decreases s.len(),
{
    if s.len() > 0 {
        lemma_spawned_empty(s.drop_last(), skyward_token_id);
        assert(s[s.len() - 1] == s.last());
        assert forall|i: int|
            0 <= i < s.len() implies (#[trigger] s[i]).token_account_id == skyward_token_id by {
            if i < s.len() - 1 {
                assert(s.drop_last()[i] == s[i]);
            }
        }
    }
}

impl Sale {
    /// Splits off the companion sale that sells a tenth of every
    /// non-native allocation against the native token.  Returns `None`
    /// when the sale already trades in the native token or no allocation
    /// is left to split.
    pub fn spawn_in_skyward_sale(&mut self, sale_id: u64, skyward_token_id: TokenAccountId) -> (r:
        Option<Sale>)
        requires
            old(self).wf(),
        ensures
            final(self).wf(),
            old(self).in_token_account_id == skyward_token_id ==> r is None && *final(self)
                == *old(self),
            old(self).in_token_account_id != skyward_token_id ==> {
                &&& sale_meta_unchanged(*old(self), *final(self))
                &&& final(self).in_token_remaining == old(self).in_token_remaining
                &&& final(self).in_token_paid_unclaimed == old(self).in_token_paid_unclaimed
                &&& final(self).in_token_paid == old(self).in_token_paid
                &&& final(self).last_timestamp == old(self).last_timestamp
                &&& final(self).out_tokens@.len() == old(self).out_tokens@.len()
                &&& forall|i: int|
                    0 <= i < old(self).out_tokens@.len() ==> {
                        let o = old(self).out_tokens@[i];
                        let n = #[trigger] final(self).out_tokens@[i];
                        if o.token_account_id == skyward_token_id {
                            n == o
                        } else {
                            n == SaleOutToken {
                                remaining: (o.remaining - o.remaining as int
                                    / (IN_SKYWARD_DENOMINATOR as int)) as u128,
                                ..o
                            }
                        }
                    }
                &&& {
                    let spawned = spawned_out_tokens(old(self).out_tokens@, skyward_token_id);
                    if spawned.len() == 0 {
                        r is None
                    } else {
                        match r {
                            Some(n) => {
                                &&& n.wf()
                                &&& n.owner_id == old(self).owner_id
                                &&& n.title == old(self).title
                                &&& n.url == old(self).url
                                &&& n.out_tokens@ == spawned
                                &&& n.in_token_account_id == skyward_token_id
                                &&& n.in_token_remaining == 0
                                &&& n.in_token_paid_unclaimed == 0
                                &&& n.in_token_paid == 0
                                &&& n.start_time == old(self).start_time
                                &&& n.duration == old(self).duration
                                &&& n.total_shares == 0
                                &&& n.last_timestamp == old(self).last_timestamp
                                &&& n.associated_sale_id == Some(sale_id)
                            },
                            None => false,
                        }
                    }
                }
            },
    {
        if self.in_token_account_id == skyward_token_id {
            return None;
        }
        let ghost pre = *self;
        let mut out_tokens: Vec<SaleOutToken> = Vec::new();
        let mut kept: Vec<SaleOutToken> = Vec::new();
        let mut i: usize = 0;
        while i < self.out_tokens.len()
            invariant
                pre.wf(),
                *self == pre,
                i <= pre.out_tokens@.len(),
                kept@.len() == i as int,
                out_tokens@ == spawned_out_tokens(
                    pre.out_tokens@.subrange(0, i as int),
                    skyward_token_id,
                ),
                forall|j: int|
                    0 <= j < i as int ==> {
                        let o = pre.out_tokens@[j];
                        let n = #[trigger] kept@[j];
                        if o.token_account_id == skyward_token_id {
                            n == o
                        } else {
                            n == SaleOutToken {
                                remaining: (o.remaining - o.remaining as int
                                    / (IN_SKYWARD_DENOMINATOR as int)) as u128,
                                ..o
                            }
                        }
                    },
                forall|j: int| 0 <= j < i as int ==> (#[trigger] kept@[j]).wf(),
                forall|j: int| 0 <= j < out_tokens@.len() ==> (#[trigger] out_tokens@[j]).wf(),
            decreases pre.out_tokens@.len() - i,
        {
            let o = self.out_tokens[i];
            proof {
                assert(pre.out_tokens@.subrange(0, i + 1).drop_last() == pre.out_tokens@.subrange(
                    0,
                    i as int,
                ));
                assert(pre.out_tokens@.subrange(0, i + 1).last() == o);
            }
            if o.token_account_id == skyward_token_id {
                kept.push(o);
            } else {
                let in_skyward_balance = o.remaining / (IN_SKYWARD_DENOMINATOR as u128);
                let mut n = o;
                n.remaining = o.remaining - in_skyward_balance;
                kept.push(n);
                let mut spawned = o;
                spawned.remaining = in_skyward_balance;
                out_tokens.push(spawned);
            }
            i = i + 1;
        }
        proof {
            assert(pre.out_tokens@.subrange(0, pre.out_tokens@.len() as int) == pre.out_tokens@);
        }
        self.out_tokens = kept;
        if out_tokens.len() == 0 {
            None
        } else {
            Some(
                Sale {
                    owner_id: self.owner_id,
                    title: self.title.clone(),
                    url: self.url.clone(),
                    out_tokens,
                    in_token_account_id: skyward_token_id,
                    in_token_remaining: 0,
                    in_token_paid_unclaimed: 0,
                    in_token_paid: 0,
                    start_time: self.start_time,
                    duration: self.duration,
                    total_shares: 0,
                    last_timestamp: self.last_timestamp,
                    permissions_contract_id: None,
                    associated_sale_id: Some(sale_id),
                },
            )
        }
    }
}

/// Touching twice at the same time is the same as touching once: the
/// second advance finds nothing left of the elapsed slice.
pub proof fn lemma_touch_idempotent(pre: Sale, mid: Sale, post: Sale, now: Timestamp)
    requires
        pre.wf(),
        sale_touched(pre, mid, now),
        sale_touched(mid, post, now),
    ensures
        post == mid,
{
}

/// For a sale with no outstanding shares, `touch(t1); touch(t2)` with
/// `t1 <= t2` is exactly a single `touch(t2)`: only the clock moves.
pub proof fn lemma_touch_composes_without_shares(
    pre: Sale,
    mid: Sale,
    post: Sale,
    t1: Timestamp,
    t2: Timestamp,
)
    requires
        pre.wf(),
        pre.total_shares == 0,
        t1 <= t2,
        sale_touched(pre, mid, t1),
        sale_touched(mid, post, t2),
    ensures
        sale_touched(pre, post, t2),
{
}

/// Depositing `i` in-tokens into a pool of `r` remaining in-tokens and
/// `t` shares mints `s = i*t/r` shares (or `i` on an empty pool); an
/// exact withdrawal of `i` right afterwards, whenever it is allowed at
/// all, burns exactly those `s` shares.  The withdrawal is allowed when
/// `i` does not exceed the in-balance backed by `s` in the grown pool,
/// which forces `i*t == s*r`, so the ceiling division comes out exact.
pub proof fn lemma_exact_withdraw_refunds_minted_shares(r: int, t: int, i: int)
    requires
        0 <= t,
        0 <= r,
        1 <= i,
        t == 0 ==> r == 0,
        t > 0 ==> r >= 1,
        ({
            let s = if t == 0 {
                i
            } else {
                i * t / r
            };
            i <= (r + i) * s / (t + s)
        }),
    ensures
        ({
            let s = if t == 0 {
                i
            } else {
                i * t / r
            };
            (i * (t + s) + (r + i) - 1) / (r + i) == s
        }),
{
    if t == 0 {
        crate::arith::lemma_muldiv_exact(i, i);
        assert(i * (0 + i) == i * i);
    } else {
        let s = i * t / r;
        lemma_div_pos_is_pos(i * t, r);
        vstd::arithmetic::mul::lemma_mul_nonnegative(i, t);
        vstd::arithmetic::div_mod::lemma_fundamental_div_mod(i * t, r);
        // The withdrawal precondition bounds `i * (t + s)` by `(r + i) * s`.
        crate::arith::lemma_div_ge_iff((r + i) * s, i, t + s);
        assert((r + i) * s == r * s + i * s) by {
            lemma_mul_is_distributive_add_other_way(s, r, i);
        }
        assert(i * (t + s) == i * t + i * s) by {
            vstd::arithmetic::mul::lemma_mul_is_distributive_add(i, t, s);
        }
        // Together with `r * s <= i * t` from the floor, the two cancel.
        assert(i * t == r * s) by {
            lemma_mul_is_commutative(r, s);
        }
        assert(i * (t + s) == s * (r + i)) by {
            vstd::arithmetic::mul::lemma_mul_is_distributive_add(s, r, i);
            lemma_mul_is_commutative(s, r);
            lemma_mul_is_commutative(s, i);
        }
        crate::arith::lemma_muldiv_exact(s, r + i);
    }
}

/// Touching at or past the end of an active sale drains the remaining
/// balances completely: the final slice is `remaining * rem / rem`.
pub proof fn lemma_touch_drains_at_end(pre: Sale, post: Sale, now: Timestamp)
    requires
        pre.wf(),
        pre.total_shares > 0,
        pre.last_timestamp < pre.spec_end_time(),
        now >= pre.spec_end_time(),
        sale_touched(pre, post, now),
    ensures
        post.in_token_remaining == 0,
        forall|i: int|
            0 <= i < pre.out_tokens@.len() ==> (#[trigger] post.out_tokens@[i]).remaining == 0,
{
    let rem = pre.spec_end_time() - pre.last_timestamp;
    lemma_muldiv_exact(pre.in_token_remaining as int, rem);
    assert forall|i: int|
        0 <= i < pre.out_tokens@.len() implies (#[trigger] post.out_tokens@[i]).remaining == 0 by {
        lemma_muldiv_exact(pre.out_tokens@[i].remaining as int, rem);
    }
}


/// Depositing and immediately withdrawing the same exact in-amount is
/// neutral, whenever the exact withdrawal is allowed at all: against the
/// pool grown by the deposit, the ceiling-rounded burn returns exactly
/// the freshly minted shares, and the pool's remaining in-balance
/// returns to its old value.  A pool left with stranded in-tokens and no
/// shares is excluded: there a deposit captures the stranded balance and
/// the round trip is not neutral.
pub proof fn lemma_deposit_withdraw_neutral(sale: Sale, in_amount: Balance)
    requires
        sale.wf(),
        in_amount >= 1,
        sale.total_shares == 0 ==> sale.in_token_remaining == 0,
        sale.total_shares > 0 ==> sale.in_token_remaining >= 1,
        ({
            let minted = sale.spec_in_amount_to_shares(in_amount, false);
            let grown = Sale {
                in_token_remaining: (sale.in_token_remaining + in_amount) as u128,
                total_shares: (sale.total_shares + minted) as u128,
                ..sale
            };
            in_amount <= grown.spec_shares_to_in_balance((minted) as u128)
        }),
        sale.in_token_remaining + in_amount < p128(),
        sale.spec_in_amount_to_shares(in_amount, false) + sale.total_shares < p128(),
    ensures
        ({
            let minted = sale.spec_in_amount_to_shares(in_amount, false);
            let grown = Sale {
                in_token_remaining: (sale.in_token_remaining + in_amount) as u128,
                total_shares: (sale.total_shares + minted) as u128,
                ..sale
            };
            &&& grown.spec_in_amount_to_shares(in_amount, true) == minted
            &&& grown.in_token_remaining - in_amount == sale.in_token_remaining
        }),
{
    let t = sale.total_shares as int;
    let r = sale.in_token_remaining as int;
    let i = in_amount as int;
    let minted = sale.spec_in_amount_to_shares(in_amount, false);
    if t == 0 {
        assert(minted == i);
        lemma_exact_withdraw_refunds_minted_shares(r, t, i);
    } else {
        vstd::arithmetic::mul::lemma_mul_nonnegative(i, t);
        vstd::arithmetic::div_mod::lemma_div_pos_is_pos(i * t, r);
        lemma_exact_withdraw_refunds_minted_shares(r, t, i);
    }
}


/// A view of one out-token of a sale.
#[derive(Clone, Copy, Debug, PartialEq, Eq, Structural)]
pub struct SaleOutputOutToken {
    pub token_account_id: TokenAccountId,
    pub remaining: Balance,
    pub distributed: Balance,
    pub treasury_unclaimed: Option<Balance>,
}

impl SaleOutputOutToken {
    pub fn from_token(token: &SaleOutToken) -> (r: SaleOutputOutToken)
        ensures
            r.token_account_id == token.token_account_id,
            r.remaining == token.remaining,
            r.distributed == token.distributed,
            r.treasury_unclaimed == token.treasury_unclaimed,
    {
        SaleOutputOutToken {
            token_account_id: token.token_account_id,
            remaining: token.remaining,
            distributed: token.distributed,
            treasury_unclaimed: token.treasury_unclaimed,
        }
    }
}

/// A view of a sale, together with the viewer's subscription if any.
#[derive(Clone, Debug)]
pub struct SaleOutput {
    pub sale_id: u64,
    pub title: String,
    pub url: Option<String>,
    pub owner_id: AccountId,
    pub out_tokens: Vec<SaleOutputOutToken>,
    pub in_token_account_id: TokenAccountId,
    pub in_token_remaining: Balance,
    pub in_token_paid_unclaimed: Balance,
    pub in_token_paid: Balance,
    pub total_shares: Balance,
    pub start_time: Timestamp,
    pub duration: Timestamp,
    pub remaining_duration: Timestamp,
    pub permissions_contract_id: Option<AccountId>,
    pub associated_sale_id: Option<u64>,
    pub subscription: Option<crate::sub::SubscriptionOutput>,
}

impl Sale {
    /// The view of this sale as last persisted, with the given
    /// subscription view attached.
    pub fn into_output(&self, sale_id: u64, subscription: Option<crate::sub::SubscriptionOutput>)
        -> (r: SaleOutput)
        requires
            self.wf(),
        ensures
            r.sale_id == sale_id,
            r.title == self.title,
            r.url == self.url,
            r.owner_id == self.owner_id,
            r.out_tokens@.len() == self.out_tokens@.len(),
            forall|i: int|
                0 <= i < self.out_tokens@.len() ==> {
                    let o = self.out_tokens@[i];
                    let v = #[trigger] r.out_tokens@[i];
                    &&& v.token_account_id == o.token_account_id
                    &&& v.remaining == o.remaining
                    &&& v.distributed == o.distributed
                    &&& v.treasury_unclaimed == o.treasury_unclaimed
                },
            r.in_token_account_id == self.in_token_account_id,
            r.in_token_remaining == self.in_token_remaining,
            r.in_token_paid_unclaimed == self.in_token_paid_unclaimed,
            r.in_token_paid == self.in_token_paid,
            r.total_shares == self.total_shares,
            r.start_time == self.start_time,
            r.duration == self.duration,
            r.remaining_duration == self.spec_end_time() - self.last_timestamp,
            r.permissions_contract_id == self.permissions_contract_id,
            r.associated_sale_id == self.associated_sale_id,
            r.subscription == subscription,
    {
        let mut out_tokens: Vec<SaleOutputOutToken> = Vec::new();
        let mut i: usize = 0;
        while i < self.out_tokens.len()
            invariant
                i <= self.out_tokens@.len(),
                out_tokens@.len() == i as int,
                forall|j: int|
                    0 <= j < i as int ==> {
                        let o = self.out_tokens@[j];
                        let v = #[trigger] out_tokens@[j];
                        &&& v.token_account_id == o.token_account_id
                        &&& v.remaining == o.remaining
                        &&& v.distributed == o.distributed
                        &&& v.treasury_unclaimed == o.treasury_unclaimed
                    },
            decreases self.out_tokens@.len() - i,
        {
            out_tokens.push(SaleOutputOutToken::from_token(&self.out_tokens[i]));
            i = i + 1;
        }
        let url = match &self.url {
            Some(u) => Some(u.clone()),
            None => None,
        };
        SaleOutput {
            sale_id,
            title: self.title.clone(),
            url,
            owner_id: self.owner_id,
            out_tokens,
            in_token_account_id: self.in_token_account_id,
            in_token_remaining: self.in_token_remaining,
            in_token_paid_unclaimed: self.in_token_paid_unclaimed,
            in_token_paid: self.in_token_paid,
            total_shares: self.total_shares,
            start_time: self.start_time,
            duration: self.duration,
            remaining_duration: self.start_time + self.duration - self.last_timestamp,
            permissions_contract_id: self.permissions_contract_id,
            associated_sale_id: self.associated_sale_id,
            subscription,
        }
    }
}

} // verus!
