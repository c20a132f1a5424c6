//! The lockup engine: cliff + linear unlock of pre-committed
//! allocations, with idempotent per-account claims and a deadline-driven
//! residual donation.
//!
//! The allocation table ships as a packed byte array of fixed-size
//! records sorted by the SHA-256 hash of the account id; a claim hashes
//! the caller's id and looks its row up by that hash.

use vstd::prelude::*;
use sha2::Digest;
use crate::idmap::IdMap;
use crate::u256::{p128, mul_div};
use crate::arith::lemma_muldiv_le;
use crate::{AccountId, Balance, Timestamp, TimestampSec, TokenAccountId, NANOS_PER_SEC};

verus! {

/// The SHA-256 digest of a byte string, as sha2 computes it.
pub uninterp spec fn sha256_of(bytes: Seq<u8>) -> Seq<u8>;

/// Relies on sha2's `Sha256::digest`: the digest is 32 bytes and depends
/// on the input bytes alone.
#[verifier::external_body]
fn sha256_hash(bytes: &Vec<u8>) -> (r: Vec<u8>)
    ensures
        r@ == sha256_of(bytes@),
        r@.len() == 32,
{
    sha2::Sha256::digest(bytes.as_slice()).to_vec()
}

/// Size of one packed table record.
pub const SIZE_OF_FIXED_SIZE_ACCOUNT: usize = 60;

/// Bytes of the hash prefix of a record.
pub const CRYPTO_HASH_SIZE: usize = 32;

/// A little-endian 32-bit value at `off`.
pub open spec fn spec_u32_le(s: Seq<u8>, off: int) -> int {
    s[off] + 0x100 * s[off + 1] + 0x10000 * s[off + 2] + 0x1000000 * s[off + 3]
}

/// A little-endian 128-bit value at `off`.
pub open spec fn spec_u128_le(s: Seq<u8>, off: int) -> int {
    s[off] + 0x100 * s[off + 1] + 0x10000 * s[off + 2] + 0x1000000 * s[off + 3] + 0x100000000
        * s[off + 4] + 0x10000000000 * s[off + 5] + 0x1000000000000 * s[off + 6]
        + 0x100000000000000 * s[off + 7] + 0x10000000000000000 * s[off + 8]
        + 0x1000000000000000000 * s[off + 9] + 0x100000000000000000000 * s[off + 10]
        + 0x10000000000000000000000 * s[off + 11] + 0x1000000000000000000000000 * s[off + 12]
        + 0x100000000000000000000000000 * s[off + 13] + 0x10000000000000000000000000000 * s[off
        + 14] + 0x1000000000000000000000000000000 * s[off + 15]
}

fn read_u32_le(data: &Vec<u8>, off: usize) -> (r: u32)
    requires
        off + 4 <= data@.len(),
        off + 4 <= usize::MAX,
    ensures
        r == spec_u32_le(data@, off as int),
{
    (data[off] as u32) + 0x100 * (data[off + 1] as u32) + 0x10000 * (data[off + 2] as u32)
        + 0x1000000 * (data[off + 3] as u32)
}

fn read_u128_le(data: &Vec<u8>, off: usize) -> (r: u128)
    requires
        off + 16 <= data@.len(),
        off + 16 <= usize::MAX,
    ensures
        r == spec_u128_le(data@, off as int),
{
    (data[off] as u128) + 0x100 * (data[off + 1] as u128) + 0x10000 * (data[off + 2] as u128)
        + 0x1000000 * (data[off + 3] as u128) + 0x100000000 * (data[off + 4] as u128)
        + 0x10000000000 * (data[off + 5] as u128) + 0x1000000000000 * (data[off + 6] as u128)
        + 0x100000000000000 * (data[off + 7] as u128) + 0x10000000000000000 * (data[off + 8]
        as u128) + 0x1000000000000000000 * (data[off + 9] as u128) + 0x100000000000000000000 * (
    data[off + 10] as u128) + 0x10000000000000000000000 * (data[off + 11] as u128)
        + 0x1000000000000000000000000 * (data[off + 12] as u128) + 0x100000000000000000000000000
        * (data[off + 13] as u128) + 0x10000000000000000000000000000 * (data[off + 14] as u128)
        + 0x1000000000000000000000000000000 * (data[off + 15] as u128)
}

/// One row of the shipped allocation table.
#[derive(Clone, Debug)]
pub struct FixedSizeAccount {
    pub account_hash: Vec<u8>,
    pub start_timestamp: TimestampSec,
    pub cliff_timestamp: TimestampSec,
    pub end_timestamp: TimestampSec,
    pub balance: Balance,
}

impl FixedSizeAccount {
    pub open spec fn wf(self) -> bool {
        &&& self.account_hash@.len() == CRYPTO_HASH_SIZE
        &&& self.start_timestamp <= self.cliff_timestamp
    }
}

/// What one packed record at `off` decodes to.
pub open spec fn spec_record_matches(s: Seq<u8>, off: int, r: FixedSizeAccount) -> bool {
    &&& r.account_hash@ == s.subrange(off, off + 32)
    &&& r.start_timestamp == spec_u32_le(s, off + 32)
    &&& r.cliff_timestamp == spec_u32_le(s, off + 36)
    &&& r.end_timestamp == spec_u32_le(s, off + 40)
    &&& r.balance == spec_u128_le(s, off + 44)
}

/// Total allocation of a table.
pub open spec fn spec_lockup_total(rows: Seq<FixedSizeAccount>) -> int
    decreases rows.len(),
{
    if rows.len() == 0 {
        0
    } else {
        spec_lockup_total(rows.drop_last()) + rows.last().balance
    }
}

/// The hash prefix of the packed record at index `i`.
pub open spec fn spec_record_hash(s: Seq<u8>, i: int) -> Seq<u8> {
    s.subrange(
        i * (SIZE_OF_FIXED_SIZE_ACCOUNT as int),
        i * (SIZE_OF_FIXED_SIZE_ACCOUNT as int) + CRYPTO_HASH_SIZE as int,
    )
}

/// The start second of the packed record at index `i`.
pub open spec fn spec_record_start(s: Seq<u8>, i: int) -> int {
    spec_u32_le(s, i * (SIZE_OF_FIXED_SIZE_ACCOUNT as int) + 32)
}

/// The cliff second of the packed record at index `i`.
pub open spec fn spec_record_cliff(s: Seq<u8>, i: int) -> int {
    spec_u32_le(s, i * (SIZE_OF_FIXED_SIZE_ACCOUNT as int) + 36)
}

/// The balance of the packed record at index `i`.
pub open spec fn spec_record_balance(s: Seq<u8>, i: int) -> int {
    spec_u128_le(s, i * (SIZE_OF_FIXED_SIZE_ACCOUNT as int) + 44)
}

/// Total balance of the first `n` packed records.
pub open spec fn spec_packed_total(s: Seq<u8>, n: int) -> int
    decreases n,
{
    if n <= 0 {
        0
    } else {
        spec_packed_total(s, n - 1) + spec_record_balance(s, n - 1)
    }
}

/// Packed prefix totals are non-negative and monotone.
proof fn lemma_packed_total_mono(s: Seq<u8>, i: int, n: int)
    requires
        0 <= i <= n,
        forall|j: int| 0 <= j < n ==> 0 <= #[trigger] spec_record_balance(s, j),
    ensures
        0 <= spec_packed_total(s, i) <= spec_packed_total(s, n),
    decreases n - i, i,
{
    if i < n {
        lemma_packed_total_mono(s, i, n - 1);
    } else if i > 0 {
        lemma_packed_total_mono(s, i - 1, i - 1);
    }
}

/// Whether the packed table decodes: a whole number of records, no
/// cliff before its start, pairwise distinct hashes, and a total
/// allocation that fits the balance type.
pub open spec fn spec_packed_table_ok(s: Seq<u8>) -> bool {
    let n = s.len() as int / (SIZE_OF_FIXED_SIZE_ACCOUNT as int);
    &&& s.len() as int % (SIZE_OF_FIXED_SIZE_ACCOUNT as int) == 0
    &&& forall|i: int| 0 <= i < n ==> #[trigger] spec_record_cliff(s, i) >= spec_record_start(s, i)
    &&& forall|i: int, j: int|
        0 <= i < j < n ==> #[trigger] spec_record_hash(s, i) != #[trigger] spec_record_hash(s, j)
    &&& spec_packed_total(s, n) < u128::MAX
}

/// Parses the packed allocation table.  Returns `None` exactly when the
/// data is not a whole number of records, a record has its cliff before
/// its start, two records share a hash, or the total allocation
/// overflows.
pub fn parse_lockup_accounts(data: &Vec<u8>) -> (r: Option<Vec<FixedSizeAccount>>)
    ensures
        r is Some <==> spec_packed_table_ok(data@),
        match r {
            Some(rows) => {
                &&& data@.len() == rows@.len() * SIZE_OF_FIXED_SIZE_ACCOUNT
                &&& forall|i: int|
                    0 <= i < rows@.len() ==> spec_record_matches(
                        data@,
                        i * (SIZE_OF_FIXED_SIZE_ACCOUNT as int),
                        #[trigger] rows@[i],
                    )
                &&& forall|i: int| 0 <= i < rows@.len() ==> (#[trigger] rows@[i]).wf()
                &&& forall|i: int, j: int|
                    0 <= i < j < rows@.len() ==> (#[trigger] rows@[i]).account_hash@
                        != (#[trigger] rows@[j]).account_hash@
                &&& spec_lockup_total(rows@) < p128()
            },
            None => true,
        },
{
    if data.len() % SIZE_OF_FIXED_SIZE_ACCOUNT != 0 {
        return None;
    }
    let num = data.len() / SIZE_OF_FIXED_SIZE_ACCOUNT;
    let mut rows: Vec<FixedSizeAccount> = Vec::new();
    let mut total: u128 = 0;
    let mut i: usize = 0;
    proof {
        // Every packed balance is in range once its bytes are in range.
        assert forall|j: int| 0 <= j < num as int implies 0 <= #[trigger] spec_record_balance(
            data@,
            j,
        ) by {
            vstd::arithmetic::mul::lemma_mul_inequality(
                j + 1,
                num as int,
                SIZE_OF_FIXED_SIZE_ACCOUNT as int,
            );
            vstd::arithmetic::mul::lemma_mul_is_distributive_add_other_way(
                SIZE_OF_FIXED_SIZE_ACCOUNT as int,
                j,
                1,
            );
            vstd::arithmetic::mul::lemma_mul_nonnegative(j, SIZE_OF_FIXED_SIZE_ACCOUNT as int);
        }
    }
    while i < num
        invariant
            num * SIZE_OF_FIXED_SIZE_ACCOUNT == data@.len(),
            num == data@.len() as int / (SIZE_OF_FIXED_SIZE_ACCOUNT as int),
            data@.len() as int % (SIZE_OF_FIXED_SIZE_ACCOUNT as int) == 0,
            data@.len() <= usize::MAX,
            i <= num,
            rows@.len() == i as int,
            forall|j: int|
                0 <= j < i as int ==> spec_record_matches(
                    data@,
                    j * (SIZE_OF_FIXED_SIZE_ACCOUNT as int),
                    #[trigger] rows@[j],
                ),
            forall|j: int| 0 <= j < i as int ==> (#[trigger] rows@[j]).wf(),
            forall|j: int|
                0 <= j < num as int ==> 0 <= #[trigger] spec_record_balance(data@, j),
            total == spec_lockup_total(rows@),
            total == spec_packed_total(data@, i as int),
            total < u128::MAX,
        decreases num - i,
    {
        proof {
            vstd::arithmetic::mul::lemma_mul_inequality(
                i as int + 1,
                num as int,
                SIZE_OF_FIXED_SIZE_ACCOUNT as int,
            );
            vstd::arithmetic::mul::lemma_mul_is_distributive_add_other_way(
                SIZE_OF_FIXED_SIZE_ACCOUNT as int,
                i as int,
                1,
            );
            vstd::arithmetic::mul::lemma_mul_nonnegative(
                i as int,
                SIZE_OF_FIXED_SIZE_ACCOUNT as int,
            );
        }
        let off = i * SIZE_OF_FIXED_SIZE_ACCOUNT;
        let mut account_hash: Vec<u8> = Vec::new();
        let mut k: usize = 0;
        while k < CRYPTO_HASH_SIZE
            invariant
                off + SIZE_OF_FIXED_SIZE_ACCOUNT <= data@.len(),
                data@.len() <= usize::MAX,
                k <= CRYPTO_HASH_SIZE,
                account_hash@.len() == k as int,
                forall|m: int| 0 <= m < k as int ==> account_hash@[m] == data@[off + m],
            decreases CRYPTO_HASH_SIZE - k,
        {
            account_hash.push(data[off + k]);
            k = k + 1;
        }
        let start_timestamp = read_u32_le(data, off + 32);
        let cliff_timestamp = read_u32_le(data, off + 36);
        let end_timestamp = read_u32_le(data, off + 40);
        let balance = read_u128_le(data, off + 44);
        if cliff_timestamp < start_timestamp {
            proof {
                assert(spec_record_cliff(data@, i as int) < spec_record_start(data@, i as int));
                assert(!spec_packed_table_ok(data@));
            }
            return None;
        }
        if total >= u128::MAX - balance {
            proof {
                assert(balance == spec_record_balance(data@, i as int));
                assert(spec_packed_total(data@, i as int + 1) >= u128::MAX);
                lemma_packed_total_mono(data@, i as int + 1, num as int);
                assert(!spec_packed_table_ok(data@));
            }
            return None;
        }
        let record = FixedSizeAccount {
            account_hash,
            start_timestamp,
            cliff_timestamp,
            end_timestamp,
            balance,
        };
        proof {
            assert(record.account_hash@ =~= data@.subrange(
                off as int,
                off as int + 32,
            ));
        }
        let ghost pre_rows = rows@;
        rows.push(record);
        proof {
            assert(rows@.drop_last() == pre_rows);
        }
        proof {
            assert(balance == spec_record_balance(data@, i as int));
        }
        total = total + balance;
        i = i + 1;
    }
    // The shipped table addresses rows by their hashes, so a duplicate
    // hash makes it ambiguous and is rejected.
    let n_rows = rows.len();
    let mut a: usize = 0;
    while a < n_rows
        invariant
            n_rows == rows@.len(),
            num == rows@.len(),
            num == data@.len() as int / (SIZE_OF_FIXED_SIZE_ACCOUNT as int),
            a <= n_rows,
            forall|x: int|
                0 <= x < rows@.len() ==> spec_record_matches(
                    data@,
                    x * (SIZE_OF_FIXED_SIZE_ACCOUNT as int),
                    #[trigger] rows@[x],
                ),
            forall|x: int, y: int|
                0 <= x < y < rows@.len() && x < a as int ==> (#[trigger] rows@[x]).account_hash@
                    != (#[trigger] rows@[y]).account_hash@,
        decreases n_rows - a,
    {
        let mut b: usize = a + 1;
        while b < n_rows
            invariant
                n_rows == rows@.len(),
                num == rows@.len(),
                num == data@.len() as int / (SIZE_OF_FIXED_SIZE_ACCOUNT as int),
                a < b <= n_rows || (a + 1 > n_rows && b == a + 1),
                a < n_rows,
                forall|x: int|
                    0 <= x < rows@.len() ==> spec_record_matches(
                        data@,
                        x * (SIZE_OF_FIXED_SIZE_ACCOUNT as int),
                        #[trigger] rows@[x],
                    ),
                forall|y: int|
                    (a as int) < y && y < b as int ==> (#[trigger] rows@[y]).account_hash@
                        != rows@[a as int].account_hash@,
            decreases n_rows - b,
        {
            if bytes_eq(&rows[a].account_hash, &rows[b].account_hash) {
                proof {
                    assert(spec_record_hash(data@, a as int) == rows@[a as int].account_hash@);
                    assert(spec_record_hash(data@, b as int) == rows@[b as int].account_hash@);
                    assert(!spec_packed_table_ok(data@));
                }
                return None;
            }
            b = b + 1;
        }
        a = a + 1;
    }
    proof {
        vstd::arithmetic::mul::lemma_mul_is_commutative(
            num as int,
            SIZE_OF_FIXED_SIZE_ACCOUNT as int,
        );
        // Every decoded check passed, so the table is well formed.
        assert forall|x: int|
            0 <= x < num as int implies #[trigger] spec_record_cliff(data@, x)
            >= spec_record_start(data@, x) by {
            assert(rows@[x].wf());
            assert(spec_record_matches(
                data@,
                x * (SIZE_OF_FIXED_SIZE_ACCOUNT as int),
                rows@[x],
            ));
        }
        assert forall|x: int, y: int|
            0 <= x < y < num as int implies #[trigger] spec_record_hash(data@, x)
            != #[trigger] spec_record_hash(data@, y) by {
            assert(spec_record_hash(data@, x) == rows@[x].account_hash@);
            assert(spec_record_hash(data@, y) == rows@[y].account_hash@);
        }
        assert(spec_packed_table_ok(data@));
    }
    Some(rows)
}

/// The registered claim state for one table row.
#[derive(Clone, Copy, Debug, PartialEq, Eq, Structural)]
pub struct Account {
    /// The row this claim state belongs to.
    pub index: u32,
    /// How much of the row's allocation has been claimed so far.
    pub claimed_balance: Balance,
}

/// A view of one account's lockup.
#[derive(Clone, Debug, PartialEq, Eq, Structural)]
pub struct AccountOutput {
    pub start_timestamp: TimestampSec,
    pub cliff_timestamp: TimestampSec,
    pub end_timestamp: TimestampSec,
    pub balance: Balance,
    pub claimed_balance: Balance,
}

/// Global counters of the lockup engine.
#[derive(Clone, Debug, PartialEq, Eq, Structural)]
pub struct Stats {
    pub token_account_id: TokenAccountId,
    pub skyward_account_id: AccountId,
    pub claim_expiration_timestamp: TimestampSec,
    pub total_balance: Balance,
    pub untouched_balance: Balance,
    pub total_claimed: Balance,
}

/// How much of one row has unlocked by `now` (nanoseconds): nothing
/// before the cliff, everything from the end on, and linearly in
/// between.
pub open spec fn spec_unlocked_amount(row: FixedSizeAccount, now: Timestamp) -> int {
    if now < row.cliff_timestamp * NANOS_PER_SEC {
        0
    } else if now >= row.end_timestamp * NANOS_PER_SEC {
        row.balance as int
    } else {
        (now - row.start_timestamp * NANOS_PER_SEC) * row.balance / ((row.end_timestamp
            - row.start_timestamp) * NANOS_PER_SEC)
    }
}

/// Unlocking never exceeds the row's allocation.
pub proof fn lemma_unlocked_amount_bounds(row: FixedSizeAccount, now: Timestamp)
    requires
        row.wf(),
    ensures
        0 <= spec_unlocked_amount(row, now) <= row.balance,
{
    if row.cliff_timestamp * NANOS_PER_SEC <= now < row.end_timestamp * NANOS_PER_SEC {
        lemma_muldiv_le(
            row.balance as int,
            now - row.start_timestamp * NANOS_PER_SEC,
            (row.end_timestamp - row.start_timestamp) * NANOS_PER_SEC,
        );
        vstd::arithmetic::mul::lemma_mul_is_commutative(
            row.balance as int,
            now - row.start_timestamp * NANOS_PER_SEC,
        );
        vstd::arithmetic::mul::lemma_mul_is_distributive_sub_other_way(
            NANOS_PER_SEC as int,
            row.end_timestamp as int,
            row.start_timestamp as int,
        );
        vstd::arithmetic::div_mod::lemma_div_pos_is_pos(
            (now - row.start_timestamp * NANOS_PER_SEC) * row.balance,
            (row.end_timestamp - row.start_timestamp) * NANOS_PER_SEC,
        );
        vstd::arithmetic::mul::lemma_mul_nonnegative(
            now - row.start_timestamp * NANOS_PER_SEC,
            row.balance as int,
        );
    }
}

/// A second claim at the same instant transfers nothing: after a claim,
/// the claimed balance equals the unlocked amount at that instant, so
/// the next delta at the same `now` is zero.
pub proof fn lemma_claim_idempotent(row: FixedSizeAccount, claimed: Balance, now: Timestamp)
    requires
        claimed == spec_unlocked_amount(row, now),
    ensures
        spec_unlocked_amount(row, now) - claimed == 0,
{
}

/// The lockup engine's state: the immutable allocation table and the
/// mutable per-row claim state, keyed by row index.
pub struct Contract {
    pub accounts: IdMap<Account>,
    pub lockup_accounts: Vec<FixedSizeAccount>,
    pub token_account_id: TokenAccountId,
    pub skyward_account_id: AccountId,
    pub claim_expiration_timestamp: TimestampSec,
    pub total_balance: Balance,
    pub untouched_balance: Balance,
    pub total_claimed: Balance,
}

impl Contract {
    pub open spec fn wf(self) -> bool {
        &&& self.accounts.wf()
        &&& forall|i: int|
            0 <= i < self.accounts@.len() ==> {
                let (k, a) = #[trigger] self.accounts@[i];
                &&& k < self.lockup_accounts@.len()
                &&& a.index == k
                &&& a.claimed_balance <= self.lockup_accounts@[k as int].balance
            }
        &&& forall|i: int| 0 <= i < self.lockup_accounts@.len() ==> (#[trigger] self.lockup_accounts@[i]).wf()
        &&& forall|i: int, j: int|
            0 <= i < j < self.lockup_accounts@.len()
                ==> (#[trigger] self.lockup_accounts@[i]).account_hash@
                != (#[trigger] self.lockup_accounts@[j]).account_hash@
    }

    /// Whether a claim by the account with these id bytes can be served
    /// at `now`: its row exists, and is either already registered or
    /// still before the claim deadline.
    pub open spec fn spec_claim_available(self, account_id_bytes: Seq<u8>, now: Timestamp) -> bool {
        exists|j: int|
            0 <= j < self.lockup_accounts@.len() && (#[trigger] self.lockup_accounts@[j]).account_hash@
                == sha256_of(account_id_bytes) && (self.accounts.contains_key(j as u64)
                || now < self.claim_expiration_timestamp * NANOS_PER_SEC)
    }

    pub fn new(
        lockup_accounts: Vec<FixedSizeAccount>,
        token_account_id: TokenAccountId,
        skyward_account_id: AccountId,
        claim_expiration_timestamp: TimestampSec,
    ) -> (r: Contract)
        requires
            forall|i: int|
                0 <= i < lockup_accounts@.len() ==> (#[trigger] lockup_accounts@[i]).wf(),
            forall|i: int, j: int|
                0 <= i < j < lockup_accounts@.len()
                    ==> (#[trigger] lockup_accounts@[i]).account_hash@
                    != (#[trigger] lockup_accounts@[j]).account_hash@,
            spec_lockup_total(lockup_accounts@) < p128(),
        ensures
            r.wf(),
            r.lockup_accounts == lockup_accounts,
            r.token_account_id == token_account_id,
            r.skyward_account_id == skyward_account_id,
            r.claim_expiration_timestamp == claim_expiration_timestamp,
            r.total_balance == spec_lockup_total(lockup_accounts@),
            r.untouched_balance == r.total_balance,
            r.total_claimed == 0,
            r.accounts@.len() == 0,
    {
        let total_balance = compute_total_balance(&lockup_accounts);
        Contract {
            accounts: IdMap::new(),
            lockup_accounts,
            token_account_id,
            skyward_account_id,
            claim_expiration_timestamp,
            total_balance,
            untouched_balance: total_balance,
            total_claimed: 0,
        }
    }

    /// The row whose stored hash equals `account_hash`, if any.
    pub fn find_account(&self, account_hash: &Vec<u8>) -> (r: Option<usize>)
        ensures
            match r {
                Some(i) => i < self.lockup_accounts@.len()
                    && self.lockup_accounts@[i as int].account_hash@ == account_hash@,
                None => forall|i: int|
                    0 <= i < self.lockup_accounts@.len()
                        ==> (#[trigger] self.lockup_accounts@[i]).account_hash@ != account_hash@,
            },
    {
        let n = self.lockup_accounts.len();
        let mut i: usize = 0;
        while i < n
            invariant
                n == self.lockup_accounts@.len(),
                i <= n,
                forall|j: int|
                    0 <= j < i as int ==> (#[trigger] self.lockup_accounts@[j]).account_hash@
                        != account_hash@,
            decreases n - i,
        {
            if bytes_eq(&self.lockup_accounts[i].account_hash, account_hash) {
                return Some(i);
            }
            i = i + 1;
        }
        None
    }

    /// Claims everything unlocked by `now` for the account whose id has
    /// the given bytes.  Returns the amount to transfer, or `None` when
    /// no claim exists (an unknown account, or an untouched one after
    /// the expiration deadline).
    ///
    /// Within one instant a claim is idempotent: the claimed balance is
    /// raised to the unlocked amount, so a second claim at the same
    /// `now` returns zero.
    pub fn claim(&mut self, account_id_bytes: &Vec<u8>, now: Timestamp) -> (r: Option<Balance>)
        requires
            old(self).wf(),
            forall|i: int|
                0 <= i < old(self).accounts@.len() ==> {
                    let (k, a) = #[trigger] old(self).accounts@[i];
                    a.claimed_balance <= spec_unlocked_amount(
                        old(self).lockup_accounts@[k as int],
                        now,
                    )
                },
            old(self).total_claimed + spec_lockup_total(old(self).lockup_accounts@) < p128(),
            forall|j: int|
                0 <= j < old(self).lockup_accounts@.len() ==> (!old(self).accounts.contains_key(
                    j as u64,
                ) ==> old(self).untouched_balance >= (#[trigger] old(
                    self,
                ).lockup_accounts@[j]).balance),
            old(self).lockup_accounts@.len() < 0x100000000,
        ensures
            final(self).wf(),
            final(self).lockup_accounts == old(self).lockup_accounts,
            final(self).total_balance == old(self).total_balance,
            r is Some <==> old(self).spec_claim_available(account_id_bytes@, now),
            match r {
                Some(claim_balance) => exists|j: int|
                    {
                        &&& 0 <= j < old(self).lockup_accounts@.len()
                        &&& (#[trigger] old(self).lockup_accounts@[j]).account_hash@ == sha256_of(
                            account_id_bytes@,
                        )
                        &&& ({
                            let row = old(self).lockup_accounts@[j];
                            let claimed0 = match old(self).accounts.spec_get(j as u64) {
                                Some(a) => a.claimed_balance as int,
                                None => 0,
                            };
                            &&& claim_balance == spec_unlocked_amount(row, now) - claimed0
                            &&& match final(self).accounts.spec_get(j as u64) {
                                Some(a1) => a1.claimed_balance == spec_unlocked_amount(row, now),
                                None => false,
                            }
                            &&& final(self).total_claimed == old(self).total_claimed
                                + claim_balance
                            &&& final(self).untouched_balance == old(self).untouched_balance - (
                            if old(self).accounts.contains_key(j as u64) {
                                0int
                            } else {
                                row.balance as int
                            })
                            &&& forall|k2: u64|
                                k2 != j as u64 ==> final(self).accounts.spec_get(k2) == old(
                                    self,
                                ).accounts.spec_get(k2)
                        })
                    },
                None => *final(self) == *old(self),
            },
    {
        let account_hash = sha256_hash(account_id_bytes);
        let found = self.find_account(&account_hash);
        let idx = match found {
            Some(i) => i,
            None => {
                proof {
                    assert(!old(self).spec_claim_available(account_id_bytes@, now));
                }
                return None;
            },
        };
        let key = idx as u64;
        let was_registered = self.accounts.contains(key);
        if !was_registered {
            // Fresh rows can only be touched before the deadline.
            if now >= crate::to_nano(self.claim_expiration_timestamp) {
                proof {
                    // The matching row is unique, unregistered, and past
                    // the deadline, so no claim can be served.
                    assert forall|j: int|
                        !(0 <= j < self.lockup_accounts@.len()
                            && (#[trigger] self.lockup_accounts@[j]).account_hash@ == sha256_of(
                            account_id_bytes@,
                        ) && (self.accounts.contains_key(j as u64)
                            || now < self.claim_expiration_timestamp * NANOS_PER_SEC)) by {
                        if 0 <= j < self.lockup_accounts@.len()
                            && self.lockup_accounts@[j].account_hash@ == sha256_of(
                            account_id_bytes@,
                        ) {
                            assert(j == idx as int);
                        }
                    }
                    assert(!old(self).spec_claim_available(account_id_bytes@, now));
                }
                return None;
            }
            proof {
                assert(old(self).spec_claim_available(account_id_bytes@, now));
            }
        } else {
            proof {
                assert(old(self).spec_claim_available(account_id_bytes@, now));
            }
        }
        let row_start = self.lockup_accounts[idx].start_timestamp;
        let row_cliff = self.lockup_accounts[idx].cliff_timestamp;
        let row_end = self.lockup_accounts[idx].end_timestamp;
        let row_balance = self.lockup_accounts[idx].balance;
        let ghost row = self.lockup_accounts@[idx as int];
        let unlocked_balance: Balance = if now < crate::to_nano(row_cliff) {
            0
        } else if now >= crate::to_nano(row_end) {
            row_balance
        } else {
            proof {
                lemma_unlocked_amount_bounds(row, now);
                vstd::arithmetic::mul::lemma_mul_is_distributive_sub_other_way(
                    NANOS_PER_SEC as int,
                    row_end as int,
                    row_start as int,
                );
            }
            mul_div(
                (now - crate::to_nano(row_start)) as u128,
                row_balance,
                ((row_end - row_start) as u64 as u128) * (NANOS_PER_SEC as u128),
            )
        };
        proof {
            lemma_unlocked_amount_bounds(row, now);
            if was_registered {
                crate::idmap::lemma_seq_get_present(self.accounts@, key);
            }
        }
        let claimed_before: Balance = match self.accounts.get(key) {
            Some(a) => a.claimed_balance,
            None => 0,
        };
        proof {
            lemma_lockup_row_le_total(self.lockup_accounts@, idx as int);
        }
        let claim_balance = unlocked_balance - claimed_before;
        self.accounts.insert(key, Account { index: idx as u32, claimed_balance: unlocked_balance });
        self.total_claimed = self.total_claimed + claim_balance;
        if !was_registered {
            self.untouched_balance = self.untouched_balance - row_balance;
        }
        Some(claim_balance)
    }

    /// Reverts a failed claim transfer: the claimed balance and the
    /// total are rolled back by the transferred amount.
    pub fn after_ft_transfer(&mut self, index: u64, amount: Balance, promise_success: bool) -> (r:
        bool)
        requires
            old(self).wf(),
            !promise_success ==> match old(self).accounts.spec_get(index) {
                Some(a) => amount <= a.claimed_balance && amount <= old(self).total_claimed,
                None => false,
            },
        ensures
            final(self).wf(),
            r == promise_success,
            promise_success ==> *final(self) == *old(self),
            !promise_success ==> {
                &&& match (
                    old(self).accounts.spec_get(index),
                    final(self).accounts.spec_get(index),
                ) {
                    (Some(a0), Some(a1)) => a1.claimed_balance == a0.claimed_balance - amount
                        && a1.index == a0.index,
                    _ => false,
                }
                &&& final(self).total_claimed == old(self).total_claimed - amount
            },
    {
        if !promise_success {
            proof {
                crate::idmap::lemma_seq_get_present(self.accounts@, index);
            }
            let account = match self.accounts.get(index) {
                Some(a) => *a,
                None => {
                    proof {
                        assert(false);
                    }
                    Account { index: 0, claimed_balance: 0 }
                },
            };
            self.accounts.insert(
                index,
                Account { index: account.index, claimed_balance: account.claimed_balance - amount },
            );
            self.total_claimed = self.total_claimed - amount;
        }
        promise_success
    }

    /// After the claim deadline, hands the untouched allocation over for
    /// donation to the treasury; returns the amount to transfer.
    pub fn donate_to_treasury(&mut self, now: Timestamp) -> (donated: Balance)
        requires
            old(self).wf(),
            now >= old(self).claim_expiration_timestamp * NANOS_PER_SEC,
            old(self).untouched_balance <= old(self).total_balance,
        ensures
            final(self).wf(),
            donated == old(self).untouched_balance,
            final(self).untouched_balance == 0,
            final(self).total_balance == old(self).total_balance - donated,
            final(self).accounts == old(self).accounts,
            final(self).total_claimed == old(self).total_claimed,
    {
        let donated = self.untouched_balance;
        if donated > 0 {
            self.total_balance = self.total_balance - donated;
            self.untouched_balance = 0;
        }
        donated
    }

    /// Reverts a failed donation transfer.
    pub fn after_donation(&mut self, amount: Balance, promise_success: bool)
        requires
            old(self).wf(),
            !promise_success ==> old(self).total_balance + amount < p128(),
        ensures
            final(self).wf(),
            promise_success ==> *final(self) == *old(self),
            !promise_success ==> {
                &&& final(self).total_balance == old(self).total_balance + amount
                &&& final(self).untouched_balance == amount
            },
    {
        if !promise_success {
            self.total_balance = self.total_balance + amount;
            self.untouched_balance = amount;
        }
    }

    /// The lockup of the account with the given id bytes, if its row
    /// exists.
    pub fn get_account(&self, account_id_bytes: &Vec<u8>) -> (r: Option<AccountOutput>)
        requires
            self.wf(),
            self.lockup_accounts@.len() < 0x100000000,
        ensures
            r is Some <==> exists|j: int|
                0 <= j < self.lockup_accounts@.len()
                    && (#[trigger] self.lockup_accounts@[j]).account_hash@ == sha256_of(
                    account_id_bytes@,
                ),
            match r {
                Some(out) => exists|j: int|
                    {
                        &&& 0 <= j < self.lockup_accounts@.len()
                        &&& (#[trigger] self.lockup_accounts@[j]).account_hash@ == sha256_of(
                            account_id_bytes@,
                        )
                        &&& out.balance == self.lockup_accounts@[j].balance
                        &&& out.claimed_balance == match self.accounts.spec_get(j as u64) {
                            Some(a) => a.claimed_balance as int,
                            None => 0,
                        }
                    },
                None => true,
            },
    {
        let account_hash = sha256_hash(account_id_bytes);
        match self.find_account(&account_hash) {
            Some(idx) => {
                let claimed_balance = match self.accounts.get(idx as u64) {
                    Some(a) => a.claimed_balance,
                    None => 0,
                };
                Some(
                    AccountOutput {
                        start_timestamp: self.lockup_accounts[idx].start_timestamp,
                        cliff_timestamp: self.lockup_accounts[idx].cliff_timestamp,
                        end_timestamp: self.lockup_accounts[idx].end_timestamp,
                        balance: self.lockup_accounts[idx].balance,
                        claimed_balance,
                    },
                )
            },
            None => None,
        }
    }

    pub fn get_stats(&self) -> (r: Stats)
        ensures
            r.token_account_id == self.token_account_id,
            r.skyward_account_id == self.skyward_account_id,
            r.claim_expiration_timestamp == self.claim_expiration_timestamp,
            r.total_balance == self.total_balance,
            r.untouched_balance == self.untouched_balance,
            r.total_claimed == self.total_claimed,
    {
        Stats {
            token_account_id: self.token_account_id,
            skyward_account_id: self.skyward_account_id,
            claim_expiration_timestamp: self.claim_expiration_timestamp,
            total_balance: self.total_balance,
            untouched_balance: self.untouched_balance,
            total_claimed: self.total_claimed,
        }
    }
}

/// Byte-wise equality of two byte strings.
fn bytes_eq(a: &Vec<u8>, b: &Vec<u8>) -> (r: bool)
    ensures
        r <==> a@ == b@,
{
    if a.len() != b.len() {
        proof {
            assert(a@.len() != b@.len());
        }
        return false;
    }
    let n = a.len();
    let mut i: usize = 0;
    while i < n
        invariant
            n == a@.len(),
            a@.len() == b@.len(),
            i <= n,
            forall|j: int| 0 <= j < i as int ==> a@[j] == b@[j],
        decreases n - i,
    {
        if a[i] != b[i] {
            return false;
        }
        i = i + 1;
    }
    proof {
        assert(a@ =~= b@);
    }
    true
}

/// One row's allocation is bounded by the table's total.
pub proof fn lemma_lockup_row_le_total(rows: Seq<FixedSizeAccount>, i: int)
    requires
        0 <= i < rows.len(),
    ensures
        rows[i].balance <= spec_lockup_total(rows),
        0 <= spec_lockup_total(rows),
    decreases rows.len(),
{
    if rows.len() == 1 {
    } else if i == rows.len() - 1 {
        lemma_lockup_row_le_total(rows.drop_last(), 0);
    } else {
        assert(rows.drop_last()[i] == rows[i]);
        lemma_lockup_row_le_total(rows.drop_last(), i);
    }
}

/// Sums the allocation table.
pub fn compute_total_balance(rows: &Vec<FixedSizeAccount>) -> (r: Balance)
    requires
        spec_lockup_total(rows@) < p128(),
    ensures
        r == spec_lockup_total(rows@),
{
    let n = rows.len();
    let mut total: u128 = 0;
    let mut i: usize = 0;
    while i < n
        invariant
            n == rows@.len(),
            i <= n,
            total == spec_lockup_total(rows@.subrange(0, i as int)),
            spec_lockup_total(rows@) < p128(),
        decreases n - i,
    {
        proof {
            assert(rows@.subrange(0, i + 1).drop_last() == rows@.subrange(0, i as int));
            assert(rows@.subrange(0, i + 1).last() == rows@[i as int]);
            lemma_lockup_prefix_le_total(rows@, i + 1);
            lemma_lockup_nonneg(rows@.subrange(0, i as int));
        }
        total = total + rows[i].balance;
        i = i + 1;
    }
    proof {
        assert(rows@.subrange(0, n as int) == rows@);
    }
    total
}

proof fn lemma_lockup_nonneg(rows: Seq<FixedSizeAccount>)
    ensures
        0 <= spec_lockup_total(rows),
    decreases rows.len(),
{
    if rows.len() > 0 {
        lemma_lockup_nonneg(rows.drop_last());
    }
}

proof fn lemma_lockup_prefix_le_total(rows: Seq<FixedSizeAccount>, i: int)
    requires
        0 <= i <= rows.len(),
    ensures
        spec_lockup_total(rows.subrange(0, i)) <= spec_lockup_total(rows),
    decreases rows.len() - i,
{
    if i == rows.len() {
        assert(rows.subrange(0, i) == rows);
    } else {
        assert(rows.subrange(0, i + 1).drop_last() == rows.subrange(0, i));
        lemma_lockup_prefix_le_total(rows, i + 1);
    }
}

} // verus!
