use sha2::Digest;
use skyward::engine::{Contract as SkywardContract, FtOnTransferArgs};
use skyward::lockup::{parse_lockup_accounts, Contract, FixedSizeAccount};
use skyward::treasury::VestingIntervalInput;

const SKYWARD_TOKEN: u64 = 2;
const W_NEAR: u64 = 3;
const SKYWARD: u64 = 1;

const SKYWARD_TOKEN_BASE: u128 = 1_000_000_000_000_000_000;
const SKYWARD_TOTAL_SUPPLY: u128 = 1_000_000 * SKYWARD_TOKEN_BASE;
const CLAIM_EXPIRATION_TIMESTAMP: u32 = 1640000000;
const TIMESTAMP_1: u32 = 1622505600;
const TIMESTAMP_2: u32 = 1625097600;
const TIMESTAMP_3: u32 = 1633046400;
const BALANCE_1: u128 = 10u128.pow(16);
const BALANCE_2: u128 = 10u128.pow(19);
const TOTAL_LOCKUP_BALANCE: u128 = 10010000000000000000;

fn to_nano(sec: u32) -> u64 {
    sec as u64 * 1_000_000_000
}

fn user_bytes(name: &str) -> Vec<u8> {
    name.as_bytes().to_vec()
}

fn user_hash(name: &str) -> Vec<u8> {
    sha2::Sha256::digest(name.as_bytes()).to_vec()
}

fn lockup_rows() -> Vec<FixedSizeAccount> {
    vec![
        FixedSizeAccount {
            account_hash: user_hash("user0.near"),
            start_timestamp: TIMESTAMP_1,
            cliff_timestamp: TIMESTAMP_1,
            end_timestamp: TIMESTAMP_2,
            balance: BALANCE_1,
        },
        FixedSizeAccount {
            account_hash: user_hash("user1.near"),
            start_timestamp: TIMESTAMP_1,
            cliff_timestamp: TIMESTAMP_2,
            end_timestamp: TIMESTAMP_3,
            balance: BALANCE_2,
        },
    ]
}

fn new_lockup() -> Contract {
    Contract::new(lockup_rows(), SKYWARD_TOKEN, SKYWARD, CLAIM_EXPIRATION_TIMESTAMP)
}

#[test]
fn mod_test_init() {
    let c = new_lockup();
    let stats = c.get_stats();
    assert_eq!(stats.token_account_id, SKYWARD_TOKEN);
    assert_eq!(stats.skyward_account_id, SKYWARD);
    assert_eq!(stats.claim_expiration_timestamp, CLAIM_EXPIRATION_TIMESTAMP);
    assert_eq!(stats.total_balance, TOTAL_LOCKUP_BALANCE);
    assert_eq!(stats.untouched_balance, TOTAL_LOCKUP_BALANCE);
    assert_eq!(stats.total_claimed, 0);
}

#[test]
fn test_initial_get_account() {
    let c = new_lockup();
    let out = c.get_account(&user_bytes("user0.near")).unwrap();
    assert_eq!(out.start_timestamp, TIMESTAMP_1);
    assert_eq!(out.cliff_timestamp, TIMESTAMP_1);
    assert_eq!(out.end_timestamp, TIMESTAMP_2);
    assert_eq!(out.balance, BALANCE_1);
    assert_eq!(out.claimed_balance, 0);

    let out = c.get_account(&user_bytes("user1.near")).unwrap();
    assert_eq!(out.start_timestamp, TIMESTAMP_1);
    assert_eq!(out.cliff_timestamp, TIMESTAMP_2);
    assert_eq!(out.end_timestamp, TIMESTAMP_3);
    assert_eq!(out.balance, BALANCE_2);
    assert_eq!(out.claimed_balance, 0);

    assert!(c.get_account(&user_bytes("user2.near")).is_none());
}

#[test]
fn test_claim() {
    let mut c = new_lockup();
    let u0 = user_bytes("user0.near");
    let u1 = user_bytes("user1.near");
    let u2 = user_bytes("user2.near");

    // Before the start nothing is unlocked, but a first claim registers
    // the row and removes it from the untouched balance.
    let now = to_nano(TIMESTAMP_1 - 100);
    assert_eq!(c.claim(&u0, now), Some(0));
    assert_eq!(c.get_account(&u0).unwrap().claimed_balance, 0);
    assert_eq!(c.get_stats().untouched_balance, TOTAL_LOCKUP_BALANCE - BALANCE_1);
    assert_eq!(c.get_stats().total_claimed, 0);

    assert_eq!(c.claim(&u1, now), Some(0));
    assert_eq!(c.get_stats().untouched_balance, 0);
    assert_eq!(c.claim(&u1, now), Some(0));
    assert_eq!(c.claim(&u2, now), None);

    // Halfway between start and end, half of the first allocation has
    // unlocked.
    let now = to_nano((TIMESTAMP_2 - TIMESTAMP_1) / 2 + TIMESTAMP_1);
    assert_eq!(c.claim(&u0, now), Some(BALANCE_1 / 2));
    assert_eq!(c.get_account(&u0).unwrap().claimed_balance, BALANCE_1 / 2);
    assert_eq!(c.get_stats().total_claimed, BALANCE_1 / 2);

    // The second allocation is still before its cliff.
    assert_eq!(c.claim(&u1, now), Some(0));
    assert_eq!(c.get_account(&u1).unwrap().claimed_balance, 0);
    assert_eq!(c.get_stats().total_claimed, BALANCE_1 / 2);

    let now = to_nano((TIMESTAMP_3 - TIMESTAMP_1) / 2 + TIMESTAMP_1);
    assert_eq!(c.claim(&u0, now), Some(BALANCE_1 - BALANCE_1 / 2));
    assert_eq!(c.get_account(&u0).unwrap().claimed_balance, BALANCE_1);
    assert_eq!(c.get_stats().total_claimed, BALANCE_1);

    assert_eq!(c.claim(&u1, now), Some(BALANCE_2 / 2));
    assert_eq!(c.get_account(&u1).unwrap().claimed_balance, BALANCE_2 / 2);
    assert_eq!(c.get_stats().total_claimed, BALANCE_1 + BALANCE_2 / 2);

    let now = to_nano(TIMESTAMP_3 + 100);
    assert_eq!(c.claim(&u0, now), Some(0));
    assert_eq!(c.get_account(&u0).unwrap().claimed_balance, BALANCE_1);
    assert_eq!(c.claim(&u1, now), Some(BALANCE_2 - BALANCE_2 / 2));
    assert_eq!(c.get_account(&u1).unwrap().claimed_balance, BALANCE_2);
    assert_eq!(c.get_stats().total_claimed, TOTAL_LOCKUP_BALANCE);
}

#[test]
fn test_claim_unregistered() {
    let mut c = new_lockup();
    let u0 = user_bytes("user0.near");

    let now = to_nano(TIMESTAMP_1 - 100);
    assert_eq!(c.claim(&u0, now), Some(0));
    assert_eq!(c.get_stats().untouched_balance, TOTAL_LOCKUP_BALANCE - BALANCE_1);

    // The transfer of the claimed amount fails (the receiver is not
    // registered on the token), so the claim is rolled back.
    let now = to_nano((TIMESTAMP_2 - TIMESTAMP_1) / 2 + TIMESTAMP_1);
    assert_eq!(c.claim(&u0, now), Some(BALANCE_1 / 2));
    let ok = c.after_ft_transfer(0, BALANCE_1 / 2, false);
    assert!(!ok);
    assert_eq!(c.get_account(&u0).unwrap().claimed_balance, 0);
    assert_eq!(c.get_stats().total_claimed, 0);

    // After registration the claim goes through.
    assert_eq!(c.claim(&u0, now), Some(BALANCE_1 / 2));
    let ok = c.after_ft_transfer(0, BALANCE_1 / 2, true);
    assert!(ok);
    assert_eq!(c.get_account(&u0).unwrap().claimed_balance, BALANCE_1 / 2);
    assert_eq!(c.get_stats().total_claimed, BALANCE_1 / 2);
}

#[test]
fn test_miss_claim() {
    let mut c = new_lockup();
    let u0 = user_bytes("user0.near");
    let u1 = user_bytes("user1.near");

    let mut engine = SkywardContract::new(
        SKYWARD_TOKEN,
        vec![VestingIntervalInput {
            start_timestamp: 0,
            end_timestamp: 1,
            amount: SKYWARD_TOTAL_SUPPLY,
        }],
        0,
        W_NEAR,
    );
    let now = to_nano(TIMESTAMP_1 - 100);
    assert_eq!(
        engine.get_skyward_circulating_supply(now),
        SKYWARD_TOTAL_SUPPLY
    );

    assert_eq!(c.claim(&u1, now), Some(0));
    assert_eq!(c.get_account(&u1).unwrap().claimed_balance, 0);
    assert_eq!(c.get_stats().untouched_balance, BALANCE_1);

    // Too late for an untouched row to be claimed.
    let now = to_nano(CLAIM_EXPIRATION_TIMESTAMP + 1);
    assert_eq!(c.claim(&u0, now), None);
    assert_eq!(c.get_stats().untouched_balance, BALANCE_1);

    // The untouched allocation is donated to the treasury, which burns
    // it because it is the native token.
    let donated = c.donate_to_treasury(now);
    assert_eq!(donated, BALANCE_1);
    let stats = c.get_stats();
    assert_eq!(stats.total_balance, BALANCE_2);
    assert_eq!(stats.untouched_balance, 0);
    assert_eq!(stats.total_claimed, 0);

    engine.ft_on_transfer(SKYWARD, SKYWARD_TOKEN, donated, FtOnTransferArgs::DonateToTreasury);
    assert_eq!(
        engine.get_skyward_circulating_supply(now),
        SKYWARD_TOTAL_SUPPLY - BALANCE_1
    );
}

#[test]
fn test_claim_idempotent_within_second() {
    // Two claims at the very same instant: the second transfers zero.
    let mut c = new_lockup();
    let u0 = user_bytes("user0.near");
    let now = to_nano((TIMESTAMP_2 - TIMESTAMP_1) / 2 + TIMESTAMP_1);
    assert_eq!(c.claim(&u0, now), Some(BALANCE_1 / 2));
    assert_eq!(c.claim(&u0, now), Some(0));
    assert_eq!(c.get_stats().total_claimed, BALANCE_1 / 2);
}

#[test]
fn test_donation_failure_restores_balances() {
    let mut c = new_lockup();
    let now = to_nano(CLAIM_EXPIRATION_TIMESTAMP + 1);
    let donated = c.donate_to_treasury(now);
    assert_eq!(donated, TOTAL_LOCKUP_BALANCE);
    assert_eq!(c.get_stats().total_balance, 0);
    c.after_donation(donated, false);
    assert_eq!(c.get_stats().total_balance, TOTAL_LOCKUP_BALANCE);
    assert_eq!(c.get_stats().untouched_balance, TOTAL_LOCKUP_BALANCE);
}

#[test]
fn test_lockup_table_codec() {
    // Packs the two rows the way the shipped table is packed, and
    // parses them back.
    let rows = lockup_rows();
    let mut data: Vec<u8> = Vec::new();
    for row in &rows {
        data.extend_from_slice(&row.account_hash);
        data.extend_from_slice(&row.start_timestamp.to_le_bytes());
        data.extend_from_slice(&row.cliff_timestamp.to_le_bytes());
        data.extend_from_slice(&row.end_timestamp.to_le_bytes());
        data.extend_from_slice(&row.balance.to_le_bytes());
    }
    assert_eq!(data.len(), 120);
    let parsed = parse_lockup_accounts(&data).unwrap();
    assert_eq!(parsed.len(), 2);
    for (p, r) in parsed.iter().zip(rows.iter()) {
        assert_eq!(p.account_hash, r.account_hash);
        assert_eq!(p.start_timestamp, r.start_timestamp);
        assert_eq!(p.cliff_timestamp, r.cliff_timestamp);
        assert_eq!(p.end_timestamp, r.end_timestamp);
        assert_eq!(p.balance, r.balance);
    }

    // A truncated table is rejected.
    let mut bad = data.clone();
    bad.pop();
    assert!(parse_lockup_accounts(&bad).is_none());
}
