use skyward::engine::{Contract, FtOnTransferArgs};
use skyward::sale::{SaleInput, SaleInputOutToken};
use skyward::treasury::VestingIntervalInput;

const SKYWARD: u64 = 1;
const SKYWARD_TOKEN: u64 = 2;
const W_NEAR: u64 = 3;
const SKYWARD_DAO: u64 = 4;
const ALICE: u64 = 10;
const BOB: u64 = 11;
const TOKEN1: u64 = 20;
const PERMISSIONS_ID: u64 = 30;

const SKYWARD_TOKEN_BASE: u128 = 1_000_000_000_000_000_000;
const SKYWARD_TOTAL_SUPPLY: u128 = 1_000_000 * SKYWARD_TOKEN_BASE;
const GENESIS_TIME: u64 = 1_600_000_000_000_000_000; // in nanoseconds
const WEEK_NANO: u64 = 7 * 24 * 60 * 60 * 1_000_000_000;
const BLOCK_DURATION: u64 = 1_000_000_000;

fn yocto(n: u64) -> u128 {
    n as u128 * 10u128.pow(24)
}

fn new_engine() -> Contract {
    Contract::new(
        SKYWARD_TOKEN,
        vec![VestingIntervalInput {
            start_timestamp: 0,
            end_timestamp: 1,
            amount: SKYWARD_TOTAL_SUPPLY,
        }],
        yocto(10),
        W_NEAR,
    )
}

fn fund(c: &mut Contract, account: u64, token: u64, amount: u128) {
    c.register_tokens(account, vec![token]);
    c.ft_on_transfer(account, token, amount, FtOnTransferArgs::AccountDeposit);
}

fn simple_sale_input(token: u64, amount: u128, start_time: u64, duration: u64) -> SaleInput {
    SaleInput {
        title: "sale title".to_string(),
        url: None,
        out_tokens: vec![SaleInputOutToken {
            token_account_id: token,
            balance: amount,
        }],
        in_token_account_id: W_NEAR,
        start_time,
        duration,
    }
}

fn balance_of(c: &Contract, account: u64, token: u64) -> u128 {
    c.balance_of(account, token).unwrap_or(0)
}

#[test]
fn test_init() {
    let c = new_engine();
    assert_eq!(c.get_skyward_token_id(), SKYWARD_TOKEN);
    assert_eq!(c.get_listing_fee(), yocto(10));
    assert_eq!(c.num_sales, 0);
    assert_eq!(c.get_treasury_num_balances(), 0);
}

#[test]
fn test_account_deposit() {
    let mut c = new_engine();
    fund(&mut c, ALICE, W_NEAR, yocto(10));
    assert_eq!(balance_of(&c, ALICE, W_NEAR), yocto(10));
}

#[test]
fn test_account_donate() {
    let mut c = new_engine();
    fund(&mut c, ALICE, W_NEAR, yocto(10));
    fund(&mut c, ALICE, TOKEN1, yocto(10000));

    c.donate_token_to_treasury(ALICE, TOKEN1, yocto(1000));

    assert_eq!(balance_of(&c, ALICE, W_NEAR), yocto(10));
    assert_eq!(balance_of(&c, ALICE, TOKEN1), yocto(9000));
    assert_eq!(c.get_treasury_balance(W_NEAR), Some(0));
    assert_eq!(c.get_treasury_balance(TOKEN1), Some(yocto(1000)));
}

#[test]
fn test_ft_transfer_call_donate() {
    let mut c = new_engine();
    fund(&mut c, ALICE, W_NEAR, yocto(10));
    fund(&mut c, ALICE, TOKEN1, yocto(10000));
    assert_eq!(c.get_treasury_balance(TOKEN1), Some(0));

    let refund = c.ft_on_transfer(
        ALICE,
        TOKEN1,
        yocto(50000),
        FtOnTransferArgs::DonateToTreasury,
    );
    assert_eq!(refund, 0);
    assert_eq!(c.get_treasury_balance(TOKEN1), Some(yocto(50000)));
}

#[test]
fn test_create_sale() {
    let mut c = new_engine();
    fund(&mut c, ALICE, W_NEAR, yocto(10));
    fund(&mut c, ALICE, TOKEN1, yocto(10000));

    let now = GENESIS_TIME;
    let start_time = now + WEEK_NANO + BLOCK_DURATION * 15;
    let duration = BLOCK_DURATION * 60;
    let sale_id = c.sale_create(
        simple_sale_input(TOKEN1, yocto(4000), start_time, duration),
        ALICE,
        SKYWARD,
        false,
        now,
    );
    assert_eq!(sale_id, 0);
    assert_eq!(c.num_sales, 1);

    let sale = c.sales.get(0).unwrap();
    assert_eq!(sale.title, "sale title");
    assert_eq!(sale.owner_id, ALICE);
    assert_eq!(sale.out_tokens.len(), 1);
    assert_eq!(sale.out_tokens[0].token_account_id, TOKEN1);
    assert_eq!(sale.out_tokens[0].remaining, yocto(4000));
    assert_eq!(sale.out_tokens[0].distributed, 0);
    assert_eq!(sale.out_tokens[0].treasury_unclaimed, Some(0));
    assert_eq!(sale.in_token_account_id, W_NEAR);
    assert_eq!(sale.in_token_remaining, 0);
    assert_eq!(sale.in_token_paid, 0);
    assert_eq!(sale.total_shares, 0);
    assert_eq!(sale.start_time, start_time);
    assert_eq!(sale.duration, duration);

    assert_eq!(balance_of(&c, ALICE, W_NEAR), yocto(10));
    assert_eq!(balance_of(&c, ALICE, TOKEN1), yocto(6000));
}

#[test]
fn test_join_sale() {
    let mut c = new_engine();
    fund(&mut c, ALICE, W_NEAR, yocto(10));
    fund(&mut c, ALICE, TOKEN1, yocto(10000));
    fund(&mut c, BOB, W_NEAR, yocto(10));

    let now = GENESIS_TIME;
    let start_time = now + WEEK_NANO + BLOCK_DURATION * 15;
    let duration = BLOCK_DURATION * 60;
    c.sale_create(
        simple_sale_input(TOKEN1, yocto(3600), start_time, duration),
        ALICE,
        SKYWARD,
        false,
        now,
    );

    let r = c.internal_deposit_in_amount(0, BOB, yocto(4), None, false, SKYWARD, now);
    assert!(r.is_none());
    {
        let sale = c.sales.get(0).unwrap();
        assert_eq!(sale.in_token_remaining, yocto(4));
        assert_eq!(sale.total_shares, yocto(4));
        let bob = c.accounts.get(BOB).unwrap();
        let sub = bob.subs.get(0).unwrap();
        assert_eq!(sub.shares, yocto(4));
        assert_eq!(sub.spent_in_balance_without_shares, 0);
        assert_eq!(sale.shares_to_in_balance(sub.shares), yocto(4));
    }
    assert_eq!(balance_of(&c, BOB, W_NEAR), yocto(6));
    assert_eq!(balance_of(&c, BOB, TOKEN1), 0);

    // Halfway through, half of everything has been attributed.
    let t_half = start_time + duration / 2;
    let mut sale = c.sales.remove(0).unwrap();
    sale.touch(t_half);
    assert_eq!(sale.out_tokens[0].remaining, yocto(1800));
    assert_eq!(sale.out_tokens[0].distributed, yocto(1800));
    assert_eq!(sale.out_tokens[0].treasury_unclaimed, Some(yocto(18)));
    assert_eq!(sale.in_token_remaining, yocto(2));
    assert_eq!(sale.in_token_paid_unclaimed, yocto(2));
    assert_eq!(sale.in_token_paid, yocto(2));
    c.sales.insert(0, sale);

    // At the end the pool is fully drained.
    let t_end = start_time + duration;
    let mut sale = c.sales.remove(0).unwrap();
    sale.touch(t_end);
    assert_eq!(sale.out_tokens[0].remaining, 0);
    assert_eq!(sale.out_tokens[0].distributed, yocto(3600));
    assert_eq!(sale.out_tokens[0].treasury_unclaimed, Some(yocto(36)));
    assert_eq!(sale.in_token_remaining, 0);
    assert_eq!(sale.in_token_paid_unclaimed, yocto(4));
    assert_eq!(sale.in_token_paid, yocto(4));
    c.sales.insert(0, sale);

    c.sale_distribute_unclaimed_tokens(0, SKYWARD, t_end);
    assert_eq!(balance_of(&c, ALICE, W_NEAR), yocto(10) + 3_960_000_000_000_000_000_000_000);
    assert_eq!(balance_of(&c, ALICE, TOKEN1), yocto(6400));
    assert_eq!(
        c.get_treasury_balance(W_NEAR),
        Some(40_000_000_000_000_000_000_000)
    );
    assert_eq!(c.get_treasury_balance(TOKEN1), Some(yocto(36)));

    c.sale_claim_out_tokens(0, BOB, SKYWARD, t_end);
    assert_eq!(balance_of(&c, BOB, W_NEAR), yocto(6));
    assert_eq!(balance_of(&c, BOB, TOKEN1), yocto(3564));
    let sale = c.sales.get(0).unwrap();
    assert_eq!(sale.total_shares, 0);
    assert!(c.accounts.get(BOB).unwrap().subs.get(0).is_none());
}

#[test]
fn test_regular_sale_join_in_the_middle() {
    let mut c = new_engine();
    fund(&mut c, ALICE, W_NEAR, yocto(10));
    fund(&mut c, ALICE, TOKEN1, yocto(10000));
    fund(&mut c, BOB, W_NEAR, yocto(10));

    let now = GENESIS_TIME;
    let start_time = now + WEEK_NANO + BLOCK_DURATION * 15;
    let duration = BLOCK_DURATION * 60;
    c.sale_create(
        simple_sale_input(TOKEN1, yocto(4000), start_time, duration),
        ALICE,
        SKYWARD,
        false,
        now,
    );

    // Nobody held shares in the first half, so nothing was distributed.
    let t_half = start_time + duration / 2;
    c.internal_deposit_in_amount(0, BOB, yocto(4), None, false, SKYWARD, t_half);

    let t_end = start_time + duration;
    c.sale_claim_out_tokens(0, BOB, SKYWARD, t_end);

    assert_eq!(balance_of(&c, BOB, W_NEAR), yocto(6));
    assert_eq!(balance_of(&c, BOB, TOKEN1), yocto(4000) * 99 / 100);

    c.sale_distribute_unclaimed_tokens(0, SKYWARD, t_end);
    assert_eq!(balance_of(&c, ALICE, W_NEAR), yocto(10) + yocto(4) * 99 / 100);
    assert_eq!(balance_of(&c, ALICE, TOKEN1), yocto(6000));
}

#[test]
fn test_regular_sale_half_empty() {
    let mut c = new_engine();
    fund(&mut c, ALICE, W_NEAR, yocto(10));
    fund(&mut c, ALICE, TOKEN1, yocto(10000));
    fund(&mut c, BOB, W_NEAR, yocto(10));

    let now = GENESIS_TIME;
    let start_time = now + WEEK_NANO + BLOCK_DURATION * 15;
    let duration = BLOCK_DURATION * 60;
    let sale_amount = yocto(4000);
    c.sale_create(
        simple_sale_input(TOKEN1, sale_amount, start_time, duration),
        ALICE,
        SKYWARD,
        false,
        now,
    );

    c.internal_deposit_in_amount(0, BOB, yocto(4), None, false, SKYWARD, now);

    // Bob leaves at the halfway point, taking his accrual and half his
    // in-tokens; the other half of the pool stays undistributed.
    let t_half = start_time + duration / 2;
    let withdrawn = c.internal_withdraw_shares(0, BOB, None, SKYWARD, t_half);
    assert_eq!(withdrawn, yocto(2));

    assert_eq!(balance_of(&c, BOB, W_NEAR), yocto(8));
    assert_eq!(balance_of(&c, BOB, TOKEN1), sale_amount * 99 / 100 / 2);

    assert_eq!(
        balance_of(&c, ALICE, W_NEAR),
        yocto(10) + yocto(2) * 99 / 100
    );

    let t_end = start_time + duration;
    c.sale_distribute_unclaimed_tokens(0, SKYWARD, t_end);
    // With no shares left, the second half was never distributed.
    let sale = c.sales.get(0).unwrap();
    assert_eq!(sale.out_tokens[0].remaining, sale_amount / 2);
    assert_eq!(sale.in_token_paid, yocto(2));
    assert_eq!(balance_of(&c, ALICE, TOKEN1), yocto(6000));
}

#[test]
fn test_join_sale_and_withdraw_exact() {
    let mut c = new_engine();
    fund(&mut c, SKYWARD_DAO, SKYWARD_TOKEN, 20000 * SKYWARD_TOKEN_BASE);
    fund(&mut c, SKYWARD_DAO, W_NEAR, 0);
    fund(&mut c, ALICE, W_NEAR, yocto(10));

    let sale_amount = 10000 * SKYWARD_TOKEN_BASE;
    let now = GENESIS_TIME;
    let start_time = now + WEEK_NANO + BLOCK_DURATION * 15;
    let duration = BLOCK_DURATION * 60;
    c.sale_create(
        simple_sale_input(SKYWARD_TOKEN, sale_amount, start_time, duration),
        SKYWARD_DAO,
        SKYWARD,
        false,
        now,
    );
    assert_eq!(
        balance_of(&c, SKYWARD_DAO, SKYWARD_TOKEN),
        sale_amount
    );

    c.internal_deposit_in_amount(0, ALICE, yocto(4), None, false, SKYWARD, now);
    assert_eq!(balance_of(&c, ALICE, W_NEAR), yocto(6));

    // Withdrawing an exact amount returns exactly that amount.
    let t_third = start_time + duration / 3;
    c.internal_withdraw_in_token_exact(0, ALICE, yocto(2), SKYWARD, t_third);
    assert_eq!(balance_of(&c, ALICE, W_NEAR), yocto(8));
}

#[test]
fn test_join_sale_with_referral() {
    let mut c = new_engine();
    fund(&mut c, SKYWARD_DAO, SKYWARD_TOKEN, 20000 * SKYWARD_TOKEN_BASE);
    fund(&mut c, SKYWARD_DAO, W_NEAR, 0);
    fund(&mut c, ALICE, W_NEAR, yocto(10));
    fund(&mut c, ALICE, SKYWARD_TOKEN, 0);
    fund(&mut c, BOB, W_NEAR, yocto(10));

    let sale_amount = 10000 * SKYWARD_TOKEN_BASE;
    let now = GENESIS_TIME;
    let start_time = now + WEEK_NANO + BLOCK_DURATION * 15;
    let duration = BLOCK_DURATION * 60;
    c.sale_create(
        simple_sale_input(SKYWARD_TOKEN, sale_amount, start_time, duration),
        SKYWARD_DAO,
        SKYWARD,
        false,
        now,
    );

    c.internal_deposit_in_amount(0, BOB, yocto(4), Some(ALICE), false, SKYWARD, now);

    let t_end = start_time + duration;
    c.sale_claim_out_tokens(0, BOB, SKYWARD, t_end);

    // One percent of the native accrual goes to the referral.
    assert_eq!(balance_of(&c, ALICE, SKYWARD_TOKEN), sale_amount / 100);
    assert_eq!(
        balance_of(&c, BOB, SKYWARD_TOKEN),
        sale_amount - sale_amount / 100
    );
    assert_eq!(c.treasury.skyward_burned_amount, 0);

    c.sale_distribute_unclaimed_tokens(0, SKYWARD, t_end);
    assert_eq!(balance_of(&c, SKYWARD_DAO, W_NEAR), yocto(4) * 99 / 100);
    assert_eq!(
        c.get_treasury_balance(W_NEAR),
        Some(yocto(4) / 100)
    );
}

#[test]
fn test_join_sale_with_referral_and_alice() {
    let mut c = new_engine();
    fund(&mut c, SKYWARD_DAO, SKYWARD_TOKEN, 20000 * SKYWARD_TOKEN_BASE);
    fund(&mut c, SKYWARD_DAO, W_NEAR, 0);
    fund(&mut c, ALICE, W_NEAR, yocto(10));
    fund(&mut c, ALICE, SKYWARD_TOKEN, 0);
    fund(&mut c, BOB, W_NEAR, yocto(10));

    let sale_amount = 10000 * SKYWARD_TOKEN_BASE;
    let now = GENESIS_TIME;
    let start_time = now + WEEK_NANO + BLOCK_DURATION * 15;
    let duration = BLOCK_DURATION * 60;
    c.sale_create(
        simple_sale_input(SKYWARD_TOKEN, sale_amount, start_time, duration),
        SKYWARD_DAO,
        SKYWARD,
        false,
        now,
    );

    // Bob deposits 4 referring Alice; Alice deposits 1 with no referral.
    c.internal_deposit_in_amount(0, BOB, yocto(4), Some(ALICE), false, SKYWARD, now);
    c.internal_deposit_in_amount(0, ALICE, yocto(1), None, false, SKYWARD, now);

    let supply_before = c.get_skyward_circulating_supply(GENESIS_TIME);

    let t_end = start_time + duration;
    c.sale_claim_out_tokens(0, BOB, SKYWARD, t_end);
    assert_eq!(
        balance_of(&c, BOB, SKYWARD_TOKEN),
        sale_amount * 4 / 5 * 99 / 100
    );
    assert_eq!(
        balance_of(&c, ALICE, SKYWARD_TOKEN),
        sale_amount * 4 / 5 / 100
    );

    c.sale_claim_out_tokens(0, ALICE, SKYWARD, t_end);
    // Alice has no referral, so her one percent is burned.
    assert_eq!(
        balance_of(&c, ALICE, SKYWARD_TOKEN),
        sale_amount * 4 / 5 / 100 + sale_amount / 5 * 99 / 100
    );
    assert_eq!(c.treasury.skyward_burned_amount, sale_amount / 5 / 100);
    let supply_after = c.get_skyward_circulating_supply(t_end);
    assert_eq!(supply_before - supply_after, sale_amount / 5 / 100);
}

#[test]
fn test_join_sale_and_leave() {
    let mut c = new_engine();
    fund(&mut c, SKYWARD_DAO, SKYWARD_TOKEN, 20000 * SKYWARD_TOKEN_BASE);
    fund(&mut c, SKYWARD_DAO, W_NEAR, 0);
    fund(&mut c, ALICE, W_NEAR, yocto(10));
    fund(&mut c, ALICE, SKYWARD_TOKEN, 0);
    fund(&mut c, BOB, W_NEAR, yocto(10));

    let sale_amount = 10000 * SKYWARD_TOKEN_BASE;
    let now = GENESIS_TIME;
    let start_time = now + WEEK_NANO + BLOCK_DURATION * 15;
    let duration = BLOCK_DURATION * 60;
    c.sale_create(
        simple_sale_input(SKYWARD_TOKEN, sale_amount, start_time, duration),
        SKYWARD_DAO,
        SKYWARD,
        false,
        now,
    );

    c.internal_deposit_in_amount(0, BOB, yocto(4), Some(ALICE), false, SKYWARD, now);
    c.internal_deposit_in_amount(0, ALICE, yocto(1), None, false, SKYWARD, now);
    {
        let sale = c.sales.get(0).unwrap();
        assert_eq!(sale.in_token_remaining, yocto(5));
        assert_eq!(sale.total_shares, yocto(5));
    }

    // Alice leaves at the halfway point: she gets half her in-tokens
    // back and her accrual, minus the burned referral cut.
    let t_half = start_time + duration / 2;
    let withdrawn = c.internal_withdraw_shares(0, ALICE, None, SKYWARD, t_half);
    assert_eq!(withdrawn, yocto(1) / 2);
    assert_eq!(balance_of(&c, ALICE, W_NEAR), yocto(9) + yocto(1) / 2);
    assert_eq!(
        balance_of(&c, ALICE, SKYWARD_TOKEN),
        sale_amount / 5 / 2 * 99 / 100
    );
    assert_eq!(c.treasury.skyward_burned_amount, sale_amount / 5 / 2 / 100);
    {
        let sale = c.sales.get(0).unwrap();
        assert_eq!(sale.in_token_remaining, yocto(2));
        assert_eq!(sale.total_shares, yocto(4));
    }

    // Bob rides the sale to the end and claims everything else.
    let t_end = start_time + duration;
    c.sale_claim_out_tokens(0, BOB, SKYWARD, t_end);
    let bob_total = sale_amount / 2 + sale_amount / 5 * 4 / 2;
    assert_eq!(
        balance_of(&c, BOB, SKYWARD_TOKEN),
        bob_total - bob_total / 100
    );
    assert_eq!(
        balance_of(&c, ALICE, SKYWARD_TOKEN),
        sale_amount / 5 / 2 * 99 / 100 + bob_total / 100
    );
}

#[test]
fn test_skyward_sale_alice_joins_in_the_middle() {
    // An engine-owned sale seeds the native token and extends the
    // vesting schedule.
    let sale_amount = 10000 * SKYWARD_TOKEN_BASE;
    let mut c2 = Contract::new(SKYWARD_TOKEN, vec![], yocto(10), W_NEAR);
    fund(&mut c2, ALICE, W_NEAR, yocto(10));
    fund(&mut c2, ALICE, SKYWARD_TOKEN, 0);
    let now = GENESIS_TIME;
    let start_time = now + WEEK_NANO + BLOCK_DURATION * 15;
    let duration = BLOCK_DURATION * 60;
    c2.sale_create(
        simple_sale_input(SKYWARD_TOKEN, sale_amount, start_time, duration),
        SKYWARD,
        SKYWARD,
        false,
        now,
    );
    assert_eq!(c2.treasury.skyward_vesting_schedule.len(), 1);
    assert_eq!(c2.get_skyward_circulating_supply(now), 0);

    // Alice joins at the halfway point; the first half was never
    // distributed, so she gets everything.
    let t_half = start_time + duration / 2;
    c2.internal_deposit_in_amount(0, ALICE, yocto(4), None, false, SKYWARD, t_half);
    let t_end = start_time + duration;
    c2.sale_claim_out_tokens(0, ALICE, SKYWARD, t_end);
    assert_eq!(
        balance_of(&c2, ALICE, SKYWARD_TOKEN),
        sale_amount - sale_amount / 100
    );
    assert_eq!(c2.treasury.skyward_burned_amount, sale_amount / 100);

    // The engine's own sale donates its in-token proceeds to the
    // treasury.
    c2.sale_distribute_unclaimed_tokens(0, SKYWARD, t_end);
    assert_eq!(c2.get_treasury_balance(W_NEAR), Some(yocto(4)));
}

#[test]
fn test_skyward_sale_ref() {
    let mut c = Contract::new(SKYWARD_TOKEN, vec![], yocto(10), W_NEAR);
    fund(&mut c, ALICE, W_NEAR, yocto(10));
    fund(&mut c, ALICE, SKYWARD_TOKEN, 0);
    fund(&mut c, BOB, W_NEAR, yocto(10));

    let sale_amount = 10000 * SKYWARD_TOKEN_BASE;
    let now = GENESIS_TIME;
    let start_time = now + WEEK_NANO + BLOCK_DURATION * 15;
    let duration = BLOCK_DURATION * 60;
    c.sale_create(
        simple_sale_input(SKYWARD_TOKEN, sale_amount, start_time, duration),
        SKYWARD,
        SKYWARD,
        false,
        now,
    );

    c.internal_deposit_in_amount(0, BOB, yocto(4), Some(ALICE), false, SKYWARD, now);
    let t_end = start_time + duration;
    c.sale_claim_out_tokens(0, BOB, SKYWARD, t_end);

    assert_eq!(balance_of(&c, ALICE, SKYWARD_TOKEN), sale_amount / 100);
    assert_eq!(
        balance_of(&c, BOB, SKYWARD_TOKEN),
        sale_amount - sale_amount / 100
    );
    assert_eq!(c.treasury.skyward_burned_amount, 0);
}

#[test]
fn test_skyward_sale_half_empty() {
    let mut c = Contract::new(SKYWARD_TOKEN, vec![], yocto(10), W_NEAR);
    fund(&mut c, ALICE, W_NEAR, yocto(10));
    fund(&mut c, ALICE, SKYWARD_TOKEN, 0);

    let sale_amount = 10000 * SKYWARD_TOKEN_BASE;
    let now = GENESIS_TIME;
    let start_time = now + WEEK_NANO + BLOCK_DURATION * 15;
    let duration = BLOCK_DURATION * 60;
    c.sale_create(
        simple_sale_input(SKYWARD_TOKEN, sale_amount, start_time, duration),
        SKYWARD,
        SKYWARD,
        false,
        now,
    );
    assert_eq!(c.get_skyward_circulating_supply(now), 0);

    c.internal_deposit_in_amount(0, ALICE, yocto(4), None, false, SKYWARD, now);

    let t_half = start_time + duration / 2;
    let withdrawn = c.internal_withdraw_shares(0, ALICE, None, SKYWARD, t_half);
    assert_eq!(withdrawn, yocto(2));

    assert_eq!(balance_of(&c, ALICE, W_NEAR), yocto(8));
    assert_eq!(
        balance_of(&c, ALICE, SKYWARD_TOKEN),
        sale_amount / 2 * 99 / 100
    );
    assert_eq!(
        c.get_skyward_circulating_supply(t_half),
        sale_amount / 2 - sale_amount / 2 / 100
    );
}

#[test]
fn test_permissions_sale() {
    let mut perms = skyward::permissions::Contract::new(SKYWARD_DAO);
    let mut c = new_engine();
    fund(&mut c, ALICE, W_NEAR, yocto(10));
    fund(&mut c, ALICE, TOKEN1, yocto(10000));
    fund(&mut c, BOB, W_NEAR, yocto(10));

    let now = GENESIS_TIME;
    let start_time = now + WEEK_NANO + BLOCK_DURATION * 15;
    let duration = BLOCK_DURATION * 60;
    let input = simple_sale_input(TOKEN1, yocto(4000), start_time, duration);
    let sale_id = c.sale_create(input, ALICE, SKYWARD, false, now);
    // Mark the sale as permissioned.
    let mut sale = c.sales.remove(sale_id).unwrap();
    sale.permissions_contract_id = Some(PERMISSIONS_ID);
    c.sales.insert(sale_id, sale);

    // An unapproved first deposit only surfaces the oracle to consult.
    let r = c.internal_deposit_in_amount(sale_id, BOB, yocto(4), None, false, SKYWARD, now);
    assert_eq!(r, Some(PERMISSIONS_ID));
    assert!(!perms.is_approved(BOB, sale_id));
    assert_eq!(balance_of(&c, BOB, W_NEAR), yocto(10));

    // After approval the deposit is retried with the check passed.
    perms.approve(SKYWARD_DAO, BOB);
    assert!(perms.is_approved(BOB, sale_id));
    let r = c.internal_deposit_in_amount(sale_id, BOB, yocto(4), None, true, SKYWARD, now);
    assert!(r.is_none());

    // Later deposits see the existing subscription and need no check.
    let r = c.internal_deposit_in_amount(sale_id, BOB, yocto(4), None, false, SKYWARD, now);
    assert!(r.is_none());

    let t_end = start_time + duration;
    c.sale_claim_out_tokens(sale_id, BOB, SKYWARD, t_end);
    assert_eq!(balance_of(&c, BOB, W_NEAR), yocto(2));
    assert_eq!(balance_of(&c, BOB, TOKEN1), yocto(4000) * 99 / 100);
}

#[test]
fn test_invalid_permissions_sale() {
    let mut perms = skyward::permissions::Contract::new(SKYWARD_DAO);
    let mut c = new_engine();
    fund(&mut c, ALICE, W_NEAR, yocto(10));
    fund(&mut c, ALICE, TOKEN1, yocto(10000));
    fund(&mut c, BOB, W_NEAR, yocto(10));

    let now = GENESIS_TIME;
    let start_time = now + WEEK_NANO + BLOCK_DURATION * 15;
    let duration = BLOCK_DURATION * 60;
    let sale_id = c.sale_create(
        simple_sale_input(TOKEN1, yocto(4000), start_time, duration),
        ALICE,
        SKYWARD,
        false,
        now,
    );
    let mut sale = c.sales.remove(sale_id).unwrap();
    sale.permissions_contract_id = Some(PERMISSIONS_ID);
    c.sales.insert(sale_id, sale);

    // Without approval, the deposit keeps being referred to the oracle
    // and nothing changes.
    let r = c.internal_deposit_in_amount(sale_id, BOB, yocto(4), None, false, SKYWARD, now);
    assert_eq!(r, Some(PERMISSIONS_ID));
    assert!(!perms.is_approved(BOB, sale_id));
    let r = c.internal_deposit_in_amount(sale_id, BOB, yocto(4), None, false, SKYWARD, now);
    assert_eq!(r, Some(PERMISSIONS_ID));
    assert_eq!(balance_of(&c, BOB, W_NEAR), yocto(10));

    // A rejection leaves the account unapproved.
    perms.approve(SKYWARD_DAO, BOB);
    perms.reject(SKYWARD_DAO, BOB);
    assert!(!perms.is_approved(BOB, sale_id));
}

#[test]
fn test_circulating_supply() {
    const DAY: u32 = 24 * 60 * 60;
    const WEEK: u32 = 7 * DAY;
    const MONTH: u32 = 30 * DAY;
    const GENESIS_SEC: u32 = 1_600_000_000;
    let base = SKYWARD_TOKEN_BASE;

    let mut c = Contract::new(
        SKYWARD_TOKEN,
        vec![
            VestingIntervalInput {
                start_timestamp: GENESIS_SEC + MONTH,
                end_timestamp: GENESIS_SEC + MONTH * 2,
                amount: 10000 * base,
            },
            VestingIntervalInput {
                start_timestamp: GENESIS_SEC + MONTH * 6,
                end_timestamp: GENESIS_SEC + MONTH * 12,
                amount: 90000 * base,
            },
        ],
        yocto(10),
        W_NEAR,
    );

    let to_nano = |sec: u32| -> u64 { sec as u64 * 1_000_000_000 };
    let sales_input: [(u128, u32); 7] = [
        (5, WEEK),
        (20, WEEK * 3),
        (20, MONTH + WEEK * 3),
        (15, 2 * MONTH + WEEK * 3),
        (10, 3 * MONTH + WEEK * 3),
        (10, 4 * MONTH + WEEK * 3),
        (10, 5 * MONTH + WEEK * 3),
    ];
    let now = to_nano(GENESIS_SEC);
    let mut starts: Vec<u64> = Vec::new();
    for (amount, start_offset) in sales_input.iter() {
        let sale_amount = amount * 10000 * base;
        let start_time = now + to_nano(*start_offset);
        let duration = to_nano(WEEK);
        starts.push(start_time);
        c.sale_create(
            simple_sale_input(SKYWARD_TOKEN, sale_amount, start_time, duration),
            SKYWARD,
            SKYWARD,
            false,
            now,
        );
    }

    assert_eq!(c.get_skyward_circulating_supply(now), 0);
    let week = to_nano(WEEK);
    assert_eq!(
        c.get_skyward_circulating_supply(starts[0] + week / 2),
        25000 * base
    );
    assert_eq!(
        c.get_skyward_circulating_supply(starts[0] + week),
        50000 * base
    );
    assert_eq!(
        c.get_skyward_circulating_supply(to_nano(GENESIS_SEC + WEEK * 2)),
        50000 * base
    );
    assert_eq!(c.get_skyward_circulating_supply(starts[1]), 50000 * base);
    assert_eq!(
        c.get_skyward_circulating_supply(starts[1] + week / 2),
        150000 * base
    );
    assert_eq!(
        c.get_skyward_circulating_supply(starts[1] + week),
        250000 * base
    );
    assert_eq!(
        c.get_skyward_circulating_supply(to_nano(GENESIS_SEC + MONTH + MONTH / 2)),
        255000 * base
    );
    assert_eq!(
        c.get_skyward_circulating_supply(to_nano(GENESIS_SEC + MONTH * 2)),
        460000 * base
    );
    assert_eq!(
        c.get_skyward_circulating_supply(starts[3] + week / 2),
        535000 * base
    );
    assert_eq!(
        c.get_skyward_circulating_supply(to_nano(GENESIS_SEC + MONTH * 6)),
        910000 * base
    );
    assert_eq!(
        c.get_skyward_circulating_supply(to_nano(GENESIS_SEC + MONTH * 9)),
        955000 * base
    );
    assert_eq!(
        c.get_skyward_circulating_supply(to_nano(GENESIS_SEC + MONTH * 12)),
        1_000_000 * base
    );
}

#[test]
fn test_wrap_extra_near() {
    // Wrapping spare native balance: only a successful wrap credits the
    // treasury's wrapped-native balance.
    let mut c = new_engine();
    let ok = c.after_near_deposit(yocto(9000), true);
    assert!(ok);
    assert_eq!(c.get_treasury_balance(W_NEAR), Some(yocto(9000)));
    let ok = c.after_near_deposit(yocto(10), false);
    assert!(!ok);
    assert_eq!(c.get_treasury_balance(W_NEAR), Some(yocto(9000)));
    let ok = c.after_near_deposit(yocto(10), true);
    assert!(ok);
    assert_eq!(c.get_treasury_balance(W_NEAR), Some(yocto(9010)));
}

#[test]
fn test_failed_token_withdraw_is_refunded() {
    let mut c = new_engine();
    fund(&mut c, ALICE, TOKEN1, yocto(100));
    c.withdraw_token(ALICE, TOKEN1, yocto(40));
    assert_eq!(balance_of(&c, ALICE, TOKEN1), yocto(60));
    // The external transfer failed; the debit is restored.
    let ok = c.after_ft_transfer(ALICE, TOKEN1, yocto(40), false);
    assert!(!ok);
    assert_eq!(balance_of(&c, ALICE, TOKEN1), yocto(100));
    // A successful transfer leaves the books as they are.
    c.withdraw_token(ALICE, TOKEN1, yocto(25));
    let ok = c.after_ft_transfer(ALICE, TOKEN1, yocto(25), true);
    assert!(ok);
    assert_eq!(balance_of(&c, ALICE, TOKEN1), yocto(75));
}

#[test]
fn test_get_sales_views() {
    let mut c = new_engine();
    fund(&mut c, ALICE, W_NEAR, yocto(10));
    fund(&mut c, ALICE, TOKEN1, yocto(10000));

    let now = GENESIS_TIME;
    let start_time = now + WEEK_NANO + BLOCK_DURATION * 15;
    let duration = BLOCK_DURATION * 60;
    let id0 = c.sale_create(
        simple_sale_input(TOKEN1, yocto(100), start_time, duration),
        ALICE,
        SKYWARD,
        false,
        now,
    );
    let id1 = c.sale_create(
        simple_sale_input(TOKEN1, yocto(200), start_time, duration),
        ALICE,
        SKYWARD,
        false,
        now,
    );
    assert_eq!((id0, id1), (0, 1));

    let all = c.get_sales(None, 0, 10);
    assert_eq!(all.len(), 2);
    assert_eq!(all[0].sale_id, 0);
    assert_eq!(all[1].sale_id, 1);
    assert_eq!(all[1].out_tokens[0].remaining, yocto(200));

    let page = c.get_sales(None, 1, 1);
    assert_eq!(page.len(), 1);
    assert_eq!(page[0].sale_id, 1);

    let owned = c.get_account_sales(ALICE, 0, 10);
    assert_eq!(owned.len(), 2);
    assert_eq!(owned[0].sale_id, 0);

    // Alice is not subscribed to anything yet.
    assert_eq!(c.get_subscribed_sales(ALICE, 0, 10).len(), 0);
    c.internal_deposit_in_amount(0, ALICE, yocto(1), None, false, SKYWARD, now);
    let subscribed = c.get_subscribed_sales(ALICE, 0, 10);
    assert_eq!(subscribed.len(), 1);
    assert_eq!(subscribed[0].sale_id, 0);
    let sub_view = subscribed[0].subscription.as_ref().unwrap();
    assert_eq!(sub_view.shares, yocto(1));
    assert_eq!(sub_view.remaining_in_balance, yocto(1));
}
