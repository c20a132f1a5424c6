use skyward::engine::{Contract, FtOnTransferArgs};
use skyward::treasury::{Treasury, VestingInterval, VestingIntervalInput};

const SKYWARD_TOKEN: u64 = 2;
const W_NEAR: u64 = 3;
const HOLDER: u64 = 12;
const TOKEN_X: u64 = 21;
const TOKEN_Y: u64 = 22;

fn fund(c: &mut Contract, account: u64, token: u64, amount: u128) {
    c.register_tokens(account, vec![token]);
    c.ft_on_transfer(account, token, amount, FtOnTransferArgs::AccountDeposit);
}

#[test]
fn test_redeem_two_tokens() {
    // The treasury holds 100 X and 200 Y against a circulating supply of
    // 1000 native tokens; redeeming 10 native pays out 1 X and 2 Y.
    let mut c = Contract::new(
        SKYWARD_TOKEN,
        vec![VestingIntervalInput {
            start_timestamp: 0,
            end_timestamp: 1,
            amount: 1000,
        }],
        0,
        W_NEAR,
    );
    c.ft_on_transfer(0, TOKEN_X, 100, FtOnTransferArgs::DonateToTreasury);
    c.ft_on_transfer(0, TOKEN_Y, 200, FtOnTransferArgs::DonateToTreasury);
    fund(&mut c, HOLDER, SKYWARD_TOKEN, 10);
    fund(&mut c, HOLDER, TOKEN_X, 0);
    fund(&mut c, HOLDER, TOKEN_Y, 0);

    let now = 2_000_000_000u64;
    assert_eq!(c.get_skyward_circulating_supply(now), 1000);

    c.redeem_skyward(HOLDER, 10, vec![TOKEN_X, TOKEN_Y], now);

    assert_eq!(c.balance_of(HOLDER, TOKEN_X), Some(1));
    assert_eq!(c.balance_of(HOLDER, TOKEN_Y), Some(2));
    assert_eq!(c.balance_of(HOLDER, SKYWARD_TOKEN), Some(0));
    assert_eq!(c.get_treasury_balance(TOKEN_X), Some(99));
    assert_eq!(c.get_treasury_balance(TOKEN_Y), Some(198));
    assert_eq!(c.treasury.skyward_burned_amount, 10);
    assert_eq!(c.get_skyward_circulating_supply(now), 990);
}

#[test]
fn test_redeem_floors_in_favor_of_treasury() {
    // With balances that do not divide evenly, the dust stays behind.
    let mut c = Contract::new(
        SKYWARD_TOKEN,
        vec![VestingIntervalInput {
            start_timestamp: 0,
            end_timestamp: 1,
            amount: 1000,
        }],
        0,
        W_NEAR,
    );
    c.ft_on_transfer(0, TOKEN_X, 55, FtOnTransferArgs::DonateToTreasury);
    fund(&mut c, HOLDER, SKYWARD_TOKEN, 30);
    fund(&mut c, HOLDER, TOKEN_X, 0);

    let now = 2_000_000_000u64;
    c.redeem_skyward(HOLDER, 30, vec![TOKEN_X], now);
    // 55 * 30 / 1000 = 1.65, floored to 1.
    assert_eq!(c.balance_of(HOLDER, TOKEN_X), Some(1));
    assert_eq!(c.get_treasury_balance(TOKEN_X), Some(54));
}

#[test]
fn test_supply_monotone_and_settles() {
    // Supply grows with time while nothing is burned, and settles at the
    // schedule's total once every interval has ended.
    let schedule = vec![
        VestingInterval {
            start_timestamp: 1_000_000_000,
            end_timestamp: 3_000_000_000,
            amount: 600,
        },
        VestingInterval {
            start_timestamp: 2_000_000_000,
            end_timestamp: 4_000_000_000,
            amount: 400,
        },
    ];
    let t = Treasury::new(SKYWARD_TOKEN, schedule, 0, W_NEAR);
    let mut last = 0u128;
    let mut now = 0u64;
    while now <= 5_000_000_000 {
        let supply = t.circulating_supply(now);
        assert!(supply >= last);
        last = supply;
        now += 250_000_000;
    }
    assert_eq!(t.circulating_supply(4_000_000_000), 1000);
    assert_eq!(t.circulating_supply(10_000_000_000), 1000);
    assert_eq!(t.circulating_supply(2_000_000_000), 300);
    assert_eq!(t.circulating_supply(2_500_000_000), 450 + 100);
}

#[test]
fn test_donate_native_burns() {
    let mut t = Treasury::new(
        SKYWARD_TOKEN,
        vec![VestingInterval {
            start_timestamp: 0,
            end_timestamp: 1,
            amount: 1000,
        }],
        0,
        W_NEAR,
    );
    t.internal_donate(SKYWARD_TOKEN, 70);
    assert_eq!(t.skyward_burned_amount, 70);
    assert_eq!(t.circulating_supply(2_000_000_000), 930);
    t.internal_donate(TOKEN_X, 50);
    assert_eq!(t.skyward_burned_amount, 70);
    t.internal_withdraw(TOKEN_X, 20);
    let mut found = 0u128;
    let mut i = 0;
    while i < t.balances.len() {
        let entry = t.balances.at(i);
        if entry.0 == TOKEN_X {
            found = entry.1;
        }
        i += 1;
    }
    assert_eq!(found, 30);
}

#[test]
fn test_swap_registry_links_deposits() {
    let mut swap = skyward::token_swap::Contract::new(SKYWARD_TOKEN);
    assert_eq!(swap.get_balance(7), 0);
    swap.internal_token_deposit(7, 100);
    swap.internal_token_deposit(9, 40);
    swap.internal_token_deposit(7, 5);
    assert_eq!(swap.get_balance(7), 105);
    assert_eq!(swap.get_balance(9), 40);
    let all = swap.get_accounts(0, 10);
    assert_eq!(all, vec![(7, 105), (9, 40)]);
    let page = swap.get_accounts(1, 1);
    assert_eq!(page, vec![(9, 40)]);
    assert_eq!(swap.get_accounts(2, 10), vec![]);
}
