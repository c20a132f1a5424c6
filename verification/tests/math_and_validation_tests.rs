use skyward::errors::SaleValidationError;
use skyward::sale::{Sale, SaleInput, SaleInputOutToken, SaleOutToken};
use skyward::u256::{mul_div, mul_div_up, U256};

const W_NEAR: u64 = 3;
const TOKEN1: u64 = 20;
const TOKEN2: u64 = 21;
const WEEK_NANO: u64 = 7 * 24 * 60 * 60 * 1_000_000_000;

#[test]
fn test_u256_mul128_exact() {
    let a = 340_282_366_920_938_463_463_374_607_431_768_211_455u128; // 2^128 - 1
    let r = U256::mul128(a, a);
    // (2^128 - 1)^2 = 2^256 - 2^129 + 1
    assert_eq!(r.lo, 1);
    assert_eq!(r.hi, a - 1);
    let (q, rem) = r.div_rem(a);
    assert_eq!(rem, 0);
    assert_eq!(q.lo, a);
    assert_eq!(q.hi, 0);
}

#[test]
fn test_u256_div_rem_small() {
    let n = U256::mul128(1_000_000_007, 998_244_353);
    let (q, r) = n.div_rem(12345);
    let expected = 1_000_000_007u128 * 998_244_353u128;
    assert_eq!(q.as_u128(), expected / 12345);
    assert_eq!(r, expected % 12345);
}

#[test]
fn test_u256_add_carry() {
    let a = U256 {
        lo: u128::MAX,
        hi: 0,
    };
    let b = a.plus(U256::from_u128(1));
    assert_eq!(b.lo, 0);
    assert_eq!(b.hi, 1);
    let c = b.minus(U256::from_u128(1));
    assert_eq!(c.lo, u128::MAX);
    assert_eq!(c.hi, 0);
    assert!(U256::from_u128(5).lt(b));
}

#[test]
fn test_mul_div_rounding() {
    assert_eq!(mul_div(10, 10, 3), 33);
    assert_eq!(mul_div_up(10, 10, 3), 34);
    assert_eq!(mul_div(10, 9, 3), 30);
    assert_eq!(mul_div_up(10, 9, 3), 30);
    // A full 256-bit intermediate product.
    let big = 200_000_000_000_000_000_000_000_000_000_000_000_000u128;
    assert_eq!(mul_div(big, big, big), big);
}

fn base_sale(now: u64) -> Sale {
    Sale::from_input(
        SaleInput {
            title: "sale title".to_string(),
            url: None,
            out_tokens: vec![SaleInputOutToken {
                token_account_id: TOKEN1,
                balance: 1000,
            }],
            in_token_account_id: W_NEAR,
            start_time: now + WEEK_NANO + 1000,
            duration: 60_000_000_000,
        },
        10,
        2,
    )
}

#[test]
fn test_validation_accepts_simple_sale() {
    let now = 1_600_000_000_000_000_000u64;
    assert_eq!(base_sale(now).validate_not_started(now), Ok(()));
}

#[test]
fn test_validation_starts_too_soon() {
    let now = 1_600_000_000_000_000_000u64;
    let mut s = base_sale(now);
    s.start_time = now + WEEK_NANO - 1;
    assert_eq!(
        s.validate_not_started(now),
        Err(SaleValidationError::StartsTooSoon)
    );
}

#[test]
fn test_validation_starts_too_late() {
    let now = 1_600_000_000_000_000_000u64;
    let mut s = base_sale(now);
    s.start_time = now + 365 * 24 * 60 * 60 * 1_000_000_000;
    assert_eq!(
        s.validate_not_started(now),
        Err(SaleValidationError::StartsTooLate)
    );
}

#[test]
fn test_validation_duration_bounds() {
    let now = 1_600_000_000_000_000_000u64;
    let mut s = base_sale(now);
    s.duration = 4 * 366 * 24 * 60 * 60 * 1_000_000_000 + 1;
    assert_eq!(
        s.validate_not_started(now),
        Err(SaleValidationError::TooLongDuration)
    );
    s.duration = 0;
    assert_eq!(
        s.validate_not_started(now),
        Err(SaleValidationError::TooShortDuration)
    );
}

#[test]
fn test_validation_too_many_out_tokens() {
    let now = 1_600_000_000_000_000_000u64;
    let mut s = base_sale(now);
    let token = s.out_tokens[0];
    s.out_tokens = vec![token; 5];
    assert_eq!(
        s.validate_not_started(now),
        Err(SaleValidationError::TooManyOutTokens)
    );
}

#[test]
fn test_validation_too_long_texts() {
    let now = 1_600_000_000_000_000_000u64;
    let mut s = base_sale(now);
    s.title = "x".repeat(251);
    assert_eq!(
        s.validate_not_started(now),
        Err(SaleValidationError::TooLongTitle)
    );
    s.title = "x".repeat(250);
    s.url = Some("y".repeat(251));
    assert_eq!(
        s.validate_not_started(now),
        Err(SaleValidationError::TooLongUrl)
    );
    s.url = Some("y".repeat(250));
    assert_eq!(s.validate_not_started(now), Ok(()));
}

#[test]
fn test_validation_zero_out_amount() {
    let now = 1_600_000_000_000_000_000u64;
    let mut s = base_sale(now);
    s.out_tokens[0].remaining = 0;
    assert_eq!(
        s.validate_not_started(now),
        Err(SaleValidationError::ZeroOutAmount)
    );
}

#[test]
fn test_validation_same_tokens() {
    let now = 1_600_000_000_000_000_000u64;
    let mut s = base_sale(now);
    s.out_tokens[0].token_account_id = W_NEAR;
    assert_eq!(
        s.validate_not_started(now),
        Err(SaleValidationError::SameTokens)
    );
}

#[test]
fn test_validation_non_unique_out_tokens() {
    let now = 1_600_000_000_000_000_000u64;
    let mut s = base_sale(now);
    let dup = s.out_tokens[0];
    s.out_tokens.push(dup);
    assert_eq!(
        s.validate_not_started(now),
        Err(SaleValidationError::NonUniqueOutTokens)
    );
    s.out_tokens[1].token_account_id = TOKEN2;
    assert_eq!(s.validate_not_started(now), Ok(()));
}

#[test]
fn test_touch_is_idempotent_at_one_instant() {
    // Touching twice at the same time equals touching once; a sale with
    // no shares only moves its clock.
    let now = 1_600_000_000_000_000_000u64;
    let mut s = base_sale(now);
    s.total_shares = 4;
    s.in_token_remaining = 4;
    s.in_token_paid = 0;
    let t = s.start_time + 30_000_000_000;
    s.touch(t);
    let remaining_after_one = s.out_tokens[0].remaining;
    let in_after_one = s.in_token_remaining;
    let last_after_one = s.last_timestamp;
    s.touch(t);
    assert_eq!(s.out_tokens[0].remaining, remaining_after_one);
    assert_eq!(s.in_token_remaining, in_after_one);
    assert_eq!(s.last_timestamp, last_after_one);
}

#[test]
fn test_touch_conserves_totals() {
    let now = 1_600_000_000_000_000_000u64;
    let mut s = base_sale(now);
    s.total_shares = 7;
    s.in_token_remaining = 13;
    let t1 = s.start_time + 17_000_000_001;
    let t2 = s.start_time + 41_000_000_003;
    s.touch(t1);
    assert_eq!(
        s.out_tokens[0].remaining + s.out_tokens[0].distributed,
        1000
    );
    assert_eq!(s.in_token_remaining + s.in_token_paid, 13);
    s.touch(t2);
    assert_eq!(
        s.out_tokens[0].remaining + s.out_tokens[0].distributed,
        1000
    );
    assert_eq!(s.in_token_remaining + s.in_token_paid, 13);
}

#[test]
fn test_touch_drains_fully_at_end() {
    let now = 1_600_000_000_000_000_000u64;
    let mut s = base_sale(now);
    s.total_shares = 7;
    s.in_token_remaining = 13;
    // Odd intermediate point, then the end: the floor residue is
    // distributed by the final slice.
    s.touch(s.start_time + 7_777_777_777);
    s.touch(s.start_time + 60_000_000_000);
    assert_eq!(s.out_tokens[0].remaining, 0);
    assert_eq!(s.out_tokens[0].distributed, 1000);
    assert_eq!(s.in_token_remaining, 0);
    assert_eq!(s.in_token_paid, 13);
}

#[test]
fn test_share_math_round_trip() {
    // Minting with floor and burning with ceiling is neutral for the
    // subscriber whenever the exact withdrawal is allowed.
    let now = 1_600_000_000_000_000_000u64;
    let mut s = base_sale(now);
    s.total_shares = 3_000_000;
    s.in_token_remaining = 1_000_000;
    let in_amount = 250_000u128;
    let minted = s.in_amount_to_shares(in_amount, false);
    assert_eq!(minted, 750_000);
    s.total_shares += minted;
    s.in_token_remaining += in_amount;
    assert_eq!(s.shares_to_in_balance(minted), in_amount);
    let burned = s.in_amount_to_shares(in_amount, true);
    assert_eq!(burned, minted);
}

#[test]
fn test_spawn_keeps_a_tenth_aside() {
    let now = 1_600_000_000_000_000_000u64;
    let mut s = Sale::from_input(
        SaleInput {
            title: "sale title".to_string(),
            url: None,
            out_tokens: vec![
                SaleInputOutToken {
                    token_account_id: TOKEN1,
                    balance: 1000,
                },
                SaleInputOutToken {
                    token_account_id: 2,
                    balance: 500,
                },
            ],
            in_token_account_id: W_NEAR,
            start_time: now + WEEK_NANO + 1000,
            duration: 60_000_000_000,
        },
        10,
        2,
    );
    let companion = s.spawn_in_skyward_sale(7, 2).unwrap();
    // The native out-token is left alone; the other one loses a tenth.
    assert_eq!(s.out_tokens[0].remaining, 900);
    assert_eq!(s.out_tokens[1].remaining, 500);
    assert_eq!(companion.out_tokens.len(), 1);
    assert_eq!(companion.out_tokens[0].token_account_id, TOKEN1);
    assert_eq!(companion.out_tokens[0].remaining, 100);
    assert_eq!(companion.in_token_account_id, 2);
    assert_eq!(companion.associated_sale_id, Some(7));
}

#[test]
fn test_out_token_fee_split() {
    // A non-native out-token accrues a one percent fee bucket as it
    // distributes.
    let t = SaleOutToken {
        token_account_id: TOKEN1,
        remaining: 100,
        distributed: 0,
        treasury_unclaimed: Some(0),
        per_share: U256::zero(),
    };
    assert_eq!(t.treasury_unclaimed, Some(0));
    let now = 1_600_000_000_000_000_000u64;
    let mut s = base_sale(now);
    s.total_shares = 10;
    s.in_token_remaining = 10;
    s.touch(s.start_time + 60_000_000_000);
    assert_eq!(s.out_tokens[0].distributed, 1000);
    assert_eq!(s.out_tokens[0].treasury_unclaimed, Some(10));
}

#[test]
fn test_validation_too_few_out_tokens() {
    let now = 1_600_000_000_000_000_000u64;
    let mut s = base_sale(now);
    s.out_tokens = vec![];
    assert_eq!(
        s.validate_not_started(now),
        Err(SaleValidationError::TooFewOutTokens)
    );
}
