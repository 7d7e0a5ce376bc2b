use amm::pool::Error;
use amm::pool::GENESIS_SHARES;
use amm::pool::Pool;

const ALICE: u64 = 1;
const BOB: u64 = 2;

#[test]
fn genesis_deposit_issues_fixed_shares() {
    let mut p = Pool::new(10, 20, 3);
    let r = p.add_liquidity(ALICE, 1000, 1000);
    assert_eq!(r, Ok(GENESIS_SHARES));
    assert_eq!(GENESIS_SHARES, 100_000_000_000_000_000_000);
    assert_eq!(p.total_supply(), GENESIS_SHARES);
    assert_eq!(p.balance_of(ALICE), GENESIS_SHARES);
    assert_eq!(p.total_token1, 1000);
    assert_eq!(p.total_token2, 1000);
}

#[test]
fn genesis_issuance_ignores_the_amounts() {
    let mut small = Pool::new(10, 20, 0);
    let mut large = Pool::new(10, 20, 0);
    assert_eq!(small.add_liquidity(ALICE, 1, 1), Ok(GENESIS_SHARES));
    assert_eq!(large.add_liquidity(ALICE, 777_777, 123), Ok(GENESIS_SHARES));
}

#[test]
fn second_deposit_is_pro_rata() {
    let mut p = Pool::new(10, 20, 3);
    assert_eq!(p.add_liquidity(ALICE, 1000, 1000), Ok(GENESIS_SHARES));
    let r = p.add_liquidity(BOB, 500, 500);
    assert_eq!(r, Ok(GENESIS_SHARES / 2));
    assert_eq!(p.total_supply(), GENESIS_SHARES + GENESIS_SHARES / 2);
    assert_eq!(p.balance_of(BOB), GENESIS_SHARES / 2);
    assert_eq!(p.total_token1, 1500);
    assert_eq!(p.total_token2, 1500);
}

#[test]
fn non_equivalent_deposit_is_rejected() {
    let mut p = Pool::new(10, 20, 3);
    assert_eq!(p.add_liquidity(ALICE, 1000, 1000), Ok(GENESIS_SHARES));
    let r = p.add_liquidity(BOB, 500, 400);
    assert_eq!(r, Err(Error::NonEquivalentValue));
    assert_eq!(p.total_supply(), GENESIS_SHARES);
    assert_eq!(p.balance_of(BOB), 0);
    assert_eq!(p.total_token1, 1000);
    assert_eq!(p.total_token2, 1000);
}

#[test]
fn zero_value_deposit_misses_the_threshold() {
    let mut p = Pool::new(10, 20, 3);
    assert_eq!(p.add_liquidity(ALICE, 1000, 1000), Ok(GENESIS_SHARES));
    assert_eq!(p.add_liquidity(BOB, 0, 0), Err(Error::ThresholdNotReached));
}

#[test]
fn equivalent_estimates_follow_the_reserve_ratio() {
    let mut p = Pool::new(10, 20, 3);
    assert_eq!(p.add_liquidity(ALICE, 1000, 2000), Ok(GENESIS_SHARES));
    assert_eq!(p.get_equivalent_token1_estimate_given_token2(500), Ok(250));
    assert_eq!(p.get_equivalent_token2_estimate_given_token1(500), Ok(1000));
}

#[test]
fn estimates_fail_on_an_empty_pool() {
    let p = Pool::new(10, 20, 3);
    assert_eq!(
        p.get_equivalent_token1_estimate_given_token2(500),
        Err(Error::ZeroLiquidity)
    );
    assert_eq!(
        p.get_equivalent_token2_estimate_given_token1(500),
        Err(Error::ZeroLiquidity)
    );
    assert_eq!(p.get_withdraw_estimate(1), Err(Error::ZeroLiquidity));
    assert_eq!(
        p.get_swap_token1_estimate_given_token1(10),
        Err(Error::ZeroLiquidity)
    );
    assert_eq!(
        p.get_swap_token1_estimate_given_token2(10),
        Err(Error::ZeroLiquidity)
    );
    assert_eq!(
        p.get_swap_token2_estimate_given_token2(10),
        Err(Error::ZeroLiquidity)
    );
    assert_eq!(
        p.get_swap_token2_estimate_given_token1(10),
        Err(Error::ZeroLiquidity)
    );
}

#[test]
fn withdraw_estimate_is_proportional() {
    let mut p = Pool::new(10, 20, 3);
    assert_eq!(p.add_liquidity(ALICE, 1000, 2000), Ok(GENESIS_SHARES));
    assert_eq!(p.get_withdraw_estimate(GENESIS_SHARES / 4), Ok((250, 500)));
}

#[test]
fn withdraw_estimate_rejects_too_many_shares() {
    let mut p = Pool::new(10, 20, 3);
    assert_eq!(p.add_liquidity(ALICE, 1000, 1000), Ok(GENESIS_SHARES));
    assert_eq!(
        p.get_withdraw_estimate(GENESIS_SHARES + 1),
        Err(Error::InvalidShare)
    );
}

#[test]
fn deposit_then_withdraw_returns_the_deposit() {
    let mut p = Pool::new(10, 20, 0);
    assert_eq!(p.add_liquidity(ALICE, 1000, 1000), Ok(GENESIS_SHARES));
    let minted = p.add_liquidity(BOB, 500, 500).unwrap();
    let r = p.remove_liquidity(BOB, minted);
    assert_eq!(r, Ok((500, 500)));
    assert_eq!(p.balance_of(BOB), 0);
    assert_eq!(p.total_supply(), GENESIS_SHARES);
    assert_eq!(p.total_token1, 1000);
    assert_eq!(p.total_token2, 1000);
}

#[test]
fn deposit_then_withdraw_can_lose_to_truncation() {
    let mut p = Pool::new(10, 20, 0);
    assert_eq!(p.add_liquidity(ALICE, 7, 7), Ok(GENESIS_SHARES));
    // 2/7 of the supply does not divide evenly: the minted shares are
    // rounded down, and withdrawing them rounds down once more.
    let minted = p.add_liquidity(BOB, 2, 2).unwrap();
    assert_eq!(minted, GENESIS_SHARES * 2 / 7);
    assert_eq!(p.remove_liquidity(BOB, minted), Ok((1, 1)));
}

#[test]
fn genesis_deposit_then_withdraw_empties_the_pool() {
    let mut p = Pool::new(10, 20, 3);
    assert_eq!(p.add_liquidity(ALICE, 321, 7654), Ok(GENESIS_SHARES));
    let r = p.remove_liquidity(ALICE, GENESIS_SHARES);
    assert_eq!(r, Ok((321, 7654)));
    assert_eq!(p.total_supply(), 0);
    assert_eq!(p.total_token1, 0);
    assert_eq!(p.total_token2, 0);
    assert_eq!(p.balance_of(ALICE), 0);
}

#[test]
fn remove_liquidity_fails_on_an_empty_pool() {
    let mut p = Pool::new(10, 20, 3);
    assert_eq!(p.remove_liquidity(ALICE, 0), Err(Error::ZeroLiquidity));
}

#[test]
fn decimals_is_fixed() {
    let p = Pool::new(10, 20, 3);
    assert_eq!(p.decimals(), 18);
}
