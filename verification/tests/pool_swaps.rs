use amm::pool::Error;
use amm::pool::GENESIS_SHARES;
use amm::pool::Pool;

const ALICE: u64 = 1;

fn pool_1000_1000(fees: u16) -> Pool {
    let mut p = Pool::new(10, 20, fees);
    assert_eq!(p.add_liquidity(ALICE, 1000, 1000), Ok(GENESIS_SHARES));
    p
}

#[test]
fn forward_quote_charges_the_fee() {
    let p = pool_1000_1000(3);
    // effective input 100 * 997 / 1000 = 99; reserve after 1099;
    // 1_000_000 / 1099 = 909; paid out: 1000 - 909 = 91.
    assert_eq!(p.get_swap_token1_estimate_given_token1(100), Ok(91));
    // Without a fee the whole input moves the curve: 1_000_000 / 1100 = 909.
    let q = pool_1000_1000(0);
    assert_eq!(q.get_swap_token1_estimate_given_token1(100), Ok(91));
    assert_eq!(q.get_swap_token2_estimate_given_token2(100), Ok(91));
}

#[test]
fn reverse_quote_inflates_by_the_fee() {
    let p = pool_1000_1000(0);
    // reserve after 900; 1_000_000 / 900 = 1111; needed: 111.
    assert_eq!(p.get_swap_token1_estimate_given_token2(100), Ok(111));
    assert_eq!(p.get_swap_token2_estimate_given_token1(100), Ok(111));
    let q = pool_1000_1000(500);
    // raw delta 111, inflated by 1000 / 500: 222.
    assert_eq!(q.get_swap_token1_estimate_given_token2(100), Ok(222));
}

#[test]
fn quotes_are_inverses_up_to_rounding() {
    let p = pool_1000_1000(0);
    let out = p.get_swap_token1_estimate_given_token1(100).unwrap();
    assert_eq!(out, 91);
    // Quoting the input needed for that output asks for at least the
    // original input: no free round trip through the two quotes.
    let back = p.get_swap_token1_estimate_given_token2(out).unwrap();
    assert_eq!(back, 100);
}

#[test]
fn reverse_quote_rejects_draining_the_reserve() {
    let p = pool_1000_1000(3);
    assert_eq!(
        p.get_swap_token1_estimate_given_token2(1000),
        Err(Error::InsufficientLiquidity)
    );
    assert_eq!(
        p.get_swap_token2_estimate_given_token1(1500),
        Err(Error::InsufficientLiquidity)
    );
}

#[test]
fn swap_fails_on_slippage_and_leaves_the_pool_alone() {
    let mut p = pool_1000_1000(3);
    assert_eq!(
        p.swap_token1_given_token1(100, 92),
        Err(Error::SlippageExceeded)
    );
    assert_eq!(p.total_token1, 1000);
    assert_eq!(p.total_token2, 1000);
    assert_eq!(
        p.swap_token1_given_token2(100, 90),
        Err(Error::SlippageExceeded)
    );
    assert_eq!(
        p.swap_token2_given_token2(100, 92),
        Err(Error::SlippageExceeded)
    );
    assert_eq!(
        p.swap_token2_given_token1(100, 90),
        Err(Error::SlippageExceeded)
    );
    assert_eq!(p.total_token1, 1000);
    assert_eq!(p.total_token2, 1000);
    assert_eq!(p.total_supply(), GENESIS_SHARES);
}

#[test]
fn swap_updates_both_reserves() {
    let mut p = pool_1000_1000(3);
    assert_eq!(p.swap_token1_given_token1(100, 91), Ok(91));
    assert_eq!(p.total_token1, 1100);
    assert_eq!(p.total_token2, 909);
}

#[test]
fn swap_given_output_pulls_the_quoted_input() {
    let mut p = pool_1000_1000(0);
    assert_eq!(p.swap_token1_given_token2(100, 111), Ok(111));
    assert_eq!(p.total_token1, 1111);
    assert_eq!(p.total_token2, 900);
}

#[test]
fn swaps_mirror_across_the_two_tokens() {
    let mut p = pool_1000_1000(0);
    assert_eq!(p.swap_token2_given_token2(100, 91), Ok(91));
    assert_eq!(p.total_token2, 1100);
    assert_eq!(p.total_token1, 909);
    let mut q = pool_1000_1000(0);
    assert_eq!(q.swap_token2_given_token1(100, 111), Ok(111));
    assert_eq!(q.total_token2, 1111);
    assert_eq!(q.total_token1, 900);
}

#[test]
fn swap_fails_on_an_empty_pool() {
    let mut p = Pool::new(10, 20, 3);
    assert_eq!(p.swap_token1_given_token1(100, 0), Err(Error::ZeroLiquidity));
    assert_eq!(p.swap_token1_given_token2(100, 1000), Err(Error::ZeroLiquidity));
    assert_eq!(p.swap_token2_given_token2(100, 0), Err(Error::ZeroLiquidity));
    assert_eq!(p.swap_token2_given_token1(100, 1000), Err(Error::ZeroLiquidity));
}

#[test]
fn exact_division_keeps_k_without_a_fee() {
    // reserves 1000 x 1000, input 1000: the curve division is exact
    // (1_000_000 / 2000 = 500), so k is exactly preserved.
    let mut p = pool_1000_1000(0);
    let k_before = p.total_token1 * p.total_token2;
    assert_eq!(p.swap_token1_given_token1(1000, 500), Ok(500));
    assert_eq!(p.total_token1, 2000);
    assert_eq!(p.total_token2, 500);
    assert_eq!(p.total_token1 * p.total_token2, k_before);
}

#[test]
fn fee_grows_k_on_an_exact_swap() {
    // 50% fee: input 2000 counts as 1000; division is exact, and the
    // uncharged half of the input grows the reserves beyond the curve.
    let mut p = pool_1000_1000(500);
    let k_before = p.total_token1 * p.total_token2;
    assert_eq!(p.swap_token1_given_token1(2000, 500), Ok(500));
    assert_eq!(p.total_token1, 3000);
    assert_eq!(p.total_token2, 500);
    assert!(p.total_token1 * p.total_token2 > k_before);
}

#[test]
fn tiny_swap_cannot_drain_the_opposite_reserve() {
    let mut p = Pool::new(10, 20, 0);
    assert_eq!(p.add_liquidity(ALICE, 1, 5), Ok(GENESIS_SHARES));
    // The raw quote would pay out all 5 token2; the guard keeps one back.
    assert_eq!(p.get_swap_token1_estimate_given_token1(10), Ok(4));
    assert_eq!(p.swap_token1_given_token1(10, 4), Ok(4));
    assert_eq!(p.total_token2, 1);
}
