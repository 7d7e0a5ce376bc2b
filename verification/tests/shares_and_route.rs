use amm::pool::Error;
use amm::pool::GENESIS_SHARES;
use amm::pool::Pool;
use amm::route::Route;

const ALICE: u64 = 1;
const BOB: u64 = 2;
const CAROL: u64 = 3;

fn pool_with_genesis_shares() -> Pool {
    let mut p = Pool::new(10, 20, 3);
    assert_eq!(p.add_liquidity(ALICE, 1000, 1000), Ok(GENESIS_SHARES));
    p
}

#[test]
fn transfer_moves_share_balances() {
    let mut p = pool_with_genesis_shares();
    assert_eq!(p.transfer(ALICE, BOB, 40), Ok(()));
    assert_eq!(p.balance_of(ALICE), GENESIS_SHARES - 40);
    assert_eq!(p.balance_of(BOB), 40);
    assert_eq!(p.total_supply(), GENESIS_SHARES);
}

#[test]
fn transfer_rejects_an_overdraft() {
    let mut p = pool_with_genesis_shares();
    assert_eq!(
        p.transfer(BOB, CAROL, 1),
        Err(Error::InsufficientBalance)
    );
    assert_eq!(p.balance_of(BOB), 0);
    assert_eq!(p.balance_of(CAROL), 0);
}

#[test]
fn transfer_to_oneself_changes_nothing() {
    let mut p = pool_with_genesis_shares();
    assert_eq!(p.transfer(ALICE, ALICE, 500), Ok(()));
    assert_eq!(p.balance_of(ALICE), GENESIS_SHARES);
}

#[test]
fn approve_sets_the_allowance() {
    let mut p = pool_with_genesis_shares();
    assert_eq!(p.allowance(ALICE, BOB), 0);
    assert_eq!(p.approve(ALICE, BOB, 250), Ok(()));
    assert_eq!(p.allowance(ALICE, BOB), 250);
    assert_eq!(p.approve(ALICE, BOB, 70), Ok(()));
    assert_eq!(p.allowance(ALICE, BOB), 70);
    assert_eq!(p.allowance(BOB, ALICE), 0);
}

#[test]
fn transfer_from_spends_the_allowance() {
    let mut p = pool_with_genesis_shares();
    assert_eq!(p.approve(ALICE, BOB, 100), Ok(()));
    assert_eq!(p.transfer_from(BOB, ALICE, CAROL, 60), Ok(()));
    assert_eq!(p.balance_of(ALICE), GENESIS_SHARES - 60);
    assert_eq!(p.balance_of(CAROL), 60);
    assert_eq!(p.allowance(ALICE, BOB), 40);
}

#[test]
fn transfer_from_rejects_a_low_allowance() {
    let mut p = pool_with_genesis_shares();
    assert_eq!(p.approve(ALICE, BOB, 30), Ok(()));
    assert_eq!(
        p.transfer_from(BOB, ALICE, CAROL, 31),
        Err(Error::InsufficientAllowance)
    );
    assert_eq!(p.balance_of(ALICE), GENESIS_SHARES);
    assert_eq!(p.balance_of(CAROL), 0);
    assert_eq!(p.allowance(ALICE, BOB), 30);
}

#[test]
fn transfer_from_rejects_an_overdraft_keeping_the_allowance() {
    let mut p = pool_with_genesis_shares();
    assert_eq!(p.transfer(ALICE, BOB, 10), Ok(()));
    assert_eq!(p.approve(BOB, CAROL, 1000), Ok(()));
    assert_eq!(
        p.transfer_from(CAROL, BOB, ALICE, 11),
        Err(Error::InsufficientBalance)
    );
    assert_eq!(p.balance_of(BOB), 10);
    assert_eq!(p.allowance(BOB, CAROL), 1000);
}

#[test]
fn registry_keeps_one_pool_per_unordered_pair() {
    let mut r = Route::new();
    assert!(!r.pair_exists(10, 20));
    r.create_pool(20, 10, 77);
    assert!(r.pair_exists(10, 20));
    assert!(r.pair_exists(20, 10));
    assert!(!r.pair_exists(10, 30));
    r.create_pool(20, 30, 78);
    assert!(r.pair_exists(30, 20));
}

#[test]
fn swap_path_must_chain_registered_pairs() {
    let mut r = Route::new();
    r.create_pool(10, 20, 77);
    r.create_pool(20, 30, 78);
    assert!(r.swap_token(&vec![10, 20, 30], 5));
    assert!(r.swap_token(&vec![30, 20, 10], 5));
    assert!(!r.swap_token(&vec![10, 30], 5));
    assert!(!r.swap_token(&vec![10], 5));
    assert!(!r.swap_token(&vec![], 5));
}
