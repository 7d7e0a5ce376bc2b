//! Laws that relate the pool's operations to one another: round-trip bounds
//! for quoting, growth of the pool constant across swaps, and the value
//! returned by a deposit that is immediately withdrawn.

use vstd::prelude::*;
use crate::pool::Pool;
use crate::pool::lemma_active_reserves;
use crate::pool::lemma_eff_input_bounds;
use crate::pool::lemma_prod_div_le;
use crate::pool::lemma_prod_div_ge;
use vstd::arithmetic::div_mod::lemma_div_by_multiple;
use vstd::arithmetic::div_mod::lemma_div_is_ordered;
use vstd::arithmetic::div_mod::lemma_div_multiples_vanish;
use vstd::arithmetic::div_mod::lemma_div_pos_is_pos;
use vstd::arithmetic::div_mod::lemma_fundamental_div_mod;
use vstd::arithmetic::div_mod::lemma_multiply_divide_lt;
use vstd::arithmetic::div_mod::lemma_remainder_lower;
use vstd::arithmetic::mul::lemma_mul_by_zero_is_zero;
use vstd::arithmetic::mul::lemma_mul_inequality;
use vstd::arithmetic::mul::lemma_mul_is_commutative;
use vstd::arithmetic::mul::lemma_mul_strict_inequality;

verus! {

/// The two token1 quotes are inverses up to fee rounding: quoting the
/// input needed for the output of a forward quote never asks for less than
/// the fee-adjusted forward input, and with no fee it never asks for less
/// than the full forward input. (The forward quote must leave some token2
/// behind, which the third precondition states.)
pub proof fn lemma_swap_quotes_inverse(p: Pool, amount1: u128)
    requires
        p.wf(),
        p.active(),
        p.spec_k() / (p.total_token1 + p.eff_input(amount1)) >= 1,
    ensures
        0 <= p.spec_swap_token1_given_token1(amount1) < p.total_token2,
        p.spec_k() / (p.total_token2 - p.spec_swap_token1_given_token1(amount1))
            - p.total_token1 >= p.eff_input(amount1),
        p.fees == 0 ==> p.spec_swap_token1_given_token2(
            p.spec_swap_token1_given_token1(amount1) as u128,
        ) >= amount1,
{
    let t1 = p.total_token1 as int;
    let t2 = p.total_token2 as int;
    let k = p.spec_k();
    let e = p.eff_input(amount1);
    lemma_eff_input_bounds(p, amount1);
    lemma_active_reserves(p);
    let d = t1 + e;
    let q = k / d;
    lemma_remainder_lower(k, d);
    lemma_prod_div_le(t1, t2, d);
    let a2 = p.spec_swap_token1_given_token1(amount1);
    assert(a2 == t2 - q);
    assert(d * q <= k) by {
        lemma_mul_is_commutative(d, q);
    }
    lemma_div_is_ordered(d * q, k, q);
    lemma_div_by_multiple(d, q);
    assert(k / q >= d);
    if p.fees == 0 {
        assert(e == amount1) by {
            lemma_mul_is_commutative(amount1 as int, 1000);
            lemma_div_multiples_vanish(amount1 as int, 1000);
        }
        let delta = k / (t2 - a2) - t1;
        assert(delta * 1000 / 1000 == delta) by {
            lemma_mul_is_commutative(delta, 1000);
            lemma_div_multiples_vanish(delta, 1000);
        }
    }
}

/// Across a swap that fixes the input (token1 in, token2 out), the pool
/// constant `k` cannot decrease, and strictly increases when a positive
/// fee is charged on a positive input. Stated for the states where the
/// curve division is exact; truncation can otherwise lose up to the
/// divisor's worth of `k`.
pub proof fn lemma_k_grows_swap_token1_given_token1(p: Pool, amount1: u128)
    requires
        p.wf(),
        p.active(),
        p.spec_k() % (p.total_token1 + p.eff_input(amount1)) == 0,
    ensures
        ({
            let a2 = p.spec_swap_token1_given_token1(amount1);
            (p.total_token1 + amount1) * (p.total_token2 - a2) >= p.spec_k() && ((p.fees > 0
                && amount1 > 0) ==> (p.total_token1 + amount1) * (p.total_token2 - a2)
                > p.spec_k())
        }),
{
    let t1 = p.total_token1 as int;
    let t2 = p.total_token2 as int;
    let k = p.spec_k();
    let e = p.eff_input(amount1);
    lemma_eff_input_bounds(p, amount1);
    lemma_active_reserves(p);
    let d = t1 + e;
    let q = k / d;
    lemma_fundamental_div_mod(k, d);
    assert(k == d * q);
    lemma_div_pos_is_pos(k, d);
    if q == 0 {
        lemma_mul_by_zero_is_zero(d);
    }
    assert(q >= 1);
    lemma_prod_div_le(t1, t2, d);
    let a2 = p.spec_swap_token1_given_token1(amount1);
    assert(a2 == t2 - q);
    lemma_mul_inequality(d, t1 + amount1, q);
    assert((t1 + amount1) * q >= k);
    if p.fees > 0 && amount1 > 0 {
        let kept = (1000 - p.fees) as int;
        assert(amount1 * kept < 1000 * amount1) by (nonlinear_arith)
            requires
                amount1 >= 1,
                kept < 1000,
        ;
        lemma_multiply_divide_lt(amount1 as int * kept, 1000, amount1 as int);
        assert(e < amount1);
        lemma_mul_strict_inequality(d, t1 + amount1, q);
        assert((t1 + amount1) * q > k);
    }
}

/// Across a swap that fixes the output (token1 in, token2 out), the pool
/// constant `k` cannot decrease, stated for the states where the curve
/// division is exact.
pub proof fn lemma_k_keeps_swap_token1_given_token2(p: Pool, amount2: u128)
    requires
        p.wf(),
        p.fees < 1000,
        p.active(),
        amount2 < p.total_token2,
        p.spec_k() % (p.total_token2 - amount2) == 0,
    ensures
        (p.total_token1 + p.spec_swap_token1_given_token2(amount2)) * (p.total_token2 - amount2)
            >= p.spec_k(),
{
    let t1 = p.total_token1 as int;
    let t2 = p.total_token2 as int;
    let k = p.spec_k();
    let kept = (1000 - p.fees) as int;
    lemma_active_reserves(p);
    let td = t2 - amount2;
    let q = k / td;
    lemma_fundamental_div_mod(k, td);
    assert(k == td * q);
    lemma_prod_div_ge(t1, t2, td);
    let delta = q - t1;
    let r = p.spec_swap_token1_given_token2(amount2);
    assert(r == delta * 1000 / kept);
    assert(delta * kept <= delta * 1000) by (nonlinear_arith)
        requires
            delta >= 0,
            kept <= 1000,
    ;
    lemma_div_is_ordered(delta * kept, delta * 1000, kept);
    assert(delta * kept / kept == delta) by {
        lemma_mul_is_commutative(delta, kept);
        lemma_div_multiples_vanish(delta, kept);
    }
    assert(r >= delta);
    lemma_mul_inequality(t1 + delta, t1 + r, td);
    assert((t1 + delta) * td >= k) by {
        lemma_mul_is_commutative(q, td);
    }
}

/// Across a swap that fixes the input (token2 in, token1 out), the pool
/// constant `k` cannot decrease, and strictly increases when a positive
/// fee is charged on a positive input. Stated for the states where the
/// curve division is exact.
pub proof fn lemma_k_grows_swap_token2_given_token2(p: Pool, amount2: u128)
    requires
        p.wf(),
        p.active(),
        p.spec_k() % (p.total_token2 + p.eff_input(amount2)) == 0,
    ensures
        ({
            let a1 = p.spec_swap_token2_given_token2(amount2);
            (p.total_token2 + amount2) * (p.total_token1 - a1) >= p.spec_k() && ((p.fees > 0
                && amount2 > 0) ==> (p.total_token2 + amount2) * (p.total_token1 - a1)
                > p.spec_k())
        }),
{
    let t1 = p.total_token1 as int;
    let t2 = p.total_token2 as int;
    let k = p.spec_k();
    let e = p.eff_input(amount2);
    lemma_eff_input_bounds(p, amount2);
    lemma_active_reserves(p);
    let d = t2 + e;
    let q = k / d;
    lemma_fundamental_div_mod(k, d);
    assert(k == d * q);
    lemma_div_pos_is_pos(k, d);
    if q == 0 {
        lemma_mul_by_zero_is_zero(d);
    }
    assert(q >= 1);
    lemma_prod_div_le(t2, t1, d);
    lemma_mul_is_commutative(t1, t2);
    let a1 = p.spec_swap_token2_given_token2(amount2);
    assert(a1 == t1 - q);
    lemma_mul_inequality(d, t2 + amount2, q);
    assert((t2 + amount2) * q >= k);
    if p.fees > 0 && amount2 > 0 {
        let kept = (1000 - p.fees) as int;
        assert(amount2 * kept < 1000 * amount2) by (nonlinear_arith)
            requires
                amount2 >= 1,
                kept < 1000,
        ;
        lemma_multiply_divide_lt(amount2 as int * kept, 1000, amount2 as int);
        assert(e < amount2);
        lemma_mul_strict_inequality(d, t2 + amount2, q);
        assert((t2 + amount2) * q > k);
    }
}

/// Across a swap that fixes the output (token2 in, token1 out), the pool
/// constant `k` cannot decrease, stated for the states where the curve
/// division is exact.
pub proof fn lemma_k_keeps_swap_token2_given_token1(p: Pool, amount1: u128)
    requires
        p.wf(),
        p.fees < 1000,
        p.active(),
        amount1 < p.total_token1,
        p.spec_k() % (p.total_token1 - amount1) == 0,
    ensures
        (p.total_token2 + p.spec_swap_token2_given_token1(amount1)) * (p.total_token1 - amount1)
            >= p.spec_k(),
{
    let t1 = p.total_token1 as int;
    let t2 = p.total_token2 as int;
    let k = p.spec_k();
    let kept = (1000 - p.fees) as int;
    lemma_active_reserves(p);
    let td = t1 - amount1;
    let q = k / td;
    lemma_fundamental_div_mod(k, td);
    assert(k == td * q);
    lemma_prod_div_ge(t2, t1, td);
    lemma_mul_is_commutative(t1, t2);
    let delta = q - t2;
    let r = p.spec_swap_token2_given_token1(amount1);
    assert(r == delta * 1000 / kept);
    assert(delta * kept <= delta * 1000) by (nonlinear_arith)
        requires
            delta >= 0,
            kept <= 1000,
    ;
    lemma_div_is_ordered(delta * kept, delta * 1000, kept);
    assert(delta * kept / kept == delta) by {
        lemma_mul_is_commutative(delta, kept);
        lemma_div_multiples_vanish(delta, kept);
    }
    assert(r >= delta);
    lemma_mul_inequality(t2 + delta, t2 + r, td);
    assert((t2 + delta) * td >= k) by {
        lemma_mul_is_commutative(q, td);
    }
}

/// Adding liquidity and at once removing the very shares it minted returns
/// at most the deposited amounts, and exactly the deposit when it was the
/// genesis deposit into a fresh pool.
pub proof fn lemma_deposit_withdraw_round_trip(p: Pool, amount1: u128, amount2: u128)
    requires
        p.wf(),
        p.total_shares == 0 ==> p.total_token1 == 0 && p.total_token2 == 0,
        p.total_shares != 0 ==> p.total_token1 > 0 && p.total_token2 > 0,
        p.total_shares != 0 ==> p.spec_share1(amount1) == p.spec_share2(amount2)
            && p.spec_share1(amount1) != 0,
        p.total_token1 + amount1 <= u128::MAX,
        p.total_token2 + amount2 <= u128::MAX,
        p.total_shares + p.spec_issued(amount1) <= u128::MAX,
    ensures
        ({
            let s = p.spec_issued(amount1);
            let q = Pool {
                total_token1: (p.total_token1 + amount1) as u128,
                total_token2: (p.total_token2 + amount2) as u128,
                total_shares: (p.total_shares + s) as u128,
                ..p
            };
            q.spec_withdraw1(s as u128) <= amount1 && q.spec_withdraw2(s as u128) <= amount2 && (
            p.total_shares == 0 ==> q.spec_withdraw1(s as u128) == amount1 && q.spec_withdraw2(
                s as u128,
            ) == amount2)
        }),
{
    let t1 = p.total_token1 as int;
    let t2 = p.total_token2 as int;
    let big_s = p.total_shares as int;
    let s = p.spec_issued(amount1);
    if p.total_shares == 0 {
        lemma_div_multiples_vanish(amount1 as int, s);
        lemma_div_multiples_vanish(amount2 as int, s);
    } else {
        lemma_div_pos_is_pos(big_s * amount1, t1);
        assert(s >= 1);
        lemma_remainder_lower(big_s * amount1, t1);
        assert(s * t1 <= big_s * amount1);
        lemma_remainder_lower(big_s * amount2, t2);
        assert(s * t2 <= big_s * amount2);
        assert(s * (t1 + amount1) <= (big_s + s) * amount1) by (nonlinear_arith)
            requires
                s * t1 <= big_s * amount1,
        ;
        assert(s * (t2 + amount2) <= (big_s + s) * amount2) by (nonlinear_arith)
            requires
                s * t2 <= big_s * amount2,
        ;
        lemma_div_is_ordered(s * (t1 + amount1), (big_s + s) * amount1, big_s + s);
        lemma_div_multiples_vanish(amount1 as int, big_s + s);
        lemma_div_is_ordered(s * (t2 + amount2), (big_s + s) * amount2, big_s + s);
        lemma_div_multiples_vanish(amount2 as int, big_s + s);
    }
}

} // verus!
