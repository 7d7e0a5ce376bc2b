//! Constant-product liquidity pool over a pair of token ledgers.
//!
//! The pool owns two token reserves, issues and redeems liquidity shares,
//! quotes and executes swaps against the constant-product curve, and acts as
//! a fungible-share ledger of its own (balances, allowances, transfers).
//! Only the accounting core lives here: pulling and pushing the custodied
//! tokens is the host's business, so every operation takes the amounts (and,
//! where shares are booked, the acting account) as plain values.

use vstd::prelude::*;
use crate::ledger::AllowanceLedger;
use crate::ledger::ShareLedger;
use crate::ledger::lemma_two_values_le_sum;
use crate::ledger::lemma_value_le_sum;
use vstd::arithmetic::div_mod::lemma_div_is_ordered;
use vstd::arithmetic::div_mod::lemma_div_is_ordered_by_denominator;
use vstd::arithmetic::div_mod::lemma_div_multiples_vanish;
use vstd::arithmetic::div_mod::lemma_div_pos_is_pos;
use vstd::arithmetic::mul::lemma_mul_by_zero_is_zero;
use vstd::arithmetic::mul::lemma_mul_inequality;
use vstd::arithmetic::mul::lemma_mul_is_commutative;
use vstd::arithmetic::mul::lemma_mul_strictly_positive;

verus! {

/// Accounts and token ledgers are identified by plain integers.
pub type AccountId = u64;

/// Shares issued to the first depositor: 100 whole shares at 18 decimals.
pub const GENESIS_SHARES: u128 = 100_000_000_000_000_000_000;

#[derive(Debug, Clone, Copy, PartialEq, Eq, Structural)]
pub enum Error {
    /// Zero Liquidity
    ZeroLiquidity,
    /// Amount cannot be zero!
    ZeroAmount,
    /// Insufficient amount
    InsufficientAmount,
    /// Equivalent value of tokens not provided
    NonEquivalentValue,
    /// Asset value less than threshold for contribution!
    ThresholdNotReached,
    /// Share should be less than totalShare
    InvalidShare,
    /// Insufficient pool balance
    InsufficientLiquidity,
    /// Slippage tolerance exceeded
    SlippageExceeded,
    /// Returned if not enough balance to fulfill a request is available.
    InsufficientBalance,
    /// Returned if not enough allowance to fulfill a request is available.
    InsufficientAllowance,
}

/// Record of a share transfer, for hosts that log such events.
#[derive(Debug, Clone, Copy, PartialEq, Eq, Structural)]
pub struct Transfer {
    pub from: Option<AccountId>,
    pub to: Option<AccountId>,
    pub value: u128,
}

/// Record of an approval: `spender` may withdraw up to `value` shares
/// from `owner`.
#[derive(Debug, Clone, Copy, PartialEq, Eq, Structural)]
pub struct Approval {
    pub owner: AccountId,
    pub spender: AccountId,
    pub value: u128,
}

/// The pool's entire state: two reserves, the share supply with its balance
/// and allowance books, and the immutable pair identity and fee.
pub struct Pool {
    pub token1: AccountId,
    pub token2: AccountId,
    pub total_token1: u128,
    pub total_token2: u128,
    pub total_shares: u128,
    pub shares: ShareLedger,
    pub allowances: AllowanceLedger,
    pub fees: u16,
}

impl Pool {
    /// The pool constant: the product of the two reserves.
    pub open spec fn spec_k(self) -> int {
        self.total_token1 as int * self.total_token2 as int
    }

    /// A pool quotes and swaps only while both reserves are non-empty.
    pub open spec fn active(self) -> bool {
        self.spec_k() != 0
    }

    /// Well-formedness: the fee is per-mille, the books have unique keys,
    /// the balances add up to the share supply, and an active pool has
    /// outstanding shares.
    pub open spec fn wf(self) -> bool {
        &&& self.fees <= 1000
        &&& self.shares.wf()
        &&& self.allowances.wf()
        &&& self.shares.total() == self.total_shares
        &&& (self.active() ==> self.total_shares > 0)
    }

    /// Swap input once the per-mille fee has been taken off.
    pub open spec fn eff_input(self, amount: u128) -> int {
        amount as int * ((1000 - self.fees) as int) / 1000
    }

    /// Token1 matching `amount2` of token2 at the current reserve ratio.
    pub open spec fn spec_equivalent_token1(self, amount2: u128) -> int {
        self.total_token1 as int * amount2 as int / self.total_token2 as int
    }

    /// Token2 matching `amount1` of token1 at the current reserve ratio.
    pub open spec fn spec_equivalent_token2(self, amount1: u128) -> int {
        self.total_token2 as int * amount1 as int / self.total_token1 as int
    }

    /// Shares a deposit of `amount1` of token1 is worth, pro rata.
    pub open spec fn spec_share1(self, amount1: u128) -> int {
        self.total_shares as int * amount1 as int / self.total_token1 as int
    }

    /// Shares a deposit of `amount2` of token2 is worth, pro rata.
    pub open spec fn spec_share2(self, amount2: u128) -> int {
        self.total_shares as int * amount2 as int / self.total_token2 as int
    }

    /// Shares issued for a deposit: a fixed grant for the first deposit,
    /// the pro-rata value afterwards.
    pub open spec fn spec_issued(self, amount1: u128) -> int {
        if self.total_shares == 0 {
            GENESIS_SHARES as int
        } else {
            self.spec_share1(amount1)
        }
    }

    /// Token2 paid out for swapping in `amount1` of token1: the fee comes
    /// off the input, the curve fixes the new token2 reserve, and a quote
    /// that would empty that reserve is trimmed by one.
    pub open spec fn spec_swap_token1_given_token1(self, amount1: u128) -> int {
        let token1_after = self.total_token1 + self.eff_input(amount1);
        let token2_after = self.spec_k() / token1_after;
        let out = self.total_token2 - token2_after;
        if out == self.total_token2 {
            out - 1
        } else {
            out
        }
    }

    /// Token1 that must be swapped in to receive `amount2` of token2: the
    /// raw curve delta, inflated back up by the fee factor.
    pub open spec fn spec_swap_token1_given_token2(self, amount2: u128) -> int {
        let token2_after = self.total_token2 - amount2;
        let token1_after = self.spec_k() / token2_after;
        (token1_after - self.total_token1) * 1000 / ((1000 - self.fees) as int)
    }

    /// Token1 paid out for swapping in `amount2` of token2.
    pub open spec fn spec_swap_token2_given_token2(self, amount2: u128) -> int {
        let token2_after = self.total_token2 + self.eff_input(amount2);
        let token1_after = self.spec_k() / token2_after;
        let out = self.total_token1 - token1_after;
        if out == self.total_token1 {
            out - 1
        } else {
            out
        }
    }

    /// Token2 that must be swapped in to receive `amount1` of token1.
    pub open spec fn spec_swap_token2_given_token1(self, amount1: u128) -> int {
        let token1_after = self.total_token1 - amount1;
        let token2_after = self.spec_k() / token1_after;
        (token2_after - self.total_token2) * 1000 / ((1000 - self.fees) as int)
    }

    /// Token1 released when burning `share` shares.
    pub open spec fn spec_withdraw1(self, share: u128) -> int {
        share as int * self.total_token1 as int / self.total_shares as int
    }

    /// Token2 released when burning `share` shares.
    pub open spec fn spec_withdraw2(self, share: u128) -> int {
        share as int * self.total_token2 as int / self.total_shares as int
    }

    pub fn new(token1: AccountId, token2: AccountId, fees: u16) -> (r: Pool)
        requires
            fees <= 1000,
        ensures
            r.wf(),
            r.token1 == token1,
            r.token2 == token2,
            r.fees == fees,
            r.total_token1 == 0,
            r.total_token2 == 0,
            r.total_shares == 0,
            forall|a: AccountId| r.shares.bal(a) == 0,
            forall|o: AccountId, sp: AccountId| r.allowances.amount(o, sp) == 0,
    {
        Pool {
            token1,
            token2,
            total_token1: 0,
            total_token2: 0,
            total_shares: 0,
            shares: ShareLedger::new(),
            allowances: AllowanceLedger::new(),
            fees,
        }
    }

    /// The liquidity constant of the pool.
    fn get_k(&self) -> (r: u128)
        requires
            self.spec_k() <= u128::MAX,
        ensures
            r == self.spec_k(),
    {
        self.total_token1 * self.total_token2
    }

    /// Restricts withdraw and swap operations until liquidity has been added.
    fn active_pool(&self) -> (r: Result<(), Error>)
        requires
            self.spec_k() <= u128::MAX,
        ensures
            r is Ok <==> self.active(),
            r is Err ==> r->Err_0 == Error::ZeroLiquidity,
    {
        let k: u128 = self.get_k();
        if k == 0 {
            Err(Error::ZeroLiquidity)
        } else {
            Ok(())
        }
    }

    /// Amount of token1 required when providing liquidity with
    /// `amount_token2` of token2.
    pub fn get_equivalent_token1_estimate_given_token2(&self, amount_token2: u128) -> (r: Result<
        u128,
        Error,
    >)
        requires
            self.spec_k() <= u128::MAX,
            self.total_token1 * amount_token2 <= u128::MAX,
        ensures
            r is Ok <==> self.active(),
            r is Ok ==> r->Ok_0 == self.spec_equivalent_token1(amount_token2),
            r is Err ==> r->Err_0 == Error::ZeroLiquidity,
    {
        self.active_pool()?;
        Ok(self.total_token1 * amount_token2 / self.total_token2)
    }

    /// Amount of token2 required when providing liquidity with
    /// `amount_token1` of token1.
    pub fn get_equivalent_token2_estimate_given_token1(&self, amount_token1: u128) -> (r: Result<
        u128,
        Error,
    >)
        requires
            self.spec_k() <= u128::MAX,
            self.total_token2 * amount_token1 <= u128::MAX,
        ensures
            r is Ok <==> self.active(),
            r is Ok ==> r->Ok_0 == self.spec_equivalent_token2(amount_token1),
            r is Err ==> r->Err_0 == Error::ZeroLiquidity,
    {
        self.active_pool()?;
        Ok(self.total_token2 * amount_token1 / self.total_token1)
    }

    /// Books a deposit of both tokens and mints the issued shares to
    /// `caller`. The host must have pulled the two amounts into custody
    /// before the call.
    pub fn add_liquidity(&mut self, caller: AccountId, amount_token1: u128, amount_token2: u128)
        -> (r: Result<u128, Error>)
        requires
            old(self).wf(),
            old(self).total_shares != 0 ==> old(self).total_token1 > 0 && old(self).total_token2
                > 0,
            old(self).total_token1 + amount_token1 <= u128::MAX,
            old(self).total_token2 + amount_token2 <= u128::MAX,
            old(self).total_shares * amount_token1 <= u128::MAX,
            old(self).total_shares * amount_token2 <= u128::MAX,
            old(self).total_shares + old(self).spec_issued(amount_token1) <= u128::MAX,
        ensures
            final(self).wf(),
            final(self).token1 == old(self).token1,
            final(self).token2 == old(self).token2,
            final(self).fees == old(self).fees,
            r is Err ==> *final(self) == *old(self),
            r is Ok <==> (old(self).total_shares == 0 || (old(self).spec_share1(amount_token1)
                == old(self).spec_share2(amount_token2) && old(self).spec_share1(amount_token1)
                != 0)),
            old(self).total_shares == 0 ==> r == Ok::<u128, Error>(GENESIS_SHARES),
            (old(self).total_shares != 0 && old(self).spec_share1(amount_token1)
                != old(self).spec_share2(amount_token2))
                ==> r == Err::<u128, Error>(Error::NonEquivalentValue),
            (old(self).total_shares != 0 && old(self).spec_share1(amount_token1)
                == old(self).spec_share2(amount_token2) && old(self).spec_share1(amount_token1)
                == 0) ==> r == Err::<u128, Error>(Error::ThresholdNotReached),
            r is Ok ==> r->Ok_0 == old(self).spec_issued(amount_token1)
                && final(self).total_token1 == old(self).total_token1 + amount_token1
                && final(self).total_token2 == old(self).total_token2 + amount_token2
                && final(self).total_shares == old(self).total_shares + r->Ok_0
                && final(self).shares.bal(caller) == old(self).shares.bal(caller) + r->Ok_0
                && (forall|a: AccountId|
                    a != caller ==> final(self).shares.bal(a) == old(self).shares.bal(a))
                && final(self).allowances == old(self).allowances,
    {
        let share: u128;
        if self.total_shares == 0 {
            // Genesis liquidity is issued a fixed share grant.
            share = GENESIS_SHARES;
        } else {
            let share1: u128 = self.total_shares * amount_token1 / self.total_token1;
            let share2: u128 = self.total_shares * amount_token2 / self.total_token2;
            if share1 != share2 {
                return Err(Error::NonEquivalentValue);
            }
            share = share1;
        }
        if share == 0 {
            return Err(Error::ThresholdNotReached);
        }
        self.total_token1 = self.total_token1 + amount_token1;
        self.total_token2 = self.total_token2 + amount_token2;
        self.total_shares = self.total_shares + share;
        let cur: u128 = self.shares.get(caller);
        proof {
            lemma_value_le_sum(old(self).shares.entries@, caller);
        }
        self.shares.set(caller, cur + share);
        Ok(share)
    }

    /// Estimate of the token1 and token2 released on burning `share` shares.
    pub fn get_withdraw_estimate(&self, share: u128) -> (r: Result<(u128, u128), Error>)
        requires
            self.wf(),
            self.spec_k() <= u128::MAX,
            share * self.total_token1 <= u128::MAX,
            share * self.total_token2 <= u128::MAX,
        ensures
            r is Ok <==> (self.active() && share <= self.total_shares),
            !self.active() ==> r == Err::<(u128, u128), Error>(Error::ZeroLiquidity),
            (self.active() && share > self.total_shares) ==> r == Err::<(u128, u128), Error>(
                Error::InvalidShare,
            ),
            r is Ok ==> r->Ok_0.0 == self.spec_withdraw1(share) && r->Ok_0.1
                == self.spec_withdraw2(share),
    {
        self.active_pool()?;
        if share > self.total_shares {
            return Err(Error::InvalidShare);
        }
        let amount_token1: u128 = share * self.total_token1 / self.total_shares;
        let amount_token2: u128 = share * self.total_token2 / self.total_shares;
        Ok((amount_token1, amount_token2))
    }

    /// Burns `share` shares of `caller` and books the proportional amounts
    /// out of both reserves; the host then releases those amounts.
    /// The host must refuse callers that hold fewer shares than they burn.
    pub fn remove_liquidity(&mut self, caller: AccountId, share: u128) -> (r: Result<
        (u128, u128),
        Error,
    >)
        requires
            old(self).wf(),
            share <= old(self).shares.bal(caller),
            old(self).spec_k() <= u128::MAX,
            share * old(self).total_token1 <= u128::MAX,
            share * old(self).total_token2 <= u128::MAX,
        ensures
            final(self).wf(),
            final(self).token1 == old(self).token1,
            final(self).token2 == old(self).token2,
            final(self).fees == old(self).fees,
            r is Err ==> *final(self) == *old(self),
            r is Ok <==> old(self).active(),
            !old(self).active() ==> r == Err::<(u128, u128), Error>(Error::ZeroLiquidity),
            r is Ok ==> r->Ok_0.0 == old(self).spec_withdraw1(share)
                && r->Ok_0.1 == old(self).spec_withdraw2(share)
                && final(self).total_token1 == old(self).total_token1 - r->Ok_0.0
                && final(self).total_token2 == old(self).total_token2 - r->Ok_0.1
                && final(self).total_shares == old(self).total_shares - share
                && final(self).shares.bal(caller) == old(self).shares.bal(caller) - share
                && (forall|a: AccountId|
                    a != caller ==> final(self).shares.bal(a) == old(self).shares.bal(a))
                && final(self).allowances == old(self).allowances,
    {
        proof {
            lemma_value_le_sum(old(self).shares.entries@, caller);
        }
        let est: (u128, u128) = match self.get_withdraw_estimate(share) {
            Ok(v) => v,
            Err(e) => {
                return Err(e);
            },
        };
        let amount_token1: u128 = est.0;
        let amount_token2: u128 = est.1;
        proof {
            let s = old(self).total_shares as int;
            let t1 = old(self).total_token1 as int;
            let t2 = old(self).total_token2 as int;
            lemma_mul_inequality(share as int, s, t1);
            lemma_mul_inequality(share as int, s, t2);
            lemma_div_is_ordered(share * t1, s * t1, s);
            lemma_div_is_ordered(share * t2, s * t2, s);
            lemma_div_multiples_vanish(t1, s);
            lemma_div_multiples_vanish(t2, s);
            assert(amount_token1 <= old(self).total_token1);
            assert(amount_token2 <= old(self).total_token2);
            if share == old(self).total_shares {
                assert(amount_token1 == old(self).total_token1);
                assert(amount_token2 == old(self).total_token2);
            }
        }
        let bal: u128 = self.shares.get(caller);
        self.shares.set(caller, bal - share);
        self.total_shares = self.total_shares - share;
        self.total_token1 = self.total_token1 - amount_token1;
        self.total_token2 = self.total_token2 - amount_token2;
        proof {
            // Burning every outstanding share empties both reserves exactly,
            // so the pool that keeps shares outstanding is the active one.
            if share == old(self).total_shares {
                lemma_mul_by_zero_is_zero(self.total_token2 as int);
            }
        }
        Ok((amount_token1, amount_token2))
    }

    /// Token2 the user receives when swapping `amount_token1` of token1.
    pub fn get_swap_token1_estimate_given_token1(&self, amount_token1: u128) -> (r: Result<
        u128,
        Error,
    >)
        requires
            self.wf(),
            self.spec_k() <= u128::MAX,
            amount_token1 * 1000 <= u128::MAX,
            self.total_token1 + self.eff_input(amount_token1) <= u128::MAX,
        ensures
            r is Ok <==> self.active(),
            !self.active() ==> r == Err::<u128, Error>(Error::ZeroLiquidity),
            r is Ok ==> r->Ok_0 == self.spec_swap_token1_given_token1(amount_token1),
    {
        self.active_pool()?;
        proof {
            lemma_active_reserves(*self);
            lemma_eff_input_bounds(*self, amount_token1);
        }
        let fee_kept: u128 = (1000 - self.fees) as u128;
        let adjusted: u128 = amount_token1 * fee_kept / 1000;
        let token1_after: u128 = self.total_token1 + adjusted;
        let k: u128 = self.get_k();
        let token2_after: u128 = k / token1_after;
        proof {
            lemma_prod_div_le(self.total_token1 as int, self.total_token2 as int,
                token1_after as int);
        }
        let mut amount_token2: u128 = self.total_token2 - token2_after;
        // Keep the token2 reserve from being drained to nothing.
        if amount_token2 == self.total_token2 {
            amount_token2 = amount_token2 - 1;
        }
        Ok(amount_token2)
    }

    /// Token1 the user must swap in to be paid `amount_token2` of token2.
    pub fn get_swap_token1_estimate_given_token2(&self, amount_token2: u128) -> (r: Result<
        u128,
        Error,
    >)
        requires
            self.wf(),
            self.spec_k() <= u128::MAX,
            (self.active() && amount_token2 < self.total_token2) ==> self.fees < 1000 && (
            self.spec_k() / (self.total_token2 - amount_token2) - self.total_token1) * 1000
                <= u128::MAX,
        ensures
            r is Ok <==> (self.active() && amount_token2 < self.total_token2),
            !self.active() ==> r == Err::<u128, Error>(Error::ZeroLiquidity),
            (self.active() && amount_token2 >= self.total_token2) ==> r == Err::<u128, Error>(
                Error::InsufficientLiquidity,
            ),
            r is Ok ==> r->Ok_0 == self.spec_swap_token1_given_token2(amount_token2),
    {
        self.active_pool()?;
        if amount_token2 >= self.total_token2 {
            return Err(Error::InsufficientLiquidity);
        }
        proof {
            lemma_active_reserves(*self);
        }
        let token2_after: u128 = self.total_token2 - amount_token2;
        let k: u128 = self.get_k();
        let token1_after: u128 = k / token2_after;
        proof {
            lemma_prod_div_ge(self.total_token1 as int, self.total_token2 as int,
                token2_after as int);
        }
        let amount_token1: u128 = (token1_after - self.total_token1) * 1000 / ((1000
            - self.fees) as u128);
        Ok(amount_token1)
    }

    /// Token1 the user receives when swapping `amount_token2` of token2.
    pub fn get_swap_token2_estimate_given_token2(&self, amount_token2: u128) -> (r: Result<
        u128,
        Error,
    >)
        requires
            self.wf(),
            self.spec_k() <= u128::MAX,
            amount_token2 * 1000 <= u128::MAX,
            self.total_token2 + self.eff_input(amount_token2) <= u128::MAX,
        ensures
            r is Ok <==> self.active(),
            !self.active() ==> r == Err::<u128, Error>(Error::ZeroLiquidity),
            r is Ok ==> r->Ok_0 == self.spec_swap_token2_given_token2(amount_token2),
    {
        self.active_pool()?;
        proof {
            lemma_active_reserves(*self);
            lemma_eff_input_bounds(*self, amount_token2);
        }
        let fee_kept: u128 = (1000 - self.fees) as u128;
        let adjusted: u128 = amount_token2 * fee_kept / 1000;
        let token2_after: u128 = self.total_token2 + adjusted;
        let k: u128 = self.get_k();
        let token1_after: u128 = k / token2_after;
        proof {
            lemma_prod_div_le(self.total_token2 as int, self.total_token1 as int,
                token2_after as int);
            lemma_mul_is_commutative(self.total_token1 as int, self.total_token2 as int);
        }
        let mut amount_token1: u128 = self.total_token1 - token1_after;
        // Keep the token1 reserve from being drained to nothing.
        if amount_token1 == self.total_token1 {
            amount_token1 = amount_token1 - 1;
        }
        Ok(amount_token1)
    }

    /// Token2 the user must swap in to be paid `amount_token1` of token1.
    pub fn get_swap_token2_estimate_given_token1(&self, amount_token1: u128) -> (r: Result<
        u128,
        Error,
    >)
        requires
            self.wf(),
            self.spec_k() <= u128::MAX,
            (self.active() && amount_token1 < self.total_token1) ==> self.fees < 1000 && (
            self.spec_k() / (self.total_token1 - amount_token1) - self.total_token2) * 1000
                <= u128::MAX,
        ensures
            r is Ok <==> (self.active() && amount_token1 < self.total_token1),
            !self.active() ==> r == Err::<u128, Error>(Error::ZeroLiquidity),
            (self.active() && amount_token1 >= self.total_token1) ==> r == Err::<u128, Error>(
                Error::InsufficientLiquidity,
            ),
            r is Ok ==> r->Ok_0 == self.spec_swap_token2_given_token1(amount_token1),
    {
        self.active_pool()?;
        if amount_token1 >= self.total_token1 {
            return Err(Error::InsufficientLiquidity);
        }
        proof {
            lemma_active_reserves(*self);
        }
        let token1_after: u128 = self.total_token1 - amount_token1;
        let k: u128 = self.get_k();
        let token2_after: u128 = k / token1_after;
        proof {
            lemma_prod_div_ge(self.total_token2 as int, self.total_token1 as int,
                token1_after as int);
            lemma_mul_is_commutative(self.total_token2 as int, self.total_token1 as int);
        }
        let amount_token2: u128 = (token2_after - self.total_token2) * 1000 / ((1000
            - self.fees) as u128);
        Ok(amount_token2)
    }

    /// Swaps `amount_token1` of token1 for token2; fails with
    /// `SlippageExceeded` when the quoted token2 falls below `min_token2`,
    /// changing nothing. The host moves the two token amounts.
    pub fn swap_token1_given_token1(&mut self, amount_token1: u128, min_token2: u128) -> (r:
        Result<u128, Error>)
        requires
            old(self).wf(),
            old(self).spec_k() <= u128::MAX,
            amount_token1 * 1000 <= u128::MAX,
            old(self).total_token1 + amount_token1 <= u128::MAX,
        ensures
            final(self).wf(),
            final(self).token1 == old(self).token1,
            final(self).token2 == old(self).token2,
            final(self).fees == old(self).fees,
            final(self).total_shares == old(self).total_shares,
            final(self).shares == old(self).shares,
            final(self).allowances == old(self).allowances,
            r is Err ==> *final(self) == *old(self),
            r is Ok <==> (old(self).active() && old(self).spec_swap_token1_given_token1(
                amount_token1,
            ) >= min_token2),
            !old(self).active() ==> r == Err::<u128, Error>(Error::ZeroLiquidity),
            (old(self).active() && old(self).spec_swap_token1_given_token1(amount_token1)
                < min_token2) ==> r == Err::<u128, Error>(Error::SlippageExceeded),
            r is Ok ==> r->Ok_0 == old(self).spec_swap_token1_given_token1(amount_token1)
                && final(self).total_token1 == old(self).total_token1 + amount_token1
                && final(self).total_token2 == old(self).total_token2 - r->Ok_0
                && final(self).active(),
    {
        proof {
            lemma_eff_input_bounds(*old(self), amount_token1);
        }
        let amount_token2: u128 = match self.get_swap_token1_estimate_given_token1(
            amount_token1,
        ) {
            Ok(v) => v,
            Err(e) => {
                return Err(e);
            },
        };
        if amount_token2 < min_token2 {
            return Err(Error::SlippageExceeded);
        }
        proof {
            lemma_active_reserves(*old(self));
        }
        self.total_token1 = self.total_token1 + amount_token1;
        self.total_token2 = self.total_token2 - amount_token2;
        proof {
            lemma_mul_strictly_positive(self.total_token1 as int, self.total_token2 as int);
        }
        Ok(amount_token2)
    }

    /// Swaps token1 for exactly `amount_token2` of token2; fails with
    /// `SlippageExceeded` when the required token1 exceeds `max_token1`,
    /// changing nothing. The host moves the two token amounts.
    pub fn swap_token1_given_token2(&mut self, amount_token2: u128, max_token1: u128) -> (r:
        Result<u128, Error>)
        requires
            old(self).wf(),
            old(self).spec_k() <= u128::MAX,
            (old(self).active() && amount_token2 < old(self).total_token2) ==> old(self).fees
                < 1000 && (old(self).spec_k() / (old(self).total_token2 - amount_token2) - old(
                self,
            ).total_token1) * 1000 <= u128::MAX && old(self).total_token1 + old(
                self,
            ).spec_swap_token1_given_token2(amount_token2) <= u128::MAX,
        ensures
            final(self).wf(),
            final(self).token1 == old(self).token1,
            final(self).token2 == old(self).token2,
            final(self).fees == old(self).fees,
            final(self).total_shares == old(self).total_shares,
            final(self).shares == old(self).shares,
            final(self).allowances == old(self).allowances,
            r is Err ==> *final(self) == *old(self),
            r is Ok <==> (old(self).active() && amount_token2 < old(self).total_token2 && old(
                self,
            ).spec_swap_token1_given_token2(amount_token2) <= max_token1),
            !old(self).active() ==> r == Err::<u128, Error>(Error::ZeroLiquidity),
            (old(self).active() && amount_token2 >= old(self).total_token2) ==> r == Err::<
                u128,
                Error,
            >(Error::InsufficientLiquidity),
            (old(self).active() && amount_token2 < old(self).total_token2 && old(
                self,
            ).spec_swap_token1_given_token2(amount_token2) > max_token1) ==> r == Err::<
                u128,
                Error,
            >(Error::SlippageExceeded),
            r is Ok ==> r->Ok_0 == old(self).spec_swap_token1_given_token2(amount_token2)
                && final(self).total_token1 == old(self).total_token1 + r->Ok_0
                && final(self).total_token2 == old(self).total_token2 - amount_token2
                && final(self).active(),
    {
        let amount_token1: u128 = match self.get_swap_token1_estimate_given_token2(
            amount_token2,
        ) {
            Ok(v) => v,
            Err(e) => {
                return Err(e);
            },
        };
        if amount_token1 > max_token1 {
            return Err(Error::SlippageExceeded);
        }
        proof {
            lemma_active_reserves(*old(self));
        }
        self.total_token1 = self.total_token1 + amount_token1;
        self.total_token2 = self.total_token2 - amount_token2;
        proof {
            lemma_mul_strictly_positive(self.total_token1 as int, self.total_token2 as int);
        }
        Ok(amount_token1)
    }

    /// Swaps `amount_token2` of token2 for token1; fails with
    /// `SlippageExceeded` when the quoted token1 falls below `min_token1`,
    /// changing nothing. The host moves the two token amounts.
    pub fn swap_token2_given_token2(&mut self, amount_token2: u128, min_token1: u128) -> (r:
        Result<u128, Error>)
        requires
            old(self).wf(),
            old(self).spec_k() <= u128::MAX,
            amount_token2 * 1000 <= u128::MAX,
            old(self).total_token2 + amount_token2 <= u128::MAX,
        ensures
            final(self).wf(),
            final(self).token1 == old(self).token1,
            final(self).token2 == old(self).token2,
            final(self).fees == old(self).fees,
            final(self).total_shares == old(self).total_shares,
            final(self).shares == old(self).shares,
            final(self).allowances == old(self).allowances,
            r is Err ==> *final(self) == *old(self),
            r is Ok <==> (old(self).active() && old(self).spec_swap_token2_given_token2(
                amount_token2,
            ) >= min_token1),
            !old(self).active() ==> r == Err::<u128, Error>(Error::ZeroLiquidity),
            (old(self).active() && old(self).spec_swap_token2_given_token2(amount_token2)
                < min_token1) ==> r == Err::<u128, Error>(Error::SlippageExceeded),
            r is Ok ==> r->Ok_0 == old(self).spec_swap_token2_given_token2(amount_token2)
                && final(self).total_token2 == old(self).total_token2 + amount_token2
                && final(self).total_token1 == old(self).total_token1 - r->Ok_0
                && final(self).active(),
    {
        proof {
            lemma_eff_input_bounds(*old(self), amount_token2);
        }
        let amount_token1: u128 = match self.get_swap_token2_estimate_given_token2(
            amount_token2,
        ) {
            Ok(v) => v,
            Err(e) => {
                return Err(e);
            },
        };
        if amount_token1 < min_token1 {
            return Err(Error::SlippageExceeded);
        }
        proof {
            lemma_active_reserves(*old(self));
        }
        self.total_token2 = self.total_token2 + amount_token2;
        self.total_token1 = self.total_token1 - amount_token1;
        proof {
            lemma_mul_strictly_positive(self.total_token1 as int, self.total_token2 as int);
        }
        Ok(amount_token1)
    }

    /// Swaps token2 for exactly `amount_token1` of token1; fails with
    /// `SlippageExceeded` when the required token2 exceeds `max_token2`,
    /// changing nothing. The host moves the two token amounts.
    pub fn swap_token2_given_token1(&mut self, amount_token1: u128, max_token2: u128) -> (r:
        Result<u128, Error>)
        requires
            old(self).wf(),
            old(self).spec_k() <= u128::MAX,
            (old(self).active() && amount_token1 < old(self).total_token1) ==> old(self).fees
                < 1000 && (old(self).spec_k() / (old(self).total_token1 - amount_token1) - old(
                self,
            ).total_token2) * 1000 <= u128::MAX && old(self).total_token2 + old(
                self,
            ).spec_swap_token2_given_token1(amount_token1) <= u128::MAX,
        ensures
            final(self).wf(),
            final(self).token1 == old(self).token1,
            final(self).token2 == old(self).token2,
            final(self).fees == old(self).fees,
            final(self).total_shares == old(self).total_shares,
            final(self).shares == old(self).shares,
            final(self).allowances == old(self).allowances,
            r is Err ==> *final(self) == *old(self),
            r is Ok <==> (old(self).active() && amount_token1 < old(self).total_token1 && old(
                self,
            ).spec_swap_token2_given_token1(amount_token1) <= max_token2),
            !old(self).active() ==> r == Err::<u128, Error>(Error::ZeroLiquidity),
            (old(self).active() && amount_token1 >= old(self).total_token1) ==> r == Err::<
                u128,
                Error,
            >(Error::InsufficientLiquidity),
            (old(self).active() && amount_token1 < old(self).total_token1 && old(
                self,
            ).spec_swap_token2_given_token1(amount_token1) > max_token2) ==> r == Err::<
                u128,
                Error,
            >(Error::SlippageExceeded),
            r is Ok ==> r->Ok_0 == old(self).spec_swap_token2_given_token1(amount_token1)
                && final(self).total_token2 == old(self).total_token2 + r->Ok_0
                && final(self).total_token1 == old(self).total_token1 - amount_token1
                && final(self).active(),
    {
        let amount_token2: u128 = match self.get_swap_token2_estimate_given_token1(
            amount_token1,
        ) {
            Ok(v) => v,
            Err(e) => {
                return Err(e);
            },
        };
        if amount_token2 > max_token2 {
            return Err(Error::SlippageExceeded);
        }
        proof {
            lemma_active_reserves(*old(self));
        }
        self.total_token2 = self.total_token2 + amount_token2;
        self.total_token1 = self.total_token1 - amount_token1;
        proof {
            lemma_mul_strictly_positive(self.total_token1 as int, self.total_token2 as int);
        }
        Ok(amount_token2)
    }

    /// Decimal places of the pool's own share token.
    pub fn decimals(&self) -> (r: u8)
        ensures
            r == 18,
    {
        18
    }

    /// Total supply of the pool's share token.
    pub fn total_supply(&self) -> (r: u128)
        ensures
            r == self.total_shares,
    {
        self.total_shares
    }

    /// Share balance of `owner`.
    pub fn balance_of(&self, owner: AccountId) -> (r: u128)
        ensures
            r == self.shares.bal(owner),
    {
        self.shares.get(owner)
    }

    /// Shares `spender` may still move out of `owner`'s balance.
    pub fn allowance(&self, owner: AccountId, spender: AccountId) -> (r: u128)
        ensures
            r == self.allowances.amount(owner, spender),
    {
        self.allowances.get(owner, spender)
    }

    /// Moves `value` shares from `from` to `to`; `from` is the acting
    /// account, as established by the host.
    pub fn transfer(&mut self, from: AccountId, to: AccountId, value: u128) -> (r: Result<
        (),
        Error,
    >)
        requires
            old(self).wf(),
        ensures
            final(self).wf(),
            final(self).token1 == old(self).token1,
            final(self).token2 == old(self).token2,
            final(self).fees == old(self).fees,
            final(self).total_token1 == old(self).total_token1,
            final(self).total_token2 == old(self).total_token2,
            final(self).total_shares == old(self).total_shares,
            final(self).allowances == old(self).allowances,
            r is Err ==> *final(self) == *old(self),
            r is Ok <==> value <= old(self).shares.bal(from),
            r is Err ==> r->Err_0 == Error::InsufficientBalance,
            (r is Ok && from != to) ==> final(self).shares.bal(from) == old(self).shares.bal(
                from,
            ) - value && final(self).shares.bal(to) == old(self).shares.bal(to) + value,
            r is Ok ==> (forall|a: AccountId|
                (a != from && a != to) ==> final(self).shares.bal(a) == old(self).shares.bal(a)),
            (r is Ok && from == to) ==> (forall|a: AccountId|
                final(self).shares.bal(a) == old(self).shares.bal(a)),
    {
        self.transfer_from_to(from, to, value)
    }

    /// Lets `spender` move up to `value` shares out of `owner`'s balance.
    pub fn approve(&mut self, owner: AccountId, spender: AccountId, value: u128) -> (r: Result<
        (),
        Error,
    >)
        requires
            old(self).wf(),
        ensures
            final(self).wf(),
            final(self).token1 == old(self).token1,
            final(self).token2 == old(self).token2,
            final(self).fees == old(self).fees,
            final(self).total_token1 == old(self).total_token1,
            final(self).total_token2 == old(self).total_token2,
            final(self).total_shares == old(self).total_shares,
            final(self).shares == old(self).shares,
            r is Ok,
            final(self).allowances.amount(owner, spender) == value,
            forall|o: AccountId, sp: AccountId|
                !(o == owner && sp == spender) ==> final(self).allowances.amount(o, sp) == old(
                    self,
                ).allowances.amount(o, sp),
    {
        self.allowances.set(owner, spender, value);
        Ok(())
    }

    /// Moves `value` shares from `from` to `to` on behalf of `caller`,
    /// spending `caller`'s allowance from `from`.
    pub fn transfer_from(&mut self, caller: AccountId, from: AccountId, to: AccountId,
        value: u128) -> (r: Result<(), Error>)
        requires
            old(self).wf(),
        ensures
            final(self).wf(),
            final(self).token1 == old(self).token1,
            final(self).token2 == old(self).token2,
            final(self).fees == old(self).fees,
            final(self).total_token1 == old(self).total_token1,
            final(self).total_token2 == old(self).total_token2,
            final(self).total_shares == old(self).total_shares,
            r is Err ==> *final(self) == *old(self),
            r is Ok <==> (value <= old(self).allowances.amount(from, caller) && value <= old(
                self,
            ).shares.bal(from)),
            value > old(self).allowances.amount(from, caller) ==> r == Err::<(), Error>(
                Error::InsufficientAllowance,
            ),
            (value <= old(self).allowances.amount(from, caller) && value > old(self).shares.bal(
                from,
            )) ==> r == Err::<(), Error>(Error::InsufficientBalance),
            r is Ok ==> final(self).allowances.amount(from, caller) == old(
                self,
            ).allowances.amount(from, caller) - value,
            r is Ok ==> (forall|o: AccountId, sp: AccountId|
                !(o == from && sp == caller) ==> final(self).allowances.amount(o, sp) == old(
                    self,
                ).allowances.amount(o, sp)),
            (r is Ok && from != to) ==> final(self).shares.bal(from) == old(self).shares.bal(
                from,
            ) - value && final(self).shares.bal(to) == old(self).shares.bal(to) + value,
            r is Ok ==> (forall|a: AccountId|
                (a != from && a != to) ==> final(self).shares.bal(a) == old(self).shares.bal(a)),
            (r is Ok && from == to) ==> (forall|a: AccountId|
                final(self).shares.bal(a) == old(self).shares.bal(a)),
    {
        let allowance: u128 = self.allowances.get(from, caller);
        if allowance < value {
            return Err(Error::InsufficientAllowance);
        }
        match self.transfer_from_to(from, to, value) {
            Ok(u) => u,
            Err(e) => {
                return Err(e);
            },
        };
        self.allowances.set(from, caller, allowance - value);
        Ok(())
    }

    /// Moves `value` shares between two balances, keeping the books'
    /// total equal to the share supply.
    fn transfer_from_to(&mut self, from: AccountId, to: AccountId, value: u128) -> (r: Result<
        (),
        Error,
    >)
        requires
            old(self).wf(),
        ensures
            final(self).wf(),
            final(self).token1 == old(self).token1,
            final(self).token2 == old(self).token2,
            final(self).fees == old(self).fees,
            final(self).total_token1 == old(self).total_token1,
            final(self).total_token2 == old(self).total_token2,
            final(self).total_shares == old(self).total_shares,
            final(self).allowances == old(self).allowances,
            r is Err ==> *final(self) == *old(self),
            r is Ok <==> value <= old(self).shares.bal(from),
            r is Err ==> r->Err_0 == Error::InsufficientBalance,
            (r is Ok && from != to) ==> final(self).shares.bal(from) == old(self).shares.bal(
                from,
            ) - value && final(self).shares.bal(to) == old(self).shares.bal(to) + value,
            r is Ok ==> (forall|a: AccountId|
                (a != from && a != to) ==> final(self).shares.bal(a) == old(self).shares.bal(a)),
            (r is Ok && from == to) ==> (forall|a: AccountId|
                final(self).shares.bal(a) == old(self).shares.bal(a)),
    {
        let from_balance: u128 = self.shares.get(from);
        if from_balance < value {
            return Err(Error::InsufficientBalance);
        }
        proof {
            if from != to {
                lemma_two_values_le_sum(old(self).shares.entries@, from, to);
            } else {
                lemma_value_le_sum(old(self).shares.entries@, from);
            }
        }
        self.shares.set(from, from_balance - value);
        let to_balance: u128 = self.shares.get(to);
        self.shares.set(to, to_balance + value);
        Ok(())
    }
}

/// An active pool has both reserves strictly positive.
pub(crate) proof fn lemma_active_reserves(p: Pool)
    requires
        p.active(),
    ensures
        p.total_token1 > 0,
        p.total_token2 > 0,
{
    if p.total_token1 == 0 {
        lemma_mul_by_zero_is_zero(p.total_token2 as int);
    }
    if p.total_token2 == 0 {
        lemma_mul_by_zero_is_zero(p.total_token1 as int);
    }
}

/// The fee-adjusted input is non-negative and at most the input itself.
pub(crate) proof fn lemma_eff_input_bounds(p: Pool, amount: u128)
    requires
        p.fees <= 1000,
    ensures
        0 <= p.eff_input(amount),
        p.eff_input(amount) <= amount,
        0 <= amount * ((1000 - p.fees) as int) <= amount * 1000,
{
    let a = amount as int;
    let kept = (1000 - p.fees) as int;
    assert(a * kept >= 0) by (nonlinear_arith)
        requires
            a >= 0,
            kept >= 0,
    ;
    assert(a * kept <= a * 1000) by (nonlinear_arith)
        requires
            a >= 0,
            kept <= 1000,
    ;
    lemma_div_pos_is_pos(a * kept, 1000);
    lemma_div_is_ordered(a * kept, a * 1000, 1000);
    lemma_mul_is_commutative(a, 1000);
    lemma_div_multiples_vanish(a, 1000);
}

/// Dividing `a * b` by `d >= a` gives at most `b`.
pub(crate) proof fn lemma_prod_div_le(a: int, b: int, d: int)
    requires
        0 < a <= d,
        0 <= b,
    ensures
        0 <= a * b / d,
        a * b / d <= b,
{
    lemma_mul_inequality(a, d, b);
    lemma_div_is_ordered(a * b, d * b, d);
    lemma_div_multiples_vanish(b, d);
    assert(a * b >= 0) by (nonlinear_arith)
        requires
            a >= 0,
            b >= 0,
    ;
    lemma_div_pos_is_pos(a * b, d);
}

/// Dividing `a * b` by `0 < d <= b` gives at least `a`.
pub(crate) proof fn lemma_prod_div_ge(a: int, b: int, d: int)
    requires
        0 < d <= b,
        0 <= a,
    ensures
        a * b / d >= a,
{
    assert(a * b >= 0) by (nonlinear_arith)
        requires
            a >= 0,
            b >= 0,
    ;
    lemma_div_is_ordered_by_denominator(a * b, d, b);
    lemma_mul_is_commutative(a, b);
    lemma_div_multiples_vanish(a, b);
}

} // verus!
