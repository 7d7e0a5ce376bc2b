//! Small in-memory tables used by the pool: account balances and
//! (owner, spender) allowances, stored as association lists with unique keys.

use vstd::prelude::*;

verus! {

/// Sum of all values held in a balance list, as a mathematical integer.
pub open spec fn sum_values(s: Seq<(u64, u128)>) -> int
    decreases s.len(),
{
    if s.len() == 0 {
        0
    } else {
        s[0].1 + sum_values(s.drop_first())
    }
}

/// Value bound to `key`; 0 where the key is absent.
pub open spec fn value_of(s: Seq<(u64, u128)>, key: u64) -> u128
    decreases s.len(),
{
    if s.len() == 0 {
        0u128
    } else if s[0].0 == key {
        s[0].1
    } else {
        value_of(s.drop_first(), key)
    }
}

pub proof fn lemma_sum_nonneg(s: Seq<(u64, u128)>)
    ensures
        sum_values(s) >= 0,
    decreases s.len(),
{
    if s.len() != 0 {
        lemma_sum_nonneg(s.drop_first());
    }
}

/// No single balance exceeds the total of all balances.
pub proof fn lemma_value_le_sum(s: Seq<(u64, u128)>, key: u64)
    ensures
        value_of(s, key) <= sum_values(s),
    decreases s.len(),
{
    if s.len() != 0 {
        lemma_value_le_sum(s.drop_first(), key);
        lemma_sum_nonneg(s.drop_first());
    }
}

/// Two distinct balances together do not exceed the total.
pub proof fn lemma_two_values_le_sum(s: Seq<(u64, u128)>, k1: u64, k2: u64)
    requires
        k1 != k2,
    ensures
        value_of(s, k1) + value_of(s, k2) <= sum_values(s),
    decreases s.len(),
{
    if s.len() != 0 {
        if s[0].0 == k1 {
            lemma_value_le_sum(s.drop_first(), k2);
        } else if s[0].0 == k2 {
            lemma_value_le_sum(s.drop_first(), k1);
        } else {
            lemma_two_values_le_sum(s.drop_first(), k1, k2);
        }
    }
}

proof fn lemma_update_value(s: Seq<(u64, u128)>, i: int, v: u128, key: u64)
    requires
        0 <= i < s.len(),
        forall|j: int| 0 <= j < i ==> s[j].0 != s[i].0,
    ensures
        value_of(s.update(i, (s[i].0, v)), key) == if key == s[i].0 {
            v
        } else {
            value_of(s, key)
        },
    decreases i,
{
    let t = s.update(i, (s[i].0, v));
    if i == 0 {
        assert(t.drop_first() =~= s.drop_first());
    } else {
        assert(t.drop_first() =~= s.drop_first().update(i - 1, (s.drop_first()[i - 1].0, v)));
        lemma_update_value(s.drop_first(), i - 1, v, key);
    }
}

proof fn lemma_update_sum(s: Seq<(u64, u128)>, i: int, v: u128)
    requires
        0 <= i < s.len(),
    ensures
        sum_values(s.update(i, (s[i].0, v))) == sum_values(s) - s[i].1 + v,
    decreases i,
{
    let t = s.update(i, (s[i].0, v));
    if i == 0 {
        assert(t.drop_first() =~= s.drop_first());
    } else {
        assert(t.drop_first() =~= s.drop_first().update(i - 1, (s.drop_first()[i - 1].0, v)));
        lemma_update_sum(s.drop_first(), i - 1, v);
    }
}

proof fn lemma_push_value(s: Seq<(u64, u128)>, k: u64, v: u128, key: u64)
    requires
        forall|j: int| 0 <= j < s.len() ==> s[j].0 != k,
    ensures
        value_of(s.push((k, v)), key) == if key == k {
            v
        } else {
            value_of(s, key)
        },
    decreases s.len(),
{
    if s.len() == 0 {
        assert(s.push((k, v)).drop_first() =~= s);
    } else {
        assert(s.push((k, v)).drop_first() =~= s.drop_first().push((k, v)));
        lemma_push_value(s.drop_first(), k, v, key);
    }
}

proof fn lemma_push_sum(s: Seq<(u64, u128)>, k: u64, v: u128)
    ensures
        sum_values(s.push((k, v))) == sum_values(s) + v,
    decreases s.len(),
{
    if s.len() == 0 {
        assert(s.push((k, v)).drop_first() =~= s);
    } else {
        assert(s.push((k, v)).drop_first() =~= s.drop_first().push((k, v)));
        lemma_push_sum(s.drop_first(), k, v);
    }
}

/// Liquidity-share balances, one entry per account.
pub struct ShareLedger {
    pub entries: Vec<(u64, u128)>,
}

impl ShareLedger {
    /// Keys are unique: at most one entry per account.
    pub open spec fn wf(self) -> bool {
        forall|i: int, j: int|
            0 <= i < j < self.entries@.len() ==> self.entries@[i].0 != self.entries@[j].0
    }

    /// Balance of an account; 0 where the account has no entry.
    pub open spec fn bal(self, account: u64) -> u128 {
        value_of(self.entries@, account)
    }

    /// Total of all balances.
    pub open spec fn total(self) -> int {
        sum_values(self.entries@)
    }

    pub fn new() -> (r: Self)
        ensures
            r.wf(),
            r.total() == 0,
            forall|a: u64| r.bal(a) == 0,
    {
        ShareLedger { entries: Vec::new() }
    }

    pub fn get(&self, account: u64) -> (r: u128)
        ensures
            r == self.bal(account),
    {
        let n: usize = self.entries.len();
        let mut i: usize = 0;
        proof {
            assert(self.entries@.skip(0) =~= self.entries@);
        }
        while i < n
            invariant
                n == self.entries@.len(),
                0 <= i <= n,
                value_of(self.entries@.skip(i as int), account) == self.bal(account),
            decreases n - i,
        {
            if self.entries[i].0 == account {
                return self.entries[i].1;
            }
            proof {
                assert(self.entries@.skip(i as int).drop_first() =~= self.entries@.skip(
                    i as int + 1,
                ));
            }
            i = i + 1;
        }
        0
    }

    /// Binds `account` to exactly `v`, replacing any earlier balance.
    pub fn set(&mut self, account: u64, v: u128)
        requires
            old(self).wf(),
        ensures
            final(self).wf(),
            final(self).bal(account) == v,
            forall|a: u64| a != account ==> final(self).bal(a) == old(self).bal(a),
            final(self).total() == old(self).total() - old(self).bal(account) + v,
    {
        let n: usize = self.entries.len();
        let mut i: usize = 0;
        while i < n
            invariant
                old(self).wf(),
                *self == *old(self),
                n == self.entries@.len(),
                0 <= i <= n,
                forall|j: int| 0 <= j < i ==> self.entries@[j].0 != account,
            decreases n - i,
        {
            if self.entries[i].0 == account {
                proof {
                    lemma_value_skip(old(self).entries@, i as int, account);
                    assert(old(self).bal(account) == old(self).entries@[i as int].1);
                    assert forall|a: u64|
                        value_of(old(self).entries@.update(i as int, (account, v)), a) == (if a
                            == account {
                            v
                        } else {
                            old(self).bal(a)
                        }) by {
                        lemma_update_value(old(self).entries@, i as int, v, a);
                    }
                    lemma_update_sum(old(self).entries@, i as int, v);
                }
                self.entries[i] = (account, v);
                return ;
            }
            i = i + 1;
        }
        proof {
            lemma_value_skip(old(self).entries@, n as int, account);
            assert(old(self).bal(account) == 0);
            assert forall|a: u64|
                value_of(old(self).entries@.push((account, v)), a) == (if a == account {
                    v
                } else {
                    old(self).bal(a)
                }) by {
                lemma_push_value(old(self).entries@, account, v, a);
            }
            lemma_push_sum(old(self).entries@, account, v);
        }
        self.entries.push((account, v));
    }
}

/// Approved amount bound to an (owner, spender) pair; 0 where absent.
pub open spec fn pair_value_of(s: Seq<(u64, u64, u128)>, owner: u64, spender: u64) -> u128
    decreases s.len(),
{
    if s.len() == 0 {
        0u128
    } else if s[0].0 == owner && s[0].1 == spender {
        s[0].2
    } else {
        pair_value_of(s.drop_first(), owner, spender)
    }
}

proof fn lemma_pair_update_value(s: Seq<(u64, u64, u128)>, i: int, v: u128, o: u64, sp: u64)
    requires
        0 <= i < s.len(),
        forall|j: int| 0 <= j < i ==> !(s[j].0 == s[i].0 && s[j].1 == s[i].1),
    ensures
        pair_value_of(s.update(i, (s[i].0, s[i].1, v)), o, sp) == if o == s[i].0 && sp == s[i].1 {
            v
        } else {
            pair_value_of(s, o, sp)
        },
    decreases i,
{
    let t = s.update(i, (s[i].0, s[i].1, v));
    if i == 0 {
        assert(t.drop_first() =~= s.drop_first());
    } else {
        assert(t.drop_first() =~= s.drop_first().update(
            i - 1,
            (s.drop_first()[i - 1].0, s.drop_first()[i - 1].1, v),
        ));
        lemma_pair_update_value(s.drop_first(), i - 1, v, o, sp);
    }
}

proof fn lemma_pair_push_value(s: Seq<(u64, u64, u128)>, ko: u64, ks: u64, v: u128, o: u64, sp: u64)
    requires
        forall|j: int| 0 <= j < s.len() ==> !(s[j].0 == ko && s[j].1 == ks),
    ensures
        pair_value_of(s.push((ko, ks, v)), o, sp) == if o == ko && sp == ks {
            v
        } else {
            pair_value_of(s, o, sp)
        },
    decreases s.len(),
{
    if s.len() == 0 {
        assert(s.push((ko, ks, v)).drop_first() =~= s);
    } else {
        assert(s.push((ko, ks, v)).drop_first() =~= s.drop_first().push((ko, ks, v)));
        lemma_pair_push_value(s.drop_first(), ko, ks, v, o, sp);
    }
}

/// Share-transfer allowances, one entry per (owner, spender) pair.
pub struct AllowanceLedger {
    pub entries: Vec<(u64, u64, u128)>,
}

impl AllowanceLedger {
    /// Keys are unique: at most one entry per (owner, spender) pair.
    pub open spec fn wf(self) -> bool {
        forall|i: int, j: int|
            0 <= i < j < self.entries@.len() ==> !(self.entries@[i].0 == self.entries@[j].0
                && self.entries@[i].1 == self.entries@[j].1)
    }

    /// Amount `spender` may move out of `owner`'s shares; 0 where absent.
    pub open spec fn amount(self, owner: u64, spender: u64) -> u128 {
        pair_value_of(self.entries@, owner, spender)
    }

    pub fn new() -> (r: Self)
        ensures
            r.wf(),
            forall|o: u64, sp: u64| r.amount(o, sp) == 0,
    {
        AllowanceLedger { entries: Vec::new() }
    }

    pub fn get(&self, owner: u64, spender: u64) -> (r: u128)
        ensures
            r == self.amount(owner, spender),
    {
        let n: usize = self.entries.len();
        let mut i: usize = 0;
        proof {
            assert(self.entries@.skip(0) =~= self.entries@);
        }
        while i < n
            invariant
                n == self.entries@.len(),
                0 <= i <= n,
                pair_value_of(self.entries@.skip(i as int), owner, spender) == self.amount(
                    owner,
                    spender,
                ),
            decreases n - i,
        {
            if self.entries[i].0 == owner && self.entries[i].1 == spender {
                return self.entries[i].2;
            }
            proof {
                assert(self.entries@.skip(i as int).drop_first() =~= self.entries@.skip(
                    i as int + 1,
                ));
            }
            i = i + 1;
        }
        0
    }

    /// Binds the (owner, spender) pair to exactly `v`.
    pub fn set(&mut self, owner: u64, spender: u64, v: u128)
        requires
            old(self).wf(),
        ensures
            final(self).wf(),
            final(self).amount(owner, spender) == v,
            forall|o: u64, sp: u64|
                !(o == owner && sp == spender) ==> final(self).amount(o, sp) == old(self).amount(
                    o,
                    sp,
                ),
    {
        let n: usize = self.entries.len();
        let mut i: usize = 0;
        while i < n
            invariant
                old(self).wf(),
                *self == *old(self),
                n == self.entries@.len(),
                0 <= i <= n,
                forall|j: int|
                    0 <= j < i ==> !(self.entries@[j].0 == owner && self.entries@[j].1 == spender),
            decreases n - i,
        {
            if self.entries[i].0 == owner && self.entries[i].1 == spender {
                proof {
                    assert forall|o: u64, sp: u64|
                        pair_value_of(
                            old(self).entries@.update(i as int, (owner, spender, v)),
                            o,
                            sp,
                        ) == (if o == owner && sp == spender {
                            v
                        } else {
                            old(self).amount(o, sp)
                        }) by {
                        lemma_pair_update_value(old(self).entries@, i as int, v, o, sp);
                    }
                }
                self.entries[i] = (owner, spender, v);
                return ;
            }
            i = i + 1;
        }
        proof {
            assert forall|o: u64, sp: u64|
                pair_value_of(old(self).entries@.push((owner, spender, v)), o, sp) == (if o == owner
                    && sp == spender {
                    v
                } else {
                    old(self).amount(o, sp)
                }) by {
                lemma_pair_push_value(old(self).entries@, owner, spender, v, o, sp);
            }
        }
        self.entries.push((owner, spender, v));
    }
}

/// With no earlier entry for `key`, the lookup result is decided by the tail.
proof fn lemma_value_skip(s: Seq<(u64, u128)>, i: int, key: u64)
    requires
        0 <= i <= s.len(),
        forall|j: int| 0 <= j < i ==> s[j].0 != key,
    ensures
        value_of(s.skip(i), key) == value_of(s, key),
    decreases i,
{
    if i > 0 {
        assert(s.drop_first().skip(i - 1) =~= s.skip(i));
        lemma_value_skip(s.drop_first(), i - 1, key);
    } else {
        assert(s.skip(0) =~= s);
    }
}

} // verus!
