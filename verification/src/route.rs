//! Registry of pools: at most one pool per unordered token pair, with a
//! walk that checks a multi-hop swap path against the registry.

use vstd::prelude::*;
use crate::pool::AccountId;

verus! {

/// The canonically ordered (sorted) form of an unordered token pair.
pub open spec fn spec_canon(a: AccountId, b: AccountId) -> (AccountId, AccountId) {
    if a <= b {
        (a, b)
    } else {
        (b, a)
    }
}

/// Registry entry for the canonical key `(lo, hi)`, if any.
pub open spec fn lookup(s: Seq<(AccountId, AccountId, AccountId)>, lo: AccountId, hi: AccountId)
    -> Option<AccountId>
    decreases s.len(),
{
    if s.len() == 0 {
        None
    } else if s[0].0 == lo && s[0].1 == hi {
        Some(s[0].2)
    } else {
        lookup(s.drop_first(), lo, hi)
    }
}

proof fn lemma_lookup_skip(s: Seq<(AccountId, AccountId, AccountId)>, i: int, lo: AccountId,
    hi: AccountId)
    requires
        0 <= i <= s.len(),
        forall|j: int| 0 <= j < i ==> !(s[j].0 == lo && s[j].1 == hi),
    ensures
        lookup(s.skip(i), lo, hi) == lookup(s, lo, hi),
    decreases i,
{
    if i > 0 {
        assert(s.drop_first().skip(i - 1) =~= s.skip(i));
        lemma_lookup_skip(s.drop_first(), i - 1, lo, hi);
    } else {
        assert(s.skip(0) =~= s);
    }
}

proof fn lemma_lookup_none(s: Seq<(AccountId, AccountId, AccountId)>, lo: AccountId,
    hi: AccountId)
    requires
        lookup(s, lo, hi) is None,
    ensures
        forall|j: int| 0 <= j < s.len() ==> !(s[j].0 == lo && s[j].1 == hi),
    decreases s.len(),
{
    if s.len() != 0 {
        lemma_lookup_none(s.drop_first(), lo, hi);
        assert forall|j: int| 0 <= j < s.len() implies !(s[j].0 == lo && s[j].1 == hi) by {
            if j > 0 {
                assert(s.drop_first()[j - 1] == s[j]);
            }
        }
    }
}

proof fn lemma_lookup_push(s: Seq<(AccountId, AccountId, AccountId)>, lo: AccountId,
    hi: AccountId, addr: AccountId, a: AccountId, b: AccountId)
    requires
        forall|j: int| 0 <= j < s.len() ==> !(s[j].0 == lo && s[j].1 == hi),
    ensures
        lookup(s.push((lo, hi, addr)), a, b) == if a == lo && b == hi {
            Some(addr)
        } else {
            lookup(s, a, b)
        },
    decreases s.len(),
{
    if s.len() == 0 {
        assert(s.push((lo, hi, addr)).drop_first() =~= s);
    } else {
        assert(s.push((lo, hi, addr)).drop_first() =~= s.drop_first().push((lo, hi, addr)));
        lemma_lookup_push(s.drop_first(), lo, hi, addr, a, b);
    }
}

/// The pool registry: pools created so far, keyed by the sorted token
/// pair, and the default per-mille fee handed to newly created pools.
pub struct Route {
    pub pools: Vec<(AccountId, AccountId, AccountId)>,
    pub fees: u16,
}

impl Route {
    /// Keys are sorted pairs, and each unordered pair occurs at most once.
    pub open spec fn wf(self) -> bool {
        &&& forall|i: int| 0 <= i < self.pools@.len() ==> self.pools@[i].0 <= self.pools@[i].1
        &&& forall|i: int, j: int|
            0 <= i < j < self.pools@.len() ==> !(self.pools@[i].0 == self.pools@[j].0
                && self.pools@[i].1 == self.pools@[j].1)
    }

    /// Whether a pool is registered for the unordered pair.
    pub open spec fn spec_registered(self, token1: AccountId, token2: AccountId) -> bool {
        self.spec_pool_of(token1, token2) is Some
    }

    /// The registered pool of the unordered pair, if any.
    pub open spec fn spec_pool_of(self, token1: AccountId, token2: AccountId) -> Option<
        AccountId,
    > {
        lookup(self.pools@, spec_canon(token1, token2).0, spec_canon(token1, token2).1)
    }

    pub fn new() -> (r: Route)
        ensures
            r.wf(),
            r.fees == 0,
            forall|a: AccountId, b: AccountId| !r.spec_registered(a, b),
    {
        Route { pools: Vec::new(), fees: 0 }
    }

    /// Records `pool` as the pool of the unordered pair `(token1, token2)`.
    /// The host instantiates the pool contract (endowing it and passing the
    /// registry's default fee) and hands its address in; a pair may be
    /// registered only once, which the host checks with `pair_exists`.
    pub fn create_pool(&mut self, token1: AccountId, token2: AccountId, pool: AccountId)
        requires
            old(self).wf(),
            !old(self).spec_registered(token1, token2),
        ensures
            final(self).wf(),
            final(self).fees == old(self).fees,
            final(self).spec_registered(token1, token2),
            final(self).spec_pool_of(token1, token2) == Some(pool),
            forall|a: AccountId, b: AccountId|
                spec_canon(a, b) != spec_canon(token1, token2) ==> final(self).spec_pool_of(a, b)
                    == old(self).spec_pool_of(a, b),
    {
        let lo: AccountId = if token1 <= token2 {
            token1
        } else {
            token2
        };
        let hi: AccountId = if token1 <= token2 {
            token2
        } else {
            token1
        };
        proof {
            lemma_lookup_none(old(self).pools@, lo, hi);
            assert forall|a: AccountId, b: AccountId|
                lookup(old(self).pools@.push((lo, hi, pool)), spec_canon(a, b).0, spec_canon(
                    a,
                    b,
                ).1) == (if spec_canon(a, b) == (lo, hi) {
                    Some(pool)
                } else {
                    lookup(old(self).pools@, spec_canon(a, b).0, spec_canon(a, b).1)
                }) by {
                lemma_lookup_push(old(self).pools@, lo, hi, pool, spec_canon(a, b).0, spec_canon(
                    a,
                    b,
                ).1);
            }
        }
        self.pools.push((lo, hi, pool));
    }

    /// Whether a pool exists for the pair, in either order.
    pub fn pair_exists(&self, token1: AccountId, token2: AccountId) -> (r: bool)
        ensures
            r == self.spec_registered(token1, token2),
    {
        let lo: AccountId = if token1 <= token2 {
            token1
        } else {
            token2
        };
        let hi: AccountId = if token1 <= token2 {
            token2
        } else {
            token1
        };
        let n: usize = self.pools.len();
        let mut i: usize = 0;
        proof {
            assert(self.pools@.skip(0) =~= self.pools@);
        }
        while i < n
            invariant
                n == self.pools@.len(),
                0 <= i <= n,
                (lo, hi) == spec_canon(token1, token2),
                lookup(self.pools@.skip(i as int), lo, hi) == self.spec_pool_of(token1, token2),
            decreases n - i,
        {
            if self.pools[i].0 == lo && self.pools[i].1 == hi {
                return true;
            }
            proof {
                assert(self.pools@.skip(i as int).drop_first() =~= self.pools@.skip(i as int + 1));
            }
            i = i + 1;
        }
        false
    }

    /// Walks `path` hop by hop and reports whether it names at least two
    /// tokens and every consecutive pair has a registered pool. Moving
    /// `value` along the hops is left to the host.
    pub fn swap_token(&self, path: &Vec<AccountId>, value: u128) -> (ok: bool)
        ensures
            ok <==> (path@.len() >= 2 && (forall|j: int|
                #![trigger path@[j]]
                1 <= j < path@.len() ==> self.spec_registered(path@[j - 1], path@[j]))),
    {
        if path.len() < 2 {
            return false;
        }
        let n: usize = path.len();
        let mut i: usize = 1;
        while i < n
            invariant
                n == path@.len(),
                2 <= n,
                1 <= i <= n,
                forall|j: int|
                    #![trigger path@[j]]
                    1 <= j < i ==> self.spec_registered(path@[j - 1], path@[j]),
            decreases n - i,
        {
            if !self.pair_exists(path[i - 1], path[i]) {
                return false;
            }
            i = i + 1;
        }
        true
    }
}

} // verus!
