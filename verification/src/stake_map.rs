//! Stake records keyed by account identifier: a small association map
//! with pairwise-distinct keys, viewed in specifications as a
//! `Map<AccountId, StakeInfo>`.

use crate::rewards::AccountId;
use crate::rewards::Balance;
use crate::rewards::Timestamp;
use vstd::map::*;
use vstd::prelude::*;

verus! {

/// One account's staked position.
#[derive(Clone, Copy, Debug, PartialEq, Eq, Structural)]
pub struct StakeInfo {
    /// The amount currently staked, excluding unrealized interest.
    pub amount: Balance,
    /// The point in time from which interest on `amount` is computed.
    pub timestamp: Timestamp,
}

/// Some entry of `s` carries the key `k`.
pub open spec fn has_key(s: Seq<(AccountId, StakeInfo)>, k: AccountId) -> bool {
    exists|i: int| 0 <= i < s.len() && (#[trigger] s[i]).0 == k
}

/// The position of the entry of `s` that carries the key `k`.
pub open spec fn index_of(s: Seq<(AccountId, StakeInfo)>, k: AccountId) -> int {
    choose|i: int| 0 <= i < s.len() && (#[trigger] s[i]).0 == k
}

/// No two entries of `s` carry the same key.
pub open spec fn distinct_keys(s: Seq<(AccountId, StakeInfo)>) -> bool {
    forall|i: int, j: int|
        0 <= i < j < s.len() ==> (#[trigger] s[i]).0 != (#[trigger] s[j]).0
}

/// With distinct keys, an entry that carries `k` is the only one, so it
/// sits exactly at `index_of`.
proof fn lemma_found_index(s: Seq<(AccountId, StakeInfo)>, k: AccountId, i: int)
    requires
        distinct_keys(s),
        0 <= i < s.len(),
        s[i].0 == k,
    ensures
        has_key(s, k),
        index_of(s, k) == i,
{
    assert(has_key(s, k));
    let j = index_of(s, k);
    assert(0 <= j < s.len() && s[j].0 == k);
    if j < i {
        assert(s[j].0 != s[i].0);
    }
    if i < j {
        assert(s[i].0 != s[j].0);
    }
}

/// The stake records of all accounts, keyed by account identifier.
#[derive(Clone, Debug)]
pub struct StakeMap {
    pub entries: Vec<(AccountId, StakeInfo)>,
}

impl View for StakeMap {
    type V = Map<AccountId, StakeInfo>;

    open spec fn view(&self) -> Map<AccountId, StakeInfo> {
        Map::new(
            |k: AccountId| has_key(self.entries@, k),
            |k: AccountId| self.entries@[index_of(self.entries@, k)].1,
        )
    }
}

impl StakeMap {
    /// The representation keeps one entry per account.
    pub open spec fn wf(self) -> bool {
        distinct_keys(self.entries@)
    }

    /// A map with no records at all.
    pub fn new() -> (r: StakeMap)
        ensures
            r.wf(),
            r@ == Map::<AccountId, StakeInfo>::empty(),
    {
        let r = StakeMap { entries: Vec::new() };
        proof {
            assert(r@ =~= Map::<AccountId, StakeInfo>::empty());
        }
        r
    }

    /// The position of `key`'s entry, if the account has one.
    fn position_of(&self, key: AccountId) -> (r: Option<usize>)
        requires
            self.wf(),
        ensures
            match r {
                Some(i) => i < self.entries@.len() && self.entries@[i as int].0 == key
                    && index_of(self.entries@, key) == i && self@.contains_key(key),
                None => !self@.contains_key(key),
            },
    {
        let n = self.entries.len();
        let mut i: usize = 0;
        while i < n
            invariant
                self.wf(),
                n == self.entries@.len(),
                i <= n,
                forall|j: int| 0 <= j < i ==> (#[trigger] self.entries@[j]).0 != key,
            decreases n - i,
        {
            if self.entries[i].0 == key {
                proof {
                    lemma_found_index(self.entries@, key, i as int);
                }
                return Some(i);
            }
            i += 1;
        }
        proof {
            assert(!has_key(self.entries@, key));
        }
        None
    }

    /// The record of `key`'s account, if it has one.
    pub fn get(&self, key: AccountId) -> (r: Option<StakeInfo>)
        requires
            self.wf(),
        ensures
            r == if self@.contains_key(key) {
                Some(self@[key])
            } else {
                None::<StakeInfo>
            },
    {
        match self.position_of(key) {
            Some(i) => Some(self.entries[i].1),
            None => None,
        }
    }

    /// Write `value` as the record of `key`'s account, replacing any
    /// record the account had.
    pub fn insert(&mut self, key: AccountId, value: StakeInfo)
        requires
            old(self).wf(),
        ensures
            final(self).wf(),
            final(self)@ == old(self)@.insert(key, value),
    {
        let ghost s0 = self.entries@;
        match self.position_of(key) {
            Some(i) => {
                self.entries[i] = (key, value);
                proof {
                    let s1 = self.entries@;
                    assert(s1 == s0.update(i as int, (key, value)));
                    assert forall|a: int, b: int| 0 <= a < b < s1.len() implies (
                    #[trigger] s1[a]).0 != (#[trigger] s1[b]).0 by {
                        assert(s0[a].0 != s0[b].0);
                        assert(s1[a].0 == s0[a].0);
                        assert(s1[b].0 == s0[b].0);
                    }
                    lemma_found_index(s1, key, i as int);
                    assert forall|k: AccountId| has_key(s1, k) == has_key(s0, k) by {
                        if has_key(s0, k) {
                            let j = index_of(s0, k);
                            assert(s1[j].0 == k);
                            assert(has_key(s1, k));
                        }
                        if has_key(s1, k) {
                            let j = choose|j: int| 0 <= j < s1.len() && (#[trigger] s1[j]).0 == k;
                            assert(s0[j].0 == s1[j].0);
                            assert(has_key(s0, k));
                        }
                    }
                    assert forall|k: AccountId| #[trigger]
                    has_key(s0, k) && k != key implies s1[index_of(s1, k)].1 == s0[index_of(
                        s0,
                        k,
                    )].1 by {
                        let j = index_of(s0, k);
                        assert(0 <= j < s0.len() && s0[j].0 == k);
                        assert(s0[i as int].0 == key);
                        assert(j != i as int);
                        assert(s1[j] == s0[j]);
                        lemma_found_index(s1, k, j);
                    }
                    assert(self@ =~= old(self)@.insert(key, value));
                }
            },
            None => {
                self.entries.push((key, value));
                proof {
                    let s1 = self.entries@;
                    let n0 = s0.len() as int;
                    assert(s1 == s0.push((key, value)));
                    assert(forall|j: int| 0 <= j < n0 ==> s1[j] == s0[j]);
                    assert(s1[n0].0 == key);
                    assert forall|a: int, b: int| 0 <= a < b < s1.len() implies (
                    #[trigger] s1[a]).0 != (#[trigger] s1[b]).0 by {
                        if b < n0 {
                            assert(s0[a].0 != s0[b].0);
                        } else {
                            assert(s1[a].0 == s0[a].0);
                            if s1[a].0 == key {
                                assert(has_key(s0, key));
                            }
                        }
                    }
                    lemma_found_index(s1, key, n0);
                    assert forall|k: AccountId| #[trigger]
                    has_key(s0, k) implies has_key(s1, k) && s1[index_of(s1, k)].1 == s0[index_of(
                        s0,
                        k,
                    )].1 by {
                        let j = index_of(s0, k);
                        assert(0 <= j < s0.len() && s0[j].0 == k);
                        assert(s1[j].0 == k);
                        lemma_found_index(s1, k, j);
                    }
                    assert forall|k: AccountId| has_key(s1, k) && k != key implies has_key(
                        s0,
                        k,
                    ) by {
                        let j = choose|j: int| 0 <= j < s1.len() && (#[trigger] s1[j]).0 == k;
                        assert(j != n0);
                        assert(s0[j].0 == k);
                    }
                    assert(self@ =~= old(self)@.insert(key, value));
                }
            },
        }
    }

    /// Drop the record of `key`'s account, if it has one.
    pub fn remove(&mut self, key: AccountId)
        requires
            old(self).wf(),
        ensures
            final(self).wf(),
            final(self)@ == old(self)@.remove(key),
    {
        let ghost s0 = self.entries@;
        match self.position_of(key) {
            Some(i) => {
                self.entries.remove(i);
                proof {
                    let s1 = self.entries@;
                    let ii = i as int;
                    assert(s1 == s0.remove(ii));
                    assert(forall|j: int| 0 <= j < ii ==> s1[j] == s0[j]);
                    assert(forall|j: int| ii <= j < s1.len() ==> s1[j] == s0[j + 1]);
                    assert forall|a: int, b: int| 0 <= a < b < s1.len() implies (
                    #[trigger] s1[a]).0 != (#[trigger] s1[b]).0 by {
                        let a0 = if a < ii { a } else { a + 1 };
                        let b0 = if b < ii { b } else { b + 1 };
                        assert(s1[a] == s0[a0]);
                        assert(s1[b] == s0[b0]);
                        assert(s0[a0].0 != s0[b0].0);
                    }
                    assert forall|k: AccountId| has_key(s1, k) implies k != key && has_key(
                        s0,
                        k,
                    ) by {
                        let j = choose|j: int| 0 <= j < s1.len() && (#[trigger] s1[j]).0 == k;
                        let j0 = if j < ii { j } else { j + 1 };
                        assert(s1[j] == s0[j0]);
                        assert(has_key(s0, k));
                        assert(j0 != ii);
                        if j0 < ii {
                            assert(s0[j0].0 != s0[ii].0);
                        } else {
                            assert(s0[ii].0 != s0[j0].0);
                        }
                    }
                    assert forall|k: AccountId| #[trigger]
                    has_key(s0, k) && k != key implies has_key(s1, k) && s1[index_of(s1, k)].1
                        == s0[index_of(s0, k)].1 by {
                        let j0 = index_of(s0, k);
                        assert(0 <= j0 < s0.len() && s0[j0].0 == k);
                        assert(j0 != ii);
                        let j = if j0 < ii { j0 } else { j0 - 1 };
                        assert(s1[j] == s0[j0]);
                        lemma_found_index(s1, k, j);
                    }
                    assert(self@ =~= old(self)@.remove(key));
                }
            },
            None => {
                proof {
                    assert(self@ =~= old(self)@.remove(key));
                }
            },
        }
    }

    /// How many accounts currently hold a record.
    pub fn len(&self) -> (r: usize)
        requires
            self.wf(),
        ensures
            r == self.entries@.len(),
    {
        self.entries.len()
    }
}

} // verus!
