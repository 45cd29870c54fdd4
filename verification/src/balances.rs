//! Account balances: a map from account to amount in which an account
//! without an entry holds nothing.

use vstd::prelude::*;
use crate::fixed_point::MarketError;
use crate::fixed_point::fits;

verus! {

/// One account's balance.
#[derive(Clone, Copy, Debug, PartialEq, Eq, Structural)]
pub struct Entry {
    /// The account.
    pub account: u64,
    /// What it holds.
    pub amount: i128,
}

/// The balance of `account` in `m`: its entry, or zero.
pub open spec fn balance_of(m: Map<u64, i128>, account: u64) -> i128 {
    if m.dom().contains(account) {
        m[account]
    } else {
        0
    }
}

/// Whether some entry of `s` belongs to `account`.
pub open spec fn has_entry(s: Seq<Entry>, account: u64) -> bool {
    exists|i: int| 0 <= i < s.len() && #[trigger] s[i].account == account
}

/// The index of the entry of `account`, where there is one.
pub open spec fn entry_index(s: Seq<Entry>, account: u64) -> int {
    choose|i: int| 0 <= i < s.len() && #[trigger] s[i].account == account
}

/// No account has two entries.
pub open spec fn entries_distinct(s: Seq<Entry>) -> bool {
    forall|i: int, j: int|
        0 <= i < s.len() && 0 <= j < s.len() && i != j ==> #[trigger] s[i].account
            != #[trigger] s[j].account
}

/// The map that a list of entries stands for.
pub open spec fn entries_map(s: Seq<Entry>) -> Map<u64, i128> {
    Map::new(|a: u64| has_entry(s, a), |a: u64| s[entry_index(s, a)].amount)
}

/// Replacing the entry at `i` by one of the same account sets that
/// account's amount in the map.
pub proof fn lemma_entries_update(s: Seq<Entry>, i: int, e: Entry)
    requires
        entries_distinct(s),
        0 <= i < s.len(),
        s[i].account == e.account,
    ensures
        entries_distinct(s.update(i, e)),
        entries_map(s.update(i, e)) == entries_map(s).insert(e.account, e.amount),
{
    let t = s.update(i, e);
    assert forall|k: int| 0 <= k < t.len() implies #[trigger] t[k].account == s[k].account by {}
    assert(entries_distinct(t));
    assert forall|a: u64| has_entry(t, a) == has_entry(s, a) by {
        if has_entry(s, a) {
            let k = entry_index(s, a);
            assert(t[k].account == a);
        }
        if has_entry(t, a) {
            let k = entry_index(t, a);
            assert(s[k].account == a);
        }
    }
    assert forall|a: u64| has_entry(t, a) implies #[trigger] entries_map(t)[a] == entries_map(
        s,
    ).insert(e.account, e.amount)[a] by {
        let k = entry_index(t, a);
        assert(0 <= k < t.len() && t[k].account == a);
        if a == e.account {
            assert(t[i].account == a);
            assert(k == i);
        } else {
            let j = entry_index(s, a);
            assert(0 <= j < s.len() && s[j].account == a);
            assert(t[j].account == a);
            assert(j == k);
        }
    }
    assert(entries_map(t) =~= entries_map(s).insert(e.account, e.amount));
}

/// Appending an entry of an account that has none adds it to the map.
pub proof fn lemma_entries_push(s: Seq<Entry>, e: Entry)
    requires
        entries_distinct(s),
        !has_entry(s, e.account),
    ensures
        entries_distinct(s.push(e)),
        entries_map(s.push(e)) == entries_map(s).insert(e.account, e.amount),
{
    let t = s.push(e);
    let n = s.len() as int;
    assert forall|k: int| 0 <= k < n implies #[trigger] t[k] == s[k] by {}
    assert(t[n] == e);
    assert forall|a: int, b: int|
        0 <= a < t.len() && 0 <= b < t.len() && a != b implies #[trigger] t[a].account
        != #[trigger] t[b].account by {
        if a < n && b < n {
            assert(t[a] == s[a] && t[b] == s[b]);
        } else if a < n {
            assert(t[a] == s[a]);
            assert(s[a].account != e.account);
        } else {
            assert(t[b] == s[b]);
            assert(s[b].account != e.account);
        }
    }
    assert forall|a: u64| has_entry(t, a) == (has_entry(s, a) || a == e.account) by {
        if has_entry(s, a) {
            let k = entry_index(s, a);
            assert(t[k].account == a);
        }
        if a == e.account {
            assert(t[n].account == a);
        }
        if has_entry(t, a) && a != e.account {
            let k = entry_index(t, a);
            assert(0 <= k < t.len() && t[k].account == a);
            assert(k < n);
            assert(s[k].account == a);
        }
    }
    assert forall|a: u64| has_entry(t, a) implies #[trigger] entries_map(t)[a] == entries_map(
        s,
    ).insert(e.account, e.amount)[a] by {
        let k = entry_index(t, a);
        assert(0 <= k < t.len() && t[k].account == a);
        if a == e.account {
            assert(t[n].account == a);
            assert(k == n);
        } else {
            assert(k < n);
            assert(s[k].account == a);
            let j = entry_index(s, a);
            assert(0 <= j < s.len() && s[j].account == a);
            assert(t[j].account == a);
            assert(j == k);
        }
    }
    assert(entries_map(t) =~= entries_map(s).insert(e.account, e.amount));
}

/// The balances of a set of accounts.
pub struct Balances {
    entries: Vec<Entry>,
}

impl View for Balances {
    type V = Map<u64, i128>;

    closed spec fn view(&self) -> Map<u64, i128> {
        entries_map(self.entries@)
    }
}

impl Balances {
    /// The representation's invariant: one entry per account.
    pub closed spec fn wf(&self) -> bool {
        entries_distinct(self.entries@)
    }

    /// Balances in which every account holds nothing.
    pub fn new() -> (r: Self)
        ensures
            r.wf(),
            r@ == Map::<u64, i128>::empty(),
    {
        let r = Balances { entries: Vec::new() };
        assert(r@ =~= Map::<u64, i128>::empty());
        r
    }

    fn find(&self, account: u64) -> (r: Option<usize>)
        requires
            self.wf(),
        ensures
            match r {
                Some(i) => i < self.entries@.len() && self.entries@[i as int].account == account
                    && has_entry(self.entries@, account) && entry_index(self.entries@, account)
                    == i,
                None => !has_entry(self.entries@, account),
            },
    {
        let n: usize = self.entries.len();
        let mut i: usize = 0;
        while i < n
            invariant
                n == self.entries@.len(),
                i <= n,
                self.wf(),
                forall|k: int| 0 <= k < i ==> (#[trigger] self.entries@[k]).account != account,
            decreases n - i,
        {
            if self.entries[i].account == account {
                proof {
                    let j = entry_index(self.entries@, account);
                    assert(self.entries@[i as int].account == account);
                    assert(0 <= j < self.entries@.len() && self.entries@[j].account == account);
                }
                return Some(i);
            }
            i += 1;
        }
        None
    }

    /// What `account` holds.
    pub fn get(&self, account: u64) -> (v: i128)
        requires
            self.wf(),
        ensures
            v == balance_of(self@, account),
    {
        match self.find(account) {
            Some(i) => self.entries[i].amount,
            None => 0,
        }
    }

    /// Sets what `account` holds.
    pub fn set(&mut self, account: u64, amount: i128)
        requires
            old(self).wf(),
        ensures
            final(self).wf(),
            final(self)@ == old(self)@.insert(account, amount),
    {
        let e = Entry { account, amount };
        match self.find(account) {
            Some(i) => {
                proof {
                    lemma_entries_update(self.entries@, i as int, e);
                }
                self.entries.set(i, e);
            },
            None => {
                proof {
                    lemma_entries_push(self.entries@, e);
                }
                self.entries.push(e);
            },
        }
    }

    /// Adds `amount` to what `account` holds; fails with
    /// `ArithmeticOverflow`, changing nothing, if the balance would leave
    /// the 128-bit range.
    pub fn credit(&mut self, account: u64, amount: i128) -> (r: Result<(), MarketError>)
        requires
            old(self).wf(),
        ensures
            final(self).wf(),
            match credited(old(self)@, account, amount as int) {
                Ok(m) => r is Ok && final(self)@ == m,
                Err(e) => r == Err::<(), MarketError>(e) && final(self)@ == old(self)@,
            },
    {
        let v: i128 = crate::fixed_point::checked_add(self.get(account), amount)?;
        self.set(account, v);
        Ok(())
    }

    /// A copy with the same balances.
    pub fn copy(&self) -> (r: Self)
        requires
            self.wf(),
        ensures
            r.wf(),
            r@ == self@,
    {
        let n: usize = self.entries.len();
        let mut entries: Vec<Entry> = Vec::new();
        let mut i: usize = 0;
        while i < n
            invariant
                n == self.entries@.len(),
                i <= n,
                entries@ == self.entries@.take(i as int),
            decreases n - i,
        {
            entries.push(self.entries[i]);
            proof {
                assert(self.entries@.take(i + 1) =~= self.entries@.take(i as int).push(
                    self.entries@[i as int],
                ));
            }
            i += 1;
        }
        proof {
            assert(self.entries@.take(n as int) =~= self.entries@);
        }
        Balances { entries }
    }
}

/// The balances after `amount` is added to what `account` holds.
pub open spec fn credited(m: Map<u64, i128>, account: u64, amount: int) -> Result<
    Map<u64, i128>,
    MarketError,
> {
    if fits(balance_of(m, account) + amount) {
        Ok(m.insert(account, (balance_of(m, account) + amount) as i128))
    } else {
        Err(MarketError::ArithmeticOverflow)
    }
}


impl Balances {
    /// One entry per account that has one.
    pub fn entries(&self) -> (r: Vec<Entry>)
        requires
            self.wf(),
        ensures
            entries_distinct(r@),
            entries_map(r@) == self@,
    {
        let n: usize = self.entries.len();
        let mut out: Vec<Entry> = Vec::new();
        let mut i: usize = 0;
        while i < n
            invariant
                n == self.entries@.len(),
                i <= n,
                out@ == self.entries@.take(i as int),
            decreases n - i,
        {
            out.push(self.entries[i]);
            proof {
                assert(self.entries@.take(i + 1) =~= self.entries@.take(i as int).push(
                    self.entries@[i as int],
                ));
            }
            i += 1;
        }
        proof {
            assert(self.entries@.take(n as int) =~= self.entries@);
        }
        out
    }

    /// The balances that `entries` stand for, if no account has two of
    /// them.
    pub fn from_entries(entries: Vec<Entry>) -> (r: Option<Self>)
        ensures
            entries_distinct(entries@) ==> r is Some && r->Some_0.wf() && r->Some_0@
                == entries_map(entries@),
            !entries_distinct(entries@) ==> r is None,
    {
        let n: usize = entries.len();
        let mut i: usize = 0;
        while i < n
            invariant
                n == entries@.len(),
                i <= n,
                forall|a: int, b: int|
                    0 <= a < i && 0 <= b < a ==> (#[trigger] entries@[a]).account != (
                    #[trigger] entries@[b]).account,
            decreases n - i,
        {
            let e = entries[i];
            let mut j: usize = 0;
            while j < i
                invariant
                    n == entries@.len(),
                    i < n,
                    j <= i,
                    e == entries@[i as int],
                    forall|b: int| 0 <= b < j ==> (#[trigger] entries@[b]).account != e.account,
                decreases i - j,
            {
                if entries[j].account == e.account {
                    proof {
                        assert(entries@[j as int].account == entries@[i as int].account);
                    }
                    return None;
                }
                j += 1;
            }
            i += 1;
        }
        proof {
            assert forall|a: int, b: int|
                0 <= a < entries@.len() && 0 <= b < entries@.len() && a != b implies (
            #[trigger] entries@[a]).account != (#[trigger] entries@[b]).account by {
                if b < a {
                } else {
                    assert(entries@[b].account != entries@[a].account);
                }
            }
        }
        Some(Balances { entries })
    }
}

} // verus!
