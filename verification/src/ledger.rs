//! The position ledger: per-account share balances on each side of a
//! binary market, with a flag that records a completed claim.

use vstd::prelude::*;
use crate::fixed_point::MarketError;
use crate::fixed_point::fits;

verus! {

/// One account's holdings in a binary market.
#[derive(Clone, Copy, Debug, PartialEq, Eq, Structural)]
pub struct Position {
    /// The account that owns the position.
    pub account: u64,
    /// Shares that pay if the outcome is true.
    pub true_shares: i128,
    /// Shares that pay if the outcome is false.
    pub false_shares: i128,
    /// Whether the account has claimed after resolution.
    pub claimed: bool,
}

/// The position of an account that has never traded.
pub open spec fn empty_position(account: u64) -> Position {
    Position { account, true_shares: 0, false_shares: 0, claimed: false }
}

/// The shares a position holds on one side.
pub open spec fn side_shares(p: Position, side: bool) -> int {
    if side {
        p.true_shares as int
    } else {
        p.false_shares as int
    }
}

/// A position with the balance of one side replaced.
pub open spec fn with_side(p: Position, side: bool, v: i128) -> Position {
    if side {
        Position { true_shares: v, ..p }
    } else {
        Position { false_shares: v, ..p }
    }
}

/// Whether some record of `s` belongs to `account`.
pub open spec fn has_account(s: Seq<Position>, account: u64) -> bool {
    exists|i: int| 0 <= i < s.len() && #[trigger] s[i].account == account
}

/// The index of the record of `account`, where there is one.
pub open spec fn index_of(s: Seq<Position>, account: u64) -> int {
    choose|i: int| 0 <= i < s.len() && #[trigger] s[i].account == account
}

/// The position of `account`: its record, or the empty position.
pub open spec fn position_of(s: Seq<Position>, account: u64) -> Position {
    if has_account(s, account) {
        s[index_of(s, account)]
    } else {
        empty_position(account)
    }
}

/// Records are well formed when no account has two of them and no balance
/// is negative.
pub open spec fn records_wf(s: Seq<Position>) -> bool {
    &&& forall|i: int, j: int|
        0 <= i < s.len() && 0 <= j < s.len() && i != j ==> #[trigger] s[i].account
            != #[trigger] s[j].account
    &&& forall|i: int|
        0 <= i < s.len() ==> (#[trigger] s[i]).true_shares >= 0 && s[i].false_shares >= 0
}

/// The records after `account`'s position becomes `p`.
pub open spec fn with_position(s: Seq<Position>, account: u64, p: Position) -> Seq<Position> {
    if has_account(s, account) {
        s.update(index_of(s, account), p)
    } else {
        s.push(p)
    }
}

/// The sum of all balances on one side.
pub open spec fn total_shares(s: Seq<Position>, side: bool) -> int
    decreases s.len(),
{
    if s.len() == 0 {
        0
    } else {
        total_shares(s.drop_last(), side) + side_shares(s.last(), side)
    }
}

/// In well-formed records an account's index is the only one that holds it.
pub proof fn lemma_index_unique(s: Seq<Position>, account: u64, i: int)
    requires
        records_wf(s),
        0 <= i < s.len(),
        s[i].account == account,
    ensures
        has_account(s, account),
        index_of(s, account) == i,
        position_of(s, account) == s[i],
{
    let j = index_of(s, account);
    assert(0 <= j < s.len() && s[j].account == account);
}

/// Replacing one account's position changes that account's position and no
/// other, and keeps the records well formed.
pub proof fn lemma_with_position(s: Seq<Position>, account: u64, p: Position)
    requires
        records_wf(s),
        p.account == account,
        p.true_shares >= 0,
        p.false_shares >= 0,
    ensures
        records_wf(with_position(s, account, p)),
        position_of(with_position(s, account, p), account) == p,
        forall|other: u64|
            other != account ==> #[trigger] position_of(with_position(s, account, p), other)
                == position_of(s, other),
{
    let t = with_position(s, account, p);
    if has_account(s, account) {
        let i = index_of(s, account);
        assert(0 <= i < s.len() && s[i].account == account);
        assert(t.len() == s.len());
        assert forall|k: int| 0 <= k < t.len() implies #[trigger] t[k].account == s[k].account by {}
        assert(records_wf(t));
        assert(t[i].account == account);
        lemma_index_unique(t, account, i);
        assert forall|other: u64| other != account implies #[trigger] position_of(t, other)
            == position_of(s, other) by {
            if has_account(s, other) {
                let j = index_of(s, other);
                assert(0 <= j < s.len() && s[j].account == other);
                assert(j != i);
                assert(t[j] == s[j]);
                lemma_index_unique(t, other, j);
            } else {
                if has_account(t, other) {
                    let j = index_of(t, other);
                    assert(0 <= j < t.len() && t[j].account == other);
                    assert(s[j].account == other);
                    assert(false);
                }
            }
        }
    } else {
        let n = s.len() as int;
        assert(t.len() == n + 1);
        assert(t[n] == p);
        assert forall|k: int| 0 <= k < n implies #[trigger] t[k] == s[k] by {}
        assert forall|a: int, b: int|
            0 <= a < t.len() && 0 <= b < t.len() && a != b implies #[trigger] t[a].account
            != #[trigger] t[b].account by {
            if a < n && b < n {
                assert(t[a] == s[a] && t[b] == s[b]);
            } else if a < n {
                assert(t[a] == s[a]);
                assert(s[a].account != account);
            } else {
                assert(t[b] == s[b]);
                assert(s[b].account != account);
            }
        }
        assert(records_wf(t));
        lemma_index_unique(t, account, n);
        assert forall|other: u64| other != account implies #[trigger] position_of(t, other)
            == position_of(s, other) by {
            if has_account(s, other) {
                let j = index_of(s, other);
                assert(0 <= j < s.len() && s[j].account == other);
                assert(t[j] == s[j]);
                lemma_index_unique(t, other, j);
            } else {
                if has_account(t, other) {
                    let j = index_of(t, other);
                    assert(0 <= j < t.len() && t[j].account == other);
                    assert(j < n);
                    assert(s[j].account == other);
                    assert(false);
                }
            }
        }
    }
}


/// Appending a record adds its balance to the total.
pub proof fn lemma_total_push(s: Seq<Position>, p: Position, side: bool)
    ensures
        total_shares(s.push(p), side) == total_shares(s, side) + side_shares(p, side),
{
    assert(s.push(p).drop_last() =~= s);
    assert(s.push(p).last() == p);
}

/// Replacing a record moves the total by the difference of the balances.
pub proof fn lemma_total_update(s: Seq<Position>, i: int, p: Position, side: bool)
    requires
        0 <= i < s.len(),
    ensures
        total_shares(s.update(i, p), side) == total_shares(s, side) - side_shares(s[i], side)
            + side_shares(p, side),
    decreases s.len(),
{
    let t = s.update(i, p);
    if i == s.len() - 1 {
        assert(t.drop_last() =~= s.drop_last());
        assert(t.last() == p);
    } else {
        assert(t.drop_last() =~= s.drop_last().update(i, p));
        assert(t.last() == s.last());
        lemma_total_update(s.drop_last(), i, p, side);
        assert(s.drop_last()[i] == s[i]);
    }
}

/// With no negative balance, the total is not negative and no record holds
/// more than the total.
pub proof fn lemma_total_bounds(s: Seq<Position>, side: bool)
    requires
        records_wf(s),
    ensures
        total_shares(s, side) >= 0,
        forall|i: int|
            0 <= i < s.len() ==> side_shares(#[trigger] s[i], side) <= total_shares(s, side),
    decreases s.len(),
{
    if s.len() > 0 {
        let d = s.drop_last();
        assert forall|i: int| 0 <= i < d.len() implies #[trigger] d[i] == s[i] by {}
        assert(records_wf(d));
        lemma_total_bounds(d, side);
        assert(side_shares(s.last(), side) >= 0);
        assert forall|i: int| 0 <= i < s.len() implies side_shares(#[trigger] s[i], side)
            <= total_shares(s, side) by {
            if i < d.len() {
                assert(d[i] == s[i]);
            }
        }
    }
}

/// Replacing one account's position moves the total of each side by the
/// difference between the new balance and the old one.
pub proof fn lemma_total_with_position(s: Seq<Position>, account: u64, p: Position, side: bool)
    ensures
        total_shares(with_position(s, account, p), side) == total_shares(s, side) - side_shares(
            position_of(s, account),
            side,
        ) + side_shares(p, side),
{
    if has_account(s, account) {
        let i = index_of(s, account);
        assert(0 <= i < s.len() && s[i].account == account);
        lemma_total_update(s, i, p, side);
    } else {
        lemma_total_push(s, p, side);
    }
}


/// What [`PositionLedger::credit`] does to the records.
pub open spec fn credit_result(s: Seq<Position>, account: u64, side: bool, amount: int) -> Result<
    Seq<Position>,
    MarketError,
> {
    let p = position_of(s, account);
    if amount < 0 {
        Err(MarketError::InvalidAmount)
    } else if !fits(side_shares(p, side) + amount) {
        Err(MarketError::ArithmeticOverflow)
    } else {
        Ok(with_position(s, account, with_side(p, side, (side_shares(p, side) + amount) as i128)))
    }
}

/// What [`PositionLedger::debit`] does to the records.
pub open spec fn debit_result(s: Seq<Position>, account: u64, side: bool, amount: int) -> Result<
    Seq<Position>,
    MarketError,
> {
    let p = position_of(s, account);
    if amount < 0 {
        Err(MarketError::InvalidAmount)
    } else if amount > side_shares(p, side) {
        Err(MarketError::InsufficientShares)
    } else {
        Ok(with_position(s, account, with_side(p, side, (side_shares(p, side) - amount) as i128)))
    }
}

/// The position an account is left with by a claim: nothing on either
/// side, and the flag set.
pub open spec fn claimed_position(account: u64) -> Position {
    Position { account, true_shares: 0, false_shares: 0, claimed: true }
}

/// The share balances of every account of one market.
pub struct PositionLedger {
    entries: Vec<Position>,
}

impl View for PositionLedger {
    type V = Seq<Position>;

    closed spec fn view(&self) -> Seq<Position> {
        self.entries@
    }
}

impl PositionLedger {
    /// The ledger's invariant: one record per account, no negative balance.
    pub open spec fn wf(&self) -> bool {
        records_wf(self@)
    }

    /// A ledger without records.
    pub fn new() -> (r: Self)
        ensures
            r@ == Seq::<Position>::empty(),
            r.wf(),
    {
        PositionLedger { entries: Vec::new() }
    }

    /// The number of accounts that have a record.
    pub fn len(&self) -> (n: usize)
        ensures
            n == self@.len(),
    {
        self.entries.len()
    }

    fn find(&self, account: u64) -> (r: Option<usize>)
        requires
            self.wf(),
        ensures
            match r {
                Some(i) => i < self@.len() && self@[i as int].account == account && has_account(
                    self@,
                    account,
                ) && index_of(self@, account) == i,
                None => !has_account(self@, account),
            },
    {
        let n: usize = self.entries.len();
        let mut i: usize = 0;
        while i < n
            invariant
                n == self.entries@.len(),
                i <= n,
                self.wf(),
                forall|k: int| 0 <= k < i ==> (#[trigger] self.entries@[k]).account != account,
            decreases n - i,
        {
            if self.entries[i].account == account {
                proof {
                    lemma_index_unique(self@, account, i as int);
                }
                return Some(i);
            }
            i += 1;
        }
        None
    }

    /// The position of `account`; the empty position if it has no record.
    pub fn position(&self, account: u64) -> (p: Position)
        requires
            self.wf(),
        ensures
            p == position_of(self@, account),
            p.account == account,
            p.true_shares >= 0,
            p.false_shares >= 0,
    {
        match self.find(account) {
            Some(i) => self.entries[i],
            None => Position { account, true_shares: 0, false_shares: 0, claimed: false },
        }
    }

    /// The shares `account` holds on `side`.
    pub fn shares(&self, account: u64, side: bool) -> (v: i128)
        requires
            self.wf(),
        ensures
            v == side_shares(position_of(self@, account), side),
            v >= 0,
    {
        let p = self.position(account);
        if side {
            p.true_shares
        } else {
            p.false_shares
        }
    }

    /// Whether `account` has claimed.
    pub fn is_claimed(&self, account: u64) -> (b: bool)
        requires
            self.wf(),
        ensures
            b == position_of(self@, account).claimed,
    {
        self.position(account).claimed
    }

    fn put(&mut self, p: Position)
        requires
            old(self).wf(),
            p.true_shares >= 0,
            p.false_shares >= 0,
        ensures
            final(self)@ == with_position(old(self)@, p.account, p),
            final(self).wf(),
    {
        proof {
            lemma_with_position(self@, p.account, p);
        }
        match self.find(p.account) {
            Some(i) => {
                self.entries.set(i, p);
            },
            None => {
                self.entries.push(p);
            },
        }
    }

    /// Adds `amount` shares to the balance of `account` on `side`.
    ///
    /// Fails with `InvalidAmount` for a negative amount and with
    /// `ArithmeticOverflow` if the balance would leave the 128-bit range;
    /// a failed call changes nothing.
    pub fn credit(&mut self, account: u64, side: bool, amount: i128) -> (r: Result<(), MarketError>)
        requires
            old(self).wf(),
        ensures
            final(self).wf(),
            match credit_result(old(self)@, account, side, amount as int) {
                Ok(t) => r is Ok && final(self)@ == t,
                Err(e) => r == Err::<(), MarketError>(e) && final(self)@ == old(self)@,
            },
    {
        let p = self.position(account);
        if amount < 0 {
            return Err(MarketError::InvalidAmount);
        }
        let q = if side {
            let v: i128 = crate::fixed_point::checked_add(p.true_shares, amount)?;
            Position { true_shares: v, ..p }
        } else {
            let v: i128 = crate::fixed_point::checked_add(p.false_shares, amount)?;
            Position { false_shares: v, ..p }
        };
        self.put(q);
        Ok(())
    }

    /// Removes `amount` shares from the balance of `account` on `side`.
    ///
    /// Fails with `InvalidAmount` for a negative amount and with
    /// `InsufficientShares` if the amount exceeds the balance; a failed
    /// call changes nothing.
    pub fn debit(&mut self, account: u64, side: bool, amount: i128) -> (r: Result<(), MarketError>)
        requires
            old(self).wf(),
        ensures
            final(self).wf(),
            match debit_result(old(self)@, account, side, amount as int) {
                Ok(t) => r is Ok && final(self)@ == t,
                Err(e) => r == Err::<(), MarketError>(e) && final(self)@ == old(self)@,
            },
    {
        let p = self.position(account);
        if amount < 0 {
            return Err(MarketError::InvalidAmount);
        }
        let q = if side {
            if amount > p.true_shares {
                return Err(MarketError::InsufficientShares);
            }
            Position { true_shares: p.true_shares - amount, ..p }
        } else {
            if amount > p.false_shares {
                return Err(MarketError::InsufficientShares);
            }
            Position { false_shares: p.false_shares - amount, ..p }
        };
        self.put(q);
        Ok(())
    }

    /// Empties both balances of `account` and sets its claimed flag.
    pub fn close(&mut self, account: u64)
        requires
            old(self).wf(),
        ensures
            final(self).wf(),
            final(self)@ == with_position(old(self)@, account, claimed_position(account)),
    {
        self.put(Position { account, true_shares: 0, false_shares: 0, claimed: true });
    }

    /// The sum of all balances on `side`, or `ArithmeticOverflow` if the sum
    /// leaves the 128-bit range.
    pub fn total(&self, side: bool) -> (r: Result<i128, MarketError>)
        requires
            self.wf(),
        ensures
            fits(total_shares(self@, side)) ==> r == Ok::<i128, MarketError>(
                total_shares(self@, side) as i128,
            ),
            !fits(total_shares(self@, side)) ==> r == Err::<i128, MarketError>(
                MarketError::ArithmeticOverflow,
            ),
    {
        let n: usize = self.entries.len();
        let mut sum: i128 = 0;
        let mut i: usize = 0;
        while i < n
            invariant
                n == self.entries@.len(),
                i <= n,
                self.wf(),
                sum == total_shares(self.entries@.take(i as int), side),
                sum >= 0,
            decreases n - i,
        {
            let p = self.entries[i];
            let v: i128 = if side {
                p.true_shares
            } else {
                p.false_shares
            };
            proof {
                let a = self.entries@.take(i as int);
                let b = self.entries@.take(i + 1);
                assert(b.drop_last() =~= a);
                assert(b.last() == p);
                assert(v == side_shares(p, side));
                assert(v >= 0);
                lemma_total_prefix(self.entries@, i + 1, side);
            }
            match sum.checked_add(v) {
                Some(t) => {
                    sum = t;
                },
                None => {
                    return Err(MarketError::ArithmeticOverflow);
                },
            }
            i += 1;
        }
        proof {
            assert(self.entries@.take(n as int) =~= self.entries@);
        }
        Ok(sum)
    }
}

/// A prefix of well-formed records totals no more than the whole.
pub proof fn lemma_total_prefix(s: Seq<Position>, n: int, side: bool)
    requires
        records_wf(s),
        0 <= n <= s.len(),
    ensures
        0 <= total_shares(s.take(n), side) <= total_shares(s, side),
    decreases s.len() - n,
{
    if n == s.len() {
        assert(s.take(n) =~= s);
        lemma_total_bounds(s, side);
    } else {
        lemma_total_prefix(s, n + 1, side);
        let b = s.take(n + 1);
        assert(b.drop_last() =~= s.take(n));
        assert(b.last() == s[n]);
        assert(side_shares(s[n], side) >= 0);
        let a = s.take(n);
        assert forall|i: int| 0 <= i < a.len() implies #[trigger] a[i] == s[i] by {}
        assert(records_wf(a));
        lemma_total_bounds(a, side);
    }
}


impl PositionLedger {
    /// The records, one per account, in the order in which the accounts
    /// first appeared.
    pub fn records(&self) -> (r: Vec<Position>)
        ensures
            r@ == self@,
    {
        let n: usize = self.entries.len();
        let mut out: Vec<Position> = Vec::new();
        let mut i: usize = 0;
        while i < n
            invariant
                n == self.entries@.len(),
                i <= n,
                out@ == self.entries@.take(i as int),
            decreases n - i,
        {
            out.push(self.entries[i]);
            proof {
                assert(self.entries@.take(i + 1) =~= self.entries@.take(i as int).push(
                    self.entries@[i as int],
                ));
            }
            i += 1;
        }
        proof {
            assert(self.entries@.take(n as int) =~= self.entries@);
        }
        out
    }

    /// A ledger that holds `records`, if they are well formed: one record
    /// per account, and no negative balance.
    pub fn from_records(records: Vec<Position>) -> (r: Option<Self>)
        ensures
            records_wf(records@) ==> r is Some && r->Some_0@ == records@ && r->Some_0.wf(),
            !records_wf(records@) ==> r is None,
    {
        let n: usize = records.len();
        let mut i: usize = 0;
        while i < n
            invariant
                n == records@.len(),
                i <= n,
                forall|a: int, b: int|
                    0 <= a < i && 0 <= b < a ==> (#[trigger] records@[a]).account != (
                    #[trigger] records@[b]).account,
                forall|a: int|
                    0 <= a < i ==> (#[trigger] records@[a]).true_shares >= 0
                        && records@[a].false_shares >= 0,
            decreases n - i,
        {
            let p = records[i];
            if p.true_shares < 0 || p.false_shares < 0 {
                proof {
                    assert(records@[i as int].true_shares < 0 || records@[i as int].false_shares
                        < 0);
                }
                return None;
            }
            let mut j: usize = 0;
            while j < i
                invariant
                    n == records@.len(),
                    i < n,
                    j <= i,
                    p == records@[i as int],
                    forall|b: int| 0 <= b < j ==> (#[trigger] records@[b]).account != p.account,
                decreases i - j,
            {
                if records[j].account == p.account {
                    proof {
                        assert(records@[j as int].account == records@[i as int].account);
                    }
                    return None;
                }
                j += 1;
            }
            i += 1;
        }
        proof {
            assert forall|a: int, b: int|
                0 <= a < records@.len() && 0 <= b < records@.len() && a != b implies (
            #[trigger] records@[a]).account != (#[trigger] records@[b]).account by {
                if b < a {
                } else {
                    assert(records@[b].account != records@[a].account);
                }
            }
        }
        Some(PositionLedger { entries: records })
    }
}

} // verus!
