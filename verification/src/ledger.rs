//! The system of record: a map from account ids to free balances, with a
//! minimum-balance (existential deposit) policy and a running total issuance.
//!
//! Balances are stored as a vector of `(account, balance)` entries with
//! pairwise-distinct account ids; the abstract view of a ledger is the
//! finite map those entries induce.

use vstd::prelude::*;

verus! {

/// The abstract contents of a ledger: the balance map induced by a sequence
/// of `(account, balance)` entries, later entries taking precedence (the
/// well-formedness invariant makes ids unique, so precedence never matters).
pub open spec fn map_of(s: Seq<(u64, u64)>) -> Map<u64, u64>
    decreases s.len(),
{
    if s.len() == 0 {
        Map::empty()
    } else {
        map_of(s.drop_last()).insert(s.last().0, s.last().1)
    }
}

/// No account id occurs twice among the entries.
pub open spec fn ids_unique(s: Seq<(u64, u64)>) -> bool {
    forall|i: int, j: int| 0 <= i < j < s.len() ==> (#[trigger] s[i]).0 != (#[trigger] s[j]).0
}

/// The sum of all stored balances.
pub open spec fn total_of(s: Seq<(u64, u64)>) -> int
    decreases s.len(),
{
    if s.len() == 0 {
        0
    } else {
        total_of(s.drop_last()) + s.last().1
    }
}

/// The free balance of `id` under balance map `m`: an account absent from
/// the map holds nothing.
pub open spec fn bal_of(m: Map<u64, u64>, id: u64) -> u64 {
    if m.dom().contains(id) {
        m[id]
    } else {
        0
    }
}

/// A transfer that moves nothing: to oneself, or of nothing. Such a request
/// is accepted without consulting any balance and changes no state.
pub open spec fn transfer_trivial(from: u64, to: u64, amount: u64) -> bool {
    from == to || amount == 0
}

/// A non-trivial transfer passes when the sender holds the amount, keeps at
/// least the minimum balance afterwards (the sender is kept alive), and the
/// receiver's new balance both fits in the balance type and reaches the
/// minimum balance (so the transfer cannot create a dust account).
pub open spec fn transfer_accepted(m: Map<u64, u64>, min: u64, from: u64, to: u64, amount: u64) -> bool {
    &&& !transfer_trivial(from, to, amount)
    &&& amount <= bal_of(m, from)
    &&& bal_of(m, from) - amount >= min
    &&& bal_of(m, to) + amount <= u64::MAX
    &&& bal_of(m, to) + amount >= min
}

/// The balance map after one attempted transfer: debited and credited when
/// accepted, unchanged otherwise (trivial or rejected).
pub open spec fn apply_transfer(m: Map<u64, u64>, min: u64, from: u64, to: u64, amount: u64) -> Map<
    u64,
    u64,
> {
    if transfer_accepted(m, min, from, to, amount) {
        m.insert(from, (bal_of(m, from) - amount) as u64).insert(
            to,
            (bal_of(m, to) + amount) as u64,
        )
    } else {
        m
    }
}

/// A rejected ledger mutation.
#[derive(Clone, Copy, PartialEq, Eq, Structural, Debug)]
pub enum LedgerError {
    /// The sender does not hold the amount to be moved.
    InsufficientFunds,
    /// The transfer would leave the sender below the minimum balance.
    KeepAliveViolated,
    /// The receiver's balance cannot hold the amount.
    BalanceOverflow,
    /// The transfer would leave the receiver below the minimum balance.
    BelowMinimumBalance,
    /// The requested balance would push total issuance past the balance type.
    IssuanceOverflow,
}

/// An account-balance ledger with a minimum-balance policy.
pub struct Ledger {
    accounts: Vec<(u64, u64)>,
    minimum_balance: u64,
    issuance: u64,
}

impl View for Ledger {
    type V = Map<u64, u64>;

    closed spec fn view(&self) -> Map<u64, u64> {
        map_of(self.accounts@)
    }
}

impl Ledger {
    /// Well-formedness: account ids are unique and the cached total issuance
    /// is exactly the sum of all stored balances (so issuance fits in the
    /// balance type).
    pub closed spec fn wf(&self) -> bool {
        &&& ids_unique(self.accounts@)
        &&& total_of(self.accounts@) == self.issuance
    }

    /// The smallest balance an account may end a transfer with and still
    /// count as existing.
    pub closed spec fn spec_minimum_balance(&self) -> u64 {
        self.minimum_balance
    }

    /// The sum of all balances held by the ledger's accounts.
    pub closed spec fn spec_total_issuance(&self) -> u64 {
        self.issuance
    }

    /// An empty ledger with the given minimum-balance policy.
    pub fn new(minimum_balance: u64) -> (r: Ledger)
        ensures
            r.wf(),
            r@ == Map::<u64, u64>::empty(),
            r.spec_minimum_balance() == minimum_balance,
            r.spec_total_issuance() == 0,
    {
        Ledger { accounts: Vec::new(), minimum_balance, issuance: 0 }
    }

    /// The configured minimum balance.
    pub fn minimum_balance(&self) -> (r: u64)
        ensures
            r == self.spec_minimum_balance(),
    {
        self.minimum_balance
    }

    /// The sum of all balances currently held.
    pub fn total_issuance(&self) -> (r: u64)
        ensures
            r == self.spec_total_issuance(),
    {
        self.issuance
    }

    /// The index of the entry holding `id`, if the account exists.
    fn position_of(&self, id: u64) -> (r: Option<usize>)
        ensures
            match r {
                Some(i) => i < self.accounts@.len() && self.accounts@[i as int].0 == id,
                None => forall|j: int|
                    0 <= j < self.accounts@.len() ==> (#[trigger] self.accounts@[j]).0 != id,
            },
    {
        let mut i: usize = 0;
        while i < self.accounts.len()
            invariant
                i <= self.accounts@.len(),
                forall|j: int| 0 <= j < i ==> (#[trigger] self.accounts@[j]).0 != id,
            decreases self.accounts@.len() - i,
        {
            if self.accounts[i].0 == id {
                return Some(i);
            }
            i = i + 1;
        }
        None
    }

    /// The sender's current free balance, read fresh from the ledger.
    pub fn free_balance(&self, who: u64) -> (r: u64)
        requires
            self.wf(),
        ensures
            r == bal_of(self@, who),
    {
        match self.position_of(who) {
            Some(i) => {
                proof {
                    lemma_map_of_get(self.accounts@, i as int);
                }
                self.accounts[i].1
            },
            None => {
                proof {
                    lemma_map_of_contains(self.accounts@, who);
                }
                0
            },
        }
    }

    /// Set `who`'s free balance to exactly `amount`, creating the account if
    /// it does not exist. Rejected only when the resulting total issuance
    /// would not fit in the balance type.
    pub fn set_balance(&mut self, who: u64, amount: u64) -> (r: Result<(), LedgerError>)
        requires
            old(self).wf(),
        ensures
            final(self).wf(),
            final(self).spec_minimum_balance() == old(self).spec_minimum_balance(),
            r.is_ok() <==> old(self).spec_total_issuance() - bal_of(old(self)@, who) + amount
                <= u64::MAX,
            r.is_err() <==> r == Err::<(), LedgerError>(LedgerError::IssuanceOverflow),
            r.is_ok() ==> final(self)@ == old(self)@.insert(who, amount),
            r.is_ok() ==> final(self).spec_total_issuance() == old(self).spec_total_issuance()
                - bal_of(old(self)@, who) + amount,
            r.is_err() ==> final(self)@ == old(self)@ && final(self).spec_total_issuance() == old(
                self,
            ).spec_total_issuance(),
    {
        match self.position_of(who) {
            Some(i) => {
                let old_bal = self.accounts[i].1;
                proof {
                    lemma_map_of_get(self.accounts@, i as int);
                    lemma_entry_le_total(self.accounts@, i as int);
                }
                let base = self.issuance - old_bal;
                if amount > u64::MAX - base {
                    return Err(LedgerError::IssuanceOverflow);
                }
                proof {
                    lemma_map_of_update(self.accounts@, i as int, amount);
                    lemma_total_update(self.accounts@, i as int, amount);
                }
                self.accounts[i] = (who, amount);
                self.issuance = base + amount;
                proof {
                    assert(ids_unique(self.accounts@));
                }
                Ok(())
            },
            None => {
                proof {
                    lemma_map_of_contains(self.accounts@, who);
                }
                if amount > u64::MAX - self.issuance {
                    return Err(LedgerError::IssuanceOverflow);
                }
                proof {
                    lemma_map_of_push(self.accounts@, (who, amount));
                    lemma_total_push(self.accounts@, (who, amount));
                    assert(ids_unique(self.accounts@.push((who, amount))));
                }
                self.accounts.push((who, amount));
                self.issuance = self.issuance + amount;
                Ok(())
            },
        }
    }

    /// Whether a withdrawal of `amount` from `who`, leaving `new_balance`,
    /// is permitted by rules beyond plain subtraction. This ledger has no
    /// locks or reserves, so a withdrawal consistent with the free balance
    /// is always permitted; the batch operation still checks the answer
    /// hard, as a guard against the ledger's rules and the caller's
    /// arithmetic drifting apart.
    pub fn ensure_can_withdraw(&self, who: u64, amount: u64, new_balance: u64) -> (r: Result<
        (),
        LedgerError,
    >)
        requires
            self.wf(),
        ensures
            r.is_ok(),
    {
        let _ = who;
        let _ = amount;
        let _ = new_balance;
        Ok(())
    }

    /// Move `amount` from `from` to `to`, keeping the sender alive: the
    /// sender must retain at least the minimum balance, and the receiver
    /// must end at or above it. A rejected transfer changes nothing; total
    /// issuance is conserved either way.
    pub fn transfer(&mut self, from: u64, to: u64, amount: u64) -> (r: Result<(), LedgerError>)
        requires
            old(self).wf(),
        ensures
            final(self).wf(),
            final(self).spec_minimum_balance() == old(self).spec_minimum_balance(),
            final(self).spec_total_issuance() == old(self).spec_total_issuance(),
            final(self)@ == apply_transfer(
                old(self)@,
                old(self).spec_minimum_balance(),
                from,
                to,
                amount,
            ),
            r.is_ok() <==> transfer_trivial(from, to, amount) || transfer_accepted(
                old(self)@,
                old(self).spec_minimum_balance(),
                from,
                to,
                amount,
            ),
            r == Err::<(), LedgerError>(LedgerError::InsufficientFunds) <==> !transfer_trivial(
                from,
                to,
                amount,
            ) && amount > bal_of(old(self)@, from),
            r == Err::<(), LedgerError>(LedgerError::KeepAliveViolated) <==> !transfer_trivial(
                from,
                to,
                amount,
            ) && amount <= bal_of(old(self)@, from) && bal_of(old(self)@, from) - amount < old(
                self,
            ).spec_minimum_balance(),
            r == Err::<(), LedgerError>(LedgerError::BalanceOverflow) <==> !transfer_trivial(
                from,
                to,
                amount,
            ) && amount <= bal_of(old(self)@, from) && bal_of(old(self)@, from) - amount >= old(
                self,
            ).spec_minimum_balance() && bal_of(old(self)@, to) + amount > u64::MAX,
            r == Err::<(), LedgerError>(LedgerError::BelowMinimumBalance) <==> !transfer_trivial(
                from,
                to,
                amount,
            ) && amount <= bal_of(old(self)@, from) && bal_of(old(self)@, from) - amount >= old(
                self,
            ).spec_minimum_balance() && bal_of(old(self)@, to) + amount <= u64::MAX && bal_of(
                old(self)@,
                to,
            ) + amount < old(self).spec_minimum_balance(),
    {
        if from == to || amount == 0 {
            return Ok(());
        }
        let ghost s0 = self.accounts@;
        let from_pos = self.position_of(from);
        let b_from = match from_pos {
            Some(i) => {
                proof {
                    lemma_map_of_get(s0, i as int);
                }
                self.accounts[i].1
            },
            None => {
                proof {
                    lemma_map_of_contains(s0, from);
                }
                0
            },
        };
        if amount > b_from {
            return Err(LedgerError::InsufficientFunds);
        }
        let new_from = b_from - amount;
        if new_from < self.minimum_balance {
            return Err(LedgerError::KeepAliveViolated);
        }
        let to_pos = self.position_of(to);
        let b_to = match to_pos {
            Some(j) => {
                proof {
                    lemma_map_of_get(s0, j as int);
                }
                self.accounts[j].1
            },
            None => {
                proof {
                    lemma_map_of_contains(s0, to);
                }
                0
            },
        };
        if amount > u64::MAX - b_to {
            return Err(LedgerError::BalanceOverflow);
        }
        let new_to = b_to + amount;
        if new_to < self.minimum_balance {
            return Err(LedgerError::BelowMinimumBalance);
        }
        // A positive amount within the sender's balance means the sender
        // has an entry.
        let i = match from_pos {
            Some(i) => i,
            None => {
                return vstd::pervasive::unreached();
            },
        };
        proof {
            lemma_map_of_update(s0, i as int, new_from);
            lemma_total_update(s0, i as int, new_from);
        }
        self.accounts[i] = (from, new_from);
        let ghost s1 = self.accounts@;
        proof {
            assert(forall|k: int|
                0 <= k < s1.len() ==> (#[trigger] s1[k]).0 == (#[trigger] s0[k]).0);
            assert(ids_unique(s1));
        }
        match to_pos {
            Some(j) => {
                proof {
                    assert(s1[j as int].0 == to);
                    lemma_map_of_update(s1, j as int, new_to);
                    lemma_total_update(s1, j as int, new_to);
                }
                self.accounts[j] = (to, new_to);
                proof {
                    assert(ids_unique(self.accounts@));
                }
            },
            None => {
                proof {
                    lemma_map_of_push(s1, (to, new_to));
                    lemma_total_push(s1, (to, new_to));
                    assert(ids_unique(s1.push((to, new_to))));
                }
                self.accounts.push((to, new_to));
            },
        }
        Ok(())
    }
}

/// `id` has an entry among `s` exactly when it is in the induced map.
proof fn lemma_map_of_contains(s: Seq<(u64, u64)>, id: u64)
    ensures
        map_of(s).dom().contains(id) <==> (exists|i: int|
            0 <= i < s.len() && (#[trigger] s[i]).0 == id),
    decreases s.len(),
{
    if s.len() > 0 {
        lemma_map_of_contains(s.drop_last(), id);
        if s.last().0 == id {
            assert(s[s.len() - 1].0 == id);
        } else {
            if exists|i: int| 0 <= i < s.len() && (#[trigger] s[i]).0 == id {
                let i = choose|i: int| 0 <= i < s.len() && (#[trigger] s[i]).0 == id;
                assert(i < s.len() - 1);
                assert(s.drop_last()[i].0 == id);
            }
            if exists|i: int| 0 <= i < s.drop_last().len() && (#[trigger] s.drop_last()[i]).0 == id {
                let i = choose|i: int|
                    0 <= i < s.drop_last().len() && (#[trigger] s.drop_last()[i]).0 == id;
                assert(s[i].0 == id);
            }
        }
    }
}

/// With unique ids, the induced map sends the id of entry `i` to its balance.
proof fn lemma_map_of_get(s: Seq<(u64, u64)>, i: int)
    requires
        ids_unique(s),
        0 <= i < s.len(),
    ensures
        map_of(s).dom().contains(s[i].0),
        map_of(s)[s[i].0] == s[i].1,
    decreases s.len(),
{
    if i == s.len() - 1 {
    } else {
        assert(s[i].0 != s.last().0);
        assert(ids_unique(s.drop_last()));
        assert(s.drop_last()[i] == s[i]);
        lemma_map_of_get(s.drop_last(), i);
    }
}

/// Rewriting the balance of entry `i` rewrites the induced map at its id.
proof fn lemma_map_of_update(s: Seq<(u64, u64)>, i: int, v: u64)
    requires
        ids_unique(s),
        0 <= i < s.len(),
    ensures
        map_of(s.update(i, (s[i].0, v))) == map_of(s).insert(s[i].0, v),
    decreases s.len(),
{
    let id = s[i].0;
    let t = s.update(i, (id, v));
    if i == s.len() - 1 {
        assert(t.drop_last() =~= s.drop_last());
        assert(t.last() == (id, v));
        assert(map_of(s).insert(id, v) =~= map_of(s.drop_last()).insert(id, v));
    } else {
        assert(t.drop_last() =~= s.drop_last().update(i, (id, v)));
        assert(t.last() == s.last());
        assert(ids_unique(s.drop_last()));
        assert(s.drop_last()[i] == s[i]);
        lemma_map_of_update(s.drop_last(), i, v);
        assert(id != s.last().0);
        assert(map_of(s.drop_last()).insert(id, v).insert(s.last().0, s.last().1) =~= map_of(
            s.drop_last(),
        ).insert(s.last().0, s.last().1).insert(id, v));
    }
}

/// Appending an entry extends the induced map at its id.
proof fn lemma_map_of_push(s: Seq<(u64, u64)>, x: (u64, u64))
    ensures
        map_of(s.push(x)) == map_of(s).insert(x.0, x.1),
{
    assert(s.push(x).drop_last() =~= s);
    assert(s.push(x).last() == x);
}

/// Balances are non-negative, so so is their sum.
proof fn lemma_total_nonneg(s: Seq<(u64, u64)>)
    ensures
        total_of(s) >= 0,
    decreases s.len(),
{
    if s.len() > 0 {
        lemma_total_nonneg(s.drop_last());
    }
}

/// Each stored balance is bounded by the sum of all of them.
proof fn lemma_entry_le_total(s: Seq<(u64, u64)>, i: int)
    requires
        0 <= i < s.len(),
    ensures
        s[i].1 <= total_of(s),
    decreases s.len(),
{
    lemma_total_nonneg(s.drop_last());
    if i == s.len() - 1 {
    } else {
        assert(s.drop_last()[i] == s[i]);
        lemma_entry_le_total(s.drop_last(), i);
        assert(total_of(s) == total_of(s.drop_last()) + s.last().1);
    }
}

/// Rewriting the balance of entry `i` shifts the sum by the difference.
proof fn lemma_total_update(s: Seq<(u64, u64)>, i: int, v: u64)
    requires
        0 <= i < s.len(),
    ensures
        total_of(s.update(i, (s[i].0, v))) == total_of(s) - s[i].1 + v,
    decreases s.len(),
{
    let t = s.update(i, (s[i].0, v));
    if i == s.len() - 1 {
        assert(t.drop_last() =~= s.drop_last());
        assert(t.last() == (s[i].0, v));
    } else {
        assert(t.drop_last() =~= s.drop_last().update(i, (s[i].0, v)));
        assert(t.last() == s.last());
        assert(s.drop_last()[i] == s[i]);
        lemma_total_update(s.drop_last(), i, v);
    }
}

/// Appending an entry adds its balance to the sum.
proof fn lemma_total_push(s: Seq<(u64, u64)>, x: (u64, u64))
    ensures
        total_of(s.push(x)) == total_of(s) + x.1,
{
    assert(s.push(x).drop_last() =~= s);
    assert(s.push(x).last() == x);
}

} // verus!
