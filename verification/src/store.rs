//! The bet store: the durable state of the game. Per-user account balances
//! and per-(user, date) bet records, with every mutation an atomic
//! transaction: either the whole step commits, or the state is untouched.
//!
//! The mathematical state is a [`StoreModel`]: a map from user to balance and
//! a map from (user, date) to record. Every operation's contract pins the new
//! model to a spec-level transition of the old one.

use vstd::prelude::*;
use vstd::pervasive::VecAdditionalExecFns;

use crate::bet::{
    consistent_outcome, Bet, BetError, BetOutcome, BetRecord, Payout, MAX_BALANCE, MAX_MONEY,
};
use crate::user::UserId;

verus! {

/// One account row: the user and their committed balance in cents.
pub(crate) struct Account {
    pub user: UserId,
    pub balance: i64,
}

/// One bet row: the key (user, date as a day number) and the record.
pub(crate) struct BetEntry {
    pub user: UserId,
    pub date: i64,
    pub record: BetRecord,
}

/// The mathematical state of the store: balances keyed by user, records
/// keyed by (user, day number).
pub struct StoreModel {
    /// Committed balance of each known user, cents.
    pub balances: Map<int, int>,

    /// The bet record of each (user, day) that holds one.
    pub bets: Map<(int, int), BetRecord>,
}

/// Every committed balance is within bounds — in particular never negative —
/// and every stored record is internally consistent.
pub open spec fn model_wf(m: StoreModel) -> bool {
    &&& forall|u: int| #[trigger] m.balances.dom().contains(u) ==> 0 <= m.balances[u]
        <= MAX_BALANCE
    &&& forall|k: (int, int)| #[trigger] m.bets.dom().contains(k) ==> m.bets[k].valid()
}

/// The dates on which `u` has a placed but unsettled bet.
pub open spec fn outstanding(m: StoreModel, u: int) -> Set<int> {
    Set::new(|d: int| m.bets.dom().contains((u, d)) && m.bets[(u, d)].outcome is None)
}

/// Whether the bet of `u` on `d` is ready to settle at `now`: the day has
/// fully elapsed and no outcome is recorded yet.
pub open spec fn is_ready(m: StoreModel, u: int, d: int, now: int) -> bool {
    &&& m.bets.dom().contains((u, d))
    &&& d < now
    &&& m.bets[(u, d)].outcome is None
}

/// The dates of `u`'s ready bets at `now`.
pub open spec fn ready_set(m: StoreModel, u: int, now: int) -> Set<int> {
    Set::new(|d: int| is_ready(m, u, d, now))
}

// ---------------------------------------------------------------------------
// Representation helpers: the account and bet vectors viewed as maps.
// ---------------------------------------------------------------------------

pub(crate) open spec fn has_acct(s: Seq<Account>, u: int) -> bool {
    exists|i: int| 0 <= i < s.len() && (#[trigger] s[i]).user.0 == u
}

pub(crate) open spec fn acct_index(s: Seq<Account>, u: int) -> int {
    choose|i: int| 0 <= i < s.len() && (#[trigger] s[i]).user.0 == u
}

pub(crate) open spec fn acct_unique(s: Seq<Account>) -> bool {
    forall|i: int, j: int|
        0 <= i < j < s.len() ==> (#[trigger] s[i]).user.0 != (#[trigger] s[j]).user.0
}

pub(crate) open spec fn balances_of(s: Seq<Account>) -> Map<int, int> {
    Map::new(|u: int| has_acct(s, u), |u: int| s[acct_index(s, u)].balance as int)
}

pub(crate) open spec fn has_entry(s: Seq<BetEntry>, u: int, d: int) -> bool {
    exists|i: int| 0 <= i < s.len() && (#[trigger] s[i]).user.0 == u && s[i].date == d
}

pub(crate) open spec fn entry_index(s: Seq<BetEntry>, u: int, d: int) -> int {
    choose|i: int| 0 <= i < s.len() && (#[trigger] s[i]).user.0 == u && s[i].date == d
}

pub(crate) open spec fn bets_unique(s: Seq<BetEntry>) -> bool {
    forall|i: int, j: int|
        0 <= i < j < s.len() ==> !((#[trigger] s[i]).user.0 == (#[trigger] s[j]).user.0 && s[i].date
            == s[j].date)
}

pub(crate) open spec fn bets_of(s: Seq<BetEntry>) -> Map<(int, int), BetRecord> {
    Map::new(
        |k: (int, int)| has_entry(s, k.0, k.1),
        |k: (int, int)| s[entry_index(s, k.0, k.1)].record,
    )
}

// ---------------------------------------------------------------------------
// The store itself.
// ---------------------------------------------------------------------------

/// The store: account balances and bet records behind a transactional
/// interface.
pub struct Store {
    pub(crate) accounts: Vec<Account>,
    pub(crate) bets: Vec<BetEntry>,
}

impl View for Store {
    type V = StoreModel;

    closed spec fn view(&self) -> StoreModel {
        StoreModel { balances: balances_of(self.accounts@), bets: bets_of(self.bets@) }
    }
}

impl Store {
    /// The representation invariant: keys are unique, balances committed
    /// within bounds, records internally consistent.
    pub closed spec fn wf(self) -> bool {
        &&& acct_unique(self.accounts@)
        &&& bets_unique(self.bets@)
        &&& forall|i: int|
            0 <= i < self.accounts@.len() ==> 0 <= (#[trigger] self.accounts@[i]).balance
                <= MAX_BALANCE
        &&& forall|i: int|
            0 <= i < self.bets@.len() ==> (#[trigger] self.bets@[i]).record.valid()
    }

    /// A well-formed store has a well-formed model.
    pub proof fn lemma_wf_model(self)
        requires
            self.wf(),
        ensures
            model_wf(self@),
    {
        assert forall|u: int| #[trigger] self@.balances.dom().contains(u) implies 0
            <= self@.balances[u] <= MAX_BALANCE by {
            let i = acct_index(self.accounts@, u);
            assert(0 <= i < self.accounts@.len() && self.accounts@[i].user.0 == u);
        }
        assert forall|k: (int, int)| #[trigger] self@.bets.dom().contains(k) implies
            self@.bets[k].valid() by {
            let i = entry_index(self.bets@, k.0, k.1);
            assert(0 <= i < self.bets@.len() && self.bets@[i].user.0 == k.0 && self.bets@[i].date
                == k.1);
        }
    }

    /// An empty store: no accounts, no bets.
    pub fn new() -> (r: Store)
        ensures
            r.wf(),
            r@.balances == Map::<int, int>::empty(),
            r@.bets == Map::<(int, int), BetRecord>::empty(),
    {
        let r = Store { accounts: Vec::new(), bets: Vec::new() };
        proof {
            assert(r@.balances =~= Map::<int, int>::empty());
            assert(r@.bets =~= Map::<(int, int), BetRecord>::empty());
        }
        r
    }

    fn find_account_index(&self, user: UserId) -> (r: Option<usize>)
        ensures
            match r {
                Some(i) => i < self.accounts@.len() && self.accounts@[i as int].user == user,
                None => !has_acct(self.accounts@, user.0 as int),
            },
    {
        let n = self.accounts.len();
        let mut i: usize = 0;
        while i < n
            invariant
                n == self.accounts@.len(),
                i <= n,
                forall|j: int| 0 <= j < i ==> (#[trigger] self.accounts@[j]).user.0 != user.0,
            decreases n - i,
        {
            if self.accounts[i].user.0 == user.0 {
                return Some(i);
            }
            i = i + 1;
        }
        None
    }

    /// Whether the store knows this user.
    pub fn has_account(&self, user: UserId) -> (r: bool)
        ensures
            r == self@.balances.dom().contains(user.0 as int),
    {
        self.find_account_index(user).is_some()
    }

    /// Open an account with a starting balance. The user must be new.
    pub fn create_account(&mut self, user: UserId, balance: i64)
        requires
            old(self).wf(),
            !old(self)@.balances.dom().contains(user.0 as int),
            0 <= balance <= MAX_BALANCE,
        ensures
            final(self).wf(),
            final(self)@.balances == old(self)@.balances.insert(user.0 as int, balance as int),
            final(self)@.bets == old(self)@.bets,
    {
        proof {
            lemma_balances_push(self.accounts@, user, balance);
        }
        self.accounts.push(Account { user, balance });
    }

    /// The committed balance of a known user, cents.
    pub fn get_balance(&self, user: UserId) -> (r: i64)
        requires
            self.wf(),
            self@.balances.dom().contains(user.0 as int),
        ensures
            r as int == self@.balances[user.0 as int],
    {
        let i = match self.find_account_index(user) {
            Some(i) => i,
            None => {
                proof {
                    assert(false);
                }
                unreached()
            },
        };
        proof {
            lemma_acct_index_is(self.accounts@, i as int);
        }
        self.accounts[i].balance
    }

    /// The single choke point every balance mutation goes through: an atomic
    /// read-modify-write that refuses to commit a negative balance.
    pub fn adjust(&mut self, user: UserId, delta: i64) -> (r: Result<i64, BetError>)
        requires
            old(self).wf(),
            old(self)@.balances.dom().contains(user.0 as int),
            -MAX_BALANCE <= delta <= MAX_BALANCE,
            old(self)@.balances[user.0 as int] + delta <= MAX_BALANCE,
        ensures
            final(self).wf(),
            old(self)@.balances[user.0 as int] + delta >= 0 ==> {
                &&& r == Ok::<i64, BetError>(
                    (old(self)@.balances[user.0 as int] + delta) as i64,
                )
                &&& final(self)@.balances == old(self)@.balances.insert(
                    user.0 as int,
                    old(self)@.balances[user.0 as int] + delta,
                )
                &&& final(self)@.bets == old(self)@.bets
            },
            old(self)@.balances[user.0 as int] + delta < 0 ==> {
                &&& r == Err::<i64, BetError>(BetError::InsufficientFunds)
                &&& *final(self) == *old(self)
            },
    {
        let i = match self.find_account_index(user) {
            Some(i) => i,
            None => {
                proof {
                    assert(false);
                }
                unreached()
            },
        };
        proof {
            lemma_acct_index_is(self.accounts@, i as int);
        }
        let current = self.accounts[i].balance;
        let updated = current + delta;
        if updated < 0 {
            return Err(BetError::InsufficientFunds);
        }
        proof {
            lemma_balances_update(self.accounts@, i as int, updated);
        }
        self.accounts.set(i, Account { user, balance: updated });
        Ok(updated)
    }
}

// ---------------------------------------------------------------------------
// Transitions: what each mutating operation does to the model.
// ---------------------------------------------------------------------------

/// The transactional write of a placement: refuse to touch a settled day,
/// refund any previous wager, deduct the new one, and either commit the new
/// record together with the adjusted balance or abort the whole step.
pub open spec fn upsert_model(m: StoreModel, u: int, d: int, bet: Bet, payout: Payout) -> (
    StoreModel,
    Result<(), BetError>,
) {
    if m.bets.dom().contains((u, d)) && m.bets[(u, d)].outcome is Some {
        (m, Err(BetError::AlreadySettled))
    } else {
        let refund: int = if m.bets.dom().contains((u, d)) {
            m.bets[(u, d)].bet.wager as int
        } else {
            0
        };
        let updated = m.balances[u] + refund - bet.wager;
        if updated < 0 {
            (m, Err(BetError::InsufficientFunds))
        } else {
            (
                StoreModel {
                    balances: m.balances.insert(u, updated),
                    bets: m.bets.insert(
                        (u, d),
                        BetRecord { bet, locked_payout: payout, outcome: None },
                    ),
                },
                Ok(()),
            )
        }
    }
}

/// A placement: a bet on the current local day is refused outright, a
/// negative wager is refused, and otherwise the transactional write runs.
pub open spec fn place_model(
    m: StoreModel,
    u: int,
    d: int,
    bet: Bet,
    payout: Payout,
    today: int,
) -> (StoreModel, Result<(), BetError>) {
    if d == today {
        (m, Err(BetError::CannotBetToday))
    } else if bet.wager < 0 {
        (m, Err(BetError::NegativeWager))
    } else {
        upsert_model(m, u, d, bet, payout)
    }
}

/// Recording a settlement: the existence of an outcome is what guards
/// against double-crediting. If one is already recorded — or there is no bet
/// at all — nothing changes and the conflict is reported; otherwise the
/// outcome is written and the payout credited in the same step.
pub open spec fn record_model(m: StoreModel, u: int, d: int, o: BetOutcome) -> (
    StoreModel,
    Result<(), BetError>,
) {
    if !m.bets.dom().contains((u, d)) || m.bets[(u, d)].outcome is Some {
        (m, Err(BetError::SettlementConflict))
    } else {
        let rec = m.bets[(u, d)];
        (
            StoreModel {
                balances: m.balances.insert(u, m.balances[u] + o.payout),
                bets: m.bets.insert(
                    (u, d),
                    BetRecord { bet: rec.bet, locked_payout: rec.locked_payout, outcome: Some(o) },
                ),
            },
            Ok(()),
        )
    }
}

// ---------------------------------------------------------------------------
// Bet operations.
// ---------------------------------------------------------------------------

impl Store {
    fn find_bet_index(&self, user: UserId, date: i64) -> (r: Option<usize>)
        ensures
            match r {
                Some(i) => i < self.bets@.len() && self.bets@[i as int].user == user
                    && self.bets@[i as int].date == date,
                None => !has_entry(self.bets@, user.0 as int, date as int),
            },
    {
        let n = self.bets.len();
        let mut i: usize = 0;
        while i < n
            invariant
                n == self.bets@.len(),
                i <= n,
                forall|j: int|
                    0 <= j < i ==> !((#[trigger] self.bets@[j]).user.0 == user.0
                        && self.bets@[j].date == date),
            decreases n - i,
        {
            if self.bets[i].user.0 == user.0 && self.bets[i].date == date {
                return Some(i);
            }
            i = i + 1;
        }
        None
    }

    /// Read-only lookup of the record for (user, date).
    pub fn find_bet(&self, user: UserId, date: i64) -> (r: Option<BetRecord>)
        requires
            self.wf(),
        ensures
            r == (if self@.bets.dom().contains((user.0 as int, date as int)) {
                Some(self@.bets[(user.0 as int, date as int)])
            } else {
                None::<BetRecord>
            }),
    {
        match self.find_bet_index(user, date) {
            Some(i) => {
                proof {
                    lemma_entry_index_is(self.bets@, i as int);
                }
                Some(self.bets[i].record)
            },
            None => None,
        }
    }

    /// The transactional write behind a placement. In one atomic step: a
    /// settled day is refused, any previous wager on the day is refunded, the
    /// new wager is deducted, and if the balance would go negative the whole
    /// step aborts with nothing changed.
    pub fn upsert_bet(&mut self, user: UserId, date: i64, bet: Bet, payout: Payout) -> (r: Result<
        (),
        BetError,
    >)
        requires
            old(self).wf(),
            old(self)@.balances.dom().contains(user.0 as int),
            bet.in_bounds(),
            0 <= bet.wager,
            payout.valid(),
            old(self)@.balances[user.0 as int] + MAX_MONEY <= MAX_BALANCE,
        ensures
            final(self).wf(),
            ({
                let (m2, res) = upsert_model(old(self)@, user.0 as int, date as int, bet, payout);
                final(self)@ == m2 && r == res
            }),
    {
        let idx = self.find_bet_index(user, date);

        let refund: i64 = match idx {
            Some(i) => {
                proof {
                    lemma_entry_index_is(self.bets@, i as int);
                }
                if self.bets[i].record.outcome.is_some() {
                    return Err(BetError::AlreadySettled);
                }
                self.bets[i].record.bet.wager
            },
            None => 0,
        };

        let current = self.get_balance(user);
        let updated = current + refund - bet.wager;
        if updated < 0 {
            return Err(BetError::InsufficientFunds);
        }

        let rec = BetRecord { bet, locked_payout: payout, outcome: None };
        match idx {
            Some(i) => {
                proof {
                    lemma_bets_update(self.bets@, i as int, rec);
                }
                self.bets.set(i, BetEntry { user, date, record: rec });
            },
            None => {
                proof {
                    lemma_bets_push(self.bets@, user, date, rec);
                }
                self.bets.push(BetEntry { user, date, record: rec });
            },
        }
        assert forall|k: int| 0 <= k < self.bets@.len() implies (#[trigger] self.bets@[k]).record.valid() by {
            if self.bets@[k] != (BetEntry { user, date, record: rec }) {
                assert(self.bets@[k] == old(self).bets@[k]);
            }
        }

        match self.adjust(user, refund - bet.wager) {
            Ok(_) => {},
            Err(_) => {
                proof {
                    assert(false);
                }
            },
        }
        Ok(())
    }

    /// Place a bet: refuse the current local day, refuse a negative wager,
    /// and otherwise run the transactional write.
    pub fn place(&mut self, user: UserId, date: i64, bet: Bet, payout: Payout, today: i64) -> (r:
        Result<(), BetError>)
        requires
            old(self).wf(),
            old(self)@.balances.dom().contains(user.0 as int),
            bet.in_bounds(),
            payout.valid(),
            old(self)@.balances[user.0 as int] + MAX_MONEY <= MAX_BALANCE,
        ensures
            final(self).wf(),
            ({
                let (m2, res) = place_model(
                    old(self)@,
                    user.0 as int,
                    date as int,
                    bet,
                    payout,
                    today as int,
                );
                final(self)@ == m2 && r == res
            }),
    {
        if date == today {
            return Err(BetError::CannotBetToday);
        }
        if bet.wager < 0 {
            return Err(BetError::NegativeWager);
        }
        self.upsert_bet(user, date, bet, payout)
    }

    /// Record an outcome for (user, date) and credit its payout, atomically.
    /// The outcome row guards the credit: if one already exists the state is
    /// left untouched and the conflict reported.
    pub fn record_payout(&mut self, user: UserId, date: i64, outcome: BetOutcome) -> (r: Result<
        (),
        BetError,
    >)
        requires
            old(self).wf(),
            old(self)@.balances.dom().contains(user.0 as int),
            ({
                let k = (user.0 as int, date as int);
                old(self)@.bets.dom().contains(k) && old(self)@.bets[k].outcome is None
                    ==> consistent_outcome(old(self)@.bets[k].locked_payout, outcome)
                    && old(self)@.balances[user.0 as int] + outcome.payout <= MAX_BALANCE
            }),
        ensures
            final(self).wf(),
            ({
                let (m2, res) = record_model(old(self)@, user.0 as int, date as int, outcome);
                final(self)@ == m2 && r == res
            }),
    {
        let i = match self.find_bet_index(user, date) {
            Some(i) => i,
            None => {
                return Err(BetError::SettlementConflict);
            },
        };
        proof {
            lemma_entry_index_is(self.bets@, i as int);
        }
        if self.bets[i].record.outcome.is_some() {
            return Err(BetError::SettlementConflict);
        }

        let stored = self.bets[i].record;
        let rec = BetRecord {
            bet: stored.bet,
            locked_payout: stored.locked_payout,
            outcome: Some(outcome),
        };
        proof {
            lemma_bets_update(self.bets@, i as int, rec);
        }
        self.bets.set(i, BetEntry { user, date, record: rec });
        assert forall|k: int| 0 <= k < self.bets@.len() implies (#[trigger] self.bets@[k]).record.valid() by {
            if self.bets@[k] != (BetEntry { user, date, record: rec }) {
                assert(self.bets@[k] == old(self).bets@[k]);
            }
        }

        proof {
            self.lemma_wf_model();
        }
        match self.adjust(user, outcome.payout) {
            Ok(_) => {},
            Err(_) => {
                proof {
                    assert(false);
                }
            },
        }
        Ok(())
    }
}

/// Whether one stored row belongs to `u` and is ready at `now`.
pub(crate) open spec fn entry_matches(e: BetEntry, u: int, now: int) -> bool {
    e.user.0 == u && e.date < now && e.record.outcome is None
}

impl Store {
    /// All bets of `user` that are ready to settle at `now`: their date has
    /// fully elapsed and no outcome is recorded yet. Each ready date appears
    /// exactly once, with its record.
    #[verifier::rlimit(60)]
    pub fn ready_bets(&self, user: UserId, now: i64) -> (r: Vec<(i64, BetRecord)>)
        requires
            self.wf(),
        ensures
            forall|i: int|
                0 <= i < r@.len() ==> is_ready(
                    self@,
                    user.0 as int,
                    (#[trigger] r@[i]).0 as int,
                    now as int,
                ) && r@[i].1 == self@.bets[(user.0 as int, r@[i].0 as int)],
            forall|d: int|
                #[trigger] is_ready(self@, user.0 as int, d, now as int) ==> exists|i: int|
                    0 <= i < r@.len() && (#[trigger] r@[i]).0 == d,
            forall|i: int, j: int| 0 <= i < j < r@.len() ==> (#[trigger] r@[i]).0 != (
            #[trigger] r@[j]).0,
    {
        let ghost u = user.0 as int;
        let n = self.bets.len();
        let mut r: Vec<(i64, BetRecord)> = Vec::new();
        let mut i: usize = 0;
        while i < n
            invariant
                self.wf(),
                n == self.bets@.len(),
                i <= n,
                u == user.0 as int,
                forall|k: int|
                    0 <= k < r@.len() ==> is_ready(self@, u, (#[trigger] r@[k]).0 as int, now as int)
                        && r@[k].1 == self@.bets[(u, r@[k].0 as int)],
                forall|k: int|
                    0 <= k < r@.len() ==> entry_index(self.bets@, u, (#[trigger] r@[k]).0 as int)
                        < i,
                forall|j: int|
                    0 <= j < i && entry_matches(#[trigger] self.bets@[j], u, now as int)
                        ==> exists|k: int| 0 <= k < r@.len() && (#[trigger] r@[k]).0
                        == self.bets@[j].date,
                forall|k1: int, k2: int| 0 <= k1 < k2 < r@.len() ==> (#[trigger] r@[k1]).0 != (
                #[trigger] r@[k2]).0,
            decreases n - i,
        {
            let e_date = self.bets[i].date;
            if self.bets[i].user.0 == user.0 && e_date < now && self.bets[i].record.outcome.is_none() {
                proof {
                    lemma_entry_index_is(self.bets@, i as int);
                    assert(entry_matches(self.bets@[i as int], u, now as int));
                    assert(is_ready(self@, u, e_date as int, now as int));
                    assert(self@.bets[(u, e_date as int)] == self.bets@[i as int].record);
                    assert forall|k: int| 0 <= k < r@.len() implies (#[trigger] r@[k]).0
                        != e_date by {
                        if r@[k].0 == e_date {
                            assert(entry_index(self.bets@, u, e_date as int) < i);
                        }
                    }
                }
                let ghost r_old = r@;
                r.push((e_date, self.bets[i].record));
                proof {
                    assert forall|j: int|
                        0 <= j < i + 1 && entry_matches(#[trigger] self.bets@[j], u, now as int)
                            implies exists|k: int| 0 <= k < r@.len() && (#[trigger] r@[k]).0
                            == self.bets@[j].date by {
                        if j == i {
                            assert(r@[r@.len() - 1].0 == self.bets@[j].date);
                        } else {
                            let k = choose|k: int|
                                0 <= k < r_old.len() && (#[trigger] r_old[k]).0 == self.bets@[
                                j].date;
                            assert(r@[k] == r_old[k]);
                            assert(0 <= k < r@.len() && r@[k].0 == self.bets@[j].date);
                        }
                    }
                }
            }
            i = i + 1;
        }

        proof {
            assert forall|d: int| #[trigger] is_ready(self@, u, d, now as int) implies exists|
                k: int,
            | 0 <= k < r@.len() && (#[trigger] r@[k]).0 == d by {
                let j = entry_index(self.bets@, u, d);
                assert(0 <= j < n && self.bets@[j].user.0 == u && self.bets@[j].date == d);
                assert(self@.bets[(u, d)] == self.bets@[j].record) by {
                    lemma_entry_index_is(self.bets@, j);
                }
                assert(entry_matches(self.bets@[j], u, now as int));
            }
        }
        r
    }


    /// How many of `user`'s bets are ready to settle at `now`.
    pub fn count_ready(&self, user: UserId, now: i64) -> (r: usize)
        requires
            self.wf(),
        ensures
            r as int == ready_set(self@, user.0 as int, now as int).len(),
    {
        let list = self.ready_bets(user, now);
        proof {
            let u = user.0 as int;
            let dates = list@.map_values(|p: (i64, BetRecord)| p.0 as int);
            assert(dates.no_duplicates()) by {
                assert forall|i: int, j: int|
                    0 <= i < dates.len() && 0 <= j < dates.len() && i != j implies dates[i]
                    != dates[j] by {
                    if i < j {
                        assert(list@[i].0 != list@[j].0);
                    } else {
                        assert(list@[j].0 != list@[i].0);
                    }
                }
            }
            dates.unique_seq_to_set();
            assert(dates.to_set() =~= ready_set(self@, u, now as int)) by {
                assert forall|d: int| dates.to_set().contains(d) implies ready_set(
                    self@,
                    u,
                    now as int,
                ).contains(d) by {
                    let k = choose|k: int| 0 <= k < dates.len() && dates[k] == d;
                    assert(is_ready(self@, u, list@[k].0 as int, now as int));
                }
                assert forall|d: int| ready_set(self@, u, now as int).contains(d) implies dates
                    .to_set().contains(d) by {
                    assert(is_ready(self@, u, d, now as int));
                    let k = choose|k: int| 0 <= k < list@.len() && (#[trigger] list@[k]).0 == d;
                    assert(dates[k] == d);
                    assert(dates.contains(d));
                }
            }
        }
        list.len()
    }
}

// ---------------------------------------------------------------------------
// Representation lemmas.
// ---------------------------------------------------------------------------

/// An in-range position with a matching user is the position the view reads.
pub(crate) proof fn lemma_acct_index_is(s: Seq<Account>, i: int)
    requires
        acct_unique(s),
        0 <= i < s.len(),
    ensures
        has_acct(s, s[i].user.0 as int),
        acct_index(s, s[i].user.0 as int) == i,
{
    let u = s[i].user.0 as int;
    assert(has_acct(s, u));
    let j = acct_index(s, u);
    assert(0 <= j < s.len() && s[j].user.0 == u);
    if i < j {
        assert(s[i].user.0 != s[j].user.0);
    } else if j < i {
        assert(s[j].user.0 != s[i].user.0);
    }
}

/// Appending a fresh user adds exactly their balance to the balance map.
pub(crate) proof fn lemma_balances_push(s: Seq<Account>, user: UserId, balance: i64)
    requires
        acct_unique(s),
        !has_acct(s, user.0 as int),
    ensures
        acct_unique(s.push(Account { user, balance })),
        balances_of(s.push(Account { user, balance })) == balances_of(s).insert(
            user.0 as int,
            balance as int,
        ),
{
    let t = s.push(Account { user, balance });
    assert(forall|k: int| 0 <= k < s.len() ==> t[k] == s[k]);
    assert(t[s.len() as int].user == user);
    assert forall|i: int, j: int| 0 <= i < j < t.len() implies (#[trigger] t[i]).user.0
        != (#[trigger] t[j]).user.0 by {
        if j < s.len() {
            assert(s[i].user.0 != s[j].user.0);
        } else {
            assert(t[j].user.0 == user.0);
            assert(has_acct(s, s[i].user.0 as int)) by {
                assert(0 <= i < s.len() && s[i].user.0 == s[i].user.0);
            }
        }
    }
    assert forall|u: int| #![auto] balances_of(t).dom().contains(u) == balances_of(s).insert(
        user.0 as int,
        balance as int,
    ).dom().contains(u) by {
        if u == user.0 as int {
            assert(has_acct(t, u)) by {
                assert(t[s.len() as int].user.0 == u);
            }
        } else {
            if has_acct(s, u) {
                let k = acct_index(s, u);
                assert(t[k].user.0 == u);
                assert(has_acct(t, u));
            }
            if has_acct(t, u) {
                let k = acct_index(t, u);
                assert(k != s.len() as int);
                assert(s[k].user.0 == u);
                assert(has_acct(s, u));
            }
        }
    }
    assert forall|u: int| balances_of(t).dom().contains(u) implies balances_of(t)[u]
        == balances_of(s).insert(user.0 as int, balance as int)[u] by {
        let k = acct_index(t, u);
        assert(0 <= k < t.len() && t[k].user.0 == u);
        if u == user.0 as int {
            lemma_acct_index_is(t, s.len() as int);
        } else {
            assert(k < s.len());
            assert(s[k].user.0 == u);
            lemma_acct_index_is(s, k);
            assert(acct_index(s, u) == k);
            assert(balances_of(s)[u] == s[k].balance as int);
            assert(t[k].balance == s[k].balance);
        }
    }
    assert(balances_of(t) =~= balances_of(s).insert(user.0 as int, balance as int));
}

/// Updating the balance at one position updates exactly that user's entry in
/// the balance map, and leaves the bets view alone.
pub(crate) proof fn lemma_balances_update(s: Seq<Account>, i: int, nb: i64)
    requires
        acct_unique(s),
        0 <= i < s.len(),
    ensures
        acct_unique(s.update(i, Account { user: s[i].user, balance: nb })),
        balances_of(s.update(i, Account { user: s[i].user, balance: nb })) == balances_of(
            s,
        ).insert(s[i].user.0 as int, nb as int),
{
    let t = s.update(i, Account { user: s[i].user, balance: nb });
    assert(t.len() == s.len());
    assert(forall|k: int| 0 <= k < t.len() ==> (#[trigger] t[k]).user == s[k].user);
    assert forall|p: int, q: int| 0 <= p < q < t.len() implies (#[trigger] t[p]).user.0
        != (#[trigger] t[q]).user.0 by {
        assert(s[p].user.0 != s[q].user.0);
    }
    let u0 = s[i].user.0 as int;
    assert forall|u: int| #![auto] balances_of(t).dom().contains(u) == balances_of(s).insert(
        u0,
        nb as int,
    ).dom().contains(u) by {
        if has_acct(s, u) {
            let k = acct_index(s, u);
            assert(t[k].user.0 == u);
            assert(has_acct(t, u));
        }
        if has_acct(t, u) {
            let k = acct_index(t, u);
            assert(s[k].user.0 == u);
            assert(has_acct(s, u));
        }
        assert(has_acct(s, u0)) by {
            assert(s[i].user.0 == u0);
        }
    }
    assert forall|u: int| balances_of(t).dom().contains(u) implies balances_of(t)[u]
        == balances_of(s).insert(u0, nb as int)[u] by {
        let k = acct_index(t, u);
        assert(0 <= k < t.len() && t[k].user.0 == u);
        if u == u0 {
            lemma_acct_index_is(t, i);
            assert(acct_index(t, u) == i);
            assert(t[i].balance == nb);
        } else {
            assert(k != i);
            assert(s[k].user.0 == u);
            lemma_acct_index_is(s, k);
            lemma_acct_index_is(t, k);
            assert(t[k].balance == s[k].balance);
        }
    }
    assert(balances_of(t) =~= balances_of(s).insert(u0, nb as int));
}

/// An in-range position with a matching key is the position the view reads.
pub(crate) proof fn lemma_entry_index_is(s: Seq<BetEntry>, i: int)
    requires
        bets_unique(s),
        0 <= i < s.len(),
    ensures
        has_entry(s, s[i].user.0 as int, s[i].date as int),
        entry_index(s, s[i].user.0 as int, s[i].date as int) == i,
{
    let u = s[i].user.0 as int;
    let d = s[i].date as int;
    assert(has_entry(s, u, d));
    let j = entry_index(s, u, d);
    assert(0 <= j < s.len() && s[j].user.0 == u && s[j].date == d);
    if i < j {
        assert(!(s[i].user.0 == s[j].user.0 && s[i].date == s[j].date));
    } else if j < i {
        assert(!(s[j].user.0 == s[i].user.0 && s[j].date == s[i].date));
    }
}

/// Appending a fresh key adds exactly that record to the bets map.
pub(crate) proof fn lemma_bets_push(s: Seq<BetEntry>, user: UserId, date: i64, record: BetRecord)
    requires
        bets_unique(s),
        !has_entry(s, user.0 as int, date as int),
    ensures
        bets_unique(s.push(BetEntry { user, date, record })),
        bets_of(s.push(BetEntry { user, date, record })) == bets_of(s).insert(
            (user.0 as int, date as int),
            record,
        ),
{
    let t = s.push(BetEntry { user, date, record });
    let k0 = (user.0 as int, date as int);
    assert(forall|k: int| 0 <= k < s.len() ==> t[k] == s[k]);
    assert(t[s.len() as int].user == user && t[s.len() as int].date == date);
    assert forall|i: int, j: int| 0 <= i < j < t.len() implies !((#[trigger] t[i]).user.0
        == (#[trigger] t[j]).user.0 && t[i].date == t[j].date) by {
        if j < s.len() {
            assert(!(s[i].user.0 == s[j].user.0 && s[i].date == s[j].date));
        } else {
            assert(t[j].user.0 == user.0 && t[j].date == date);
            assert(has_entry(s, s[i].user.0 as int, s[i].date as int)) by {
                assert(0 <= i < s.len());
            }
        }
    }
    assert forall|k: (int, int)| #![auto] bets_of(t).dom().contains(k) == bets_of(s).insert(
        k0,
        record,
    ).dom().contains(k) by {
        if k == k0 {
            assert(has_entry(t, k.0, k.1)) by {
                assert(t[s.len() as int].user.0 == k.0 && t[s.len() as int].date == k.1);
            }
        } else {
            if has_entry(s, k.0, k.1) {
                let p = entry_index(s, k.0, k.1);
                assert(t[p].user.0 == k.0 && t[p].date == k.1);
                assert(has_entry(t, k.0, k.1));
            }
            if has_entry(t, k.0, k.1) {
                let p = entry_index(t, k.0, k.1);
                assert(p != s.len() as int);
                assert(s[p].user.0 == k.0 && s[p].date == k.1);
                assert(has_entry(s, k.0, k.1));
            }
        }
    }
    assert forall|k: (int, int)| bets_of(t).dom().contains(k) implies bets_of(t)[k] == bets_of(
        s,
    ).insert(k0, record)[k] by {
        let p = entry_index(t, k.0, k.1);
        assert(0 <= p < t.len() && t[p].user.0 == k.0 && t[p].date == k.1);
        if k == k0 {
            lemma_entry_index_is(t, s.len() as int);
        } else {
            assert(p < s.len());
            assert(s[p].user.0 == k.0 && s[p].date == k.1);
            lemma_entry_index_is(s, p);
            assert(entry_index(s, k.0, k.1) == p);
            assert(t[p].record == s[p].record);
        }
    }
    assert(bets_of(t) =~= bets_of(s).insert(k0, record));
}

/// Replacing the record at one position updates exactly that key in the bets
/// map.
pub(crate) proof fn lemma_bets_update(s: Seq<BetEntry>, i: int, record: BetRecord)
    requires
        bets_unique(s),
        0 <= i < s.len(),
    ensures
        bets_unique(s.update(i, BetEntry { user: s[i].user, date: s[i].date, record })),
        bets_of(s.update(i, BetEntry { user: s[i].user, date: s[i].date, record })) == bets_of(
            s,
        ).insert((s[i].user.0 as int, s[i].date as int), record),
{
    let t = s.update(i, BetEntry { user: s[i].user, date: s[i].date, record });
    let k0 = (s[i].user.0 as int, s[i].date as int);
    assert(t.len() == s.len());
    assert(forall|k: int|
        0 <= k < t.len() ==> (#[trigger] t[k]).user == s[k].user && t[k].date == s[k].date);
    assert forall|p: int, q: int| 0 <= p < q < t.len() implies !((#[trigger] t[p]).user.0
        == (#[trigger] t[q]).user.0 && t[p].date == t[q].date) by {
        assert(!(s[p].user.0 == s[q].user.0 && s[p].date == s[q].date));
    }
    assert forall|k: (int, int)| #![auto] bets_of(t).dom().contains(k) == bets_of(s).insert(
        k0,
        record,
    ).dom().contains(k) by {
        if has_entry(s, k.0, k.1) {
            let p = entry_index(s, k.0, k.1);
            assert(t[p].user.0 == k.0 && t[p].date == k.1);
            assert(has_entry(t, k.0, k.1));
        }
        if has_entry(t, k.0, k.1) {
            let p = entry_index(t, k.0, k.1);
            assert(s[p].user.0 == k.0 && s[p].date == k.1);
            assert(has_entry(s, k.0, k.1));
        }
        assert(has_entry(s, k0.0, k0.1)) by {
            assert(s[i].user.0 == k0.0 && s[i].date == k0.1);
        }
    }
    assert forall|k: (int, int)| bets_of(t).dom().contains(k) implies bets_of(t)[k] == bets_of(
        s,
    ).insert(k0, record)[k] by {
        let p = entry_index(t, k.0, k.1);
        assert(0 <= p < t.len() && t[p].user.0 == k.0 && t[p].date == k.1);
        if k == k0 {
            lemma_entry_index_is(t, i);
            assert(entry_index(t, k.0, k.1) == i);
            assert(t[i].record == record);
        } else {
            assert(p != i);
            assert(s[p].user.0 == k.0 && s[p].date == k.1);
            lemma_entry_index_is(s, p);
            lemma_entry_index_is(t, p);
            assert(t[p].record == s[p].record);
        }
    }
    assert(bets_of(t) =~= bets_of(s).insert(k0, record));
}

} // verus!
