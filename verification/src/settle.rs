//! The settlement engine: evaluate ready bets against observed weather and
//! credit each payout exactly once. The caller fetches weather reports (one
//! optional report per date; absence means "not yet archived") and hands them
//! in as plain values; every decision from there on is made here.

use vstd::prelude::*;

use crate::bet::{outcome_spec, BetError, BetOutcome, Weather, MAX_BALANCE, MAX_PAYOUT};
use crate::store::{is_ready, record_model, Store, StoreModel};
use crate::user::UserId;

verus! {

/// What settling (u, d) against observed weather does: the recorded outcome
/// is the one the weather implies, and it is recorded only where none
/// exists yet.
pub open spec fn settle_model(m: StoreModel, u: int, d: int, w: Weather) -> (
    StoreModel,
    Result<(), BetError>,
) {
    record_model(m, u, d, outcome_spec(m.bets[(u, d)], w))
}

/// One claim pass over a sequence of (date, optional weather) reports:
/// each report with weather in hand whose date is ready is settled; a date
/// without weather is left untouched, to be retried on a later pass.
pub open spec fn claim_model(
    m: StoreModel,
    u: int,
    reports: Seq<(i64, Option<Weather>)>,
    now: int,
) -> StoreModel
    decreases reports.len(),
{
    if reports.len() == 0 {
        m
    } else {
        let d = reports[0].0 as int;
        let m1 = if reports[0].1 is Some && is_ready(m, u, d, now) {
            settle_model(m, u, d, reports[0].1->0).0
        } else {
            m
        };
        claim_model(m1, u, reports.skip(1), now)
    }
}

/// The first weather report at hand for `d`, if any.
pub open spec fn report_for(reports: Seq<(i64, Option<Weather>)>, d: i64) -> Option<Weather>
    decreases reports.len(),
{
    if reports.len() == 0 {
        None
    } else if reports[0].0 == d && reports[0].1 is Some {
        reports[0].1
    } else {
        report_for(reports.skip(1), d)
    }
}

impl Store {
    /// Settle the bet of `user` on `date` against the observed weather:
    /// record the outcome and credit the payout in one atomic step. If an
    /// outcome already exists — or there is no bet — nothing changes and the
    /// conflict is reported, so a duplicate settlement can never credit
    /// twice.
    pub fn settle_date(&mut self, user: UserId, date: i64, weather: Weather) -> (r: Result<
        (),
        BetError,
    >)
        requires
            old(self).wf(),
            old(self)@.balances.dom().contains(user.0 as int),
            weather.valid(),
            old(self)@.balances[user.0 as int] + 2 * MAX_PAYOUT <= MAX_BALANCE,
        ensures
            final(self).wf(),
            ({
                let (m2, res) = settle_model(old(self)@, user.0 as int, date as int, weather);
                final(self)@ == m2 && r == res
            }),
    {
        let rec = match self.find_bet(user, date) {
            Some(rec) => rec,
            None => {
                return Err(BetError::SettlementConflict);
            },
        };
        if rec.outcome.is_some() {
            return Err(BetError::SettlementConflict);
        }

        proof {
            self.lemma_wf_model();
            assert(rec.valid());
        }
        let o = rec.outcome(&weather);
        self.record_payout(user, date, o)
    }

    /// Pay out every ready bet whose weather report is at hand: the claim
    /// entry point. Reports without weather defer their date to a later
    /// pass; already-settled dates are left untouched, so running this twice
    /// with the same reports credits each date at most once.
    pub fn payout(&mut self, user: UserId, reports: &Vec<(i64, Option<Weather>)>, now: i64)
        requires
            old(self).wf(),
            old(self)@.balances.dom().contains(user.0 as int),
            forall|i: int|
                0 <= i < reports@.len() && (#[trigger] reports@[i]).1 is Some
                    ==> reports@[i].1->0.valid(),
            old(self)@.balances[user.0 as int] + reports@.len() * (2 * MAX_PAYOUT) <= MAX_BALANCE,
        ensures
            final(self).wf(),
            final(self)@ == claim_model(old(self)@, user.0 as int, reports@, now as int),
    {
        let ghost u = user.0 as int;
        let ghost target = claim_model(old(self)@, u, reports@, now as int);
        let n = reports.len();
        proof {
            assert(reports@.skip(0) =~= reports@);
        }
        let mut i: usize = 0;
        while i < n
            invariant
                self.wf(),
                n == reports@.len(),
                i <= n,
                u == user.0 as int,
                self@.balances.dom().contains(u),
                forall|j: int|
                    0 <= j < reports@.len() && (#[trigger] reports@[j]).1 is Some
                        ==> reports@[j].1->0.valid(),
                self@.balances[u] + (n - i) * (2 * MAX_PAYOUT) <= MAX_BALANCE,
                claim_model(self@, u, reports@.skip(i as int), now as int) == target,
            decreases n - i,
        {
            let ghost m_pre = self@;
            let date = reports[i].0;
            let maybe_w = reports[i].1;
            proof {
                assert(reports@.skip(i as int)[0] == reports@[i as int]);
                assert(reports@.skip(i as int).skip(1) =~= reports@.skip(i as int + 1));
            }
            if let Some(w) = maybe_w {
                let ready = if date < now {
                    match self.find_bet(user, date) {
                        Some(rec) => rec.outcome.is_none(),
                        None => false,
                    }
                } else {
                    false
                };
                proof {
                    assert(ready == is_ready(m_pre, u, date as int, now as int));
                }
                if ready {
                    proof {
                        self.lemma_wf_model();
                        assert(m_pre.bets[(u, date as int)].valid());
                        assert(outcome_spec(m_pre.bets[(u, date as int)], w).payout <= 2
                            * MAX_PAYOUT);
                        assert((n - i) * (2 * MAX_PAYOUT) >= 1 * (2 * MAX_PAYOUT))
                            by (nonlinear_arith)
                            requires
                                n - i >= 1,
                                2 * MAX_PAYOUT >= 0,
                        ;
                    }
                    // A ready date has no outcome yet, so this cannot
                    // conflict; the loop needs only the state change.
                    let _ = self.settle_date(user, date, w);
                    proof {
                        assert(self@ == settle_model(m_pre, u, date as int, w).0);
                        assert(self@.balances == m_pre.balances.insert(
                            u,
                            m_pre.balances[u] + outcome_spec(m_pre.bets[(u, date as int)], w).payout,
                        ));
                        assert(self@.balances.dom().contains(u));
                        assert(self@.balances[u] <= m_pre.balances[u] + 2 * MAX_PAYOUT);
                    }
                }
            }
            proof {
                assert((n - i) * (2 * MAX_PAYOUT) == (n - i - 1) * (2 * MAX_PAYOUT) + 1 * (2
                    * MAX_PAYOUT)) by (nonlinear_arith);
                assert(claim_model(self@, u, reports@.skip(i as int + 1), now as int) == target);
            }
            i = i + 1;
        }
        proof {
            assert(reports@.skip(n as int) =~= Seq::<(i64, Option<Weather>)>::empty());
            assert(claim_model(self@, u, reports@.skip(n as int), now as int) == self@);
        }
    }
}

/// The first weather report at hand for `date`, if any.
fn lookup_report(reports: &Vec<(i64, Option<Weather>)>, date: i64) -> (r: Option<Weather>)
    ensures
        r == report_for(reports@, date),
{
    let n = reports.len();
    proof {
        assert(reports@.skip(0) =~= reports@);
    }
    let mut i: usize = 0;
    while i < n
        invariant
            n == reports@.len(),
            i <= n,
            report_for(reports@.skip(i as int), date) == report_for(reports@, date),
        decreases n - i,
    {
        proof {
            assert(reports@.skip(i as int)[0] == reports@[i as int]);
            assert(reports@.skip(i as int).skip(1) =~= reports@.skip(i as int + 1));
        }
        if reports[i].0 == date {
            if let Some(w) = reports[i].1 {
                return Some(w);
            }
        }
        i = i + 1;
    }
    proof {
        assert(reports@.skip(n as int) =~= Seq::<(i64, Option<Weather>)>::empty());
    }
    None
}

/// Every weather value a report sequence can yield is valid, provided each
/// report's weather is.
proof fn lemma_report_for_valid(reports: Seq<(i64, Option<Weather>)>, d: i64)
    requires
        forall|i: int|
            0 <= i < reports.len() && (#[trigger] reports[i]).1 is Some ==> reports[i].1->0.valid(),
    ensures
        report_for(reports, d) is Some ==> report_for(reports, d)->0.valid(),
    decreases reports.len(),
{
    if reports.len() == 0 {
    } else if reports[0].0 == d && reports[0].1 is Some {
        assert(reports[0].1->0.valid());
    } else {
        assert forall|i: int|
            0 <= i < reports.skip(1).len() && (#[trigger] reports.skip(1)[i]).1 is Some implies
            reports.skip(1)[i].1->0.valid() by {
            assert(reports.skip(1)[i] == reports[i + 1]);
        }
        lemma_report_for_valid(reports.skip(1), d);
    }
}

impl Store {
    /// Preview what is payable: the outcome of every ready bet whose weather
    /// report is at hand, computed without crediting anything. Dates without
    /// weather are simply absent.
    #[verifier::rlimit(80)]
    pub fn get_ready(&self, user: UserId, reports: &Vec<(i64, Option<Weather>)>, now: i64) -> (r:
        Vec<(i64, BetOutcome)>)
        requires
            self.wf(),
            forall|i: int|
                0 <= i < reports@.len() && (#[trigger] reports@[i]).1 is Some
                    ==> reports@[i].1->0.valid(),
        ensures
            forall|k: int|
                0 <= k < r@.len() ==> {
                    let d = (#[trigger] r@[k]).0 as int;
                    &&& is_ready(self@, user.0 as int, d, now as int)
                    &&& report_for(reports@, r@[k].0) is Some
                    &&& r@[k].1 == outcome_spec(
                        self@.bets[(user.0 as int, d)],
                        report_for(reports@, r@[k].0)->0,
                    )
                },
            forall|d: int|
                #[trigger] is_ready(self@, user.0 as int, d, now as int) && report_for(
                    reports@,
                    d as i64,
                ) is Some ==> exists|k: int| 0 <= k < r@.len() && (#[trigger] r@[k]).0 == d,
            forall|k1: int, k2: int| 0 <= k1 < k2 < r@.len() ==> (#[trigger] r@[k1]).0 != (
            #[trigger] r@[k2]).0,
    {
        let ghost u = user.0 as int;
        let ready = self.ready_bets(user, now);
        let n = ready.len();
        let mut r: Vec<(i64, BetOutcome)> = Vec::new();
        let mut i: usize = 0;
        while i < n
            invariant
                self.wf(),
                u == user.0 as int,
                n == ready@.len(),
                i <= n,
                forall|j: int|
                    0 <= j < reports@.len() && (#[trigger] reports@[j]).1 is Some
                        ==> reports@[j].1->0.valid(),
                forall|j: int|
                    0 <= j < ready@.len() ==> is_ready(
                        self@,
                        u,
                        (#[trigger] ready@[j]).0 as int,
                        now as int,
                    ) && ready@[j].1 == self@.bets[(u, ready@[j].0 as int)],
                forall|j1: int, j2: int| 0 <= j1 < j2 < ready@.len() ==> (#[trigger] ready@[j1]).0
                    != (#[trigger] ready@[j2]).0,
                forall|d: int|
                    #[trigger] is_ready(self@, u, d, now as int) ==> exists|j: int|
                        0 <= j < ready@.len() && (#[trigger] ready@[j]).0 == d,
                forall|k: int|
                    0 <= k < r@.len() ==> {
                        let d = (#[trigger] r@[k]).0 as int;
                        &&& is_ready(self@, u, d, now as int)
                        &&& report_for(reports@, r@[k].0) is Some
                        &&& r@[k].1 == outcome_spec(
                            self@.bets[(u, d)],
                            report_for(reports@, r@[k].0)->0,
                        )
                    },
                forall|j: int|
                    0 <= j < i && report_for(reports@, (#[trigger] ready@[j]).0) is Some
                        ==> exists|k: int| 0 <= k < r@.len() && (#[trigger] r@[k]).0 == ready@[j].0,
                forall|k: int|
                    0 <= k < r@.len() ==> exists|j: int|
                        0 <= j < i && (#[trigger] r@[k]).0 == (#[trigger] ready@[j]).0,
                forall|k1: int, k2: int| 0 <= k1 < k2 < r@.len() ==> (#[trigger] r@[k1]).0 != (
                #[trigger] r@[k2]).0,
            decreases n - i,
        {
            let date = ready[i].0;
            let rec = ready[i].1;
            if let Some(w) = lookup_report(reports, date) {
                proof {
                    self.lemma_wf_model();
                    assert(rec.valid());
                    lemma_report_for_valid(reports@, date);
                }
                let o = rec.outcome(&w);
                let ghost r_old = r@;
                r.push((date, o));
                proof {
                    assert forall|k: int| 0 <= k < r@.len() implies exists|j: int|
                        0 <= j < i + 1 && (#[trigger] r@[k]).0 == (#[trigger] ready@[j]).0 by {
                        if k < r@.len() - 1 {
                            assert(r@[k] == r_old[k]);
                            let j = choose|j: int|
                                0 <= j < i && (#[trigger] r_old[k]).0 == (#[trigger] ready@[j]).0;
                            assert(r@[k].0 == ready@[j].0);
                        } else {
                            assert(r@[k].0 == ready@[i as int].0);
                        }
                    }
                    assert forall|k: int| 0 <= k < r@.len() - 1 implies (#[trigger] r@[k]).0
                        != date by {
                        assert(r@[k] == r_old[k]);
                        let j = choose|j: int|
                            0 <= j < i && (#[trigger] r_old[k]).0 == (#[trigger] ready@[j]).0;
                        assert(ready@[j].0 != ready@[i as int].0);
                    }
                    assert forall|j: int|
                        0 <= j < i + 1 && report_for(reports@, (#[trigger] ready@[j]).0) is Some
                            implies exists|k: int| 0 <= k < r@.len() && (#[trigger] r@[k]).0
                            == ready@[j].0 by {
                        if j == i {
                            assert(r@[r@.len() - 1].0 == ready@[j].0);
                        } else {
                            let k = choose|k: int|
                                0 <= k < r_old.len() && (#[trigger] r_old[k]).0 == ready@[j].0;
                            assert(r@[k] == r_old[k]);
                            assert(0 <= k < r@.len() && r@[k].0 == ready@[j].0);
                        }
                    }
                }
            } else {
                proof {
                    assert forall|k: int| 0 <= k < r@.len() implies exists|j: int|
                        0 <= j < i + 1 && (#[trigger] r@[k]).0 == (#[trigger] ready@[j]).0 by {
                        let j = choose|j: int|
                            0 <= j < i && (#[trigger] r@[k]).0 == (#[trigger] ready@[j]).0;
                        assert(r@[k].0 == ready@[j].0);
                    }
                    assert forall|j: int|
                        0 <= j < i + 1 && report_for(reports@, (#[trigger] ready@[j]).0) is Some
                            implies exists|k: int| 0 <= k < r@.len() && (#[trigger] r@[k]).0
                            == ready@[j].0 by {
                        assert(j != i);
                    }
                }
            }
            i = i + 1;
        }
        proof {
            assert forall|d: int|
                #[trigger] is_ready(self@, u, d, now as int) && report_for(reports@, d as i64)
                    is Some implies exists|k: int| 0 <= k < r@.len() && (#[trigger] r@[k]).0
                == d by {
                let j = choose|j: int| 0 <= j < ready@.len() && (#[trigger] ready@[j]).0 == d;
                assert(ready@[j].0 as i64 == d as i64);
                assert(report_for(reports@, ready@[j].0) is Some);
            }
        }
        r
    }
}

} // verus!
