//! The game's local calendar. Dates are day numbers (days since the common
//! era), so date arithmetic is plain integer arithmetic; only reading the
//! wall clock needs the outside world.

use chrono::Datelike;
use vstd::prelude::*;

use crate::bet::{Bet, BetError, Payout, MAX_BALANCE, MAX_MONEY};
use crate::store::{place_model, Store};
use crate::user::UserId;

verus! {

/// Relies on chrono's `Utc::now` and chrono-tz's `Australia/Melbourne` table:
/// the current date of the game's local calendar, as a day number. The result
/// depends on the wall clock, so nothing is promised of it; verified code
/// takes the returned day as an argument and holds for every value of it.
#[verifier::external_body]
pub fn local_today() -> i64 {
    let now = chrono::Utc::now().with_timezone(&chrono_tz::Tz::Australia__Melbourne);
    now.date_naive().num_days_from_ce() as i64
}

impl Store {
    /// Place a bet against the clock's current local day: whatever day the
    /// clock reports, the store moves by exactly one placement step for that
    /// day. Callers that need the day pinned down pass it to `place`
    /// themselves.
    pub fn place_bet(&mut self, user: UserId, date: i64, bet: Bet, payout: Payout) -> (r: Result<
        (),
        BetError,
    >)
        requires
            old(self).wf(),
            old(self)@.balances.dom().contains(user.0 as int),
            bet.in_bounds(),
            payout.valid(),
            old(self)@.balances[user.0 as int] + MAX_MONEY <= MAX_BALANCE,
        ensures
            final(self).wf(),
            exists|today: int|
                final(self)@ == place_model(
                    old(self)@,
                    user.0 as int,
                    date as int,
                    bet,
                    payout,
                    today,
                ).0 && r == place_model(
                    old(self)@,
                    user.0 as int,
                    date as int,
                    bet,
                    payout,
                    today,
                ).1,
    {
        let today = local_today();
        let r = self.place(user, date, bet, payout, today);
        proof {
            let t = today as int;
            assert(self@ == place_model(old(self)@, user.0 as int, date as int, bet, payout, t).0
                && r == place_model(old(self)@, user.0 as int, date as int, bet, payout, t).1);
        }
        r
    }
}

} // verus!
