//! The laws of the game, proved once and for all over the store's
//! mathematical model. Every operation of the store requires a well-formed
//! state and ensures one, so what holds of every well-formed model holds of
//! every committed state.

use vstd::prelude::*;

use crate::bet::{outcome_spec, Bet, BetError, Payout, Weather};
use crate::settle::{claim_model, settle_model};
use crate::store::{is_ready, outstanding, place_model, StoreModel};

verus! {

/// The part of well-formedness that money rests on: no committed balance is
/// negative, and every stored record is internally consistent — in
/// particular its locked payout components are non-negative. A well-formed
/// store model satisfies it outright.
pub open spec fn model_sound(m: StoreModel) -> bool {
    &&& forall|u: int| #[trigger] m.balances.dom().contains(u) ==> m.balances[u] >= 0
    &&& forall|k: (int, int)| #[trigger] m.bets.dom().contains(k) ==> m.bets[k].valid()
}

/// A committed balance is never negative: soundness pins every balance at or
/// above zero, and the lemmas below show every placement, settlement and
/// claim pass preserves soundness — so it holds after any sequence of them.
pub proof fn lemma_balance_never_negative(m: StoreModel, u: int)
    requires
        model_sound(m),
        m.balances.dom().contains(u),
    ensures
        m.balances[u] >= 0,
{
}

/// A placement preserves soundness: the transactional write commits only a
/// non-negative balance, and the record it stores is fresh and within
/// bounds.
pub proof fn lemma_place_preserves_sound(
    m: StoreModel,
    u: int,
    d: int,
    bet: Bet,
    payout: Payout,
    today: int,
)
    requires
        model_sound(m),
        bet.in_bounds(),
        payout.valid(),
    ensures
        model_sound(place_model(m, u, d, bet, payout, today).0),
{
}

/// A settlement preserves soundness: the credit is a sum of non-negative
/// locked components, and the settled record stays consistent.
pub proof fn lemma_settle_preserves_sound(m: StoreModel, u: int, d: int, w: Weather)
    requires
        model_sound(m),
        m.balances.dom().contains(u),
    ensures
        model_sound(settle_model(m, u, d, w).0),
        settle_model(m, u, d, w).0.balances.dom().contains(u),
{
    if m.bets.dom().contains((u, d)) && m.bets[(u, d)].outcome is None {
        let rec = m.bets[(u, d)];
        assert(rec.valid());
        assert(outcome_spec(rec, w).payout >= 0);
    }
}

/// A whole claim pass preserves soundness.
pub proof fn lemma_claim_preserves_sound(
    m: StoreModel,
    u: int,
    reports: Seq<(i64, Option<Weather>)>,
    now: int,
)
    requires
        model_sound(m),
        m.balances.dom().contains(u),
    ensures
        model_sound(claim_model(m, u, reports, now)),
    decreases reports.len(),
{
    if reports.len() > 0 {
        let d = reports[0].0 as int;
        let m1 = if reports[0].1 is Some && is_ready(m, u, d, now) {
            settle_model(m, u, d, reports[0].1->0).0
        } else {
            m
        };
        lemma_settle_preserves_sound(m, u, d, if reports[0].1 is Some {
            reports[0].1->0
        } else {
            Weather { temperature: 0, rain: false }
        });
        lemma_claim_preserves_sound(m1, u, reports.skip(1), now);
    }
}

/// A bet on the current local day always fails with `CannotBetToday`,
/// whatever the rest of the state holds, and the state is untouched.
pub proof fn lemma_no_same_day_bets(m: StoreModel, u: int, bet: Bet, payout: Payout, today: int)
    ensures
        place_model(m, u, today, bet, payout, today) == (
            m,
            Err::<(), BetError>(BetError::CannotBetToday),
        ),
{
}

/// Replacing a bet refunds the old wager before deducting the new one:
/// placing wager `W1` on a fresh date and then replacing it with `W2` leaves
/// the balance exactly `W2` below where it started — the first wager came
/// back in full, so the two placements never stack.
pub proof fn lemma_replacement_refund(
    m: StoreModel,
    u: int,
    d: int,
    b1: Bet,
    p1: Payout,
    b2: Bet,
    p2: Payout,
    today: int,
)
    requires
        m.balances.dom().contains(u),
        !m.bets.dom().contains((u, d)),
    ensures
        ({
            let (m1, r1) = place_model(m, u, d, b1, p1, today);
            let (m2, r2) = place_model(m1, u, d, b2, p2, today);
            r1 is Ok && r2 is Ok ==> {
                &&& m1.balances[u] == m.balances[u] - b1.wager
                &&& m2.balances[u] == m.balances[u] - b2.wager
            }
        }),
{
}

/// Settling a date whose outcome is already recorded is a no-op: the state
/// comes back unchanged — in particular no balance moves — and the duplicate
/// is reported as a conflict.
pub proof fn lemma_idempotent_replay(m: StoreModel, u: int, d: int, w: Weather)
    requires
        m.bets.dom().contains((u, d)),
        m.bets[(u, d)].outcome is Some,
    ensures
        settle_model(m, u, d, w) == (m, Err::<(), BetError>(BetError::SettlementConflict)),
{
}

/// A claim pass never adds or removes bets; it only fills in outcomes.
proof fn lemma_claim_preserves_keys(
    m: StoreModel,
    u: int,
    reports: Seq<(i64, Option<Weather>)>,
    now: int,
)
    ensures
        claim_model(m, u, reports, now).bets.dom() == m.bets.dom(),
    decreases reports.len(),
{
    if reports.len() == 0 {
    } else {
        let d = reports[0].0 as int;
        let m1 = if reports[0].1 is Some && is_ready(m, u, d, now) {
            settle_model(m, u, d, reports[0].1->0).0
        } else {
            m
        };
        assert(m1.bets.dom() =~= m.bets.dom());
        lemma_claim_preserves_keys(m1, u, reports.skip(1), now);
    }
}

/// Once a date is settled, no claim pass touches its record again.
proof fn lemma_claim_preserves_settled(
    m: StoreModel,
    u: int,
    reports: Seq<(i64, Option<Weather>)>,
    now: int,
    d: int,
)
    requires
        m.bets.dom().contains((u, d)),
        m.bets[(u, d)].outcome is Some,
    ensures
        claim_model(m, u, reports, now).bets.dom().contains((u, d)),
        claim_model(m, u, reports, now).bets[(u, d)] == m.bets[(u, d)],
    decreases reports.len(),
{
    if reports.len() == 0 {
    } else {
        let d0 = reports[0].0 as int;
        let m1 = if reports[0].1 is Some && is_ready(m, u, d0, now) {
            settle_model(m, u, d0, reports[0].1->0).0
        } else {
            m
        };
        assert(m1.bets.dom().contains((u, d)) && m1.bets[(u, d)] == m.bets[(u, d)]) by {
            if reports[0].1 is Some && is_ready(m, u, d0, now) {
                assert(d0 != d);
            }
        }
        lemma_claim_preserves_settled(m1, u, reports.skip(1), now, d);
    }
}

/// After one claim pass, no date that came with weather in hand is still
/// ready: it was either settled by the pass or was never ready at all.
proof fn lemma_claim_settles_reported(
    m: StoreModel,
    u: int,
    reports: Seq<(i64, Option<Weather>)>,
    now: int,
)
    ensures
        forall|i: int|
            0 <= i < reports.len() && (#[trigger] reports[i]).1 is Some ==> !is_ready(
                claim_model(m, u, reports, now),
                u,
                reports[i].0 as int,
                now,
            ),
    decreases reports.len(),
{
    if reports.len() == 0 {
    } else {
        let d0 = reports[0].0 as int;
        let settled_now = reports[0].1 is Some && is_ready(m, u, d0, now);
        let m1 = if settled_now {
            settle_model(m, u, d0, reports[0].1->0).0
        } else {
            m
        };
        lemma_claim_settles_reported(m1, u, reports.skip(1), now);
        let post = claim_model(m, u, reports, now);
        assert(post == claim_model(m1, u, reports.skip(1), now));
        assert forall|i: int| 0 <= i < reports.len() && (#[trigger] reports[i]).1 is Some implies
            !is_ready(post, u, reports[i].0 as int, now) by {
            if i == 0 {
                if settled_now {
                    assert(m1.bets.dom().contains((u, d0)));
                    assert(m1.bets[(u, d0)].outcome is Some);
                    lemma_claim_preserves_settled(m1, u, reports.skip(1), now, d0);
                } else {
                    if !m.bets.dom().contains((u, d0)) {
                        lemma_claim_preserves_keys(m1, u, reports.skip(1), now);
                    } else if m.bets[(u, d0)].outcome is Some {
                        lemma_claim_preserves_settled(m1, u, reports.skip(1), now, d0);
                    }
                }
            } else {
                assert(reports.skip(1)[i - 1] == reports[i]);
            }
        }
    }
}

/// A claim pass over reports none of which is ready changes nothing.
proof fn lemma_claim_noop(m: StoreModel, u: int, reports: Seq<(i64, Option<Weather>)>, now: int)
    requires
        forall|i: int|
            0 <= i < reports.len() && (#[trigger] reports[i]).1 is Some ==> !is_ready(
                m,
                u,
                reports[i].0 as int,
                now,
            ),
    ensures
        claim_model(m, u, reports, now) == m,
    decreases reports.len(),
{
    if reports.len() == 0 {
    } else {
        assert(reports[0].1 is Some ==> !is_ready(m, u, reports[0].0 as int, now));
        assert forall|i: int|
            0 <= i < reports.skip(1).len() && (#[trigger] reports.skip(1)[i]).1 is Some implies
            !is_ready(m, u, reports.skip(1)[i].0 as int, now) by {
            assert(reports.skip(1)[i] == reports[i + 1]);
        }
        lemma_claim_noop(m, u, reports.skip(1), now);
    }
}

/// Running a claim pass twice with the same reports credits each date at
/// most once: the second pass finds every reported date either settled or
/// still lacking weather, and changes nothing — balances included.
pub proof fn lemma_claim_at_most_once(
    m: StoreModel,
    u: int,
    reports: Seq<(i64, Option<Weather>)>,
    now: int,
)
    ensures
        claim_model(claim_model(m, u, reports, now), u, reports, now) == claim_model(
            m,
            u,
            reports,
            now,
        ),
{
    let post = claim_model(m, u, reports, now);
    lemma_claim_settles_reported(m, u, reports, now);
    lemma_claim_noop(post, u, reports, now);
}

/// Deferral, not failure: a ready date whose weather is unavailable — every
/// report for it lacks weather — comes through a claim pass untouched: no
/// outcome is recorded and the date is still outstanding, to be retried on a
/// later pass.
pub proof fn lemma_deferral(
    m: StoreModel,
    u: int,
    reports: Seq<(i64, Option<Weather>)>,
    now: int,
    d: int,
)
    requires
        forall|i: int|
            0 <= i < reports.len() && (#[trigger] reports[i]).0 == d ==> reports[i].1 is None,
        m.bets.dom().contains((u, d)),
        m.bets[(u, d)].outcome is None,
    ensures
        ({
            let post = claim_model(m, u, reports, now);
            &&& post.bets.dom().contains((u, d))
            &&& post.bets[(u, d)] == m.bets[(u, d)]
            &&& outstanding(post, u).contains(d)
        }),
    decreases reports.len(),
{
    if reports.len() == 0 {
    } else {
        let d0 = reports[0].0 as int;
        let m1 = if reports[0].1 is Some && is_ready(m, u, d0, now) {
            settle_model(m, u, d0, reports[0].1->0).0
        } else {
            m
        };
        assert(m1.bets.dom().contains((u, d)) && m1.bets[(u, d)] == m.bets[(u, d)]) by {
            if reports[0].1 is Some && is_ready(m, u, d0, now) {
                assert(reports[0].0 as int == d ==> reports[0].1 is None);
                assert(d0 != d);
            }
        }
        assert forall|i: int|
            0 <= i < reports.skip(1).len() && (#[trigger] reports.skip(1)[i]).0 == d implies
            reports.skip(1)[i].1 is None by {
            assert(reports.skip(1)[i] == reports[i + 1]);
        }
        lemma_deferral(m1, u, reports.skip(1), now, d);
    }
}

} // verus!
