//! The bet lifecycle end to end: placement, replacement, settlement and the
//! idempotence of the claim pass. Money is in cents, temperatures in
//! hundredths of a degree.

use cloud_casino::bet::{Bet, BetError, Payout, Weather};
use cloud_casino::store::Store;
use cloud_casino::user::UserId;

const USER: UserId = UserId(1);
const TODAY: i64 = 738000;
const DATE: i64 = 738005;

fn sample_bet() -> Bet {
    Bet { temperature: 2000, range: 200, rain: false, wager: 10000 }
}

fn sample_payout() -> Payout {
    Payout { rain: 8750, temperature: 15000 }
}

fn store_with_balance(balance: i64) -> Store {
    let mut store = Store::new();
    store.create_account(USER, balance);
    store
}

#[test]
fn settlement_pays_both_components() {
    // Bet 20.0 +/- 2.0 degrees, no rain, wager 100.00; locked payout
    // {rain: 87.50, temperature: 150.00}. Observed 21.0 degrees and no rain:
    // both guesses right, so the payout is 87.50 + 150.00 = 237.50.
    let mut store = store_with_balance(10000);
    assert!(store.place(USER, DATE, sample_bet(), sample_payout(), TODAY).is_ok());
    assert_eq!(store.get_balance(USER), 0);

    let observed = Weather { temperature: 2100, rain: false };
    assert!(store.settle_date(USER, DATE, observed).is_ok());
    assert_eq!(store.get_balance(USER), 23750);

    let record = store.find_bet(USER, DATE).unwrap();
    let outcome = record.outcome.unwrap();
    assert!(outcome.rain);
    assert!(outcome.temperature);
    assert_eq!(outcome.payout, 23750);
}

#[test]
fn settlement_pays_nothing_when_both_wrong() {
    // Same bet, observed 25.0 degrees and rain: both guesses wrong, payout 0,
    // balance unchanged.
    let mut store = store_with_balance(10000);
    assert!(store.place(USER, DATE, sample_bet(), sample_payout(), TODAY).is_ok());
    assert_eq!(store.get_balance(USER), 0);

    let observed = Weather { temperature: 2500, rain: true };
    assert!(store.settle_date(USER, DATE, observed).is_ok());
    assert_eq!(store.get_balance(USER), 0);

    let outcome = store.find_bet(USER, DATE).unwrap().outcome.unwrap();
    assert!(!outcome.rain);
    assert!(!outcome.temperature);
    assert_eq!(outcome.payout, 0);
}

#[test]
fn settlement_pays_one_component() {
    // Temperature right, rain wrong: only the temperature component is paid.
    let mut store = store_with_balance(10000);
    assert!(store.place(USER, DATE, sample_bet(), sample_payout(), TODAY).is_ok());

    let observed = Weather { temperature: 1900, rain: true };
    assert!(store.settle_date(USER, DATE, observed).is_ok());
    assert_eq!(store.get_balance(USER), 15000);
}

#[test]
fn cannot_bet_today() {
    let mut store = store_with_balance(10000);
    let result = store.place(USER, TODAY, sample_bet(), sample_payout(), TODAY);
    assert_eq!(result, Err(BetError::CannotBetToday));
    assert_eq!(store.get_balance(USER), 10000);
    assert!(store.find_bet(USER, TODAY).is_none());
}

#[test]
fn negative_wager_is_rejected() {
    let mut store = store_with_balance(10000);
    let bet = Bet { wager: -1, ..sample_bet() };
    let result = store.place(USER, DATE, bet, sample_payout(), TODAY);
    assert_eq!(result, Err(BetError::NegativeWager));
    assert_eq!(store.get_balance(USER), 10000);
}

#[test]
fn insufficient_funds_rolls_back() {
    let mut store = store_with_balance(5000);
    let result = store.place(USER, DATE, sample_bet(), sample_payout(), TODAY);
    assert_eq!(result, Err(BetError::InsufficientFunds));
    assert_eq!(store.get_balance(USER), 5000);
    assert!(store.find_bet(USER, DATE).is_none());
}

#[test]
fn replacement_refunds_previous_wager() {
    // Place wager 60.00, replace it with 25.00: relative to the starting
    // balance the account is down exactly the second wager.
    let mut store = store_with_balance(10000);
    let first = Bet { wager: 6000, ..sample_bet() };
    let second = Bet { wager: 2500, ..sample_bet() };
    assert!(store.place(USER, DATE, first, sample_payout(), TODAY).is_ok());
    assert_eq!(store.get_balance(USER), 4000);
    assert!(store.place(USER, DATE, second, sample_payout(), TODAY).is_ok());
    assert_eq!(store.get_balance(USER), 7500);
    assert_eq!(store.find_bet(USER, DATE).unwrap().bet.wager, 2500);
}

#[test]
fn settled_day_cannot_be_rewagered() {
    let mut store = store_with_balance(10000);
    assert!(store.place(USER, DATE, sample_bet(), sample_payout(), TODAY).is_ok());
    let observed = Weather { temperature: 2100, rain: false };
    assert!(store.settle_date(USER, DATE, observed).is_ok());

    let result = store.place(USER, DATE, sample_bet(), sample_payout(), TODAY);
    assert_eq!(result, Err(BetError::AlreadySettled));
}

#[test]
fn duplicate_settlement_is_a_conflict_no_op() {
    let mut store = store_with_balance(10000);
    assert!(store.place(USER, DATE, sample_bet(), sample_payout(), TODAY).is_ok());
    let observed = Weather { temperature: 2100, rain: false };
    assert!(store.settle_date(USER, DATE, observed).is_ok());
    assert_eq!(store.get_balance(USER), 23750);

    // Replaying settlement, even with different weather, changes nothing.
    let other = Weather { temperature: 0, rain: true };
    assert_eq!(store.settle_date(USER, DATE, other), Err(BetError::SettlementConflict));
    assert_eq!(store.get_balance(USER), 23750);
    let outcome = store.find_bet(USER, DATE).unwrap().outcome.unwrap();
    assert_eq!(outcome.payout, 23750);
}

#[test]
fn claim_pass_credits_each_date_once() {
    let now = TODAY + 10;
    let mut store = store_with_balance(20000);
    let date_b = DATE + 1;
    assert!(store.place(USER, DATE, sample_bet(), sample_payout(), TODAY).is_ok());
    assert!(store.place(USER, date_b, sample_bet(), sample_payout(), TODAY).is_ok());
    assert_eq!(store.get_balance(USER), 0);

    let observed = Weather { temperature: 2100, rain: false };
    let reports = vec![(DATE, Some(observed)), (date_b, Some(observed))];
    store.payout(USER, &reports, now);
    assert_eq!(store.get_balance(USER), 47500);

    // A second pass with the same reports is a no-op.
    store.payout(USER, &reports, now);
    assert_eq!(store.get_balance(USER), 47500);
}

#[test]
fn unavailable_weather_defers_the_date() {
    let now = TODAY + 10;
    let mut store = store_with_balance(20000);
    let date_b = DATE + 1;
    assert!(store.place(USER, DATE, sample_bet(), sample_payout(), TODAY).is_ok());
    assert!(store.place(USER, date_b, sample_bet(), sample_payout(), TODAY).is_ok());

    let observed = Weather { temperature: 2100, rain: false };
    let reports = vec![(DATE, None), (date_b, Some(observed))];
    store.payout(USER, &reports, now);

    // The date without weather keeps no outcome and stays ready for later.
    assert!(store.find_bet(USER, DATE).unwrap().outcome.is_none());
    assert_eq!(store.count_ready(USER, now), 1);
    assert_eq!(store.get_balance(USER), 23750);

    // Once weather arrives, a later pass settles it.
    let reports = vec![(DATE, Some(observed))];
    store.payout(USER, &reports, now);
    assert_eq!(store.get_balance(USER), 47500);
    assert_eq!(store.count_ready(USER, now), 0);
}

#[test]
fn future_dates_are_not_ready() {
    let now = TODAY + 10;
    let mut store = store_with_balance(20000);
    let future = now + 5;
    assert!(store.place(USER, DATE, sample_bet(), sample_payout(), TODAY).is_ok());
    assert!(store.place(USER, future, sample_bet(), sample_payout(), TODAY).is_ok());

    let ready = store.ready_bets(USER, now);
    assert_eq!(ready.len(), 1);
    assert_eq!(ready[0].0, DATE);

    // A report for a date that has not elapsed is ignored by the claim pass.
    let observed = Weather { temperature: 2100, rain: false };
    store.payout(USER, &vec![(future, Some(observed))], now);
    assert!(store.find_bet(USER, future).unwrap().outcome.is_none());
}

#[test]
fn get_ready_previews_without_crediting() {
    let now = TODAY + 10;
    let mut store = store_with_balance(10000);
    assert!(store.place(USER, DATE, sample_bet(), sample_payout(), TODAY).is_ok());

    let observed = Weather { temperature: 2100, rain: false };
    let reports = vec![(DATE, Some(observed))];
    let preview = store.get_ready(USER, &reports, now);
    assert_eq!(preview.len(), 1);
    assert_eq!(preview[0].0, DATE);
    assert_eq!(preview[0].1.payout, 23750);

    // Nothing was credited and the date is still outstanding.
    assert_eq!(store.get_balance(USER), 0);
    assert!(store.find_bet(USER, DATE).unwrap().outcome.is_none());

    // A date without weather is absent from the preview.
    let preview = store.get_ready(USER, &vec![(DATE, None)], now);
    assert!(preview.is_empty());
}

#[test]
fn place_bet_consults_the_local_calendar() {
    // `place_bet` reads the wall clock itself, so the test cannot know which
    // day is "today"; whatever it is, the store must either accept the bet
    // or refuse it as today's, and the record must match the decision.
    let mut store = store_with_balance(10000);
    let date: i64 = 739000;
    match store.place_bet(USER, date, sample_bet(), sample_payout()) {
        Ok(()) => {
            assert_eq!(store.get_balance(USER), 0);
            assert_eq!(store.find_bet(USER, date).unwrap().bet, sample_bet());
        }
        Err(e) => {
            assert_eq!(e, BetError::CannotBetToday);
            assert_eq!(store.get_balance(USER), 10000);
            assert!(store.find_bet(USER, date).is_none());
        }
    }
}

#[test]
fn adjust_refuses_negative_balance() {
    let mut store = store_with_balance(1000);
    assert_eq!(store.adjust(USER, -1500), Err(BetError::InsufficientFunds));
    assert_eq!(store.get_balance(USER), 1000);
    assert_eq!(store.adjust(USER, -1000), Ok(0));
    assert_eq!(store.adjust(USER, 250), Ok(250));
}

#[test]
fn accounts_are_per_user() {
    let other = UserId(2);
    let mut store = store_with_balance(10000);
    store.create_account(other, 500);
    assert!(store.has_account(USER));
    assert!(store.has_account(other));
    assert!(!store.has_account(UserId(3)));

    assert!(store.place(USER, DATE, sample_bet(), sample_payout(), TODAY).is_ok());
    assert_eq!(store.get_balance(USER), 0);
    assert_eq!(store.get_balance(other), 500);
    assert!(store.find_bet(other, DATE).is_none());
}
