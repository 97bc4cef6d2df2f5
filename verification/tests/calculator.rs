//! The payout calculator on exact values. Multipliers are in thousandths,
//! money in cents, temperatures in hundredths of a degree.

use cloud_casino::bet::{Bet, BetError, Payout};
use cloud_casino::weather::{Forecast, WeatherCode};

fn forecast(min: i64, max: i64) -> Forecast {
    Forecast {
        rain: 300,
        minimum_temperature: min,
        maximum_temperature: max,
        weather_code: WeatherCode::Cloud,
    }
}

fn bet(range: i64, wager: i64) -> Bet {
    Bet { temperature: 1500, range, rain: false, wager }
}

#[test]
fn rain_multiplier_is_day_bonus_plus_base() {
    // Five days ahead: 5 * 0.2 + 0.75 = 1.75.
    assert_eq!(Payout::rain_multiplier(738005, 738000), 1750);
    // One day ahead: 0.2 + 0.75 = 0.95.
    assert_eq!(Payout::rain_multiplier(738001, 738000), 950);
}

#[test]
fn temperature_multiplier_rewards_narrow_ranges() {
    // Range 2.0 over a spread of 10.0: x = 1 - 0.2 = 0.8, shaped 0.8^3 =
    // 0.512, so the multiplier is 1.0 (day bonus) + 0.512 * 5 = 3.56.
    let m = Payout::temperature_multiplier(738005, 738000, &bet(200, 10000), &forecast(1000, 2000));
    assert_eq!(m, Ok(3560));

    // A wider guess earns less: range 5.0 gives x = 0.5, shaped 0.125,
    // multiplier 1.0 + 0.625 = 1.625.
    let wide = Payout::temperature_multiplier(
        738005,
        738000,
        &bet(500, 10000),
        &forecast(1000, 2000),
    );
    assert_eq!(wide, Ok(1625));

    // A guess wider than the whole spread is clamped to the day bonus alone.
    let widest = Payout::temperature_multiplier(
        738005,
        738000,
        &bet(2000, 10000),
        &forecast(1000, 2000),
    );
    assert_eq!(widest, Ok(1000));
}

#[test]
fn empty_spread_is_an_invalid_forecast() {
    let m = Payout::temperature_multiplier(738005, 738000, &bet(200, 10000), &forecast(2000, 2000));
    assert_eq!(m, Err(BetError::InvalidForecast));
    let p = Payout::max_payout(&bet(200, 10000), 738005, &forecast(2000, 1000), 738000);
    assert_eq!(p, Err(BetError::InvalidForecast));
}

#[test]
fn max_payout_applies_multipliers_to_the_wager() {
    // Wager 100.00, five days ahead, range 2.0 over spread 10.0:
    // rain 1.75 * 100.00 = 175.00, temperature 3.56 * 100.00 = 356.00.
    let p = Payout::max_payout(&bet(200, 10000), 738005, &forecast(1000, 2000), 738000).unwrap();
    assert_eq!(p.rain, 17500);
    assert_eq!(p.temperature, 35600);
    assert_eq!(p.total(), 53100);
}

#[test]
fn zero_wager_locks_zero_payout() {
    let p = Payout::max_payout(&bet(200, 0), 738005, &forecast(1000, 2000), 738000).unwrap();
    assert_eq!(p.rain, 0);
    assert_eq!(p.temperature, 0);
    assert_eq!(p.total(), 0);
}
