//! The gateway's compute side: rain thresholds, gap scans, and merging the
//! cached and fetched per-day lists.

use cloud_casino::bet::Weather;
use cloud_casino::form::{default_bet, variant_for, BetForm, BetFormVariant};
use cloud_casino::bet::Bet;
use cloud_casino::gateway::{
    fill_historical, first_missing_day, forecast_rain, merge_forecasts, observed_rain,
};
use cloud_casino::weather::{Forecast, WeatherCode};

fn fc(code: WeatherCode) -> Forecast {
    Forecast {
        rain: 100,
        minimum_temperature: 1000,
        maximum_temperature: 2000,
        weather_code: code,
    }
}

#[test]
fn rain_thresholds() {
    // A 5% chance of rain is the buffer; only more than that counts.
    assert!(!forecast_rain(50));
    assert!(forecast_rain(51));
    assert!(!forecast_rain(0));
    // Observed precipitation above 0.05 mm counts as rain.
    assert!(!observed_rain(5));
    assert!(observed_rain(6));
}

#[test]
fn first_missing_day_scans_the_consecutive_prefix() {
    assert_eq!(first_missing_day(5, &vec![5, 6, 8]), 7);
    assert_eq!(first_missing_day(5, &vec![]), 5);
    assert_eq!(first_missing_day(5, &vec![6]), 5);
    assert_eq!(first_missing_day(5, &vec![5, 6, 7]), 8);
}

#[test]
fn merge_prefers_the_cached_day() {
    let cached = vec![(1, fc(WeatherCode::Sun)), (3, fc(WeatherCode::Cloud))];
    let fetched = vec![
        (2, fc(WeatherCode::Rain)),
        (3, fc(WeatherCode::Snow)),
        (4, fc(WeatherCode::Fog)),
    ];
    let merged = merge_forecasts(&cached, &fetched);
    let days: Vec<i64> = merged.iter().map(|p| p.0).collect();
    assert_eq!(days, vec![1, 2, 3, 4]);
    assert_eq!(merged[0].1.weather_code, WeatherCode::Sun);
    assert_eq!(merged[1].1.weather_code, WeatherCode::Rain);
    // Day 3 exists on both sides; the cached forecast wins.
    assert_eq!(merged[2].1.weather_code, WeatherCode::Cloud);
    assert_eq!(merged[3].1.weather_code, WeatherCode::Fog);
}

#[test]
fn merge_with_an_empty_side() {
    let cached: Vec<(i64, Forecast)> = vec![];
    let fetched = vec![(2, fc(WeatherCode::Rain))];
    let merged = merge_forecasts(&cached, &fetched);
    assert_eq!(merged.len(), 1);
    assert_eq!(merged[0].0, 2);
    assert!(merge_forecasts(&fetched, &cached).len() == 1);
}

#[test]
fn fill_historical_prefers_archive_then_forecast() {
    let w_archive = Weather { temperature: 1500, rain: false };
    let w_forecast = Weather { temperature: 1600, rain: true };
    let archive = vec![(10, w_archive)];
    let forecast = vec![(11, w_forecast)];
    let reports = fill_historical(10, 13, &archive, &forecast);
    assert_eq!(reports.len(), 3);
    assert_eq!(reports[0], (10, Some(w_archive)));
    assert_eq!(reports[1], (11, Some(w_forecast)));
    assert_eq!(reports[2], (12, None));
}

#[test]
fn form_variant_depends_on_day_and_existing_bet() {
    assert_eq!(variant_for(10, 10, false), BetFormVariant::Today);
    assert_eq!(variant_for(10, 10, true), BetFormVariant::Today);
    assert_eq!(variant_for(11, 10, true), BetFormVariant::Replace);
    assert_eq!(variant_for(11, 10, false), BetFormVariant::Normal);
}

#[test]
fn default_bet_prefills_from_forecast_and_balance() {
    let forecast = Forecast {
        rain: 600,
        minimum_temperature: 1000,
        maximum_temperature: 2000,
        weather_code: WeatherCode::Rain,
    };
    let bet = default_bet(&forecast, 10000, BetFormVariant::Normal);
    assert_eq!(bet.temperature, 1500);
    assert_eq!(bet.range, 500);
    assert!(bet.rain);
    assert_eq!(bet.wager, 1000);

    // On today's frozen form no wager is suggested, and an even rain chance
    // does not lean towards rain.
    let calm = Forecast { rain: 500, ..forecast };
    let bet = default_bet(&calm, 10000, BetFormVariant::Today);
    assert!(!bet.rain);
    assert_eq!(bet.wager, 0);
}

#[test]
fn bet_form_round_trips() {
    let bet = Bet { temperature: 1500, range: 300, rain: true, wager: 2500 };
    let form = BetForm::from(bet);
    assert_eq!(form.temperature, 1500);
    assert_eq!(form.range, 300);
    assert!(form.rain);
    assert_eq!(form.wager, 2500);
    assert_eq!(Bet::from(form), bet);
}
