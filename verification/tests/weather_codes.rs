//! The weather-code classes, the outcome evaluator, and the error texts.

use cloud_casino::bet::{Bet, BetError, BetRecord, Payout, Weather};
use cloud_casino::weather::{ApiSource, WeatherCode};

#[test]
fn weather_codes_cover_their_listed_values() {
    assert_eq!(WeatherCode::from_code(0), WeatherCode::Sun);
    assert_eq!(WeatherCode::from_code(1), WeatherCode::Sun);
    assert_eq!(WeatherCode::from_code(2), WeatherCode::PartialSun);
    assert_eq!(WeatherCode::from_code(3), WeatherCode::Cloud);
    assert_eq!(WeatherCode::from_code(48), WeatherCode::Fog);
    assert_eq!(WeatherCode::from_code(57), WeatherCode::Drizzle);
    assert_eq!(WeatherCode::from_code(82), WeatherCode::Drizzle);
    assert_eq!(WeatherCode::from_code(63), WeatherCode::Rain);
    assert_eq!(WeatherCode::from_code(67), WeatherCode::Rain);
    assert_eq!(WeatherCode::from_code(77), WeatherCode::Snow);
    assert_eq!(WeatherCode::from_code(86), WeatherCode::Snow);
    assert_eq!(WeatherCode::from_code(99), WeatherCode::Lightning);
    assert_eq!(WeatherCode::from_code(42), WeatherCode::Unknown);
    assert_eq!(WeatherCode::from_code(-7), WeatherCode::Unknown);
}

#[test]
fn weather_codes_round_trip_through_their_canonical_value() {
    for code in [0, 2, 3, 45, 51, 61, 71, 95] {
        assert_eq!(WeatherCode::from_code(code).code(), code);
    }
    assert_eq!(WeatherCode::Unknown.code(), -1);
}

#[test]
fn weather_codes_name_their_icons() {
    assert_eq!(WeatherCode::Sun.to_lucide_icon(), "sun");
    assert_eq!(WeatherCode::PartialSun.to_lucide_icon(), "cloud-sun");
    assert_eq!(WeatherCode::Cloud.to_lucide_icon(), "cloud");
    assert_eq!(WeatherCode::Fog.to_lucide_icon(), "cloud-fog");
    assert_eq!(WeatherCode::Drizzle.to_lucide_icon(), "cloud-drizzle");
    assert_eq!(WeatherCode::Rain.to_lucide_icon(), "cloud-rain");
    assert_eq!(WeatherCode::Snow.to_lucide_icon(), "snowflake");
    assert_eq!(WeatherCode::Lightning.to_lucide_icon(), "cloud-lightning");
    assert_eq!(WeatherCode::Unknown.to_lucide_icon(), "circle-help");
}

#[test]
fn api_sources_point_at_their_endpoints() {
    assert_eq!(ApiSource::Forecast.url(), "https://api.open-meteo.com/v1/forecast");
    assert_eq!(ApiSource::Archive.url(), "https://archive-api.open-meteo.com/v1/archive");
}

#[test]
fn outcome_checks_each_guess_against_the_weather() {
    let record = BetRecord::new(
        Bet { temperature: 2000, range: 200, rain: true, wager: 5000 },
        Payout { rain: 4000, temperature: 9000 },
    );

    // Exactly at the edge of the range still counts.
    let o = record.outcome(&Weather { temperature: 2200, rain: true });
    assert!(o.rain && o.temperature);
    assert_eq!(o.payout, 13000);

    // One hundredth of a degree outside the range does not.
    let o = record.outcome(&Weather { temperature: 2201, rain: true });
    assert!(o.rain && !o.temperature);
    assert_eq!(o.payout, 4000);

    let o = record.outcome(&Weather { temperature: 2201, rain: false });
    assert!(!o.rain && !o.temperature);
    assert_eq!(o.payout, 0);
}

#[test]
fn evaluate_writes_the_outcome_once() {
    let mut record = BetRecord::new(
        Bet { temperature: 2000, range: 200, rain: false, wager: 5000 },
        Payout { rain: 4000, temperature: 9000 },
    );
    record.evaluate(&Weather { temperature: 1900, rain: false });
    assert_eq!(record.outcome.unwrap().payout, 13000);

    // A second evaluation, with different weather, changes nothing.
    record.evaluate(&Weather { temperature: 5000, rain: true });
    assert_eq!(record.outcome.unwrap().payout, 13000);
}

#[test]
fn errors_describe_themselves() {
    assert_eq!(BetError::NegativeWager.message(), "cannot create a bet that's less than $0");
    assert_eq!(BetError::CannotBetToday.message(), "cannot create a bet for today");
    assert_eq!(BetError::AlreadySettled.message(), "cannot replace a bet that has been settled");
    assert_eq!(BetError::InsufficientFunds.message(), "insufficient funds to cover the wager");
    assert_eq!(BetError::InvalidForecast.message(), "forecast has no temperature spread");
    assert_eq!(
        BetError::SettlementConflict.message(),
        "an outcome for this day is already recorded"
    );
}
