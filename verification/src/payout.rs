//! The payout calculator: pure and deterministic. From a bet, a target date,
//! the forward forecast for that date and the current date it computes the
//! two payout ceilings that are locked into the record at placement time.
//!
//! Multipliers are held in thousandths. Each component is
//! `multiplier * wager / 1000`, where the rain multiplier is a day-scaling
//! bonus plus a base, and the temperature multiplier rewards a narrow guessed
//! range against the forecast spread with a clamped cubic shape: the narrower
//! the guess, the larger the potential payout.

use vstd::prelude::*;

use crate::bet::{Bet, BetError, Payout, MAX_MONEY, MAX_PAYOUT};
use crate::weather::Forecast;

verus! {

/// One whole, in thousandths.
pub const MILLI: i64 = 1000;

/// Day-scaling bonus per day of lead time, thousandths.
pub const DAY_MULTIPLIER_MILLI: i64 = 200;

/// Base multiplier of the rain component, thousandths. A tunable of the
/// game's economy, not a law.
pub const RAIN_MULTIPLIER_MILLI: i64 = 750;

/// Multiplier of the temperature component for a maximally confident guess,
/// thousandths.
pub const MAX_TEMPERATURE_MULTIPLIER_MILLI: i64 = 5000;

/// Furthest ahead a bet can be placed, in days (machine limit keeping the
/// multiplier arithmetic inside `i64`).
pub const MAX_DAYS_AHEAD: i64 = 36_500;

/// Upper bound of every multiplier produced here, thousandths.
pub const MAX_MULTIPLIER_MILLI: i64 = DAY_MULTIPLIER_MILLI * MAX_DAYS_AHEAD
    + MAX_TEMPERATURE_MULTIPLIER_MILLI;

/// The day-scaling bonus: proportional to how many days ahead the bet is
/// placed.
pub open spec fn day_multiplier_spec(date: int, now: int) -> int {
    DAY_MULTIPLIER_MILLI * (date - now)
}

/// The rain-component multiplier: day bonus plus the fixed base.
pub open spec fn rain_multiplier_spec(date: int, now: int) -> int {
    day_multiplier_spec(date, now) + RAIN_MULTIPLIER_MILLI
}

/// Clamp a value in thousandths to one whole.
pub open spec fn clamp_unit(x: int) -> int {
    if x < 0 {
        0
    } else if x > MILLI {
        MILLI as int
    } else {
        x
    }
}

/// The confidence shape, in thousandths: `(1 - range/spread)` clamped to
/// `[0, 1]` and cubed, so a narrower guessed range yields a larger reward and
/// the reward falls off convexly as the guess widens.
pub open spec fn shape_spec(range: int, spread: int) -> int
    recommends
        0 < range,
        0 < spread,
{
    let x = clamp_unit(MILLI - (MILLI * range) / spread);
    (x * x * x) / ((MILLI * MILLI) as int)
}

/// The temperature-component multiplier: day bonus plus the shaped reward.
pub open spec fn temperature_multiplier_spec(date: int, now: int, range: int, spread: int) -> int {
    day_multiplier_spec(date, now) + (shape_spec(range, spread) * MAX_TEMPERATURE_MULTIPLIER_MILLI)
        / (MILLI as int)
}

/// A payout component: the multiplier (thousandths) applied to the wager.
pub open spec fn component_spec(multiplier: int, wager: int) -> int {
    (multiplier * wager) / (MILLI as int)
}

/// The payout ceiling locked at placement: one component per guess.
pub open spec fn max_payout_spec(bet: Bet, date: int, now: int, forecast: Forecast) -> Payout {
    Payout {
        rain: component_spec(rain_multiplier_spec(date, now), bet.wager as int) as i64,
        temperature: component_spec(
            temperature_multiplier_spec(date, now, bet.range as int, forecast.spread()),
            bet.wager as int,
        ) as i64,
    }
}

impl Payout {
    /// The rain-component multiplier for a bet on `date` placed on `now`,
    /// thousandths.
    pub fn rain_multiplier(date: i64, now: i64) -> (r: i64)
        requires
            now < date,
            date - now <= MAX_DAYS_AHEAD,
        ensures
            r == rain_multiplier_spec(date as int, now as int),
            0 < r <= MAX_MULTIPLIER_MILLI,
    {
        DAY_MULTIPLIER_MILLI * (date - now) + RAIN_MULTIPLIER_MILLI
    }

    /// The temperature-component multiplier for a bet on `date` placed on
    /// `now`, thousandths; rejected when the forecast has no temperature
    /// spread.
    pub fn temperature_multiplier(date: i64, now: i64, bet: &Bet, forecast: &Forecast) -> (r: Result<
        i64,
        BetError,
    >)
        requires
            now < date,
            date - now <= MAX_DAYS_AHEAD,
            bet.in_bounds(),
            forecast.valid(),
        ensures
            forecast.spread() <= 0 ==> r == Err::<i64, BetError>(BetError::InvalidForecast),
            forecast.spread() > 0 ==> {
                &&& r is Ok
                &&& r->Ok_0 == temperature_multiplier_spec(
                    date as int,
                    now as int,
                    bet.range as int,
                    forecast.spread(),
                )
                &&& 0 < r->Ok_0 <= MAX_MULTIPLIER_MILLI
            },
    {
        let spread = forecast.maximum_temperature - forecast.minimum_temperature;
        if spread <= 0 {
            return Err(BetError::InvalidForecast);
        }

        let x_raw = MILLI - (MILLI * bet.range) / spread;
        let x = if x_raw < 0 {
            0
        } else if x_raw > MILLI {
            MILLI
        } else {
            x_raw
        };
        assert(x == clamp_unit(MILLI - (MILLI * bet.range as int) / forecast.spread()));
        assert(0 <= x * x <= MILLI * MILLI) by (nonlinear_arith)
            requires
                0 <= x <= MILLI,
        ;
        assert(x * x * x <= MILLI * MILLI * MILLI && 0 <= x * x * x) by (nonlinear_arith)
            requires
                0 <= x <= MILLI,
        ;
        let shaped = (x * x * x) / (MILLI * MILLI);

        Ok(DAY_MULTIPLIER_MILLI * (date - now) + (shaped * MAX_TEMPERATURE_MULTIPLIER_MILLI)
            / MILLI)
    }

    /// Lock the payout ceiling for `bet` on `date`, placed on `now`, against
    /// the forward forecast: each component is its multiplier applied to the
    /// wager. Fails exactly when the forecast has no temperature spread.
    pub fn max_payout(bet: &Bet, date: i64, forecast: &Forecast, now: i64) -> (r: Result<
        Payout,
        BetError,
    >)
        requires
            now < date,
            date - now <= MAX_DAYS_AHEAD,
            bet.valid(),
            forecast.valid(),
        ensures
            forecast.spread() <= 0 ==> r == Err::<Payout, BetError>(BetError::InvalidForecast),
            forecast.spread() > 0 ==> {
                &&& r is Ok
                &&& r->Ok_0 == max_payout_spec(*bet, date as int, now as int, *forecast)
                &&& r->Ok_0.valid()
            },
    {
        let rain_mult = Self::rain_multiplier(date, now);
        let temperature_mult = match Self::temperature_multiplier(date, now, bet, forecast) {
            Ok(m) => m,
            Err(e) => {
                return Err(e);
            },
        };

        assert(rain_mult * bet.wager <= MAX_MULTIPLIER_MILLI * MAX_MONEY && 0 <= rain_mult
            * bet.wager) by (nonlinear_arith)
            requires
                0 < rain_mult <= MAX_MULTIPLIER_MILLI,
                0 <= bet.wager <= MAX_MONEY,
        ;
        assert(temperature_mult * bet.wager <= MAX_MULTIPLIER_MILLI * MAX_MONEY && 0
            <= temperature_mult * bet.wager) by (nonlinear_arith)
            requires
                0 < temperature_mult <= MAX_MULTIPLIER_MILLI,
                0 <= bet.wager <= MAX_MONEY,
        ;

        let rain = (rain_mult * bet.wager) / MILLI;
        let temperature = (temperature_mult * bet.wager) / MILLI;
        assert(rain <= MAX_PAYOUT && temperature <= MAX_PAYOUT);

        Ok(Payout { rain, temperature })
    }
}

} // verus!
