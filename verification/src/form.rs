//! View-model helpers for the bet form and the login page: which variant of
//! the form to show, and the values it is pre-filled with.

use vstd::prelude::*;

use crate::bet::{Bet, MAX_BALANCE};
use crate::weather::{Forecast, FULL_PERMILLE};

verus! {

/// A login provider as the login page shows it.
pub struct Provider {
    /// Icon name shown next to the provider.
    pub icon: String,

    /// Human-readable provider name.
    pub name: String,

    /// Where the login button points.
    pub url: String,
}

/// The variant of the bet form to show for a selected day.
#[derive(Clone, Copy, Debug, PartialEq, Eq, Structural)]
pub enum BetFormVariant {
    /// The 'standard' variation of the bet form.
    Normal,
    /// Bet form is to re-place an existing bet.
    Replace,
    /// Bet form is for today's bet, which cannot be placed.
    Today,
}

/// Which variant a day gets: today's day is frozen, a day with an existing
/// bet is a replacement, anything else is a fresh bet.
pub open spec fn variant_spec(date: int, today: int, existing: bool) -> BetFormVariant {
    if date == today {
        BetFormVariant::Today
    } else if existing {
        BetFormVariant::Replace
    } else {
        BetFormVariant::Normal
    }
}

/// Pick the form variant for `date` given the current local day and whether
/// a bet already exists on it.
pub fn variant_for(date: i64, today: i64, existing: bool) -> (r: BetFormVariant)
    ensures
        r == variant_spec(date as int, today as int, existing),
{
    if date == today {
        BetFormVariant::Today
    } else if existing {
        BetFormVariant::Replace
    } else {
        BetFormVariant::Normal
    }
}

/// The default guessed tolerance, hundredths of a degree.
pub const DEFAULT_RANGE: i64 = 500;

/// What the form is pre-filled with when no bet exists yet: the middle of
/// the forecast temperature band, the default tolerance, rain if the
/// forecast leans that way, and a tenth of the balance as the wager — or no
/// wager at all on today's frozen form.
pub open spec fn default_bet_spec(forecast: Forecast, balance: int, variant: BetFormVariant) -> Bet {
    Bet {
        temperature: (forecast.minimum_temperature + forecast.spread() / 2) as i64,
        range: DEFAULT_RANGE,
        rain: forecast.rain > FULL_PERMILLE / 2,
        wager: if variant is Today {
            0
        } else {
            (balance / 10) as i64
        },
    }
}

/// Pre-fill the bet form for a day without an existing bet.
pub fn default_bet(forecast: &Forecast, balance: i64, variant: BetFormVariant) -> (r: Bet)
    requires
        forecast.valid(),
        forecast.spread() >= 0,
        0 <= balance <= MAX_BALANCE,
    ensures
        r == default_bet_spec(*forecast, balance as int, variant),
{
    let spread = forecast.maximum_temperature - forecast.minimum_temperature;
    let wager = if let BetFormVariant::Today = variant {
        0
    } else {
        balance / 10
    };
    Bet {
        temperature: forecast.minimum_temperature + spread / 2,
        range: DEFAULT_RANGE,
        rain: forecast.rain > FULL_PERMILLE / 2,
        wager,
    }
}

/// What the caller fills into the bet form: the same shape as a [`Bet`],
/// exchanged with it in both directions.
#[derive(Clone, Copy, Debug, PartialEq)]
pub struct BetForm {
    /// Choice of rain outcome.
    pub rain: bool,

    /// Guessed average temperature, hundredths of a degree.
    pub temperature: i64,

    /// Tolerance around the guess, hundredths of a degree.
    pub range: i64,

    /// Wager, cents.
    pub wager: i64,
}

impl From<BetForm> for Bet {
    fn from(form: BetForm) -> (r: Bet) {
        Bet {
            temperature: form.temperature,
            range: form.range,
            rain: form.rain,
            wager: form.wager,
        }
    }
}

impl vstd::std_specs::convert::FromSpecImpl<BetForm> for Bet {
    open spec fn obeys_from_spec() -> bool {
        true
    }

    open spec fn from_spec(form: BetForm) -> Bet {
        Bet {
            temperature: form.temperature,
            range: form.range,
            rain: form.rain,
            wager: form.wager,
        }
    }
}

impl From<Bet> for BetForm {
    fn from(bet: Bet) -> (r: BetForm) {
        BetForm {
            rain: bet.rain,
            temperature: bet.temperature,
            range: bet.range,
            wager: bet.wager,
        }
    }
}

impl vstd::std_specs::convert::FromSpecImpl<Bet> for BetForm {
    open spec fn obeys_from_spec() -> bool {
        true
    }

    open spec fn from_spec(bet: Bet) -> BetForm {
        BetForm {
            rain: bet.rain,
            temperature: bet.temperature,
            range: bet.range,
            wager: bet.wager,
        }
    }
}

} // verus!
