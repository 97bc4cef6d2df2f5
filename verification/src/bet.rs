//! The bet data model: a guess, its locked payout ceiling, the outcome once
//! settled, and the record that ties them together.

use vstd::prelude::*;

verus! {

/// Largest wager accepted, in cents (machine limit so that every balance
/// adjustment stays well inside `i64`).
pub const MAX_MONEY: i64 = 1_000_000_000_000;

/// Largest single payout component a record may hold, in cents.
pub const MAX_PAYOUT: i64 = 8_000_000_000_000_000;

/// Cap on a committed balance, in cents (machine limit; far below `i64::MAX`
/// so that a refund or a credit can never overflow).
pub const MAX_BALANCE: i64 = 4_000_000_000_000_000_000;

/// Largest magnitude of a temperature, in hundredths of a degree.
pub const MAX_TEMP: i64 = 100_000;

/// Everything that can go wrong around a bet. The first four are reported to
/// the caller; a settlement conflict is resolved internally by leaving the
/// state untouched.
#[derive(Clone, Copy, Debug, PartialEq, Eq, Structural)]
pub enum BetError {
    /// The wager is below zero.
    NegativeWager,
    /// The bet is for the current local day, whose outcome must not be
    /// gambled on intraday.
    CannotBetToday,
    /// The day already has a settled bet and cannot be re-wagered.
    AlreadySettled,
    /// The balance would go negative; the whole operation is rolled back.
    InsufficientFunds,
    /// The forecast's temperature spread is empty, so no payout ceiling can
    /// be computed.
    InvalidForecast,
    /// An outcome for the day was already recorded; the duplicate settlement
    /// has no effect.
    SettlementConflict,
}

impl BetError {
    /// A caller-facing description of the error.
    pub fn message(&self) -> (r: &'static str)
        ensures
            r@ == error_message(*self),
    {
        match self {
            BetError::NegativeWager => "cannot create a bet that's less than $0",
            BetError::CannotBetToday => "cannot create a bet for today",
            BetError::AlreadySettled => "cannot replace a bet that has been settled",
            BetError::InsufficientFunds => "insufficient funds to cover the wager",
            BetError::InvalidForecast => "forecast has no temperature spread",
            BetError::SettlementConflict => "an outcome for this day is already recorded",
        }
    }
}

/// The description of each error.
pub open spec fn error_message(e: BetError) -> Seq<char> {
    match e {
        BetError::NegativeWager => "cannot create a bet that's less than $0"@,
        BetError::CannotBetToday => "cannot create a bet for today"@,
        BetError::AlreadySettled => "cannot replace a bet that has been settled"@,
        BetError::InsufficientFunds => "insufficient funds to cover the wager"@,
        BetError::InvalidForecast => "forecast has no temperature spread"@,
        BetError::SettlementConflict => "an outcome for this day is already recorded"@,
    }
}

/// A user's guess for one day: the average temperature (hundredths of a
/// degree), a tolerance around it, whether it will rain, and the wager
/// (cents). Immutable once locked into a record.
#[derive(Clone, Copy, Debug, PartialEq)]
pub struct Bet {
    /// Temperature that was guessed, hundredths of a degree.
    pub temperature: i64,

    /// Tolerance around the guessed average, hundredths of a degree.
    pub range: i64,

    /// Guess if it will rain.
    pub rain: bool,

    /// Wager placed on the bet, cents.
    pub wager: i64,
}

impl Bet {
    /// The bounds under which a bet can be stored: the wager fits the money
    /// limits and the temperatures are physical. A negative wager is
    /// representable (placement rejects it) but never stored.
    pub open spec fn valid(self) -> bool {
        &&& 0 <= self.wager <= MAX_MONEY
        &&& 0 < self.range <= 2 * MAX_TEMP
        &&& -MAX_TEMP <= self.temperature <= MAX_TEMP
    }

    /// Bounds every placement argument must satisfy; the wager may still be
    /// negative here, which placement reports as an error.
    pub open spec fn in_bounds(self) -> bool {
        &&& self.wager <= MAX_MONEY
        &&& 0 < self.range <= 2 * MAX_TEMP
        &&& -MAX_TEMP <= self.temperature <= MAX_TEMP
    }
}

/// The payout ceiling locked at placement time: one component paid if the
/// rain guess is right, one if the temperature guess is right. Both in cents.
#[derive(Clone, Copy, Debug, PartialEq)]
pub struct Payout {
    /// Paid out if the rain guess is correct, cents.
    pub rain: i64,

    /// Paid out if the temperature guess is correct, cents.
    pub temperature: i64,
}

impl Payout {
    /// Both components are non-negative and bounded.
    pub open spec fn valid(self) -> bool {
        &&& 0 <= self.rain <= MAX_PAYOUT
        &&& 0 <= self.temperature <= MAX_PAYOUT
    }

    /// The sum of both components, as a mathematical integer.
    pub open spec fn total_spec(self) -> int {
        self.rain + self.temperature
    }

    /// The largest amount the bet can pay out: both components together.
    pub fn total(&self) -> (r: i64)
        requires
            self.valid(),
        ensures
            r == self.total_spec(),
    {
        self.rain + self.temperature
    }
}

/// Observed weather for one elapsed day.
#[derive(Clone, Copy, Debug, PartialEq)]
pub struct Weather {
    /// Mean temperature of the day, hundredths of a degree.
    pub temperature: i64,

    /// Whether rain was observed.
    pub rain: bool,
}

impl Weather {
    /// The temperature is physical.
    pub open spec fn valid(self) -> bool {
        -MAX_TEMP <= self.temperature <= MAX_TEMP
    }
}

/// The result of settling a bet: which guesses were right and the amount
/// credited, which is the sum of the locked components that were earned.
#[derive(Clone, Copy, Debug, PartialEq)]
pub struct BetOutcome {
    /// Whether the rain guess was correct.
    pub rain: bool,

    /// Whether the temperature guess was correct.
    pub temperature: bool,

    /// Amount credited, cents.
    pub payout: i64,
}

/// A placed bet together with its locked payout and, once settled, its
/// outcome. The outcome moves from `None` to `Some` exactly once and is never
/// recomputed.
#[derive(Clone, Copy, Debug, PartialEq)]
pub struct BetRecord {
    /// The user's guess.
    pub bet: Bet,

    /// Payout ceiling computed when the bet was placed, never revised.
    pub locked_payout: Payout,

    /// Outcome of the bet, present once settled.
    pub outcome: Option<BetOutcome>,
}

/// What settling `rec` against observed weather `w` yields: each guess is
/// checked, and the payout is the sum of the locked components earned.
pub open spec fn outcome_spec(rec: BetRecord, w: Weather) -> BetOutcome {
    let rain = rec.bet.rain == w.rain;
    let temperature = abs_spec(rec.bet.temperature - w.temperature) <= rec.bet.range;
    BetOutcome {
        rain,
        temperature,
        payout: ((if rain {
            rec.locked_payout.rain as int
        } else {
            0
        }) + (if temperature {
            rec.locked_payout.temperature as int
        } else {
            0
        })) as i64,
    }
}

/// An outcome credits exactly the locked components whose guess was right.
pub open spec fn consistent_outcome(p: Payout, o: BetOutcome) -> bool {
    o.payout == (if o.rain {
        p.rain as int
    } else {
        0
    }) + (if o.temperature {
        p.temperature as int
    } else {
        0
    })
}

/// Absolute value over mathematical integers.
pub open spec fn abs_spec(x: int) -> int {
    if x < 0 {
        -x
    } else {
        x
    }
}

impl BetRecord {
    /// A record as the store keeps it: bet and payout within bounds, and the
    /// recorded outcome, if any, consistent with the locked payout.
    pub open spec fn valid(self) -> bool {
        &&& self.bet.valid()
        &&& self.locked_payout.valid()
        &&& match self.outcome {
            Some(o) => consistent_outcome(self.locked_payout, o),
            None => true,
        }
    }

    /// Make a fresh, unsettled record from a bet and its locked payout.
    pub fn new(bet: Bet, payout: Payout) -> (r: BetRecord)
        ensures
            r == (BetRecord { bet, locked_payout: payout, outcome: None }),
    {
        BetRecord { bet, locked_payout: payout, outcome: None }
    }

    /// Evaluate this record against observed weather, without touching any
    /// stored state.
    pub fn outcome(&self, weather: &Weather) -> (r: BetOutcome)
        requires
            self.bet.valid(),
            self.locked_payout.valid(),
            weather.valid(),
        ensures
            r == outcome_spec(*self, *weather),
    {
        let rain = self.bet.rain == weather.rain;
        let diff = self.bet.temperature - weather.temperature;
        let dist = if diff < 0 { -diff } else { diff };
        let temperature = dist <= self.bet.range;

        let mut payout: i64 = 0;
        if rain {
            payout = payout + self.locked_payout.rain;
        }
        if temperature {
            payout = payout + self.locked_payout.temperature;
        }

        BetOutcome { rain, temperature, payout }
    }

    /// Settle this record in place: a no-op if an outcome is already
    /// recorded, else the outcome of the observed weather is stored.
    pub fn evaluate(&mut self, weather: &Weather)
        requires
            old(self).bet.valid(),
            old(self).locked_payout.valid(),
            weather.valid(),
        ensures
            old(self).outcome is Some ==> *final(self) == *old(self),
            old(self).outcome is None ==> *final(self) == (BetRecord {
                outcome: Some(outcome_spec(*old(self), *weather)),
                ..*old(self)
            }),
    {
        if self.outcome.is_some() {
            return;
        }
        let o = self.outcome(weather);
        self.outcome = Some(o);
    }
}

} // verus!
