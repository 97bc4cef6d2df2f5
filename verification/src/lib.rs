//! Core of a weather-betting game: a user wagers virtual currency on a future
//! day's weather (an average-temperature range and rain / no rain), a payout
//! ceiling is locked in at placement time, and once the day has passed the bet
//! is settled against the observed weather, crediting the balance exactly once.
//!
//! Money is held in cents, temperatures in hundredths of a degree and
//! multipliers in thousandths, so that every quantity is an integer and every
//! computation is exact.

pub mod bet;
pub mod clock;
pub mod form;
pub mod gateway;
pub mod laws;
pub mod payout;
pub mod settle;
pub mod store;
pub mod user;
pub mod weather;
