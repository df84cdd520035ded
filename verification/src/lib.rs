//! Primality by trial division on integers of any size.
//!
//! [`calc`] holds the engine: a classifier for the small cases, the 6k±1 filter
//! and the trial of one divisor index, together with the proof that their
//! verdict is primality. [`search`] runs the trial over all indices, batch by
//! batch, and [`progress`] decides when a long search owes its observer a tick.
//! [`input`] and [`report`] turn text into candidates and verdicts into text,
//! [`config`] maps the verbosity switches to a log level. [`primes`] and
//! [`decimal`] hold the mathematics that the contracts speak of, [`natural`] the
//! numbers themselves. [`arithmetic`], [`workers`] and [`strings`] state what is
//! taken on trust from `num`, from `rayon` and from the standard library.

pub mod arithmetic;
pub mod calc;
pub mod config;
pub mod decimal;
pub mod input;
pub mod natural;
pub mod primes;
pub mod progress;
pub mod report;
pub mod search;
pub mod strings;
pub mod workers;

pub use calc::prime;
