//! Configuration errors.
//!
//! Bad configuration is rejected once, when a cycle is generated from it;
//! the engine itself never panics.

use vstd::prelude::*;

verus! {

/// Why a cycle configuration was rejected.
#[derive(Clone, Copy, PartialEq, Eq, Structural, Debug)]
pub enum ConfigError {
    /// The cycle type tag is not `day`, `month` or `once`.
    BadCycleType,
    /// A `day` or `month` cycle has a period length that is not positive.
    NonPositivePeriod,
    /// The traffic limit string is not a number with a `KB`, `MB`, `GB` or
    /// `TB` suffix, or does not come to a whole number of bytes.
    BadTrafficLimit,
    /// The statistic method tag is not `sum(in,out)`, `max(in,out)` or `out`.
    BadStatisticMethod,
    /// A date string is not a valid `YYYY-MM-DD` calendar date.
    BadDate,
    /// A field that the chosen cycle type needs is absent.
    MissingField,
    /// The cycle window walk would leave the supported date range.
    DateOutOfRange,
}

impl ConfigError {
    /// A short description of the error.
    pub fn describe(&self) -> (r: &'static str)
        ensures
            r@.len() > 0,
    {
        let r = match self {
            ConfigError::BadCycleType => "cycle type must be day, month or once",
            ConfigError::NonPositivePeriod => "cycle period must be a positive number",
            ConfigError::BadTrafficLimit => "traffic limit must be a number with a KB, MB, GB or TB suffix",
            ConfigError::BadStatisticMethod => "statistic method must be sum(in,out), max(in,out) or out",
            ConfigError::BadDate => "date must be a valid YYYY-MM-DD calendar date",
            ConfigError::MissingField => "a field that the cycle type needs is absent",
            ConfigError::DateOutOfRange => "the cycle window leaves the supported date range",
        };
        proof {
            reveal_strlit("cycle type must be day, month or once");
            reveal_strlit("cycle period must be a positive number");
            reveal_strlit("traffic limit must be a number with a KB, MB, GB or TB suffix");
            reveal_strlit("statistic method must be sum(in,out), max(in,out) or out");
            reveal_strlit("date must be a valid YYYY-MM-DD calendar date");
            reveal_strlit("a field that the cycle type needs is absent");
            reveal_strlit("the cycle window leaves the supported date range");
        }
        r
    }
}

} // verus!
