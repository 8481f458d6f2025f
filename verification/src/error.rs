//! Reasons for which a rota cannot be planned.

use vstd::prelude::*;

verus! {

/// Why the input for a month was turned down; nothing is scheduled in that case.
#[derive(Clone, Copy, Debug, PartialEq, Eq, Structural)]
pub enum RosterError {
    /// The year is negative or beyond the calendar, or the month is not 1 to 12.
    InvalidYearMonth,
    /// The month is said to have no day or more than 31 days.
    DayCountOutOfRange,
    /// More rest days are declared than the month has days.
    RestCountExceedsMonth,
    /// The declared number of rest days is not the number of rest days listed.
    RestCountMismatch,
    /// A listed rest day is not a day of the month.
    RestDayOutOfRange,
    /// A rest day is listed twice.
    DuplicateRestDay,
    /// The fixed number of evening shifts exceeds the days left to work.
    EveningQuotaTooLarge,
}

} // verus!
