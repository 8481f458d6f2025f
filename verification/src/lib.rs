//! Monthly shift rota for a small team.
//!
//! Every member asks for rest days; the remaining days of the month are filled
//! with day and evening shifts around the member's longest stretch of rest, and
//! a day shift that would directly follow an evening shift becomes a mid shift.

pub mod anchor;
pub mod calendar;
pub mod employee;
pub mod error;
pub mod fill;
pub mod laws;
pub mod quota;
pub mod request;
pub mod roster;
pub mod shift;
pub mod tally;
pub mod transition;

pub use anchor::get_max_rest;
pub use calendar::{days_in_month, get_days_from_month, weekdays_of_month};
pub use employee::Employee;
pub use error::RosterError;
pub use fill::{fill_backward, fill_forward};
pub use quota::split_quota;
pub use request::RestRequest;
pub use roster::{plan_month, Rota};
pub use shift::ShiftKind;
pub use tally::{aggregate, DailyTally};
pub use transition::apply_transition_rule;
