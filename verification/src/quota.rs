//! The split of a member's working days into day and evening shifts.

use vstd::prelude::*;
use crate::error::RosterError;

verus! {

/// The fixed number of evening shifts is more than the member has days to work.
pub open spec fn evening_exceeds(work: int, evening: Option<usize>) -> bool {
    evening matches Some(fixed) && fixed > work
}

/// The day and evening shifts a member is to get, in this order: half of the working days each,
/// the odd one going to the evening; or the fixed number of evening shifts and the remainder.
pub open spec fn quota_split(day_count: int, rest_count: int, evening: Option<usize>) -> (
    nat,
    nat,
) {
    let work = day_count - rest_count;
    match evening {
        Some(fixed) => ((work - fixed) as nat, fixed as nat),
        None => ((work / 2) as nat, (work - work / 2) as nat),
    }
}

/// Splits a member's working days into day and evening shifts.
///
/// Returns the number of day shifts and the number of evening shifts.
pub fn split_quota(day_count: usize, rest_count: usize, evening: Option<usize>) -> (split: Result<
    (usize, usize),
    RosterError,
>)
    ensures
        rest_count > day_count ==> split == Err::<(usize, usize), RosterError>(
            RosterError::RestCountExceedsMonth,
        ),
        rest_count <= day_count && evening_exceeds(day_count - rest_count, evening) ==> split
            == Err::<(usize, usize), RosterError>(RosterError::EveningQuotaTooLarge),
        rest_count <= day_count && !evening_exceeds(day_count - rest_count, evening) ==> (
        split matches Ok(quotas) && quotas.0 == quota_split(
            day_count as int,
            rest_count as int,
            evening,
        ).0 && quotas.1 == quota_split(day_count as int, rest_count as int, evening).1
            && quotas.0 + quotas.1 == day_count - rest_count),
{
    if rest_count > day_count {
        return Err(RosterError::RestCountExceedsMonth);
    }
    let work = day_count - rest_count;
    match evening {
        Some(fixed) => {
            if fixed > work {
                Err(RosterError::EveningQuotaTooLarge)
            } else {
                Ok((work - fixed, fixed))
            }
        },
        None => {
            let day_quota = work / 2;
            Ok((day_quota, work - day_quota))
        },
    }
}

} // verus!
