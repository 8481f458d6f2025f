//! What a member asks for, and what may be wrong with it.

use vstd::prelude::*;
use crate::error::RosterError;
use crate::quota::evening_exceeds;
use crate::shift::{count_kind, lemma_count_from_zero, lemma_count_set, ShiftKind};

verus! {

/// What one member asks for.
#[derive(Clone, Debug)]
pub struct RestRequest {
    pub name: String,
    /// The number of rest days the member declares.
    pub rest_count: usize,
    /// The days of rest, counted from 1.
    pub rest_days: Vec<usize>,
    /// The fixed number of evening shifts, for a member who has such an arrangement.
    pub evening: Option<usize>,
}

impl RestRequest {
    /// Why the request is turned down for a month of `day_count` days, if it is.
    pub open spec fn fault(self, day_count: int) -> Option<RosterError> {
        request_fault(day_count, self.rest_count as int, self.rest_days@, self.evening)
    }
}

/// Day `day`, counted from 1, is among the first `k` rest days listed.
pub open spec fn listed_before(days: Seq<usize>, k: int, day: int) -> bool {
    exists|j: int| 0 <= j < k && j < days.len() && days[j] == day
}

/// What is wrong with the rest day listed at place `k`, given those listed before it.
pub open spec fn rest_day_fault(days: Seq<usize>, day_count: int, k: int) -> Option<RosterError> {
    if days[k] < 1 || days[k] > day_count {
        Some(RosterError::RestDayOutOfRange)
    } else if listed_before(days, k, days[k] as int) {
        Some(RosterError::DuplicateRestDay)
    } else {
        None
    }
}

/// The fault of the first faulty rest day listed at place `k` or later.
pub open spec fn first_rest_day_fault(days: Seq<usize>, day_count: int, k: int) -> Option<
    RosterError,
>
    decreases days.len() - k,
{
    if 0 <= k < days.len() {
        if rest_day_fault(days, day_count, k) is Some {
            rest_day_fault(days, day_count, k)
        } else {
            first_rest_day_fault(days, day_count, k + 1)
        }
    } else {
        None
    }
}

/// Why a member's request is turned down, if it is: the first of the checks that fails.
pub open spec fn request_fault(
    day_count: int,
    rest_count: int,
    days: Seq<usize>,
    evening: Option<usize>,
) -> Option<RosterError> {
    if day_count < 1 || day_count > 31 {
        Some(RosterError::DayCountOutOfRange)
    } else if rest_count > day_count {
        Some(RosterError::RestCountExceedsMonth)
    } else if rest_count != days.len() {
        Some(RosterError::RestCountMismatch)
    } else if first_rest_day_fault(days, day_count, 0) is Some {
        first_rest_day_fault(days, day_count, 0)
    } else if evening_exceeds(day_count - rest_count, evening) {
        Some(RosterError::EveningQuotaTooLarge)
    } else {
        None
    }
}

/// A month of `day_count` days in which the listed days are rest days and all others open.
pub open spec fn rest_days_marked(day_count: nat, days: Seq<usize>) -> Seq<ShiftKind> {
    Seq::new(
        day_count,
        |i: int|
            if listed_before(days, days.len() as int, i + 1) {
                ShiftKind::Rest
            } else {
                ShiftKind::Unset
            },
    )
}

/// Rest days without a fault do not matter for the first fault.
pub proof fn lemma_first_fault_skip(days: Seq<usize>, day_count: int, k: int)
    requires
        0 <= k <= days.len(),
        forall|j: int| 0 <= j < k ==> rest_day_fault(days, day_count, j) is None,
    ensures
        first_rest_day_fault(days, day_count, 0) == first_rest_day_fault(days, day_count, k),
    decreases k,
{
    if k > 0 {
        lemma_first_fault_skip(days, day_count, k - 1);
    }
}

/// A month of `day_count` days in which the first `k` listed days are rest days.
pub open spec fn marked_upto(day_count: nat, days: Seq<usize>, k: int) -> Seq<ShiftKind> {
    Seq::new(
        day_count,
        |i: int|
            if listed_before(days, k, i + 1) {
                ShiftKind::Rest
            } else {
                ShiftKind::Unset
            },
    )
}

/// Listing one more rest day marks exactly that day.
pub proof fn lemma_marked_step(day_count: nat, days: Seq<usize>, k: int)
    requires
        0 <= k < days.len(),
        rest_day_fault(days, day_count as int, k) is None,
    ensures
        marked_upto(day_count, days, k)[days[k] - 1] == ShiftKind::Unset,
        marked_upto(day_count, days, k + 1) == marked_upto(day_count, days, k).update(
            days[k] - 1,
            ShiftKind::Rest,
        ),
{
    let before = marked_upto(day_count, days, k);
    let after = marked_upto(day_count, days, k + 1);
    assert forall|i: int| 0 <= i < day_count implies after[i] == before.update(
        days[k] - 1,
        ShiftKind::Rest,
    )[i] by {
        if i == days[k] - 1 {
            assert(days[k] == i + 1);
        } else if listed_before(days, k + 1, i + 1) {
            let w = choose|w: int| 0 <= w < k + 1 && w < days.len() && days[w] == i + 1;
            assert(w < k);
        } else if listed_before(days, k, i + 1) {
            let w = choose|w: int| 0 <= w < k && w < days.len() && days[w] == i + 1;
            assert(0 <= w < k + 1 && w < days.len() && days[w] == i + 1);
        }
    }
    assert(after =~= before.update(days[k] - 1, ShiftKind::Rest));
}

/// Rest days without a fault mark as many days as are listed.
pub proof fn lemma_marked_count(day_count: nat, days: Seq<usize>, k: int)
    requires
        0 <= k <= days.len(),
        forall|j: int| 0 <= j < k ==> rest_day_fault(days, day_count as int, j) is None,
    ensures
        count_kind(marked_upto(day_count, days, k), ShiftKind::Rest) == k,
    decreases k,
{
    if k == 0 {
        lemma_count_from_zero(marked_upto(day_count, days, 0), 0, ShiftKind::Rest);
    } else {
        lemma_marked_count(day_count, days, k - 1);
        lemma_marked_step(day_count, days, k - 1);
        lemma_count_set(
            marked_upto(day_count, days, k - 1),
            days[k - 1] - 1,
            ShiftKind::Rest,
            ShiftKind::Rest,
        );
    }
}

/// Where the first fault from place `k` on is none, no rest day from `k` on has a fault.
pub proof fn lemma_no_fault(days: Seq<usize>, day_count: int, k: int)
    requires
        0 <= k <= days.len(),
        first_rest_day_fault(days, day_count, k) is None,
    ensures
        forall|j: int| k <= j < days.len() ==> rest_day_fault(days, day_count, j) is None,
    decreases days.len() - k,
{
    if k < days.len() {
        lemma_no_fault(days, day_count, k + 1);
    }
}

} // verus!
