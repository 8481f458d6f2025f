//! What holds of every schedule and every rota.

use vstd::prelude::*;
use crate::anchor::{anchor_of, has_rest, is_anchor, lemma_anchor_exists, lemma_anchor_of};
use crate::employee::{
    filled_around, fills_around, fresh_record, lemma_filled_around, lemma_fresh_record,
    lemma_scheduled_around, scheduled, scheduled_around, EmployeeView,
};
use crate::fill::{filled_between, forward_fill, forward_start};
use crate::request::{listed_before, request_fault, RestRequest};
use crate::roster::{is_rota_of, lemma_request_faults, planned_member, roster_fault, Rota};
use crate::shift::{count_kind, fully_assigned, lemma_count_from_zero, same_rest_days, ShiftKind};
use crate::tally::{all_assigned_on, is_tally_of, lemma_head_counts_cover, lemma_on_shift_agree};
use crate::transition::{
    abrupt_count, eased, lemma_abrupt_needs_both, lemma_eased_no_abrupt_change, no_abrupt_change,
};

verus! {

/// Scheduling a fresh record finishes it: each of the four numbers counts the shifts of its
/// kind, and together they are the days of the month.
pub proof fn lemma_schedule_finishes(before: EmployeeView)
    requires
        before.is_fresh(),
    ensures
        scheduled(before).is_finalized(),
        scheduled(before).shifts.len() == before.shifts.len(),
        scheduled(before).name == before.name,
        scheduled(before).rest_count == before.rest_count,
        scheduled(before).eve_quota == before.eve_quota,
        scheduled(before).day_quota + scheduled(before).mid_count == before.day_quota,
{
    let (start, len) = anchor_of(before.shifts);
    lemma_anchor_exists(before.shifts);
    lemma_scheduled_around(before, start, len);
}

/// In a scheduled month no day is left open: the day, evening, mid and rest days together are
/// all the days of the month.
pub proof fn lemma_schedule_complete(before: EmployeeView)
    requires
        before.is_fresh(),
    ensures
        fully_assigned(scheduled(before).shifts),
        count_kind(scheduled(before).shifts, ShiftKind::Day) + count_kind(
            scheduled(before).shifts,
            ShiftKind::Evening,
        ) + count_kind(scheduled(before).shifts, ShiftKind::Mid) + count_kind(
            scheduled(before).shifts,
            ShiftKind::Rest,
        ) == before.shifts.len(),
{
    lemma_schedule_finishes(before);
}

/// Scheduling neither adds nor removes a rest day.
pub proof fn lemma_rest_days_kept(before: EmployeeView)
    requires
        before.is_fresh(),
    ensures
        same_rest_days(before.shifts, scheduled(before).shifts),
{
    let (start, len) = anchor_of(before.shifts);
    lemma_anchor_exists(before.shifts);
    lemma_scheduled_around(before, start, len);
}

/// The rest days of the scheduled month are exactly the days that the request lists.
pub proof fn lemma_rest_days_as_requested(
    name: Seq<char>,
    day_count: nat,
    days: Seq<usize>,
    evening: Option<usize>,
)
    requires
        request_fault(day_count as int, days.len() as int, days, evening) is None,
    ensures
        scheduled(fresh_record(name, day_count, days, evening)).shifts.len() == day_count,
        forall|i: int|
            0 <= i < day_count ==> (#[trigger] scheduled(
                fresh_record(name, day_count, days, evening),
            ).shifts[i] == ShiftKind::Rest <==> listed_before(days, days.len() as int, i + 1)),
{
    let before = fresh_record(name, day_count, days, evening);
    lemma_fresh_record(name, day_count, days, evening);
    lemma_rest_days_kept(before);
}

/// In a scheduled month no evening shift is directly followed by a day shift.
pub proof fn lemma_no_evening_then_day(before: EmployeeView)
    ensures
        no_abrupt_change(scheduled(before).shifts),
{
    let (start, len) = anchor_of(before.shifts);
    lemma_eased_no_abrupt_change(
        filled_around(before.shifts, before.day_quota, before.eve_quota, start, len),
    );
}

/// Whichever anchors two runs find for the same record, they yield the same schedule and the
/// same numbers.
pub proof fn lemma_schedule_deterministic(
    before: EmployeeView,
    start1: int,
    len1: int,
    start2: int,
    len2: int,
)
    requires
        is_anchor(before.shifts, start1, len1),
        is_anchor(before.shifts, start2, len2),
    ensures
        scheduled_around(before, start1, len1) == scheduled_around(before, start2, len2),
        scheduled_around(before, start1, len1) == scheduled(before),
{
    lemma_anchor_of(before.shifts, start1, len1);
    lemma_anchor_of(before.shifts, start2, len2);
}

/// Two rotas planned for the same month from the same requests hold the same records and the
/// same head counts.
pub proof fn lemma_rota_deterministic(
    rota1: Rota,
    rota2: Rota,
    day_count: nat,
    requests: Seq<RestRequest>,
)
    requires
        is_rota_of(rota1, day_count, requests),
        is_rota_of(rota2, day_count, requests),
    ensures
        rota1.members.len() == rota2.members.len(),
        forall|m: int|
            0 <= m < rota1.members.len() ==> (#[trigger] rota1.members[m])@ == rota2.members[m]@,
        rota1.tallies@ == rota2.tallies@,
{
    assert forall|m: int| 0 <= m < rota1.members.len() implies (#[trigger] rota1.members[m])@
        == rota2.members[m]@ by {
        assert(rota1.members[m]@ == planned_member(day_count, requests[m]));
        assert(rota2.members[m]@ == planned_member(day_count, requests[m]));
    }
    assert forall|i: int| 0 <= i < day_count implies rota1.tallies[i] == rota2.tallies[i] by {
        let n = requests.len() as int;
        assert(is_tally_of(rota1.tallies[i], rota1.members@, i));
        assert(is_tally_of(rota2.tallies[i], rota2.members@, i));
        lemma_on_shift_agree(rota1.members@, rota2.members@, n, i, ShiftKind::Day);
        lemma_on_shift_agree(rota1.members@, rota2.members@, n, i, ShiftKind::Evening);
        lemma_on_shift_agree(rota1.members@, rota2.members@, n, i, ShiftKind::Mid);
        lemma_on_shift_agree(rota1.members@, rota2.members@, n, i, ShiftKind::Rest);
    }
    assert(rota1.tallies@ =~= rota2.tallies@);
}

/// The quotas of a fresh record cover its working days exactly: the two fills use them up, and
/// neither gives a shift beyond them.
pub proof fn lemma_quotas_used_up(before: EmployeeView)
    requires
        before.is_fresh(),
    ensures
        ({
            let (start, len) = anchor_of(before.shifts);
            let end = fills_around(before.shifts, before.day_quota, before.eve_quota, start, len);
            end.day_left == 0 && end.eve_left == 0 && end.excess == 0
        }),
{
    let (start, len) = anchor_of(before.shifts);
    lemma_anchor_exists(before.shifts);
    lemma_filled_around(before, start, len);
}

/// A month without rest days has its anchor at `(0, 0)`, and the forward fill from the first
/// day on gives every day of the month its shift; nothing is left for the backward fill.
pub proof fn lemma_zero_rest(before: EmployeeView)
    requires
        before.is_fresh(),
        before.rest_count == 0,
    ensures
        anchor_of(before.shifts) == (0int, 0int),
        filled_around(before.shifts, before.day_quota, before.eve_quota, 0, 0) == forward_fill(
            forward_start(before.shifts, before.day_quota, before.eve_quota),
            0,
        ).shifts,
        forall|i: int|
            0 <= i < before.shifts.len() ==> {
                let kind = #[trigger] forward_fill(
                    forward_start(before.shifts, before.day_quota, before.eve_quota),
                    0,
                ).shifts[i];
                kind == ShiftKind::Day || kind == ShiftKind::Evening
            },
        scheduled(before).shifts == eased(
            forward_fill(forward_start(before.shifts, before.day_quota, before.eve_quota), 0).shifts,
        ),
{
    let s = before.shifts;
    lemma_count_from_zero(s, 0, ShiftKind::Rest);
    assert(!has_rest(s));
    assert(is_anchor(s, 0, 0));
    lemma_anchor_of(s, 0, 0);
    lemma_filled_around(before, 0, 0);
    let filled = filled_around(s, before.day_quota, before.eve_quota, 0, 0);
    assert(filled_between(s, filled, 0, s.len() as int));
    assert forall|i: int| 0 <= i < s.len() implies {
        let kind = #[trigger] filled[i];
        kind == ShiftKind::Day || kind == ShiftKind::Evening
    } by {
        assert(s[i] != ShiftKind::Rest);
    }
}

/// A member with a single working day is scheduled like any other: the month is finished, the
/// one day holds a day or an evening shift, and there is no mid shift.
pub proof fn lemma_single_working_day(before: EmployeeView)
    requires
        before.is_fresh(),
        before.rest_count + 1 == before.shifts.len(),
    ensures
        scheduled(before).is_finalized(),
        scheduled(before).mid_count == 0,
        scheduled(before).day_quota + scheduled(before).eve_quota == 1,
        scheduled(before).day_quota == before.day_quota,
        scheduled(before).eve_quota == before.eve_quota,
{
    let (start, len) = anchor_of(before.shifts);
    lemma_anchor_exists(before.shifts);
    lemma_scheduled_around(before, start, len);
    lemma_filled_around(before, start, len);
    let filled = filled_around(before.shifts, before.day_quota, before.eve_quota, start, len);
    if abrupt_count(filled) > 0 {
        lemma_abrupt_needs_both(filled, filled.len() as int);
    }
}

/// In a rota planned from requests without a fault, the head counts of every day add up to the
/// number of members.
pub proof fn lemma_tallies_cover_team(rota: Rota, day_count: nat, requests: Seq<RestRequest>)
    requires
        roster_fault(day_count as int, requests) is None,
        is_rota_of(rota, day_count, requests),
    ensures
        forall|i: int|
            0 <= i < day_count ==> (#[trigger] rota.tallies[i]).day + rota.tallies[i].evening
                + rota.tallies[i].mid + rota.tallies[i].rest == rota.members.len(),
{
    assert forall|i: int| 0 <= i < day_count implies (#[trigger] rota.tallies[i]).day
        + rota.tallies[i].evening + rota.tallies[i].mid + rota.tallies[i].rest
        == rota.members.len() by {
        assert(is_tally_of(rota.tallies[i], rota.members@, i));
        assert forall|m: int| 0 <= m < rota.members@.len() implies (
        #[trigger] rota.members@[m])@.shifts[i] != ShiftKind::Unset by {
            lemma_request_faults(day_count as int, requests, 0);
            let request = requests[m];
            assert(rota.members[m]@ == planned_member(day_count, request));
            lemma_fresh_record(request.name@, day_count, request.rest_days@, request.evening);
            lemma_schedule_finishes(
                fresh_record(request.name@, day_count, request.rest_days@, request.evening),
            );
        }
        assert(all_assigned_on(rota.members@, i));
        lemma_head_counts_cover(rota.members@, i);
    }
}

} // verus!
