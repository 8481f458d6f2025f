//! A team member's month: the rest days asked for, the quotas, and the schedule.

use vstd::prelude::*;
use crate::anchor::{anchor_of, get_max_rest, is_anchor, lemma_anchor_of, lemma_anchor_shape};
use crate::error::RosterError;
use crate::fill::{
    backward_fill, backward_start, fill_backward, fill_forward, filled_between, forward_fill,
    forward_start, lemma_backward_fill_counts, lemma_backward_fill_shape,
    lemma_forward_fill_counts, lemma_forward_fill_shape, FillState,
};
use crate::quota::{quota_split, split_quota};
use crate::request::{
    lemma_first_fault_skip, lemma_marked_count, lemma_marked_step, lemma_no_fault, marked_upto,
    request_fault, rest_day_fault, rest_days_marked,
};
use crate::shift::{
    count_kind, fully_assigned, lemma_count_from_agree, lemma_count_from_run,
    lemma_count_from_skip, lemma_count_from_zero, lemma_count_split, lemma_count_upto_agree,
    lemma_count_upto_bound, lemma_same_rest_count, same_rest_days, work_from, work_upto,
    ShiftKind,
};
use crate::transition::{
    abrupt_count, apply_transition_rule, eased, lemma_eased_counts, lemma_eased_no_abrupt_change,
    no_abrupt_change,
};

verus! {

/// A team member's month.
#[derive(Clone, Debug)]
pub struct Employee {
    name: String,
    shifts: Vec<ShiftKind>,
    day_quota: usize,
    eve_quota: usize,
    mid_count: usize,
    rest_count: usize,
}

/// What a member's record stands for.
///
/// Before scheduling `day_quota` and `eve_quota` are the day and evening shifts that the member
/// is to get; afterwards they are the day and evening shifts that the member has.
pub struct EmployeeView {
    pub name: Seq<char>,
    pub shifts: Seq<ShiftKind>,
    pub day_quota: nat,
    pub eve_quota: nat,
    pub mid_count: nat,
    pub rest_count: nat,
}

impl EmployeeView {
    /// The four numbers add up to the days of the month, and `rest_count` counts the rest days.
    pub open spec fn well_formed(self) -> bool {
        &&& self.day_quota + self.eve_quota + self.mid_count + self.rest_count == self.shifts.len()
        &&& self.rest_count == count_kind(self.shifts, ShiftKind::Rest)
    }

    /// The record as it is made: rest days fixed, everything else open.
    pub open spec fn is_fresh(self) -> bool {
        &&& self.well_formed()
        &&& self.mid_count == 0
        &&& forall|i: int|
            0 <= i < self.shifts.len() ==> self.shifts[i] == ShiftKind::Rest || self.shifts[i]
                == ShiftKind::Unset
    }

    /// The record once scheduled: every day assigned, and each number counts its kind.
    pub open spec fn is_finalized(self) -> bool {
        &&& self.well_formed()
        &&& fully_assigned(self.shifts)
        &&& self.day_quota == count_kind(self.shifts, ShiftKind::Day)
        &&& self.eve_quota == count_kind(self.shifts, ShiftKind::Evening)
        &&& self.mid_count == count_kind(self.shifts, ShiftKind::Mid)
    }
}

/// The record made from a valid request.
pub open spec fn fresh_record(
    name: Seq<char>,
    day_count: nat,
    days: Seq<usize>,
    evening: Option<usize>,
) -> EmployeeView {
    EmployeeView {
        name,
        shifts: rest_days_marked(day_count, days),
        day_quota: quota_split(day_count as int, days.len() as int, evening).0,
        eve_quota: quota_split(day_count as int, days.len() as int, evening).1,
        mid_count: 0,
        rest_count: days.len(),
    }
}

/// A request without a fault gives a fresh record.
pub proof fn lemma_fresh_record(
    name: Seq<char>,
    day_count: nat,
    days: Seq<usize>,
    evening: Option<usize>,
)
    requires
        request_fault(day_count as int, days.len() as int, days, evening) is None,
    ensures
        fresh_record(name, day_count, days, evening).is_fresh(),
        fresh_record(name, day_count, days, evening).shifts.len() == day_count,
{
    lemma_no_fault(days, day_count as int, 0);
    lemma_marked_count(day_count, days, days.len() as int);
    assert(rest_days_marked(day_count, days) =~= marked_upto(day_count, days, days.len() as int));
}

/// The state after both fills around the rest block `start .. start + len`: forward from the
/// end of the block with the full quotas, then backward from its start with what the forward
/// fill left.
pub open spec fn fills_around(
    shifts: Seq<ShiftKind>,
    day_quota: nat,
    eve_quota: nat,
    start: int,
    len: int,
) -> FillState {
    let forward = forward_fill(forward_start(shifts, day_quota, eve_quota), start + len);
    backward_fill(backward_start(forward.shifts, forward.day_left, forward.eve_left), start)
}

/// The month after both fills around the rest block `start .. start + len`, before the
/// transition rule.
pub open spec fn filled_around(
    shifts: Seq<ShiftKind>,
    day_quota: nat,
    eve_quota: nat,
    start: int,
    len: int,
) -> Seq<ShiftKind> {
    fills_around(shifts, day_quota, eve_quota, start, len).shifts
}

/// The record after scheduling around the rest block `start .. start + len`.
pub open spec fn scheduled_around(before: EmployeeView, start: int, len: int) -> EmployeeView {
    let filled = filled_around(before.shifts, before.day_quota, before.eve_quota, start, len);
    let mids = abrupt_count(filled);
    EmployeeView {
        name: before.name,
        shifts: eased(filled),
        day_quota: (before.day_quota - mids) as nat,
        eve_quota: before.eve_quota,
        mid_count: before.mid_count + mids,
        rest_count: before.rest_count,
    }
}

/// The record after scheduling: filled around the anchor of the month, then eased.
pub open spec fn scheduled(before: EmployeeView) -> EmployeeView {
    scheduled_around(before, anchor_of(before.shifts).0, anchor_of(before.shifts).1)
}

/// Both fills together give every working day a day or an evening shift, as many of each as
/// the quotas say, and leave the rest days alone. The quotas are used up, and no shift is given
/// beyond them.
pub proof fn lemma_filled_around(before: EmployeeView, start: int, len: int)
    requires
        before.is_fresh(),
        is_anchor(before.shifts, start, len),
    ensures
        filled_between(
            before.shifts,
            filled_around(before.shifts, before.day_quota, before.eve_quota, start, len),
            0,
            before.shifts.len() as int,
        ),
        filled_around(before.shifts, before.day_quota, before.eve_quota, start, len).len()
            == before.shifts.len(),
        count_kind(
            filled_around(before.shifts, before.day_quota, before.eve_quota, start, len),
            ShiftKind::Day,
        ) == before.day_quota,
        count_kind(
            filled_around(before.shifts, before.day_quota, before.eve_quota, start, len),
            ShiftKind::Evening,
        ) == before.eve_quota,
        fills_around(before.shifts, before.day_quota, before.eve_quota, start, len).day_left == 0,
        fills_around(before.shifts, before.day_quota, before.eve_quota, start, len).eve_left == 0,
        fills_around(before.shifts, before.day_quota, before.eve_quota, start, len).excess == 0,
{
    let s = before.shifts;
    let n = s.len() as int;
    let d = before.day_quota;
    let e = before.eve_quota;
    let stop = start + len;
    lemma_anchor_shape(s, start, len);

    // The working days before and behind the anchor are the days that the quotas cover.
    lemma_count_split(s, start, ShiftKind::Rest);
    lemma_count_from_run(s, start, stop, ShiftKind::Rest);
    lemma_count_upto_bound(s, start, ShiftKind::Rest);
    assert(work_upto(s, start) + work_from(s, stop) == d + e);

    let f0 = forward_start(s, d, e);
    let f = forward_fill(f0, stop);
    lemma_forward_fill_shape(f0, stop);
    lemma_forward_fill_counts(f0, stop);

    lemma_count_upto_agree(s, f.shifts, start, ShiftKind::Rest);
    let b0 = backward_start(f.shifts, f.day_left, f.eve_left);
    let b = backward_fill(b0, start);
    lemma_backward_fill_shape(b0, start);
    lemma_backward_fill_counts(b0, start);
    assert(b.shifts == filled_around(s, d, e, start, len));

    assert(filled_between(s, b.shifts, 0, n)) by {
        assert forall|j: int| 0 <= j < n implies if s[j] == ShiftKind::Rest {
            #[trigger] b.shifts[j] == ShiftKind::Rest
        } else {
            b.shifts[j] == ShiftKind::Day || b.shifts[j] == ShiftKind::Evening
        } by {
            if j < start {
                assert(f.shifts[j] == s[j]);
            } else {
                assert(b.shifts[j] == f.shifts[j]);
                if j < stop {
                    assert(f.shifts[j] == s[j]);
                }
            }
        }
    }

    lemma_count_split(b.shifts, start, ShiftKind::Day);
    lemma_count_split(b.shifts, start, ShiftKind::Evening);
    lemma_count_from_skip(b.shifts, start, stop, ShiftKind::Day);
    lemma_count_from_skip(b.shifts, start, stop, ShiftKind::Evening);
    lemma_count_from_agree(b.shifts, f.shifts, stop, ShiftKind::Day);
    lemma_count_from_agree(b.shifts, f.shifts, stop, ShiftKind::Evening);
}

/// Scheduling a fresh record around its anchor yields a finished one: every day is assigned,
/// the rest days are those asked for, no day shift follows an evening shift, and the numbers
/// count the shifts of their kind.
pub proof fn lemma_scheduled_around(before: EmployeeView, start: int, len: int)
    requires
        before.is_fresh(),
        is_anchor(before.shifts, start, len),
    ensures
        scheduled_around(before, start, len).is_finalized(),
        same_rest_days(before.shifts, scheduled_around(before, start, len).shifts),
        no_abrupt_change(scheduled_around(before, start, len).shifts),
        scheduled_around(before, start, len) == scheduled(before),
{
    let s = before.shifts;
    let n = s.len() as int;
    let filled = filled_around(s, before.day_quota, before.eve_quota, start, len);
    let after = scheduled_around(before, start, len);
    lemma_anchor_of(s, start, len);
    lemma_filled_around(before, start, len);
    lemma_eased_counts(filled);
    lemma_eased_no_abrupt_change(filled);
    lemma_count_from_zero(filled, 0, ShiftKind::Mid);
    assert(count_kind(filled, ShiftKind::Mid) == 0) by {
        assert forall|j: int| 0 <= j < n implies filled[j] != ShiftKind::Mid by {
            assert(filled_between(s, filled, 0, n));
        }
    }
    assert forall|j: int| 0 <= j < n implies (s[j] == ShiftKind::Rest <==> after.shifts[j]
        == ShiftKind::Rest) && after.shifts[j] != ShiftKind::Unset by {
        assert(filled_between(s, filled, 0, n));
        if s[j] == ShiftKind::Rest {
            assert(filled[j] == ShiftKind::Rest);
        } else {
            assert(filled[j] == ShiftKind::Day || filled[j] == ShiftKind::Evening);
        }
    }
    lemma_same_rest_count(s, after.shifts, 0);
}

impl View for Employee {
    type V = EmployeeView;

    closed spec fn view(&self) -> EmployeeView {
        EmployeeView {
            name: self.name@,
            shifts: self.shifts@,
            day_quota: self.day_quota as nat,
            eve_quota: self.eve_quota as nat,
            mid_count: self.mid_count as nat,
            rest_count: self.rest_count as nat,
        }
    }
}

impl Employee {
    /// Makes the record of a member from the request for the month.
    ///
    /// `rest_days` lists the days of rest, counted from 1, and `rest_count` says how many they
    /// are. `evening` fixes the number of evening shifts where the member has such an
    /// arrangement. The request is checked before anything is made.
    pub fn new(
        name: String,
        day_count: usize,
        rest_count: usize,
        rest_days: &Vec<usize>,
        evening: Option<usize>,
    ) -> (made: Result<Employee, RosterError>)
        ensures
            request_fault(day_count as int, rest_count as int, rest_days@, evening) matches Some(
                fault,
            ) ==> made == Err::<Employee, RosterError>(fault),
            request_fault(day_count as int, rest_count as int, rest_days@, evening) is None ==> (
            made matches Ok(member) && member@ == fresh_record(
                name@,
                day_count as nat,
                rest_days@,
                evening,
            ) && member@.is_fresh()),
    {
        if day_count < 1 || day_count > 31 {
            return Err(RosterError::DayCountOutOfRange);
        }
        if rest_count > day_count {
            return Err(RosterError::RestCountExceedsMonth);
        }
        if rest_count != rest_days.len() {
            return Err(RosterError::RestCountMismatch);
        }
        let mut shifts: Vec<ShiftKind> = Vec::new();
        let mut i: usize = 0;
        while i < day_count
            invariant
                i <= day_count,
                shifts.len() == i,
                forall|j: int| 0 <= j < i ==> shifts[j] == ShiftKind::Unset,
            decreases day_count - i,
        {
            shifts.push(ShiftKind::Unset);
            i += 1;
        }
        let ghost days = rest_days@;
        let mut k: usize = 0;
        while k < rest_days.len()
            invariant
                days == rest_days@,
                1 <= day_count <= 31,
                rest_count <= day_count,
                rest_count == days.len(),
                k <= days.len(),
                shifts.len() == day_count,
                forall|j: int| 0 <= j < k ==> rest_day_fault(days, day_count as int, j) is None,
                shifts@ == marked_upto(day_count as nat, days, k as int),
            decreases days.len() - k,
        {
            let day = rest_days[k];
            proof {
                lemma_first_fault_skip(days, day_count as int, k as int);
            }
            if day < 1 || day > day_count {
                return Err(RosterError::RestDayOutOfRange);
            }
            if shifts[day - 1] == ShiftKind::Rest {
                return Err(RosterError::DuplicateRestDay);
            }
            proof {
                lemma_marked_step(day_count as nat, days, k as int);
            }
            shifts[day - 1] = ShiftKind::Rest;
            k += 1;
        }
        proof {
            lemma_first_fault_skip(days, day_count as int, k as int);
            assert(shifts@ =~= rest_days_marked(day_count as nat, days));
        }
        match split_quota(day_count, rest_count, evening) {
            Ok((day_quota, eve_quota)) => {
                proof {
                    lemma_fresh_record(name@, day_count as nat, days, evening);
                }
                Ok(Employee { name, shifts, day_quota, eve_quota, mid_count: 0, rest_count })
            },
            Err(fault) => Err(fault),
        }
    }

    /// The member's name.
    pub fn name(&self) -> (name: &String)
        ensures
            name@ == self@.name,
    {
        &self.name
    }

    /// The shifts of the month, one for each day.
    pub fn shifts(&self) -> (shifts: &Vec<ShiftKind>)
        ensures
            shifts@ == self@.shifts,
    {
        &self.shifts
    }

    /// Number of days of the month.
    pub fn day_count(&self) -> (days: usize)
        ensures
            days == self@.shifts.len(),
    {
        self.shifts.len()
    }

    /// The shift on the day with the given index, the first day of the month having index 0.
    pub fn shift_on(&self, day: usize) -> (kind: ShiftKind)
        requires
            day < self@.shifts.len(),
        ensures
            kind == self@.shifts[day as int],
    {
        self.shifts[day]
    }

    /// Day shifts: those to be given before scheduling, those held after it.
    pub fn day_quota(&self) -> (quota: usize)
        ensures
            quota == self@.day_quota,
    {
        self.day_quota
    }

    /// Evening shifts: those to be given before scheduling, those held after it.
    pub fn evening_quota(&self) -> (quota: usize)
        ensures
            quota == self@.eve_quota,
    {
        self.eve_quota
    }

    /// Number of mid shifts.
    pub fn mid_count(&self) -> (count: usize)
        ensures
            count == self@.mid_count,
    {
        self.mid_count
    }

    /// Number of rest days.
    pub fn rest_count(&self) -> (count: usize)
        ensures
            count == self@.rest_count,
    {
        self.rest_count
    }

    /// Gives the member the shifts of the month.
    ///
    /// The working days behind the longest rest block are filled first, beginning with evening
    /// shifts, then the working days before it, beginning with day shifts; last, every day
    /// shift that directly follows an evening shift becomes a mid shift.
    pub fn schedule(&mut self)
        requires
            old(self)@.is_fresh(),
        ensures
            final(self)@ == scheduled(old(self)@),
            final(self)@.is_finalized(),
            same_rest_days(old(self)@.shifts, final(self)@.shifts),
            no_abrupt_change(final(self)@.shifts),
    {
        let ghost before = self@;
        let (start, len) = get_max_rest(&self.shifts);
        proof {
            assert(self.shifts@ == before.shifts);
            lemma_anchor_shape(before.shifts, start as int, len as int);
            lemma_count_split(before.shifts, start as int, ShiftKind::Rest);
            lemma_count_from_run(before.shifts, start as int, start + len, ShiftKind::Rest);
            lemma_count_upto_bound(before.shifts, start as int, ShiftKind::Rest);
            lemma_filled_around(before, start as int, len as int);
            lemma_scheduled_around(before, start as int, len as int);
        }
        assert(start + len <= self.shifts.len());
        let stop = start + len;
        let (day_left, eve_left) = fill_forward(
            &mut self.shifts,
            stop,
            self.day_quota,
            self.eve_quota,
        );
        let _ = fill_backward(&mut self.shifts, start, day_left, eve_left);
        let mids = apply_transition_rule(&mut self.shifts);
        self.day_quota = self.day_quota - mids;
        self.mid_count = self.mid_count + mids;
    }
}

} // verus!
