//! Planning a month for the whole team.

use vstd::prelude::*;
use crate::employee::{fresh_record, scheduled, Employee, EmployeeView};
use crate::error::RosterError;
use crate::request::RestRequest;
use crate::tally::{aggregate, all_assigned_on, is_tally_of, months_of, DailyTally};

verus! {

/// The planned month: every member's schedule, and the head counts of every day.
#[derive(Clone, Debug)]
pub struct Rota {
    pub members: Vec<Employee>,
    pub tallies: Vec<DailyTally>,
}

/// The fault of the first faulty request at place `k` or later.
pub open spec fn first_request_fault(day_count: int, requests: Seq<RestRequest>, k: int) -> Option<
    RosterError,
>
    decreases requests.len() - k,
{
    if 0 <= k < requests.len() {
        let fault = requests[k].fault(day_count);
        if fault is Some {
            fault
        } else {
            first_request_fault(day_count, requests, k + 1)
        }
    } else {
        None
    }
}

/// Why no rota is planned, if none is: the month's length is wrong, or a request is faulty.
pub open spec fn roster_fault(day_count: int, requests: Seq<RestRequest>) -> Option<RosterError> {
    if day_count < 1 || day_count > 31 {
        Some(RosterError::DayCountOutOfRange)
    } else {
        first_request_fault(day_count, requests, 0)
    }
}

/// The finished record of the member who made the request.
pub open spec fn planned_member(day_count: nat, request: RestRequest) -> EmployeeView {
    scheduled(fresh_record(request.name@, day_count, request.rest_days@, request.evening))
}

/// The rota is the plan for the requests: every member's finished record in the order of the
/// requests, and the head counts of every day.
pub open spec fn is_rota_of(rota: Rota, day_count: nat, requests: Seq<RestRequest>) -> bool {
    &&& rota.members.len() == requests.len()
    &&& rota.tallies.len() == day_count
    &&& forall|m: int|
        0 <= m < requests.len() ==> (#[trigger] rota.members[m])@ == planned_member(
            day_count,
            requests[m],
        )
    &&& forall|i: int|
        0 <= i < day_count ==> is_tally_of(#[trigger] rota.tallies[i], rota.members@, i)
}

/// Where the first fault from place `k` on is none, no request from `k` on has a fault.
pub proof fn lemma_request_faults(day_count: int, requests: Seq<RestRequest>, k: int)
    requires
        0 <= k <= requests.len(),
        first_request_fault(day_count, requests, k) is None,
    ensures
        forall|j: int|
            k <= j < requests.len() ==> (#[trigger] requests[j]).fault(day_count) is None,
    decreases requests.len() - k,
{
    if k < requests.len() {
        lemma_request_faults(day_count, requests, k + 1);
    }
}

/// Requests without a fault do not matter for the first fault.
pub proof fn lemma_first_request_fault_skip(day_count: int, requests: Seq<RestRequest>, k: int)
    requires
        0 <= k <= requests.len(),
        forall|j: int| 0 <= j < k ==> (#[trigger] requests[j]).fault(day_count) is None,
    ensures
        first_request_fault(day_count, requests, 0) == first_request_fault(day_count, requests, k),
    decreases k,
{
    if k > 0 {
        lemma_first_request_fault_skip(day_count, requests, k - 1);
    }
}

/// Plans the month for the team.
///
/// All requests are checked before anyone is scheduled; the first faulty one decides the error,
/// and then nothing is planned. Each member is scheduled independently of the others.
pub fn plan_month(day_count: usize, requests: &Vec<RestRequest>) -> (plan: Result<
    Rota,
    RosterError,
>)
    ensures
        roster_fault(day_count as int, requests@) matches Some(fault) ==> plan == Err::<
            Rota,
            RosterError,
        >(fault),
        roster_fault(day_count as int, requests@) is None ==> (plan matches Ok(rota) && is_rota_of(
            rota,
            day_count as nat,
            requests@,
        ) && (forall|m: int|
            0 <= m < requests.len() ==> (#[trigger] rota.members[m])@.is_finalized()) && (forall|
            i: int,
        |
            0 <= i < day_count ==> (#[trigger] rota.tallies[i]).day + rota.tallies[i].evening
                + rota.tallies[i].mid + rota.tallies[i].rest == requests.len())),
{
    if day_count < 1 || day_count > 31 {
        return Err(RosterError::DayCountOutOfRange);
    }
    let mut members: Vec<Employee> = Vec::new();
    let mut k: usize = 0;
    while k < requests.len()
        invariant
            1 <= day_count <= 31,
            k <= requests.len(),
            members.len() == k,
            forall|j: int| 0 <= j < k ==> (#[trigger] requests[j]).fault(day_count as int) is None,
            forall|j: int|
                0 <= j < k ==> (#[trigger] members[j])@ == fresh_record(
                    requests[j].name@,
                    day_count as nat,
                    requests[j].rest_days@,
                    requests[j].evening,
                ) && members[j]@.is_fresh(),
        decreases requests.len() - k,
    {
        let request = &requests[k];
        proof {
            lemma_first_request_fault_skip(day_count as int, requests@, k as int);
        }
        match Employee::new(
            request.name.clone(),
            day_count,
            request.rest_count,
            &request.rest_days,
            request.evening,
        ) {
            Ok(member) => {
                members.push(member);
            },
            Err(fault) => {
                return Err(fault);
            },
        }
        k += 1;
    }
    proof {
        lemma_first_request_fault_skip(day_count as int, requests@, k as int);
    }
    let mut m: usize = 0;
    while m < members.len()
        invariant
            m <= members.len(),
            members.len() == requests.len(),
            forall|j: int|
                0 <= j < m ==> (#[trigger] members[j])@ == planned_member(
                    day_count as nat,
                    requests[j],
                ) && members[j]@.is_finalized() && members[j]@.shifts.len() == day_count,
            forall|j: int|
                m <= j < members.len() ==> (#[trigger] members[j])@ == fresh_record(
                    requests[j].name@,
                    day_count as nat,
                    requests[j].rest_days@,
                    requests[j].evening,
                ) && members[j]@.is_fresh(),
        decreases members.len() - m,
    {
        members[m].schedule();
        m += 1;
    }
    proof {
        assert(months_of(members@, day_count as int));
        assert forall|i: int| 0 <= i < day_count implies all_assigned_on(members@, i) by {
            assert forall|j: int| 0 <= j < members.len() implies (#[trigger] members@[j])@.shifts[i]
                != crate::shift::ShiftKind::Unset by {
                assert(members[j]@.is_finalized());
            }
        }
    }
    let tallies = aggregate(&members, day_count);
    Ok(Rota { members, tallies })
}

} // verus!
