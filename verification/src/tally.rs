//! Head counts per day over the whole team.

use vstd::prelude::*;
use crate::employee::Employee;
use crate::shift::ShiftKind;

verus! {

/// How many members are on each kind of shift on one day.
#[derive(Clone, Copy, Debug, PartialEq, Eq, Structural)]
pub struct DailyTally {
    pub day: usize,
    pub evening: usize,
    pub mid: usize,
    pub rest: usize,
}

/// Number of the first `m` members who hold `kind` on day `i`.
pub open spec fn on_shift(team: Seq<Employee>, m: int, i: int, kind: ShiftKind) -> nat
    decreases m,
{
    if 0 < m <= team.len() {
        on_shift(team, m - 1, i, kind) + if team[m - 1]@.shifts[i] == kind {
            1nat
        } else {
            0nat
        }
    } else {
        0
    }
}

/// Number of members who hold `kind` on day `i`.
pub open spec fn head_count(team: Seq<Employee>, i: int, kind: ShiftKind) -> nat {
    on_shift(team, team.len() as int, i, kind)
}

/// The tally counts the members on each kind of shift on day `i`.
pub open spec fn is_tally_of(tally: DailyTally, team: Seq<Employee>, i: int) -> bool {
    &&& tally.day == head_count(team, i, ShiftKind::Day)
    &&& tally.evening == head_count(team, i, ShiftKind::Evening)
    &&& tally.mid == head_count(team, i, ShiftKind::Mid)
    &&& tally.rest == head_count(team, i, ShiftKind::Rest)
}

/// Every member has a shift or a rest on day `i`.
pub open spec fn all_assigned_on(team: Seq<Employee>, i: int) -> bool {
    forall|m: int| 0 <= m < team.len() ==> (#[trigger] team[m])@.shifts[i] != ShiftKind::Unset
}

/// Every month in the team has `day_count` days.
pub open spec fn months_of(team: Seq<Employee>, day_count: int) -> bool {
    forall|m: int| 0 <= m < team.len() ==> (#[trigger] team[m])@.shifts.len() == day_count
}

/// On any day each of the first `m` members is counted under exactly one kind.
pub proof fn lemma_on_shift_cover(team: Seq<Employee>, m: int, i: int)
    requires
        0 <= m <= team.len(),
    ensures
        on_shift(team, m, i, ShiftKind::Unset) + on_shift(team, m, i, ShiftKind::Day) + on_shift(
            team,
            m,
            i,
            ShiftKind::Evening,
        ) + on_shift(team, m, i, ShiftKind::Mid) + on_shift(team, m, i, ShiftKind::Rest) == m,
    decreases m,
{
    if m > 0 {
        lemma_on_shift_cover(team, m - 1, i);
    }
}

/// A kind that none of the first `m` members holds on day `i` is counted zero times.
pub proof fn lemma_on_shift_none(team: Seq<Employee>, m: int, i: int, kind: ShiftKind)
    requires
        0 <= m <= team.len(),
        forall|j: int| 0 <= j < m ==> (#[trigger] team[j])@.shifts[i] != kind,
    ensures
        on_shift(team, m, i, kind) == 0,
    decreases m,
{
    if m > 0 {
        lemma_on_shift_none(team, m - 1, i, kind);
    }
}

/// The head counts of a day depend on the members' schedules only.
pub proof fn lemma_on_shift_agree(
    team1: Seq<Employee>,
    team2: Seq<Employee>,
    m: int,
    i: int,
    kind: ShiftKind,
)
    requires
        team1.len() == team2.len(),
        0 <= m <= team1.len(),
        forall|j: int| 0 <= j < m ==> (#[trigger] team1[j])@ == team2[j]@,
    ensures
        on_shift(team1, m, i, kind) == on_shift(team2, m, i, kind),
    decreases m,
{
    if m > 0 {
        lemma_on_shift_agree(team1, team2, m - 1, i, kind);
        assert(team1[m - 1]@ == team2[m - 1]@);
    }
}

/// Where every member is assigned on day `i`, the four head counts add up to the team.
pub proof fn lemma_head_counts_cover(team: Seq<Employee>, i: int)
    requires
        all_assigned_on(team, i),
    ensures
        head_count(team, i, ShiftKind::Day) + head_count(team, i, ShiftKind::Evening) + head_count(
            team,
            i,
            ShiftKind::Mid,
        ) + head_count(team, i, ShiftKind::Rest) == team.len(),
{
    lemma_on_shift_cover(team, team.len() as int, i);
    lemma_on_shift_none(team, team.len() as int, i, ShiftKind::Unset);
}

/// Counts, for every day of the month, the members on each kind of shift.
pub fn aggregate(team: &Vec<Employee>, day_count: usize) -> (tallies: Vec<DailyTally>)
    requires
        months_of(team@, day_count as int),
    ensures
        tallies.len() == day_count,
        forall|i: int| 0 <= i < day_count ==> is_tally_of(#[trigger] tallies[i], team@, i),
        forall|i: int|
            0 <= i < day_count && all_assigned_on(team@, i) ==> (#[trigger] tallies[i]).day
                + tallies[i].evening + tallies[i].mid + tallies[i].rest == team.len(),
{
    let mut tallies: Vec<DailyTally> = Vec::new();
    let mut i: usize = 0;
    while i < day_count
        invariant
            i <= day_count,
            tallies.len() == i,
            months_of(team@, day_count as int),
            forall|j: int| 0 <= j < i ==> is_tally_of(#[trigger] tallies[j], team@, j),
        decreases day_count - i,
    {
        let mut tally = DailyTally { day: 0, evening: 0, mid: 0, rest: 0 };
        let mut m: usize = 0;
        while m < team.len()
            invariant
                i < day_count,
                m <= team.len(),
                months_of(team@, day_count as int),
                tally.day == on_shift(team@, m as int, i as int, ShiftKind::Day),
                tally.evening == on_shift(team@, m as int, i as int, ShiftKind::Evening),
                tally.mid == on_shift(team@, m as int, i as int, ShiftKind::Mid),
                tally.rest == on_shift(team@, m as int, i as int, ShiftKind::Rest),
            decreases team.len() - m,
        {
            proof {
                lemma_on_shift_cover(team@, m as int, i as int);
            }
            match team[m].shift_on(i) {
                ShiftKind::Day => {
                    tally.day += 1;
                },
                ShiftKind::Evening => {
                    tally.evening += 1;
                },
                ShiftKind::Mid => {
                    tally.mid += 1;
                },
                ShiftKind::Rest => {
                    tally.rest += 1;
                },
                ShiftKind::Unset => {},
            }
            m += 1;
        }
        tallies.push(tally);
        i += 1;
    }
    proof {
        assert forall|i: int| 0 <= i < day_count && all_assigned_on(team@, i) implies (
        #[trigger] tallies[i]).day + tallies[i].evening + tallies[i].mid + tallies[i].rest
            == team.len() by {
            lemma_head_counts_cover(team@, i);
        }
    }
    tallies
}

} // verus!
