//! Shift kinds and counting over a month of shifts.

use vstd::prelude::*;

verus! {

/// What a member does on one calendar day.
#[derive(Clone, Copy, Debug, PartialEq, Eq, Structural)]
pub enum ShiftKind {
    /// Not assigned yet; never present in a finished schedule.
    Unset,
    Day,
    Evening,
    Mid,
    Rest,
}

/// Number of days at index `i` or later that hold `kind`.
pub open spec fn count_from(s: Seq<ShiftKind>, i: int, kind: ShiftKind) -> nat
    decreases s.len() - i,
{
    if 0 <= i < s.len() {
        count_from(s, i + 1, kind) + if s[i] == kind { 1nat } else { 0nat }
    } else {
        0
    }
}

/// Number of days before index `p` that hold `kind`.
pub open spec fn count_upto(s: Seq<ShiftKind>, p: int, kind: ShiftKind) -> nat
    decreases p,
{
    if 0 < p <= s.len() {
        count_upto(s, p - 1, kind) + if s[p - 1] == kind { 1nat } else { 0nat }
    } else {
        0
    }
}

/// Number of days in the whole month that hold `kind`.
pub open spec fn count_kind(s: Seq<ShiftKind>, kind: ShiftKind) -> nat {
    count_from(s, 0, kind)
}

/// Number of days at index `i` or later that are not rest days.
pub open spec fn work_from(s: Seq<ShiftKind>, i: int) -> int {
    s.len() - i - count_from(s, i, ShiftKind::Rest)
}

/// Number of days before index `p` that are not rest days.
pub open spec fn work_upto(s: Seq<ShiftKind>, p: int) -> int {
    p - count_upto(s, p, ShiftKind::Rest)
}

/// No day of the month is left unassigned.
pub open spec fn fully_assigned(s: Seq<ShiftKind>) -> bool {
    forall|i: int| 0 <= i < s.len() ==> s[i] != ShiftKind::Unset
}

/// The two months have their rest days on exactly the same dates.
pub open spec fn same_rest_days(a: Seq<ShiftKind>, b: Seq<ShiftKind>) -> bool {
    &&& a.len() == b.len()
    &&& forall|i: int| 0 <= i < a.len() ==> (a[i] == ShiftKind::Rest <==> b[i] == ShiftKind::Rest)
}

pub proof fn lemma_count_from_bound(s: Seq<ShiftKind>, i: int, kind: ShiftKind)
    requires
        0 <= i <= s.len(),
    ensures
        count_from(s, i, kind) <= s.len() - i,
    decreases s.len() - i,
{
    if i < s.len() {
        lemma_count_from_bound(s, i + 1, kind);
    }
}

pub proof fn lemma_count_upto_bound(s: Seq<ShiftKind>, p: int, kind: ShiftKind)
    requires
        0 <= p <= s.len(),
    ensures
        count_upto(s, p, kind) <= p,
    decreases p,
{
    if p > 0 {
        lemma_count_upto_bound(s, p - 1, kind);
    }
}

/// Counting from `i` looks only at the days from `i` on.
pub proof fn lemma_count_from_agree(a: Seq<ShiftKind>, b: Seq<ShiftKind>, i: int, kind: ShiftKind)
    requires
        a.len() == b.len(),
        0 <= i,
        forall|j: int| i <= j < a.len() ==> a[j] == b[j],
    ensures
        count_from(a, i, kind) == count_from(b, i, kind),
    decreases a.len() - i,
{
    if i < a.len() {
        lemma_count_from_agree(a, b, i + 1, kind);
    }
}

/// Counting up to `p` looks only at the days before `p`.
pub proof fn lemma_count_upto_agree(a: Seq<ShiftKind>, b: Seq<ShiftKind>, p: int, kind: ShiftKind)
    requires
        a.len() == b.len(),
        p <= a.len(),
        forall|j: int| 0 <= j < p ==> a[j] == b[j],
    ensures
        count_upto(a, p, kind) == count_upto(b, p, kind),
    decreases p,
{
    if p > 0 {
        lemma_count_upto_agree(a, b, p - 1, kind);
    }
}

/// The days before `p` and the days from `p` on make up the month.
pub proof fn lemma_count_split(s: Seq<ShiftKind>, p: int, kind: ShiftKind)
    requires
        0 <= p <= s.len(),
    ensures
        count_upto(s, p, kind) + count_from(s, p, kind) == count_kind(s, kind),
    decreases p,
{
    if p > 0 {
        lemma_count_split(s, p - 1, kind);
    }
}

/// A stretch of days without `kind` adds nothing to the count.
pub proof fn lemma_count_from_skip(s: Seq<ShiftKind>, i: int, m: int, kind: ShiftKind)
    requires
        0 <= i <= m <= s.len(),
        forall|j: int| i <= j < m ==> s[j] != kind,
    ensures
        count_from(s, i, kind) == count_from(s, m, kind),
    decreases m - i,
{
    if i < m {
        lemma_count_from_skip(s, i + 1, m, kind);
    }
}

/// A stretch of days that all hold `kind` adds its length to the count.
pub proof fn lemma_count_from_run(s: Seq<ShiftKind>, i: int, m: int, kind: ShiftKind)
    requires
        0 <= i <= m <= s.len(),
        forall|j: int| i <= j < m ==> s[j] == kind,
    ensures
        count_from(s, i, kind) == count_from(s, m, kind) + (m - i),
    decreases m - i,
{
    if i < m {
        lemma_count_from_run(s, i + 1, m, kind);
    }
}

/// A stretch of days without `kind`, ending before `p`, adds nothing to the count.
pub proof fn lemma_count_upto_skip(s: Seq<ShiftKind>, q: int, p: int, kind: ShiftKind)
    requires
        0 <= q <= p <= s.len(),
        forall|j: int| q <= j < p ==> s[j] != kind,
    ensures
        count_upto(s, p, kind) == count_upto(s, q, kind),
    decreases p - q,
{
    if q < p {
        lemma_count_upto_skip(s, q, p - 1, kind);
    }
}

/// A stretch of days that all hold `kind`, ending before `p`, adds its length to the count.
pub proof fn lemma_count_upto_run(s: Seq<ShiftKind>, q: int, p: int, kind: ShiftKind)
    requires
        0 <= q <= p <= s.len(),
        forall|j: int| q <= j < p ==> s[j] == kind,
    ensures
        count_upto(s, p, kind) == count_upto(s, q, kind) + (p - q),
    decreases p - q,
{
    if q < p {
        lemma_count_upto_run(s, q, p - 1, kind);
    }
}

/// A kind that occurs nowhere from `i` on has count zero there, and conversely.
pub proof fn lemma_count_from_zero(s: Seq<ShiftKind>, i: int, kind: ShiftKind)
    requires
        0 <= i <= s.len(),
    ensures
        count_from(s, i, kind) == 0 <==> (forall|j: int| i <= j < s.len() ==> s[j] != kind),
    decreases s.len() - i,
{
    if i < s.len() {
        lemma_count_from_zero(s, i + 1, kind);
        if count_from(s, i, kind) == 0 {
            assert forall|j: int| i <= j < s.len() implies s[j] != kind by {
                if j > i {
                }
            }
        }
    }
}

/// Changing one day changes the counts of the kind that leaves and of the kind that comes.
pub proof fn lemma_count_set(s: Seq<ShiftKind>, i: int, to: ShiftKind, kind: ShiftKind)
    requires
        0 <= i < s.len(),
    ensures
        count_kind(s.update(i, to), kind) + (if s[i] == kind {
            1nat
        } else {
            0nat
        }) == count_kind(s, kind) + (if to == kind {
            1nat
        } else {
            0nat
        }),
{
    let t = s.update(i, to);
    lemma_count_split(s, i, kind);
    lemma_count_split(t, i, kind);
    lemma_count_upto_agree(s, t, i, kind);
    lemma_count_from_agree(s, t, i + 1, kind);
}

/// Months with the same rest days have the same number of them.
pub proof fn lemma_same_rest_count(a: Seq<ShiftKind>, b: Seq<ShiftKind>, i: int)
    requires
        same_rest_days(a, b),
        0 <= i,
    ensures
        count_from(a, i, ShiftKind::Rest) == count_from(b, i, ShiftKind::Rest),
    decreases a.len() - i,
{
    if i < a.len() {
        lemma_same_rest_count(a, b, i + 1);
    }
}

} // verus!
