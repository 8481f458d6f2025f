//! The rule against going from an evening shift straight into a day shift.

use vstd::prelude::*;
use crate::shift::{count_kind, count_upto, lemma_count_from_zero, lemma_count_split, ShiftKind};

verus! {

/// Day `i` holds a day shift and the day before it an evening shift.
pub open spec fn abrupt_at(s: Seq<ShiftKind>, i: int) -> bool {
    0 < i < s.len() && s[i - 1] == ShiftKind::Evening && s[i] == ShiftKind::Day
}

/// The month with every day shift that follows an evening shift turned into a mid shift.
pub open spec fn eased(s: Seq<ShiftKind>) -> Seq<ShiftKind> {
    Seq::new(
        s.len(),
        |i: int|
            if abrupt_at(s, i) {
                ShiftKind::Mid
            } else {
                s[i]
            },
    )
}

/// The month with that change made on the days before `p` only.
pub open spec fn eased_upto(s: Seq<ShiftKind>, p: int) -> Seq<ShiftKind> {
    Seq::new(
        s.len(),
        |i: int|
            if i < p && abrupt_at(s, i) {
                ShiftKind::Mid
            } else {
                s[i]
            },
    )
}

/// Number of days before `p` that hold a day shift right after an evening shift.
pub open spec fn abrupt_upto(s: Seq<ShiftKind>, p: int) -> nat
    decreases p,
{
    if 0 < p <= s.len() {
        abrupt_upto(s, p - 1) + if abrupt_at(s, p - 1) {
            1nat
        } else {
            0nat
        }
    } else {
        0
    }
}

/// Number of day shifts in the month that directly follow an evening shift.
pub open spec fn abrupt_count(s: Seq<ShiftKind>) -> nat {
    abrupt_upto(s, s.len() as int)
}

/// No evening shift is directly followed by a day shift.
pub open spec fn no_abrupt_change(s: Seq<ShiftKind>) -> bool {
    forall|i: int|
        0 <= i && i + 1 < s.len() ==> !(s[i] == ShiftKind::Evening && #[trigger] s[i + 1]
            == ShiftKind::Day)
}

/// Easing a month leaves no evening shift directly followed by a day shift.
pub proof fn lemma_eased_no_abrupt_change(s: Seq<ShiftKind>)
    ensures
        no_abrupt_change(eased(s)),
{
    let t = eased(s);
    assert forall|i: int| 0 <= i && i + 1 < t.len() implies !(t[i] == ShiftKind::Evening
        && #[trigger] t[i + 1] == ShiftKind::Day) by {
        if t[i] == ShiftKind::Evening && t[i + 1] == ShiftKind::Day {
            assert(s[i] == ShiftKind::Evening);
            assert(abrupt_at(s, i + 1));
        }
    }
}

/// Easing moves as many shifts from day to mid as there are abrupt changes, and nothing else.
pub proof fn lemma_eased_counts_upto(s: Seq<ShiftKind>, p: int)
    requires
        0 <= p <= s.len(),
    ensures
        count_upto(eased(s), p, ShiftKind::Day) + abrupt_upto(s, p) == count_upto(
            s,
            p,
            ShiftKind::Day,
        ),
        count_upto(eased(s), p, ShiftKind::Mid) == count_upto(s, p, ShiftKind::Mid) + abrupt_upto(
            s,
            p,
        ),
        count_upto(eased(s), p, ShiftKind::Evening) == count_upto(s, p, ShiftKind::Evening),
        count_upto(eased(s), p, ShiftKind::Rest) == count_upto(s, p, ShiftKind::Rest),
        count_upto(eased(s), p, ShiftKind::Unset) == count_upto(s, p, ShiftKind::Unset),
        abrupt_upto(s, p) <= p,
    decreases p,
{
    if p > 0 {
        lemma_eased_counts_upto(s, p - 1);
    }
}

/// Easing moves as many shifts from day to mid as there are abrupt changes, and nothing else.
pub proof fn lemma_eased_counts(s: Seq<ShiftKind>)
    ensures
        count_kind(eased(s), ShiftKind::Day) + abrupt_count(s) == count_kind(s, ShiftKind::Day),
        count_kind(eased(s), ShiftKind::Mid) == count_kind(s, ShiftKind::Mid) + abrupt_count(s),
        count_kind(eased(s), ShiftKind::Evening) == count_kind(s, ShiftKind::Evening),
        count_kind(eased(s), ShiftKind::Rest) == count_kind(s, ShiftKind::Rest),
        count_kind(eased(s), ShiftKind::Unset) == count_kind(s, ShiftKind::Unset),
{
    let n = s.len() as int;
    let t = eased(s);
    lemma_eased_counts_upto(s, n);
    lemma_count_split(s, n, ShiftKind::Day);
    lemma_count_split(s, n, ShiftKind::Mid);
    lemma_count_split(s, n, ShiftKind::Evening);
    lemma_count_split(s, n, ShiftKind::Rest);
    lemma_count_split(s, n, ShiftKind::Unset);
    lemma_count_split(t, n, ShiftKind::Day);
    lemma_count_split(t, n, ShiftKind::Mid);
    lemma_count_split(t, n, ShiftKind::Evening);
    lemma_count_split(t, n, ShiftKind::Rest);
    lemma_count_split(t, n, ShiftKind::Unset);
}

/// A month with an abrupt change has both a day and an evening shift.
pub proof fn lemma_abrupt_needs_both(s: Seq<ShiftKind>, p: int)
    requires
        0 <= p <= s.len(),
        abrupt_upto(s, p) > 0,
    ensures
        count_kind(s, ShiftKind::Day) > 0,
        count_kind(s, ShiftKind::Evening) > 0,
    decreases p,
{
    if abrupt_at(s, p - 1) {
        lemma_count_from_zero(s, 0, ShiftKind::Day);
        lemma_count_from_zero(s, 0, ShiftKind::Evening);
        assert(s[p - 1] == ShiftKind::Day);
        assert(s[p - 2] == ShiftKind::Evening);
    } else {
        lemma_abrupt_needs_both(s, p - 1);
    }
}

/// Turns every day shift that directly follows an evening shift into a mid shift.
///
/// Returns how many shifts were changed.
pub fn apply_transition_rule(shifts: &mut Vec<ShiftKind>) -> (mids: usize)
    ensures
        final(shifts)@ == eased(old(shifts)@),
        mids == abrupt_count(old(shifts)@),
        no_abrupt_change(final(shifts)@),
        count_kind(final(shifts)@, ShiftKind::Day) + mids == count_kind(
            old(shifts)@,
            ShiftKind::Day,
        ),
        count_kind(final(shifts)@, ShiftKind::Mid) == count_kind(old(shifts)@, ShiftKind::Mid)
            + mids,
{
    let n = shifts.len();
    let ghost before = shifts@;
    let mut mids: usize = 0;
    proof {
        lemma_eased_no_abrupt_change(before);
        lemma_eased_counts(before);
    }
    if n == 0 {
        assert(shifts@ =~= eased(before));
        return 0;
    }
    assert(shifts@ =~= eased_upto(before, 1));
    assert(abrupt_upto(before, 0) == 0);
    let mut i: usize = 0;
    while i < n - 1
        invariant
            n == shifts.len(),
            n == before.len(),
            0 < n,
            i <= n - 1,
            shifts@ == eased_upto(before, i + 1),
            mids == abrupt_upto(before, i + 1),
            mids <= i,
        decreases n - i,
    {
        if shifts[i] == ShiftKind::Evening && shifts[i + 1] == ShiftKind::Day {
            shifts[i + 1] = ShiftKind::Mid;
            mids += 1;
        }
        assert(shifts@ =~= eased_upto(before, i + 2));
        i += 1;
    }
    assert(shifts@ =~= eased(before));
    mids
}

} // verus!
