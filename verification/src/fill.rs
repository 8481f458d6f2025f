//! Filling the working days of a month with day and evening shifts.
//!
//! The fill walks away from the anchor, forward to the end of the month and backward to its
//! start. It carries a cursor, the shift kind it is handing out, and the number of day and
//! evening shifts that are still to be given.

use vstd::prelude::*;
use crate::anchor::{lemma_rest_run_end, lemma_rest_run_start, rest_run_end, rest_run_start};
use crate::shift::{
    count_from, count_upto, lemma_count_from_agree, lemma_count_from_bound, lemma_count_from_run,
    lemma_count_from_skip, lemma_count_upto_agree, lemma_count_upto_bound, lemma_count_upto_run,
    lemma_count_upto_skip, work_from, work_upto, ShiftKind,
};

verus! {

/// Where a fill stands: the month so far, the cursor, the shifts still to be given, and the
/// shifts given although none of their kind was left.
pub struct FillState {
    pub shifts: Seq<ShiftKind>,
    pub cursor: ShiftKind,
    pub day_left: nat,
    pub eve_left: nat,
    pub excess: nat,
}

/// The cursor to go on with: the other kind, once the cursor's own shifts have run out.
pub open spec fn settle(cursor: ShiftKind, day_left: nat, eve_left: nat) -> ShiftKind {
    if cursor == ShiftKind::Evening {
        if eve_left == 0 {
            ShiftKind::Day
        } else {
            ShiftKind::Evening
        }
    } else {
        if day_left == 0 {
            ShiftKind::Evening
        } else {
            ShiftKind::Day
        }
    }
}

/// The cursor after a rest: evening turns to day while day shifts are left, day turns to evening.
pub open spec fn toggle(cursor: ShiftKind, day_left: nat) -> ShiftKind {
    if cursor == ShiftKind::Evening && day_left > 0 {
        ShiftKind::Day
    } else {
        ShiftKind::Evening
    }
}

/// One less, but never below zero.
pub open spec fn one_less(n: nat) -> nat {
    if n > 0 {
        (n - 1) as nat
    } else {
        0
    }
}

/// One where nothing is left to take a shift from, zero elsewhere.
pub open spec fn shortfall(left: nat) -> nat {
    if left == 0 {
        1
    } else {
        0
    }
}

/// The state after day `i` got a shift of the given kind.
pub open spec fn assign(st: FillState, i: int, kind: ShiftKind) -> FillState {
    if kind == ShiftKind::Evening {
        FillState {
            shifts: st.shifts.update(i, ShiftKind::Evening),
            cursor: ShiftKind::Evening,
            day_left: st.day_left,
            eve_left: one_less(st.eve_left),
            excess: st.excess + shortfall(st.eve_left),
        }
    } else {
        FillState {
            shifts: st.shifts.update(i, ShiftKind::Day),
            cursor: ShiftKind::Day,
            day_left: one_less(st.day_left),
            eve_left: st.eve_left,
            excess: st.excess + shortfall(st.day_left),
        }
    }
}

/// The state with another cursor.
pub open spec fn with_cursor(st: FillState, cursor: ShiftKind) -> FillState {
    FillState {
        shifts: st.shifts,
        cursor,
        day_left: st.day_left,
        eve_left: st.eve_left,
        excess: st.excess,
    }
}

/// The forward fill from day `i` to the end of the month.
///
/// On a working day the settled cursor's shift is given. On a rest day the settled cursor is
/// toggled and the fill goes on behind the whole stretch of rest days.
pub open spec fn forward_fill(st: FillState, i: int) -> FillState
    decreases st.shifts.len() - i,
{
    if 0 <= i < st.shifts.len() {
        let cursor = settle(st.cursor, st.day_left, st.eve_left);
        if st.shifts[i] == ShiftKind::Rest {
            proof {
                lemma_rest_run_end(st.shifts, i);
            }
            forward_fill(with_cursor(st, toggle(cursor, st.day_left)), rest_run_end(st.shifts, i))
        } else {
            forward_fill(assign(st, i, cursor), i + 1)
        }
    } else {
        st
    }
}

/// The backward fill over the days before `p`, from day `p - 1` down to the first day.
///
/// It mirrors the forward fill: on a rest day the fill goes on before the start of the whole
/// stretch of rest days.
pub open spec fn backward_fill(st: FillState, p: int) -> FillState
    decreases p,
{
    if 0 < p <= st.shifts.len() {
        let cursor = settle(st.cursor, st.day_left, st.eve_left);
        if st.shifts[p - 1] == ShiftKind::Rest {
            proof {
                lemma_rest_run_start(st.shifts, p);
            }
            backward_fill(with_cursor(st, toggle(cursor, st.day_left)), rest_run_start(st.shifts, p))
        } else {
            backward_fill(assign(st, p - 1, cursor), p - 1)
        }
    } else {
        st
    }
}

/// The state in which the forward fill sets out: the cursor on evening.
pub open spec fn forward_start(s: Seq<ShiftKind>, day_left: nat, eve_left: nat) -> FillState {
    FillState { shifts: s, cursor: ShiftKind::Evening, day_left, eve_left, excess: 0 }
}

/// The state in which the backward fill sets out: the cursor on day.
pub open spec fn backward_start(s: Seq<ShiftKind>, day_left: nat, eve_left: nat) -> FillState {
    FillState { shifts: s, cursor: ShiftKind::Day, day_left, eve_left, excess: 0 }
}

/// Every day from `lo` up to `hi` that was no rest day holds a day or an evening shift in
/// `after`, and every rest day is still one.
pub open spec fn filled_between(
    before: Seq<ShiftKind>,
    after: Seq<ShiftKind>,
    lo: int,
    hi: int,
) -> bool {
    forall|j: int|
        lo <= j < hi ==> if before[j] == ShiftKind::Rest {
            #[trigger] after[j] == ShiftKind::Rest
        } else {
            after[j] == ShiftKind::Day || after[j] == ShiftKind::Evening
        }
}

/// What the forward fill does to the month, whatever the shifts still to be given.
pub proof fn lemma_forward_fill_shape(st: FillState, i: int)
    requires
        0 <= i <= st.shifts.len(),
    ensures
        forward_fill(st, i).shifts.len() == st.shifts.len(),
        forall|j: int| 0 <= j < i ==> #[trigger] forward_fill(st, i).shifts[j] == st.shifts[j],
        filled_between(st.shifts, forward_fill(st, i).shifts, i, st.shifts.len() as int),
    decreases st.shifts.len() - i,
{
    if i < st.shifts.len() {
        let cursor = settle(st.cursor, st.day_left, st.eve_left);
        if st.shifts[i] == ShiftKind::Rest {
            lemma_rest_run_end(st.shifts, i);
            lemma_forward_fill_shape(
                with_cursor(st, toggle(cursor, st.day_left)),
                rest_run_end(st.shifts, i),
            );
        } else {
            lemma_forward_fill_shape(assign(st, i, cursor), i + 1);
        }
    }
}

/// What the backward fill does to the month, whatever the shifts still to be given.
pub proof fn lemma_backward_fill_shape(st: FillState, p: int)
    requires
        0 <= p <= st.shifts.len(),
    ensures
        backward_fill(st, p).shifts.len() == st.shifts.len(),
        forall|j: int|
            p <= j < st.shifts.len() ==> #[trigger] backward_fill(st, p).shifts[j] == st.shifts[j],
        filled_between(st.shifts, backward_fill(st, p).shifts, 0, p),
    decreases p,
{
    if 0 < p {
        let cursor = settle(st.cursor, st.day_left, st.eve_left);
        if st.shifts[p - 1] == ShiftKind::Rest {
            lemma_rest_run_start(st.shifts, p);
            lemma_backward_fill_shape(
                with_cursor(st, toggle(cursor, st.day_left)),
                rest_run_start(st.shifts, p),
            );
        } else {
            lemma_backward_fill_shape(assign(st, p - 1, cursor), p - 1);
        }
    }
}

/// Where the shifts still to be given cover the working days ahead, the forward fill gives
/// exactly as many day and evening shifts as it takes off the two numbers.
pub proof fn lemma_forward_fill_counts(st: FillState, i: int)
    requires
        0 <= i <= st.shifts.len(),
        work_from(st.shifts, i) <= st.day_left + st.eve_left,
    ensures
        forward_fill(st, i).day_left + count_from(forward_fill(st, i).shifts, i, ShiftKind::Day)
            == st.day_left,
        forward_fill(st, i).eve_left + count_from(
            forward_fill(st, i).shifts,
            i,
            ShiftKind::Evening,
        ) == st.eve_left,
        forward_fill(st, i).day_left + forward_fill(st, i).eve_left + work_from(st.shifts, i)
            == st.day_left + st.eve_left,
        forward_fill(st, i).excess == st.excess,
    decreases st.shifts.len() - i,
{
    let n = st.shifts.len() as int;
    if i < n {
        let cursor = settle(st.cursor, st.day_left, st.eve_left);
        if st.shifts[i] == ShiftKind::Rest {
            let next = with_cursor(st, toggle(cursor, st.day_left));
            let j = rest_run_end(st.shifts, i);
            lemma_rest_run_end(st.shifts, i);
            lemma_count_from_run(st.shifts, i, j, ShiftKind::Rest);
            lemma_forward_fill_counts(next, j);
            let r = forward_fill(next, j);
            lemma_forward_fill_shape(next, j);
            lemma_count_from_skip(r.shifts, i, j, ShiftKind::Day);
            lemma_count_from_skip(r.shifts, i, j, ShiftKind::Evening);
        } else {
            let next = assign(st, i, cursor);
            lemma_count_from_bound(st.shifts, i + 1, ShiftKind::Rest);
            lemma_count_from_agree(st.shifts, next.shifts, i + 1, ShiftKind::Rest);
            lemma_forward_fill_counts(next, i + 1);
            lemma_forward_fill_shape(next, i + 1);
        }
    }
}

/// Where the shifts still to be given cover the working days before `p`, the backward fill
/// gives exactly as many day and evening shifts as it takes off the two numbers.
pub proof fn lemma_backward_fill_counts(st: FillState, p: int)
    requires
        0 <= p <= st.shifts.len(),
        work_upto(st.shifts, p) <= st.day_left + st.eve_left,
    ensures
        backward_fill(st, p).day_left + count_upto(backward_fill(st, p).shifts, p, ShiftKind::Day)
            == st.day_left,
        backward_fill(st, p).eve_left + count_upto(
            backward_fill(st, p).shifts,
            p,
            ShiftKind::Evening,
        ) == st.eve_left,
        backward_fill(st, p).day_left + backward_fill(st, p).eve_left + work_upto(st.shifts, p)
            == st.day_left + st.eve_left,
        backward_fill(st, p).excess == st.excess,
    decreases p,
{
    if 0 < p {
        let cursor = settle(st.cursor, st.day_left, st.eve_left);
        if st.shifts[p - 1] == ShiftKind::Rest {
            let next = with_cursor(st, toggle(cursor, st.day_left));
            let q = rest_run_start(st.shifts, p);
            lemma_rest_run_start(st.shifts, p);
            lemma_count_upto_run(st.shifts, q, p, ShiftKind::Rest);
            lemma_backward_fill_counts(next, q);
            let r = backward_fill(next, q);
            lemma_backward_fill_shape(next, q);
            lemma_count_upto_skip(r.shifts, q, p, ShiftKind::Day);
            lemma_count_upto_skip(r.shifts, q, p, ShiftKind::Evening);
        } else {
            let next = assign(st, p - 1, cursor);
            lemma_count_upto_bound(st.shifts, p - 1, ShiftKind::Rest);
            lemma_count_upto_agree(st.shifts, next.shifts, p - 1, ShiftKind::Rest);
            lemma_backward_fill_counts(next, p - 1);
            lemma_backward_fill_shape(next, p - 1);
        }
    }
}

/// Whatever the shifts still to be given, the backward fill takes one off for every working
/// day as long as any is left, and counts every working day after that as excess.
pub proof fn lemma_backward_fill_excess(st: FillState, p: int)
    requires
        0 <= p <= st.shifts.len(),
    ensures
        backward_fill(st, p).excess == st.excess + if work_upto(st.shifts, p) > st.day_left
            + st.eve_left {
            work_upto(st.shifts, p) - (st.day_left + st.eve_left)
        } else {
            0
        },
        backward_fill(st, p).day_left + backward_fill(st, p).eve_left == if st.day_left
            + st.eve_left > work_upto(st.shifts, p) {
            st.day_left + st.eve_left - work_upto(st.shifts, p)
        } else {
            0
        },
    decreases p,
{
    if 0 < p {
        let cursor = settle(st.cursor, st.day_left, st.eve_left);
        if st.shifts[p - 1] == ShiftKind::Rest {
            let next = with_cursor(st, toggle(cursor, st.day_left));
            let q = rest_run_start(st.shifts, p);
            lemma_rest_run_start(st.shifts, p);
            lemma_count_upto_run(st.shifts, q, p, ShiftKind::Rest);
            lemma_backward_fill_excess(next, q);
        } else {
            let next = assign(st, p - 1, cursor);
            lemma_count_upto_bound(st.shifts, p - 1, ShiftKind::Rest);
            lemma_count_upto_agree(st.shifts, next.shifts, p - 1, ShiftKind::Rest);
            lemma_backward_fill_excess(next, p - 1);
        }
    }
}

/// Fills the month from day `start` to its end, beginning with evening shifts.
///
/// Returns the day and evening shifts that are still to be given afterwards. The shifts to be
/// given must cover the working days from `start` on.
pub fn fill_forward(
    shifts: &mut Vec<ShiftKind>,
    start: usize,
    day_left: usize,
    eve_left: usize,
) -> (left: (usize, usize))
    requires
        start <= old(shifts).len(),
        work_from(old(shifts)@, start as int) <= day_left + eve_left,
    ensures
        final(shifts)@ == forward_fill(
            forward_start(old(shifts)@, day_left as nat, eve_left as nat),
            start as int,
        ).shifts,
        left.0 == forward_fill(
            forward_start(old(shifts)@, day_left as nat, eve_left as nat),
            start as int,
        ).day_left,
        left.1 == forward_fill(
            forward_start(old(shifts)@, day_left as nat, eve_left as nat),
            start as int,
        ).eve_left,
        final(shifts)@.len() == old(shifts)@.len(),
        forall|j: int| 0 <= j < start ==> final(shifts)@[j] == old(shifts)@[j],
        filled_between(old(shifts)@, final(shifts)@, start as int, old(shifts)@.len() as int),
{
    let n = shifts.len();
    let ghost goal = forward_fill(
        forward_start(shifts@, day_left as nat, eve_left as nat),
        start as int,
    );
    proof {
        lemma_forward_fill_shape(
            forward_start(shifts@, day_left as nat, eve_left as nat),
            start as int,
        );
    }
    let mut day_left = day_left;
    let mut eve_left = eve_left;
    let mut cursor = ShiftKind::Evening;
    let mut i = start;
    while i < n
        invariant
            n == shifts.len(),
            i <= n,
            cursor == ShiftKind::Day || cursor == ShiftKind::Evening,
            work_from(shifts@, i as int) <= day_left + eve_left,
            forward_fill(
                FillState {
                    shifts: shifts@,
                    cursor,
                    day_left: day_left as nat,
                    eve_left: eve_left as nat,
                    excess: 0,
                },
                i as int,
            ) == goal,
        decreases n - i,
    {
        if cursor == ShiftKind::Evening && eve_left == 0 {
            cursor = ShiftKind::Day;
        } else if cursor == ShiftKind::Day && day_left == 0 {
            cursor = ShiftKind::Evening;
        }
        if shifts[i] == ShiftKind::Rest {
            if cursor == ShiftKind::Evening && day_left > 0 {
                cursor = ShiftKind::Day;
            } else {
                cursor = ShiftKind::Evening;
            }
            let mut j = i + 1;
            while j < n && shifts[j] == ShiftKind::Rest
                invariant
                    n == shifts.len(),
                    i < j <= n,
                    rest_run_end(shifts@, j as int) == rest_run_end(shifts@, i as int),
                    forall|k: int| i <= k < j ==> shifts[k] == ShiftKind::Rest,
                decreases n - j,
            {
                j += 1;
            }
            proof {
                lemma_count_from_run(shifts@, i as int, j as int, ShiftKind::Rest);
            }
            i = j;
        } else {
            let ghost before = shifts@;
            proof {
                lemma_count_from_bound(before, i + 1, ShiftKind::Rest);
            }
            if cursor == ShiftKind::Evening {
                shifts[i] = ShiftKind::Evening;
                eve_left -= 1;
            } else {
                shifts[i] = ShiftKind::Day;
                day_left -= 1;
            }
            proof {
                lemma_count_from_agree(before, shifts@, i + 1, ShiftKind::Rest);
            }
            i += 1;
        }
    }
    (day_left, eve_left)
}

/// Fills the days before `end`, from day `end - 1` down to the first, beginning with day shifts.
///
/// Returns the day and evening shifts that are still to be given afterwards, and the excess:
/// the number of shifts given although none of their kind was left. A number that has run out
/// stays at zero, so the excess is what tells that the shifts to be given did not cover the
/// working days.
pub fn fill_backward(
    shifts: &mut Vec<ShiftKind>,
    end: usize,
    day_left: usize,
    eve_left: usize,
) -> (left: (usize, usize, usize))
    requires
        end <= old(shifts).len(),
    ensures
        left.2 == backward_fill(
            backward_start(old(shifts)@, day_left as nat, eve_left as nat),
            end as int,
        ).excess,
        left.2 == if work_upto(old(shifts)@, end as int) > day_left + eve_left {
            work_upto(old(shifts)@, end as int) - (day_left + eve_left)
        } else {
            0
        },
        final(shifts)@ == backward_fill(
            backward_start(old(shifts)@, day_left as nat, eve_left as nat),
            end as int,
        ).shifts,
        left.0 == backward_fill(
            backward_start(old(shifts)@, day_left as nat, eve_left as nat),
            end as int,
        ).day_left,
        left.1 == backward_fill(
            backward_start(old(shifts)@, day_left as nat, eve_left as nat),
            end as int,
        ).eve_left,
        final(shifts)@.len() == old(shifts)@.len(),
        forall|j: int| end <= j < old(shifts)@.len() ==> final(shifts)@[j] == old(shifts)@[j],
        filled_between(old(shifts)@, final(shifts)@, 0, end as int),
{
    let ghost goal = backward_fill(
        backward_start(shifts@, day_left as nat, eve_left as nat),
        end as int,
    );
    proof {
        lemma_backward_fill_shape(
            backward_start(shifts@, day_left as nat, eve_left as nat),
            end as int,
        );
        lemma_backward_fill_excess(
            backward_start(shifts@, day_left as nat, eve_left as nat),
            end as int,
        );
    }
    let mut day_left = day_left;
    let mut eve_left = eve_left;
    let mut excess: usize = 0;
    let mut cursor = ShiftKind::Day;
    let mut p = end;
    while p > 0
        invariant
            p <= end <= shifts.len(),
            excess + p <= end,
            cursor == ShiftKind::Day || cursor == ShiftKind::Evening,
            backward_fill(
                FillState {
                    shifts: shifts@,
                    cursor,
                    day_left: day_left as nat,
                    eve_left: eve_left as nat,
                    excess: excess as nat,
                },
                p as int,
            ) == goal,
        decreases p,
    {
        if cursor == ShiftKind::Evening && eve_left == 0 {
            cursor = ShiftKind::Day;
        } else if cursor == ShiftKind::Day && day_left == 0 {
            cursor = ShiftKind::Evening;
        }
        let i = p - 1;
        if shifts[i] == ShiftKind::Rest {
            if cursor == ShiftKind::Evening && day_left > 0 {
                cursor = ShiftKind::Day;
            } else {
                cursor = ShiftKind::Evening;
            }
            let mut q = i;
            while q > 0 && shifts[q - 1] == ShiftKind::Rest
                invariant
                    q <= i < shifts.len(),
                    rest_run_start(shifts@, q as int) == rest_run_start(shifts@, p as int),
                decreases q,
            {
                q -= 1;
            }
            p = q;
        } else {
            if cursor == ShiftKind::Evening {
                shifts[i] = ShiftKind::Evening;
                if eve_left == 0 {
                    excess += 1;
                }
                eve_left = eve_left.saturating_sub(1);
            } else {
                shifts[i] = ShiftKind::Day;
                if day_left == 0 {
                    excess += 1;
                }
                day_left = day_left.saturating_sub(1);
            }
            p = i;
        }
    }
    (day_left, eve_left, excess)
}

} // verus!
