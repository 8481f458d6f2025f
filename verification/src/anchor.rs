//! The anchor of a month: its longest stretch of rest days.

use vstd::prelude::*;
use crate::shift::ShiftKind;

verus! {

/// Days `start .. start + len` are rest days, and the stretch can be extended on neither side.
pub open spec fn is_rest_block(s: Seq<ShiftKind>, start: int, len: int) -> bool {
    &&& 0 <= start
    &&& 0 < len
    &&& start + len <= s.len()
    &&& forall|k: int| start <= k < start + len ==> s[k] == ShiftKind::Rest
    &&& (start == 0 || s[start - 1] != ShiftKind::Rest)
    &&& (start + len == s.len() || s[start + len] != ShiftKind::Rest)
}

/// The month has at least one rest day.
pub open spec fn has_rest(s: Seq<ShiftKind>) -> bool {
    exists|k: int| 0 <= k < s.len() && s[k] == ShiftKind::Rest
}

/// `(start, len)` is the anchor of the month: the longest rest block, the earliest one among
/// several of that length; `(0, 0)` for a month without rest days.
pub open spec fn is_anchor(s: Seq<ShiftKind>, start: int, len: int) -> bool {
    if has_rest(s) {
        &&& is_rest_block(s, start, len)
        &&& forall|a: int, l: int| #[trigger]
            is_rest_block(s, a, l) ==> l <= len && (l == len ==> start <= a)
    } else {
        start == 0 && len == 0
    }
}

/// The anchor of the month, as first day and length.
pub open spec fn anchor_of(s: Seq<ShiftKind>) -> (int, int) {
    choose|start: int, len: int| is_anchor(s, start, len)
}

/// First day at or after `i` that is not a rest day; the length of the month if there is none.
pub open spec fn rest_run_end(s: Seq<ShiftKind>, i: int) -> int
    decreases s.len() - i,
{
    if 0 <= i < s.len() && s[i] == ShiftKind::Rest {
        rest_run_end(s, i + 1)
    } else {
        i
    }
}

/// First day of the stretch of rest days that ends just before `p`; `p` itself if day `p - 1`
/// is not a rest day.
pub open spec fn rest_run_start(s: Seq<ShiftKind>, p: int) -> int
    decreases p,
{
    if 0 < p <= s.len() && s[p - 1] == ShiftKind::Rest {
        rest_run_start(s, p - 1)
    } else {
        p
    }
}

pub proof fn lemma_rest_run_end(s: Seq<ShiftKind>, i: int)
    requires
        0 <= i <= s.len(),
    ensures
        i <= rest_run_end(s, i) <= s.len(),
        0 <= i < s.len() && s[i] == ShiftKind::Rest ==> i < rest_run_end(s, i),
        forall|k: int| i <= k < rest_run_end(s, i) ==> s[k] == ShiftKind::Rest,
        rest_run_end(s, i) == s.len() || s[rest_run_end(s, i)] != ShiftKind::Rest,
    decreases s.len() - i,
{
    if i < s.len() && s[i] == ShiftKind::Rest {
        lemma_rest_run_end(s, i + 1);
    }
}

pub proof fn lemma_rest_run_start(s: Seq<ShiftKind>, p: int)
    requires
        0 <= p <= s.len(),
    ensures
        0 <= rest_run_start(s, p) <= p,
        0 < p && s[p - 1] == ShiftKind::Rest ==> rest_run_start(s, p) < p,
        forall|k: int| rest_run_start(s, p) <= k < p ==> s[k] == ShiftKind::Rest,
        rest_run_start(s, p) == 0 || s[rest_run_start(s, p) - 1] != ShiftKind::Rest,
    decreases p,
{
    if 0 < p && s[p - 1] == ShiftKind::Rest {
        lemma_rest_run_start(s, p - 1);
    }
}

/// The rest block that begins on day `a`, if one begins there, runs to the end of the rest days.
pub proof fn lemma_block_at(s: Seq<ShiftKind>, a: int, l: int)
    requires
        is_rest_block(s, a, l),
    ensures
        a + l == rest_run_end(s, a),
{
    lemma_rest_run_end(s, a);
    let end = rest_run_end(s, a);
    if a + l < end {
        assert(s[a + l] == ShiftKind::Rest);
    }
    if end < a + l {
        assert(s[end] == ShiftKind::Rest);
    }
}

/// Among the rest blocks that begin before day `p`, finds the longest, and of several the first.
///
/// Returns its first day and length, or `(0, 0)` where no rest block begins before `p`.
pub proof fn lemma_best_block_upto(s: Seq<ShiftKind>, p: int) -> (best: (int, int))
    requires
        0 <= p <= s.len(),
    ensures
        best.1 == 0 ==> best.0 == 0 && forall|a: int, l: int| #[trigger]
            is_rest_block(s, a, l) ==> a >= p,
        best.1 != 0 ==> is_rest_block(s, best.0, best.1) && best.0 < p,
        forall|a: int, l: int| #[trigger]
            is_rest_block(s, a, l) && a < p ==> l <= best.1 && (l == best.1 ==> best.0 <= a),
    decreases p,
{
    if p == 0 {
        (0, 0)
    } else {
        let before = lemma_best_block_upto(s, p - 1);
        let a = p - 1;
        let l = rest_run_end(s, a) - a;
        lemma_rest_run_end(s, a);
        assert forall|b: int, m: int| #[trigger] is_rest_block(s, b, m) && b == a implies m
            == l by {
            lemma_block_at(s, b, m);
        }
        if s[a] == ShiftKind::Rest && (a == 0 || s[a - 1] != ShiftKind::Rest) {
            assert(is_rest_block(s, a, l));
            if l > before.1 {
                (a, l)
            } else {
                before
            }
        } else {
            assert forall|b: int, m: int| #[trigger] is_rest_block(s, b, m) implies b != a by {
                if b == a {
                    assert(s[b] == ShiftKind::Rest);
                }
            }
            before
        }
    }
}

/// Every month has an anchor.
pub proof fn lemma_anchor_exists(s: Seq<ShiftKind>)
    ensures
        is_anchor(s, anchor_of(s).0, anchor_of(s).1),
{
    let best = lemma_best_block_upto(s, s.len() as int);
    if has_rest(s) {
        let k = choose|k: int| 0 <= k < s.len() && s[k] == ShiftKind::Rest;
        let a = rest_run_start(s, k + 1);
        lemma_rest_run_start(s, k + 1);
        lemma_rest_run_end(s, k);
        let end = rest_run_end(s, k);
        assert(is_rest_block(s, a, end - a));
        assert(is_anchor(s, best.0, best.1));
    } else {
        if best.1 != 0 {
            assert(s[best.0] == ShiftKind::Rest);
        }
        assert(is_anchor(s, 0, 0));
    }
}

/// A month has one anchor only.
pub proof fn lemma_anchor_unique(s: Seq<ShiftKind>, a1: int, l1: int, a2: int, l2: int)
    requires
        is_anchor(s, a1, l1),
        is_anchor(s, a2, l2),
    ensures
        a1 == a2,
        l1 == l2,
{
}

/// Whatever is an anchor of the month is the anchor of the month.
pub proof fn lemma_anchor_of(s: Seq<ShiftKind>, start: int, len: int)
    requires
        is_anchor(s, start, len),
    ensures
        anchor_of(s) == (start, len),
{
    let (a, l) = anchor_of(s);
    assert(is_anchor(s, a, l));
    lemma_anchor_unique(s, a, l, start, len);
}

/// The anchor lies within the month and holds rest days only.
pub proof fn lemma_anchor_shape(s: Seq<ShiftKind>, start: int, len: int)
    requires
        is_anchor(s, start, len),
    ensures
        0 <= start,
        0 <= len,
        start + len <= s.len(),
        forall|k: int| start <= k < start + len ==> s[k] == ShiftKind::Rest,
        start + len == s.len() || s[start + len] != ShiftKind::Rest,
        start == 0 || s[start - 1] != ShiftKind::Rest,
{
}

/// Finds the anchor of the month in one pass from the first day to the last.
pub fn get_max_rest(shifts: &Vec<ShiftKind>) -> (anchor: (usize, usize))
    ensures
        is_anchor(shifts@, anchor.0 as int, anchor.1 as int),
        anchor_of(shifts@) == (anchor.0 as int, anchor.1 as int),
{
    let n = shifts.len();
    let mut max_index: usize = 0;
    let mut max_num: usize = 0;
    let mut i: usize = 0;
    while i < n
        invariant
            n == shifts.len(),
            i <= n,
            i == 0 || i == n || shifts[i - 1] != ShiftKind::Rest || shifts[i as int]
                != ShiftKind::Rest,
            max_num == 0 ==> max_index == 0 && forall|k: int| 0 <= k < i ==> shifts[k]
                != ShiftKind::Rest,
            max_num > 0 ==> is_rest_block(shifts@, max_index as int, max_num as int) && max_index
                + max_num <= i,
            forall|a: int, l: int| #[trigger]
                is_rest_block(shifts@, a, l) && a < i ==> l <= max_num && (l == max_num
                    ==> max_index <= a),
        decreases n - i,
    {
        if shifts[i] == ShiftKind::Rest {
            let mut j: usize = i + 1;
            while j < n && shifts[j] == ShiftKind::Rest
                invariant
                    n == shifts.len(),
                    i < j <= n,
                    forall|k: int| i <= k < j ==> shifts[k] == ShiftKind::Rest,
                decreases n - j,
            {
                j += 1;
            }
            proof {
                assert(is_rest_block(shifts@, i as int, j - i));
                assert forall|a: int, l: int| #[trigger]
                    is_rest_block(shifts@, a, l) && i <= a < j implies a == i && l == j - i by {
                    if a > i {
                        assert(shifts[a - 1] == ShiftKind::Rest);
                    }
                    if l < j - i {
                        assert(shifts[i + l] == ShiftKind::Rest);
                    }
                    if l > j - i {
                        assert(shifts[j as int] == ShiftKind::Rest);
                    }
                }
            }
            if j - i > max_num {
                max_index = i;
                max_num = j - i;
            }
            i = j;
        } else {
            proof {
                assert forall|a: int, l: int| #[trigger]
                    is_rest_block(shifts@, a, l) implies a != i by {
                    if a == i {
                        assert(shifts[a] == ShiftKind::Rest);
                    }
                }
            }
            i += 1;
        }
    }
    proof {
        if max_num > 0 {
            assert(shifts[max_index as int] == ShiftKind::Rest);
        }
        lemma_anchor_of(shifts@, max_index as int, max_num as int);
    }
    (max_index, max_num)
}

} // verus!
