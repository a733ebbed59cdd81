//! Hand evaluation: the set of totals a hand can represent, one per possible
//! count of aces valued at 11.  A hand with `k` aces has exactly `k + 1`
//! candidate totals; row `j` (for `j` aces counted as 11) equals the sum of
//! the fixed card values plus `k + 10 * j`.

use vstd::prelude::*;

use crate::cards::{fixed_value, is_ace, rank_wf, Card};

verus! {

/// How many aces a hand holds.
pub open spec fn ace_count(h: Seq<Card>) -> int
    decreases h.len(),
{
    if h.len() == 0 {
        0
    } else {
        ace_count(h.drop_last()) + if is_ace(h.last()) {
            1int
        } else {
            0int
        }
    }
}

/// The sum of the hand's fixed card values (aces contribute 0 here).
pub open spec fn fixed_sum(h: Seq<Card>) -> int
    decreases h.len(),
{
    if h.len() == 0 {
        0
    } else {
        fixed_sum(h.drop_last()) + fixed_value(h.last())
    }
}

/// Every rank of the hand lies in [2, 14].
pub open spec fn hand_ranks_wf(h: Seq<Card>) -> bool {
    forall|i: int| 0 <= i < h.len() ==> rank_wf(#[trigger] h[i])
}

/// The smallest total the hand can represent: every ace counted as 1.
pub open spec fn min_total(h: Seq<Card>) -> int {
    fixed_sum(h) + ace_count(h)
}

/// The largest total the hand can represent: every ace counted as 11.
pub open spec fn max_total(h: Seq<Card>) -> int {
    fixed_sum(h) + 11 * ace_count(h)
}

/// Row `j` of the hand's point set: `j` aces counted as 11, the rest as 1.
pub open spec fn total_row(h: Seq<Card>, j: int) -> int {
    min_total(h) + 10 * j
}

/// The hand can represent total `v`.
pub open spec fn has_total(h: Seq<Card>, v: int) -> bool {
    exists|j: int| 0 <= j <= ace_count(h) && total_row(h, j) == v
}

/// Every total the hand can represent exceeds `v`.
pub open spec fn all_totals_above(h: Seq<Card>, v: int) -> bool {
    forall|j: int| 0 <= j <= ace_count(h) ==> #[trigger] total_row(h, j) > v
}

/// Every total the hand can represent is at most `v`.
pub open spec fn all_totals_at_most(h: Seq<Card>, v: int) -> bool {
    forall|j: int| 0 <= j <= ace_count(h) ==> #[trigger] total_row(h, j) <= v
}

/// A busted hand: every candidate total exceeds 21.
pub open spec fn busted(h: Seq<Card>) -> bool {
    all_totals_above(h, 21)
}

/// Both hand measures are bounded by the hand's length.
pub proof fn lemma_counts_bounds(h: Seq<Card>)
    requires
        hand_ranks_wf(h),
    ensures
        0 <= ace_count(h) <= h.len(),
        0 <= fixed_sum(h) <= 10 * h.len(),
    decreases h.len(),
{
    if h.len() > 0 {
        assert(hand_ranks_wf(h.drop_last())) by {
            assert(forall|i: int|
                0 <= i < h.len() - 1 ==> h.drop_last()[i] == #[trigger] h[i]);
        }
        lemma_counts_bounds(h.drop_last());
        assert(rank_wf(h[h.len() - 1]));
    }
}

/// Every card of a well-formed hand pushes the minimum total up by at least
/// 1 and the maximum total up by at least 2, so both dominate the length.
pub proof fn lemma_totals_ge_len(h: Seq<Card>)
    requires
        hand_ranks_wf(h),
    ensures
        min_total(h) >= h.len(),
        max_total(h) >= 2 * h.len(),
    decreases h.len(),
{
    if h.len() > 0 {
        assert(hand_ranks_wf(h.drop_last())) by {
            assert(forall|i: int|
                0 <= i < h.len() - 1 ==> h.drop_last()[i] == #[trigger] h[i]);
        }
        lemma_totals_ge_len(h.drop_last());
        assert(rank_wf(h[h.len() - 1]));
    }
}

/// A prefix of a hand with well-formed ranks has well-formed ranks.
pub proof fn lemma_wf_prefix(s: Seq<Card>, n: int)
    requires
        hand_ranks_wf(s),
        0 <= n <= s.len(),
    ensures
        hand_ranks_wf(s.take(n)),
{
    assert(forall|i: int| 0 <= i < n ==> s.take(n)[i] == #[trigger] s[i]);
}

/// Appending a card with a well-formed rank keeps the ranks well formed.
pub proof fn lemma_wf_push(h: Seq<Card>, c: Card)
    requires
        hand_ranks_wf(h),
        rank_wf(c),
    ensures
        hand_ranks_wf(h.push(c)),
{
    assert forall|i: int| 0 <= i < h.push(c).len() implies rank_wf(#[trigger] h.push(c)[i]) by {
        if i < h.len() {
            assert(h.push(c)[i] == h[i]);
        } else {
            assert(h.push(c)[i] == c);
        }
    }
}

/// A hand is busted exactly when its smallest candidate total exceeds 21.
pub proof fn lemma_busted_iff_min(h: Seq<Card>)
    requires
        ace_count(h) >= 0,
    ensures
        busted(h) <==> min_total(h) > 21,
{
    assert(total_row(h, 0) == min_total(h));
    if min_total(h) > 21 {
        assert forall|j: int| 0 <= j <= ace_count(h) implies #[trigger] total_row(h, j)
            > 21 by {}
    }
}

/// Every candidate total is at most `v` exactly when the largest one is.
pub proof fn lemma_at_most_iff_max(h: Seq<Card>, v: int)
    requires
        ace_count(h) >= 0,
    ensures
        all_totals_at_most(h, v) <==> max_total(h) <= v,
{
    assert(total_row(h, ace_count(h)) == max_total(h));
    if max_total(h) <= v {
        assert forall|j: int| 0 <= j <= ace_count(h) implies #[trigger] total_row(h, j)
            <= v by {}
    }
}

/// The largest row at index at most `j` whose total is at most 21; row 0
/// (every ace as 1) is taken as the floor.  Because the rows rise with `j`,
/// this is the best total once row 0 is at most 21.
pub open spec fn best_upto(h: Seq<Card>, j: int) -> int
    decreases j,
{
    if j <= 0 {
        min_total(h)
    } else if total_row(h, j) <= 21 {
        total_row(h, j)
    } else {
        best_upto(h, j - 1)
    }
}

/// The maximum candidate total of the hand that is at most 21, meaningful
/// whenever the hand is not busted.
pub open spec fn best_total(h: Seq<Card>) -> int {
    best_upto(h, ace_count(h))
}

proof fn lemma_best_upto_props(h: Seq<Card>, j: int)
    requires
        0 <= j,
        min_total(h) <= 21,
    ensures
        exists|t: int| 0 <= t <= j && best_upto(h, j) == #[trigger] total_row(h, t),
        best_upto(h, j) <= 21,
        forall|t: int| 0 <= t <= j && #[trigger] total_row(h, t) <= 21 ==> total_row(h, t)
            <= best_upto(h, j),
    decreases j,
{
    if j <= 0 {
        assert(best_upto(h, j) == total_row(h, 0));
    } else if total_row(h, j) <= 21 {
        assert(best_upto(h, j) == total_row(h, j));
    } else {
        lemma_best_upto_props(h, j - 1);
    }
}

/// What `best_total` is, whenever the hand is not busted: a candidate total,
/// at most 21, and at least every candidate total that is at most 21.
pub proof fn lemma_best_total_props(h: Seq<Card>)
    requires
        min_total(h) <= 21,
        ace_count(h) >= 0,
    ensures
        exists|t: int| 0 <= t <= ace_count(h) && best_total(h) == #[trigger] total_row(h, t),
        best_total(h) <= 21,
        forall|t: int|
            0 <= t <= ace_count(h) && #[trigger] total_row(h, t) <= 21 ==> total_row(h, t)
                <= best_total(h),
{
    lemma_best_upto_props(h, ace_count(h));
}

/// The base rows for a hand with `n_aces` aces: row `j` counts `j` aces as 11
/// and the remaining `n_aces - j` as 1, so it equals `n_aces + 10 * j`.
pub fn generate_ace_point_row(n_aces: &i32) -> (r: Vec<i32>)
    requires
        0 <= *n_aces <= 52,
    ensures
        r@.len() == *n_aces + 1,
        forall|j: int| 0 <= j < r@.len() ==> r@[j] == *n_aces + 10 * j,
{
    let mut ace_row: Vec<i32> = Vec::new();
    let n: i32 = *n_aces;
    let mut j: i32 = 0;
    while j <= n
        invariant
            0 <= n <= 52,
            0 <= j <= n + 1,
            ace_row@.len() == j,
            forall|t: int| 0 <= t < ace_row@.len() ==> ace_row@[t] == n + 10 * t,
        decreases n + 1 - j,
    {
        ace_row.push(n - j + 11 * j);
        j = j + 1;
    }
    ace_row
}

/// The point set of a hand: exactly `ace_count + 1` totals, row `j` being
/// the fixed sum plus `ace_count + 10 * j`.  Pure in the hand; recomputed
/// from scratch on every call.
pub fn calc_points(hand: &Vec<Card>) -> (r: Vec<i32>)
    requires
        hand@.len() <= 52,
        hand_ranks_wf(hand@),
    ensures
        r@.len() == ace_count(hand@) + 1,
        forall|j: int| 0 <= j < r@.len() ==> r@[j] == total_row(hand@, j),
{
    let mut possible_points: Vec<i32> = Vec::new();
    possible_points.push(0);

    let mut n_aces: i32 = 0;
    let mut i: usize = 0;
    while i < hand.len()
        invariant
            i <= hand@.len() <= 52,
            hand_ranks_wf(hand@),
            n_aces == ace_count(hand@.take(i as int)),
            0 <= n_aces <= i,
        decreases hand@.len() - i,
    {
        proof {
            assert(hand@.take(i + 1).drop_last() =~= hand@.take(i as int));
            assert(hand@.take(i + 1).last() == hand@[i as int]);
            lemma_counts_bounds(hand@.take(i + 1));
            assert(hand_ranks_wf(hand@.take(i + 1))) by {
                assert(forall|t: int|
                    0 <= t < i + 1 ==> hand@.take(i + 1)[t] == #[trigger] hand@[t]);
            }
        }
        if hand[i].number == 14 {
            n_aces = n_aces + 1;
        }
        i = i + 1;
    }
    proof {
        assert(hand@.take(hand@.len() as int) =~= hand@);
    }

    if n_aces != 0 {
        possible_points = generate_ace_point_row(&n_aces);
    }

    let mut i: usize = 0;
    while i < hand.len()
        invariant
            i <= hand@.len() <= 52,
            hand_ranks_wf(hand@),
            n_aces == ace_count(hand@),
            0 <= n_aces <= hand@.len(),
            possible_points@.len() == n_aces + 1,
            forall|j: int| 0 <= j < possible_points@.len() ==> possible_points@[j]
                == fixed_sum(hand@.take(i as int)) + n_aces + 10 * j,
        decreases hand@.len() - i,
    {
        let points: i32 = match hand[i].number {
            10..=13 => 10,
            14 => 0,
            _ => hand[i].number,
        };
        proof {
            assert(hand@.take(i + 1).drop_last() =~= hand@.take(i as int));
            assert(hand@.take(i + 1).last() == hand@[i as int]);
            lemma_counts_bounds(hand@.take(i + 1));
            assert(hand_ranks_wf(hand@.take(i + 1))) by {
                assert(forall|t: int|
                    0 <= t < i + 1 ==> hand@.take(i + 1)[t] == #[trigger] hand@[t]);
            }
            assert(points == fixed_value(hand@[i as int]));
            assert(rank_wf(hand@[i as int]));
            assert(hand_ranks_wf(hand@.take(i as int))) by {
                assert(forall|t: int|
                    0 <= t < i ==> hand@.take(i as int)[t] == #[trigger] hand@[t]);
            }
            lemma_counts_bounds(hand@.take(i as int));
        }

        let mut j: usize = 0;
        let ghost before = possible_points@;
        proof {
            assert forall|t: int| 0 <= t < before.len() implies 0 <= #[trigger] before[t]
                <= 2000 by {
                assert(before[t] == fixed_sum(hand@.take(i as int)) + n_aces + 10 * t);
            }
        }
        while j < possible_points.len()
            invariant
                j <= possible_points@.len() == before.len(),
                0 <= points <= 10,
                forall|t: int| 0 <= t < before.len() ==> 0 <= #[trigger] before[t] <= 2000,
                forall|t: int| j <= t < before.len() ==> possible_points@[t] == before[t],
                forall|t: int| 0 <= t < j ==> possible_points@[t] == before[t] + points,
            decreases possible_points@.len() - j,
        {
            let v = possible_points[j];
            proof {
                assert(v == before[j as int]);
                assert(0 <= before[j as int] <= 2000);
            }
            possible_points[j] = v + points;
            j = j + 1;
        }
        i = i + 1;
    }
    proof {
        assert(hand@.take(hand@.len() as int) =~= hand@);
    }
    possible_points
}

/// Some entry of the point vector equals `v`.
pub fn any_equals(points: &Vec<i32>, v: i32) -> (r: bool)
    ensures
        r == exists|j: int| 0 <= j < points@.len() && points@[j] == v,
{
    let mut i: usize = 0;
    while i < points.len()
        invariant
            i <= points@.len(),
            forall|j: int| 0 <= j < i ==> points@[j] != v,
        decreases points@.len() - i,
    {
        if points[i] == v {
            return true;
        }
        i = i + 1;
    }
    false
}

/// Every entry of the point vector exceeds `v`.
pub fn all_above(points: &Vec<i32>, v: i32) -> (r: bool)
    ensures
        r == forall|j: int| 0 <= j < points@.len() ==> #[trigger] points@[j] > v,
{
    let mut i: usize = 0;
    while i < points.len()
        invariant
            i <= points@.len(),
            forall|j: int| 0 <= j < i ==> #[trigger] points@[j] > v,
        decreases points@.len() - i,
    {
        if points[i] <= v {
            return false;
        }
        i = i + 1;
    }
    true
}

/// Every entry of the point vector is at most `v`.
pub fn all_at_most(points: &Vec<i32>, v: i32) -> (r: bool)
    ensures
        r == forall|j: int| 0 <= j < points@.len() ==> #[trigger] points@[j] <= v,
{
    let mut i: usize = 0;
    while i < points.len()
        invariant
            i <= points@.len(),
            forall|j: int| 0 <= j < i ==> #[trigger] points@[j] <= v,
        decreases points@.len() - i,
    {
        if points[i] > v {
            return false;
        }
        i = i + 1;
    }
    true
}

/// The smallest entry of a non-empty point vector.
pub fn min_value(points: &Vec<i32>) -> (r: i32)
    requires
        points@.len() > 0,
    ensures
        exists|j: int| 0 <= j < points@.len() && points@[j] == r,
        forall|j: int| 0 <= j < points@.len() ==> r <= #[trigger] points@[j],
{
    let mut best = points[0];
    let mut i: usize = 1;
    while i < points.len()
        invariant
            1 <= i <= points@.len(),
            exists|j: int| 0 <= j < i && points@[j] == best,
            forall|j: int| 0 <= j < i ==> best <= #[trigger] points@[j],
        decreases points@.len() - i,
    {
        if points[i] < best {
            best = points[i];
        }
        i = i + 1;
    }
    best
}

/// The largest entry that is at most `cap`, if any entry is.
pub fn best_at_most(points: &Vec<i32>, cap: i32) -> (r: Option<i32>)
    ensures
        match r {
            Some(m) => (exists|j: int| 0 <= j < points@.len() && points@[j] == m) && m <= cap
                && forall|j: int|
                0 <= j < points@.len() && #[trigger] points@[j] <= cap ==> points@[j] <= m,
            None => forall|j: int| 0 <= j < points@.len() ==> #[trigger] points@[j] > cap,
        },
{
    let mut best: Option<i32> = None;
    let mut i: usize = 0;
    while i < points.len()
        invariant
            i <= points@.len(),
            match best {
                Some(m) => (exists|j: int| 0 <= j < i && points@[j] == m) && m <= cap
                    && forall|j: int| 0 <= j < i && #[trigger] points@[j] <= cap ==> points@[j]
                    <= m,
                None => forall|j: int| 0 <= j < i ==> #[trigger] points@[j] > cap,
            },
        decreases points@.len() - i,
    {
        let p = points[i];
        if p <= cap {
            best = match best {
                Some(m) => if p > m {
                    Some(p)
                } else {
                    Some(m)
                },
                None => Some(p),
            };
        }
        i = i + 1;
    }
    best
}

/// Whether the hand can represent exactly the total `v`.
pub fn hand_has_total(hand: &Vec<Card>, v: i32) -> (r: bool)
    requires
        hand@.len() <= 52,
        hand_ranks_wf(hand@),
    ensures
        r == has_total(hand@, v as int),
{
    let points = calc_points(hand);
    let r = any_equals(&points, v);
    proof {
        lemma_counts_bounds(hand@);
        if r {
            let j = choose|j: int| 0 <= j < points@.len() && points@[j] == v;
            assert(points@[j] == total_row(hand@, j));
            assert(has_total(hand@, v as int));
        } else {
            if has_total(hand@, v as int) {
                let j = choose|j: int|
                    0 <= j <= ace_count(hand@) && total_row(hand@, j) == v as int;
                assert(points@[j] == total_row(hand@, j));
                assert(false);
            }
        }
    }
    r
}

/// Whether every candidate total of the hand exceeds 21 (a bust).
pub fn hand_busted(hand: &Vec<Card>) -> (r: bool)
    requires
        hand@.len() <= 52,
        hand_ranks_wf(hand@),
    ensures
        r == busted(hand@),
{
    let points = calc_points(hand);
    let r = all_above(&points, 21);
    proof {
        lemma_counts_bounds(hand@);
        if r {
            assert forall|j: int| 0 <= j <= ace_count(hand@) implies #[trigger] total_row(
                hand@,
                j,
            ) > 21 by {
                assert(points@[j] == total_row(hand@, j));
            }
        } else {
            if busted(hand@) {
                assert forall|j: int| 0 <= j < points@.len() implies #[trigger] points@[j]
                    > 21 by {
                    assert(points@[j] == total_row(hand@, j));
                }
                assert(false);
            }
        }
    }
    r
}

/// Whether every candidate total of the hand is at most `v`.
pub fn hand_all_at_most(hand: &Vec<Card>, v: i32) -> (r: bool)
    requires
        hand@.len() <= 52,
        hand_ranks_wf(hand@),
    ensures
        r == all_totals_at_most(hand@, v as int),
{
    let points = calc_points(hand);
    let r = all_at_most(&points, v);
    proof {
        lemma_counts_bounds(hand@);
        if r {
            assert forall|j: int| 0 <= j <= ace_count(hand@) implies #[trigger] total_row(
                hand@,
                j,
            ) <= v as int by {
                assert(points@[j] == total_row(hand@, j));
            }
        } else {
            if all_totals_at_most(hand@, v as int) {
                assert forall|j: int| 0 <= j < points@.len() implies #[trigger] points@[j]
                    <= v as int by {
                    assert(points@[j] == total_row(hand@, j));
                }
                assert(false);
            }
        }
    }
    r
}

/// The minimum candidate total of the hand: every ace counted as 1.
pub fn hand_min_total(hand: &Vec<Card>) -> (r: i32)
    requires
        hand@.len() <= 52,
        hand_ranks_wf(hand@),
    ensures
        r == min_total(hand@),
{
    let points = calc_points(hand);
    proof {
        lemma_counts_bounds(hand@);
    }
    let m = min_value(&points);
    proof {
        assert(points@[0] == total_row(hand@, 0));
        assert(m <= points@[0]);
        let j = choose|j: int| 0 <= j < points@.len() && points@[j] == m;
        assert(points@[j] == total_row(hand@, j));
    }
    m
}

/// The best total of a hand that is not busted: the maximum candidate total
/// that is at most 21.  A hand reaches the final comparison only after the
/// transition guards have ruled a bust out, so the precondition always
/// holds there.
pub fn hand_best_total(hand: &Vec<Card>) -> (r: i32)
    requires
        hand@.len() <= 52,
        hand_ranks_wf(hand@),
        min_total(hand@) <= 21,
    ensures
        r == best_total(hand@),
{
    let points = calc_points(hand);
    proof {
        lemma_counts_bounds(hand@);
        lemma_best_total_props(hand@);
    }
    let best = best_at_most(&points, 21);
    match best {
        Some(m) => {
            proof {
                let j = choose|j: int| 0 <= j < points@.len() && points@[j] == m;
                assert(points@[j] == total_row(hand@, j));
                assert(m <= best_total(hand@));
                let t = choose|t: int|
                    0 <= t <= ace_count(hand@) && best_total(hand@) == #[trigger] total_row(
                        hand@,
                        t,
                    );
                assert(points@[t] == total_row(hand@, t));
                assert(best_total(hand@) <= m);
            }
            m
        },
        None => {
            proof {
                assert(points@[0] == total_row(hand@, 0));
                assert(false);
            }
            0
        },
    }
}

/// A hand without aces has exactly one candidate total: the literal sum of
/// its fixed card values.  The hypotheses are what `calc_points` ensures of
/// its result.
pub proof fn lemma_points_no_aces(h: Seq<Card>, points: Seq<i32>)
    requires
        ace_count(h) == 0,
        points.len() == ace_count(h) + 1,
        forall|j: int| 0 <= j < points.len() ==> points[j] == total_row(h, j),
    ensures
        points.len() == 1,
        points[0] == fixed_sum(h),
{
    assert(points[0] == total_row(h, 0));
}

/// A hand with `k >= 1` aces has exactly `k + 1` candidate totals, and they
/// rise by exactly 10 from each row to the next.  The hypotheses are what
/// `calc_points` ensures of its result.
pub proof fn lemma_points_ace_rows(h: Seq<Card>, points: Seq<i32>)
    requires
        ace_count(h) >= 1,
        points.len() == ace_count(h) + 1,
        forall|j: int| 0 <= j < points.len() ==> points[j] == total_row(h, j),
    ensures
        points.len() == ace_count(h) + 1,
        forall|j: int| 0 <= j < points.len() - 1 ==> #[trigger] points[j + 1] == points[j] + 10,
{
    assert forall|j: int| 0 <= j < points.len() - 1 implies #[trigger] points[j + 1]
        == points[j] + 10 by {
        assert(points[j] == total_row(h, j));
        assert(points[j + 1] == total_row(h, j + 1));
    }
}

} // verus!

