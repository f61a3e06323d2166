use vstd::prelude::*;
use crate::types::BetAmount;
use crate::betting::{cyc_dist, lemma_next_in_exists, lemma_next_in_rec_first, next_in};
use crate::state::{count_in, count_in_upto};

verus! {

/// The seat `d` steps past `x`, for `0 <= d <= n`, wrapping once.
pub open spec fn pos_at(x: int, d: int, n: int) -> int {
    if x + d < n {
        x + d
    } else {
        x + d - n
    }
}

/// Number of non-folded seats within `d` steps past `x`.
pub open spec fn nfc(bets: Seq<BetAmount>, x: int, d: int) -> int
    decreases d,
{
    if d <= 0 {
        0
    } else {
        nfc(bets, x, d - 1) + if bets[pos_at(x, d, bets.len() as int)] is Folded {
            0int
        } else {
            1int
        }
    }
}

/// `k`-fold application of the turn advance.
pub open spec fn iter_next(bets: Seq<BetAmount>, s: int, k: nat) -> Option<int>
    decreases k,
{
    if k == 0 {
        Some(s)
    } else {
        match iter_next(bets, s, (k - 1) as nat) {
            Some(x) => next_in(bets, x),
            None => None,
        }
    }
}

proof fn lemma_nfc_nonneg(bets: Seq<BetAmount>, x: int, d: int)
    ensures
        0 <= nfc(bets, x, d) <= if d >= 0 {
            d
        } else {
            0
        },
    decreases d,
{
    if d > 0 {
        lemma_nfc_nonneg(bets, x, d - 1);
    }
}

proof fn lemma_nfc_mono(bets: Seq<BetAmount>, x: int, d1: int, d2: int)
    requires
        d1 <= d2,
    ensures
        nfc(bets, x, d1) <= nfc(bets, x, d2),
    decreases d2 - d1,
{
    if d1 < d2 {
        lemma_nfc_mono(bets, x, d1, d2 - 1);
    }
}

/// Seats strictly nearer than the next seat to act are all folded, so the
/// window up to it holds exactly one non-folded seat.
proof fn lemma_next_window(bets: Seq<BetAmount>, x: int, y: int)
    requires
        bets.len() >= 1,
        0 <= x < bets.len(),
        next_in(bets, x) == Some(y),
    ensures
        0 <= y < bets.len(),
        !(bets[y] is Folded),
        1 <= cyc_dist(x, y, bets.len() as int) <= bets.len(),
        y == pos_at(x, cyc_dist(x, y, bets.len() as int), bets.len() as int),
        forall|d: int|
            1 <= d < cyc_dist(x, y, bets.len() as int) ==> bets[pos_at(
                x,
                d,
                bets.len() as int,
            )] is Folded,
        nfc(bets, x, cyc_dist(x, y, bets.len() as int)) == 1,
{
    let n = bets.len() as int;
    lemma_next_in_rec_first(bets, x, bets.len(), y);
    let dy = cyc_dist(x, y, n);
    assert forall|d: int| 1 <= d < dy implies bets[pos_at(x, d, n)] is Folded by {
        let t = pos_at(x, d, n);
        assert(cyc_dist(x, t, n) == d);
    }
    lemma_nfc_zero_upto(bets, x, dy - 1);
    assert(pos_at(x, dy, n) == y);
}

proof fn lemma_nfc_zero_upto(bets: Seq<BetAmount>, x: int, d: int)
    requires
        forall|e: int| 1 <= e <= d ==> bets[pos_at(x, e, bets.len() as int)] is Folded,
    ensures
        nfc(bets, x, d) == 0,
    decreases d,
{
    if d > 0 {
        lemma_nfc_zero_upto(bets, x, d - 1);
    }
}

/// Windows compose: counting `dy + e` steps past `x` splits at `dy`.
proof fn lemma_window_shift(bets: Seq<BetAmount>, x: int, dy: int, e: int)
    requires
        bets.len() >= 1,
        0 <= x < bets.len(),
        1 <= dy <= bets.len(),
        0 <= e,
        dy + e <= bets.len(),
    ensures
        nfc(bets, x, dy + e) == nfc(bets, x, dy) + nfc(
            bets,
            pos_at(x, dy, bets.len() as int),
            e,
        ),
    decreases e,
{
    let n = bets.len() as int;
    let y = pos_at(x, dy, n);
    if e > 0 {
        lemma_window_shift(bets, x, dy, e - 1);
        assert(pos_at(x, dy + e, n) == pos_at(y, e, n));
    }
}

/// Composing one advance with `k` more.
proof fn lemma_iter_comp(bets: Seq<BetAmount>, s: int, y: int, k: nat)
    requires
        next_in(bets, s) == Some(y),
    ensures
        iter_next(bets, s, (k + 1) as nat) == iter_next(bets, y, k),
    decreases k,
{
    if k == 0 {
        assert(iter_next(bets, s, 0) == Some(s));
        assert(iter_next(bets, s, 1) == next_in(bets, s));
        assert(iter_next(bets, y, 0) == Some(y));
    } else {
        lemma_iter_comp(bets, s, y, (k - 1) as nat);
        assert(iter_next(bets, s, (k + 1) as nat) == match iter_next(bets, s, k) {
            Some(x) => next_in(bets, x),
            None => None,
        });
        assert(iter_next(bets, y, k) == match iter_next(bets, y, (k - 1) as nat) {
            Some(x) => next_in(bets, x),
            None => None,
        });
    }
}

/// Counting by distance past `x` within the first stretch (no wrap).
proof fn lemma_nfc_count_a(bets: Seq<BetAmount>, x: int, d: int)
    requires
        bets.len() >= 1,
        0 <= x < bets.len(),
        0 <= d <= bets.len() - 1 - x,
    ensures
        nfc(bets, x, d) == count_in_upto(bets, x + 1 + d) - count_in_upto(bets, x + 1),
    decreases d,
{
    if d > 0 {
        lemma_nfc_count_a(bets, x, d - 1);
        assert(pos_at(x, d, bets.len() as int) == x + d);
    }
}

/// Counting by distance past `x` in the wrapped stretch.
proof fn lemma_nfc_count_b(bets: Seq<BetAmount>, x: int, d: int)
    requires
        bets.len() >= 1,
        0 <= x < bets.len(),
        bets.len() - 1 - x < d <= bets.len(),
    ensures
        nfc(bets, x, d) == count_in_upto(bets, bets.len() as int) - count_in_upto(bets, x + 1)
            + count_in_upto(bets, d - (bets.len() - 1 - x)),
    decreases d,
{
    let n = bets.len() as int;
    let w = n - 1 - x;
    if d == w + 1 {
        lemma_nfc_count_a(bets, x, w);
        assert(pos_at(x, d, n) == 0);
        assert(count_in_upto(bets, 0) == 0);
    } else {
        lemma_nfc_count_b(bets, x, d - 1);
        assert(pos_at(x, d, n) == d - w - 1);
    }
}

/// A full pass counts every seat still in, whatever the starting seat.
proof fn lemma_nfc_full(bets: Seq<BetAmount>, x: int)
    requires
        bets.len() >= 1,
        0 <= x < bets.len(),
    ensures
        nfc(bets, x, bets.len() as int) == count_in(bets),
{
    let n = bets.len() as int;
    lemma_nfc_count_b(bets, x, n);
}

/// Every rank up to the window's count is attained by a non-folded seat.
proof fn lemma_nfc_onto(bets: Seq<BetAmount>, x: int, e: int, k: int)
    requires
        bets.len() >= 1,
        0 <= x < bets.len(),
        0 <= e <= bets.len(),
        1 <= k <= nfc(bets, x, e),
    ensures
        exists|d: int|
            1 <= d <= e && !(bets[pos_at(x, d, bets.len() as int)] is Folded) && #[trigger] nfc(
                bets,
                x,
                d,
            ) == k,
    decreases e,
{
    let n = bets.len() as int;
    lemma_nfc_nonneg(bets, x, e - 1);
    if nfc(bets, x, e) == nfc(bets, x, e - 1) {
        lemma_nfc_onto(bets, x, e - 1, k);
        let d = choose|d: int|
            1 <= d <= e - 1 && !(bets[pos_at(x, d, n)] is Folded) && #[trigger] nfc(bets, x, d)
                == k;
        assert(1 <= d <= e && !(bets[pos_at(x, d, n)] is Folded) && nfc(bets, x, d) == k);
    } else {
        if k == nfc(bets, x, e) {
            assert(1 <= e <= e && !(bets[pos_at(x, e, n)] is Folded) && nfc(bets, x, e) == k);
        } else {
            lemma_nfc_onto(bets, x, e - 1, k);
            let d = choose|d: int|
                1 <= d <= e - 1 && !(bets[pos_at(x, d, n)] is Folded) && #[trigger] nfc(
                    bets,
                    x,
                    d,
                ) == k;
            assert(1 <= d <= e && !(bets[pos_at(x, d, n)] is Folded) && nfc(bets, x, d) == k);
        }
    }
}

/// Distances subtract when stepping to an intermediate seat.
proof fn lemma_dist_sub(x: int, dy: int, t: int, n: int)
    requires
        n >= 1,
        0 <= x < n,
        1 <= dy < n,
        0 <= t < n,
        cyc_dist(x, t, n) > dy,
    ensures
        cyc_dist(pos_at(x, dy, n), t, n) == cyc_dist(x, t, n) - dy,
{
}

/// Within the window from `x` back around to `start`, iterating the turn
/// advance visits each non-folded seat at the step equal to its rank.
#[verifier::rlimit(50)]
proof fn lemma_orbit_window(bets: Seq<BetAmount>, start: int, x: int)
    requires
        bets.len() >= 1,
        0 <= start < bets.len(),
        0 <= x < bets.len(),
        !(bets[start] is Folded),
    ensures
        forall|t: int|
            0 <= t < bets.len() && !(#[trigger] bets[t] is Folded) && cyc_dist(
                x,
                t,
                bets.len() as int,
            ) <= cyc_dist(x, start, bets.len() as int) ==> iter_next(
                bets,
                x,
                nfc(bets, x, cyc_dist(x, t, bets.len() as int)) as nat,
            ) == Some(t),
    decreases cyc_dist(x, start, bets.len() as int),
{
    let n = bets.len() as int;
    let dstart = cyc_dist(x, start, n);
    lemma_next_in_exists(bets, x);
    let y = next_in(bets, x)->0;
    lemma_next_window(bets, x, y);
    let dy = cyc_dist(x, y, n);
    // the next seat is no farther than start, which is itself non-folded
    lemma_next_in_rec_first(bets, x, bets.len(), y);
    assert(dy <= dstart);
    if y != start {
        assert(dy < dstart);
        assert(cyc_dist(y, start, n) == dstart - dy) by {
            lemma_dist_sub(x, dy, start, n);
        }
        lemma_orbit_window(bets, start, y);
    }
    assert forall|t: int|
        0 <= t < n && !(#[trigger] bets[t] is Folded) && cyc_dist(x, t, n)
            <= dstart implies iter_next(bets, x, nfc(bets, x, cyc_dist(x, t, n)) as nat) == Some(
        t,
    ) by {
        let dt = cyc_dist(x, t, n);
        if dt < dy {
            // minimality: a non-folded seat cannot sit nearer than y
            assert(false);
        } else if dt == dy {
            assert(t == pos_at(x, dt, n));
            assert(t == y);
            assert(nfc(bets, x, dy) == 1);
            assert(iter_next(bets, x, 0) == Some(x));
            assert(iter_next(bets, x, 1) == next_in(bets, x));
        } else {
            if y == start {
                assert(dy == dstart);
                assert(false);
            }
            lemma_dist_sub(x, dy, t, n);
            assert(cyc_dist(y, t, n) == dt - dy);
            assert(cyc_dist(y, start, n) == dstart - dy);
            assert(iter_next(bets, y, nfc(bets, y, dt - dy) as nat) == Some(t));
            lemma_window_shift(bets, x, dy, dt - dy);
            assert(nfc(bets, x, dt) == 1 + nfc(bets, y, dt - dy));
            lemma_nfc_nonneg(bets, y, dt - dy);
            lemma_iter_comp(bets, x, y, nfc(bets, y, dt - dy) as nat);
        }
    }
}

/// Turn monotonicity, in full: starting from any seat still in, repeated
/// turn advance comes back to it after exactly one pass over the table,
/// having visited every non-folded seat exactly once and nothing else.
pub proof fn lemma_turn_rotation(bets: Seq<BetAmount>, start: int)
    requires
        bets.len() >= 1,
        0 <= start < bets.len(),
        !(bets[start] is Folded),
    ensures
        iter_next(bets, start, count_in(bets) as nat) == Some(start),
        forall|t: int|
            0 <= t < bets.len() && !(#[trigger] bets[t] is Folded) ==> exists|k: int|
                1 <= k <= count_in(bets) && #[trigger] iter_next(bets, start, k as nat) == Some(
                    t,
                ),
        forall|k1: int, k2: int|
            1 <= k1 < k2 <= count_in(bets) ==> #[trigger] iter_next(bets, start, k1 as nat)
                != #[trigger] iter_next(bets, start, k2 as nat),
{
    let n = bets.len() as int;
    let m = count_in(bets);
    lemma_orbit_window(bets, start, start);
    lemma_nfc_full(bets, start);
    assert(cyc_dist(start, start, n) == n);
    // one full pass returns to the start
    assert(iter_next(bets, start, nfc(bets, start, n) as nat) == Some(start));
    // every seat still in is visited at the step equal to its rank
    assert forall|t: int|
        0 <= t < n && !(#[trigger] bets[t] is Folded) implies exists|k: int|
        1 <= k <= m && #[trigger] iter_next(bets, start, k as nat) == Some(t) by {
        let dt = cyc_dist(start, t, n);
        assert(1 <= dt <= n);
        let k = nfc(bets, start, dt);
        assert(t == pos_at(start, dt, n));
        assert(nfc(bets, start, dt) == nfc(bets, start, dt - 1) + 1);
        lemma_nfc_nonneg(bets, start, dt - 1);
        lemma_nfc_mono(bets, start, dt, n);
        assert(1 <= k <= m && iter_next(bets, start, k as nat) == Some(t));
    }
    // distinct steps within one pass land on distinct seats
    assert forall|k1: int, k2: int|
        1 <= k1 < k2 <= m implies #[trigger] iter_next(bets, start, k1 as nat)
        != #[trigger] iter_next(bets, start, k2 as nat) by {
        lemma_nfc_onto(bets, start, n, k1);
        lemma_nfc_onto(bets, start, n, k2);
        let d1 = choose|d: int|
            1 <= d <= n && !(bets[pos_at(start, d, n)] is Folded) && #[trigger] nfc(
                bets,
                start,
                d,
            ) == k1;
        let d2 = choose|d: int|
            1 <= d <= n && !(bets[pos_at(start, d, n)] is Folded) && #[trigger] nfc(
                bets,
                start,
                d,
            ) == k2;
        let t1 = pos_at(start, d1, n);
        let t2 = pos_at(start, d2, n);
        assert(cyc_dist(start, t1, n) == d1);
        assert(cyc_dist(start, t2, n) == d2);
        assert(iter_next(bets, start, k1 as nat) == Some(t1));
        assert(iter_next(bets, start, k2 as nat) == Some(t2));
        if d1 == d2 {
            assert(k1 == k2);
        }
        assert(t1 != t2);
    }
}

} // verus!
