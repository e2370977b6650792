//! Neighbor-consensus denoising of a time-ordered point sequence.
//!
//! A point is kept only when more than five other readings sit within
//! ten seconds and less than a thousand feet of it; everything else is
//! treated as spurious noise. Each point's scan walks the sequence as a
//! circle starting at the point itself and stops early at the first
//! candidate more than ten seconds away, which on time-ordered input is
//! sound because no later candidate can be closer.

use vstd::prelude::*;
use vstd::arithmetic::div_mod::lemma_mod_bound;
use vstd::arithmetic::div_mod::lemma_mod_multiples_vanish;
use vstd::arithmetic::div_mod::lemma_small_mod;
use crate::data::Point;

verus! {

/// The corroboration window: seconds and feet within which a neighbor
/// counts, and the count that confirms a point.
pub const WINDOW_SECONDS: u64 = 10;

pub const WINDOW_FEET: u32 = 1000;

pub const CONFIRM_MATCHES: u32 = 5;

/// Two readings with the same timestamp and height are the same sample,
/// not genuine neighbors.
pub open spec fn same_sample(a: Point, b: Point) -> bool {
    a.time == b.time && a.height == b.height
}

/// Whole seconds between two millisecond timestamps.
pub open spec fn seconds_between(a: u64, b: u64) -> int {
    if a / 1000 >= b / 1000 {
        a / 1000 - b / 1000
    } else {
        b / 1000 - a / 1000
    }
}

/// Absolute height difference in feet.
pub open spec fn height_delta(p: Point, q: Point) -> int {
    if p.height >= q.height {
        p.height - q.height
    } else {
        q.height - p.height
    }
}

/// A genuine neighbor close enough in both time and height to vouch
/// for a reading.
pub open spec fn corroborates(p: Point, q: Point) -> bool {
    &&& !same_sample(p, q)
    &&& seconds_between(p.time, q.time) <= WINDOW_SECONDS
    &&& height_delta(p, q) < WINDOW_FEET
}

/// The circular scan for point `i`, at scan position `k` with `matching`
/// corroborating neighbors found so far: skip the point's own duplicates,
/// stop at the first candidate beyond the time window, confirm once more
/// than `CONFIRM_MATCHES` neighbors corroborate.
pub open spec fn scan_from(ps: Seq<Point>, i: int, k: int, matching: int) -> bool
    recommends
        0 <= i < ps.len(),
        0 <= k,
    decreases ps.len() - k,
{
    if k >= ps.len() {
        false
    } else {
        let q = ps[(i + k) % (ps.len() as int)];
        if same_sample(ps[i], q) {
            scan_from(ps, i, k + 1, matching)
        } else if seconds_between(ps[i].time, q.time) > WINDOW_SECONDS {
            false
        } else if height_delta(ps[i], q) < WINDOW_FEET {
            matching + 1 > CONFIRM_MATCHES || scan_from(ps, i, k + 1, matching + 1)
        } else {
            scan_from(ps, i, k + 1, matching)
        }
    }
}

/// Whether the scan confirms point `i` as corroborated.
pub open spec fn confirmed(ps: Seq<Point>, i: int) -> bool {
    scan_from(ps, i, 0, 0)
}

/// The confirmed subsequence of the first `k` points, in order.
pub open spec fn denoise_upto(ps: Seq<Point>, k: int) -> Seq<Point>
    decreases k,
{
    if k <= 0 {
        Seq::empty()
    } else if confirmed(ps, k - 1) {
        denoise_upto(ps, k - 1).push(ps[k - 1])
    } else {
        denoise_upto(ps, k - 1)
    }
}

/// What denoising yields: the confirmed points, relative order kept.
pub open spec fn denoise_spec(ps: Seq<Point>) -> Seq<Point> {
    denoise_upto(ps, ps.len() as int)
}

/// Whole seconds between two absolute millisecond timestamps.
pub fn time_diff(a: u64, b: u64) -> (r: u64)
    ensures
        r == seconds_between(a, b),
{
    let sa = a / 1000;
    let sb = b / 1000;
    if sa >= sb {
        sa - sb
    } else {
        sb - sa
    }
}

proof fn lemma_wrap_index(i: int, k: int, n: int)
    requires
        0 <= i < n,
        0 <= k < n,
    ensures
        (i + k) % n == if i + k < n {
            i + k
        } else {
            i + k - n
        },
{
    if i + k < n {
        lemma_small_mod((i + k) as nat, n as nat);
    } else {
        lemma_mod_multiples_vanish(1, i + k - n, n);
        lemma_small_mod((i + k - n) as nat, n as nat);
    }
}

/// Whether the scan confirms `point`, which sits at `index` in `points`.
pub fn should_apply_point(index: usize, point: &Point, points: &[Point]) -> (r: bool)
    requires
        index < points@.len(),
        points@[index as int] == *point,
    ensures
        r == confirmed(points@, index as int),
{
    let ghost ps = points@;
    let ghost i = index as int;
    let n = points.len();
    let mut matching: u32 = 0;
    let mut k: usize = 0;
    while k < n
        invariant
            ps == points@,
            i == index as int,
            n == ps.len(),
            0 <= i < n,
            ps[i] == *point,
            k <= n,
            matching <= CONFIRM_MATCHES,
            confirmed(ps, i) == scan_from(ps, i, k as int, matching as int),
        decreases n - k,
    {
        proof {
            lemma_wrap_index(i, k as int, n as int);
        }
        let j = if k < n - index {
            index + k
        } else {
            k - (n - index)
        };
        assert(j as int == (i + k as int) % (n as int));
        let q = points[j];
        if q.time == point.time && q.height == point.height {
            assert(scan_from(ps, i, k as int, matching as int) == scan_from(
                ps,
                i,
                k as int + 1,
                matching as int,
            ));
        } else if time_diff(point.time, q.time) > WINDOW_SECONDS {
            // The sequence is time-ordered, so nothing later in the
            // circular scan can be back inside the window.
            assert(!scan_from(ps, i, k as int, matching as int));
            return false;
        } else {
            let delta = if point.height >= q.height {
                point.height - q.height
            } else {
                q.height - point.height
            };
            if delta < WINDOW_FEET {
                if matching >= CONFIRM_MATCHES {
                    assert(scan_from(ps, i, k as int, matching as int));
                    return true;
                }
                assert(scan_from(ps, i, k as int, matching as int) == scan_from(
                    ps,
                    i,
                    k as int + 1,
                    matching as int + 1,
                ));
                matching = matching + 1;
            } else {
                assert(scan_from(ps, i, k as int, matching as int) == scan_from(
                    ps,
                    i,
                    k as int + 1,
                    matching as int,
                ));
            }
        }
        k = k + 1;
    }
    assert(!scan_from(ps, i, n as int, matching as int));
    false
}

/// Keep exactly the points corroborated by their neighborhood, in their
/// original relative order.
pub fn denoise(points: &[Point]) -> (out: Vec<Point>)
    ensures
        out@ == denoise_spec(points@),
{
    let mut out: Vec<Point> = Vec::new();
    let mut index: usize = 0;
    while index < points.len()
        invariant
            index <= points@.len(),
            out@ == denoise_upto(points@, index as int),
        decreases points@.len() - index,
    {
        let point = points[index];
        if should_apply_point(index, &point, points) {
            out.push(point);
        }
        index = index + 1;
    }
    out
}

proof fn lemma_scan_without_match(ps: Seq<Point>, i: int, k: int, matching: int)
    requires
        0 <= i < ps.len(),
        0 <= k,
        forall|j: int| 0 <= j < ps.len() && j != i ==> !corroborates(ps[i], #[trigger] ps[j]),
    ensures
        !scan_from(ps, i, k, matching),
    decreases ps.len() - k,
{
    let n = ps.len() as int;
    if k < n {
        let j = (i + k) % n;
        lemma_mod_bound(i + k, n);
        if same_sample(ps[i], ps[j]) {
            lemma_scan_without_match(ps, i, k + 1, matching);
        } else {
            assert(j != i);
            assert(!corroborates(ps[i], ps[j]));
            if seconds_between(ps[i].time, ps[j].time) <= WINDOW_SECONDS {
                assert(height_delta(ps[i], ps[j]) >= WINDOW_FEET);
                lemma_scan_without_match(ps, i, k + 1, matching);
            }
        }
    }
}

/// Law: a reading with no corroborating neighbor within ten seconds and
/// a thousand feet is never confirmed — the denoiser always discards it,
/// whatever the rest of the sequence holds.
pub proof fn lemma_isolated_point_discarded(ps: Seq<Point>, i: int)
    requires
        0 <= i < ps.len(),
        forall|j: int| 0 <= j < ps.len() && j != i ==> !corroborates(ps[i], #[trigger] ps[j]),
    ensures
        !confirmed(ps, i),
{
    lemma_scan_without_match(ps, i, 0, 0);
}

proof fn lemma_plateau_confirmed(ps: Seq<Point>, i: int)
    requires
        ps.len() > 6,
        0 <= i < ps.len(),
        forall|x: int, y: int|
            0 <= x < ps.len() && 0 <= y < ps.len() && x != y ==> #[trigger] corroborates(
                ps[x],
                ps[y],
            ),
    ensures
        confirmed(ps, i),
{
    let n = ps.len() as int;
    lemma_wrap_index(i, 1, n);
    lemma_wrap_index(i, 2, n);
    lemma_wrap_index(i, 3, n);
    lemma_wrap_index(i, 4, n);
    lemma_wrap_index(i, 5, n);
    lemma_wrap_index(i, 6, n);
    assert(corroborates(ps[i], ps[(i + 1) % n]));
    assert(corroborates(ps[i], ps[(i + 2) % n]));
    assert(corroborates(ps[i], ps[(i + 3) % n]));
    assert(corroborates(ps[i], ps[(i + 4) % n]));
    assert(corroborates(ps[i], ps[(i + 5) % n]));
    assert(corroborates(ps[i], ps[(i + 6) % n]));
    lemma_wrap_index(i, 0, n);
    assert(same_sample(ps[i], ps[(i + 0) % n]));
    assert(scan_from(ps, i, 6, 5));
    assert(scan_from(ps, i, 5, 4) == scan_from(ps, i, 6, 5));
    assert(scan_from(ps, i, 4, 3) == scan_from(ps, i, 5, 4));
    assert(scan_from(ps, i, 3, 2) == scan_from(ps, i, 4, 3));
    assert(scan_from(ps, i, 2, 1) == scan_from(ps, i, 3, 2));
    assert(scan_from(ps, i, 1, 0) == scan_from(ps, i, 2, 1));
    assert(scan_from(ps, i, 0, 0) == scan_from(ps, i, 1, 0));
}

proof fn lemma_denoise_upto_all_confirmed(ps: Seq<Point>, k: int)
    requires
        0 <= k <= ps.len(),
        forall|i: int| 0 <= i < k ==> #[trigger] confirmed(ps, i),
    ensures
        denoise_upto(ps, k) == ps.take(k),
    decreases k,
{
    if k > 0 {
        lemma_denoise_upto_all_confirmed(ps, k - 1);
        assert(ps.take(k - 1).push(ps[k - 1]) =~= ps.take(k));
    } else {
        assert(denoise_upto(ps, 0) =~= ps.take(0));
    }
}

/// Law: a plateau — more than six points, every pair of distinct points
/// within ten seconds and a thousand feet of each other — passes the
/// denoiser unchanged, so denoising such a sequence twice yields the
/// same result as denoising it once.
pub proof fn lemma_denoise_plateau_fixed_point(ps: Seq<Point>)
    requires
        ps.len() > 6,
        forall|x: int, y: int|
            0 <= x < ps.len() && 0 <= y < ps.len() && x != y ==> #[trigger] corroborates(
                ps[x],
                ps[y],
            ),
    ensures
        denoise_spec(ps) == ps,
        denoise_spec(denoise_spec(ps)) == denoise_spec(ps),
{
    assert forall|i: int| 0 <= i < ps.len() implies #[trigger] confirmed(ps, i) by {
        lemma_plateau_confirmed(ps, i);
    }
    lemma_denoise_upto_all_confirmed(ps, ps.len() as int);
    assert(ps.take(ps.len() as int) =~= ps);
}

} // verus!
