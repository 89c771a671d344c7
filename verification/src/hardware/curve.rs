//! Fan curves: validation and temperature to speed interpolation.
//!
//! Temperatures of readings are whole millidegrees Celsius (the unit the
//! kernel's hwmon interface reports); curve points hold whole degrees.

use vstd::prelude::*;
use vstd::arithmetic::div_mod::{lemma_fundamental_div_mod, lemma_mod_bound};
use crate::hardware::types::CurvePoint;

verus! {

/// Why a curve was refused.
#[derive(Debug, Clone, Copy, PartialEq, Eq, Structural)]
pub enum CurveError {
    /// A curve needs at least two points.
    TooFewPoints,
    /// The points are not strictly increasing in temperature.
    NotSorted,
}

impl CurveError {
    /// The message that describes this error.
    pub fn message(&self) -> (s: String)
        ensures
            s@ == self.message_spec(),
    {
        match self {
            CurveError::TooFewPoints => String::from_str("Curve needs at least 2 points"),
            CurveError::NotSorted => String::from_str("Curve points must be sorted by temperature"),
        }
    }

    pub open spec fn message_spec(&self) -> Seq<char> {
        match self {
            CurveError::TooFewPoints => "Curve needs at least 2 points"@,
            CurveError::NotSorted => "Curve points must be sorted by temperature"@,
        }
    }
}

/// The temperatures of the points are strictly increasing.
pub open spec fn temps_increasing(pts: Seq<CurvePoint>) -> bool {
    forall|i: int, j: int| 0 <= i < j < pts.len() ==> #[trigger] pts[i].temp_c < #[trigger] pts[j].temp_c
}

/// A curve that `set_curve` accepts: two points or more, strictly increasing in temperature.
pub open spec fn valid_curve(pts: Seq<CurvePoint>) -> bool {
    pts.len() >= 2 && temps_increasing(pts)
}

/// What validating `pts` gives.
pub open spec fn check_curve_spec(pts: Seq<CurvePoint>) -> Result<(), CurveError> {
    if pts.len() < 2 {
        Err(CurveError::TooFewPoints)
    } else if !temps_increasing(pts) {
        Err(CurveError::NotSorted)
    } else {
        Ok(())
    }
}

/// Checks that a curve has at least two points, sorted strictly by temperature.
pub fn check_curve(points: &[CurvePoint]) -> (r: Result<(), CurveError>)
    ensures
        r == check_curve_spec(points@),
{
    if points.len() < 2 {
        return Err(CurveError::TooFewPoints);
    }
    let n = points.len();
    let mut i: usize = 0;
    while i + 1 < n
        invariant
            n == points@.len(),
            n >= 2,
            i + 1 <= n,
            forall|a: int, b: int| 0 <= a < b <= i ==> #[trigger] points@[a].temp_c < #[trigger] points@[b].temp_c,
        decreases n - i,
    {
        if points[i].temp_c >= points[i + 1].temp_c {
            assert(!temps_increasing(points@)) by {
                assert(points@[i as int].temp_c >= points@[i + 1].temp_c);
            }
            return Err(CurveError::NotSorted);
        }
        assert forall|a: int, b: int| 0 <= a < b <= i + 1 implies #[trigger] points@[a].temp_c
            < #[trigger] points@[b].temp_c by {
            if b == i + 1 && a < i {
                assert(points@[a].temp_c < points@[i as int].temp_c);
            }
        }
        i = i + 1;
    }
    Ok(())
}

/// A curve point's temperature in millidegrees.
pub open spec fn milli(t: u8) -> int {
    t as int * 1000
}

/// The window between points `i` and `i + 1` holds `temp`.
pub open spec fn window_holds(pts: Seq<CurvePoint>, i: int, temp: int) -> bool {
    milli(pts[i].temp_c) <= temp <= milli(pts[i + 1].temp_c)
}

/// The first window, from `i` on, that holds `temp`; -1 if there is none.
pub open spec fn first_window(pts: Seq<CurvePoint>, temp: int, i: int) -> int
    decreases pts.len() - i,
{
    if i < 0 || i + 1 >= pts.len() {
        -1
    } else if window_holds(pts, i, temp) {
        i
    } else {
        first_window(pts, temp, i + 1)
    }
}

/// `num / den` rounded to the nearest integer, halves rounded up.
pub open spec fn round_half_up(num: int, den: int) -> int {
    (2 * num + den) / (2 * den)
}

/// The speed on the straight line between points `i` and `i + 1` at `temp`, rounded.
pub open spec fn segment_speed(pts: Seq<CurvePoint>, i: int, temp: int) -> int {
    let t0 = milli(pts[i].temp_c);
    let t1 = milli(pts[i + 1].temp_c);
    let s0 = pts[i].speed_pct as int;
    let s1 = pts[i + 1].speed_pct as int;
    round_half_up(s0 * (t1 - t0) + (temp - t0) * (s1 - s0), t1 - t0)
}

/// The speed a curve gives at `temp` (millidegrees): the first point's speed
/// at or below its temperature, the last point's at or above its temperature,
/// and in between the rounded linear interpolation in the first window that
/// holds `temp`.
pub open spec fn curve_speed(pts: Seq<CurvePoint>, temp: int) -> int {
    let last = pts.len() - 1;
    if temp <= milli(pts[0].temp_c) {
        pts[0].speed_pct as int
    } else if temp >= milli(pts[last].temp_c) {
        pts[last].speed_pct as int
    } else if first_window(pts, temp, 0) < 0 {
        pts[last].speed_pct as int
    } else {
        segment_speed(pts, first_window(pts, temp, 0), temp)
    }
}

proof fn lemma_div_floor(x: int, m: int)
    requires
        m > 0,
    ensures
        m * (x / m) <= x < m * (x / m) + m,
{
    lemma_fundamental_div_mod(x, m);
    lemma_mod_bound(x, m);
}

/// Rounding a value that lies between `lo` and `hi` keeps it there.
proof fn lemma_round_between(num: int, d: int, lo: int, hi: int)
    requires
        d > 0,
        lo * d <= num <= hi * d,
    ensures
        lo <= round_half_up(num, d) <= hi,
{
    let q = (2 * num + d) / (2 * d);
    lemma_div_floor(2 * num + d, 2 * d);
    assert(lo <= q) by (nonlinear_arith)
        requires
            d > 0,
            lo * d <= num,
            (2 * d) * q + 2 * d > 2 * num + d,
    ;
    assert(q <= hi) by (nonlinear_arith)
        requires
            d > 0,
            num <= hi * d,
            (2 * d) * q <= 2 * num + d,
    ;
}

/// The interpolated value on a segment lies between its two end speeds.
proof fn lemma_segment_between(pts: Seq<CurvePoint>, i: int, temp: int)
    requires
        0 <= i,
        i + 1 < pts.len(),
        milli(pts[i].temp_c) < milli(pts[i + 1].temp_c),
        milli(pts[i].temp_c) <= temp <= milli(pts[i + 1].temp_c),
    ensures
        pts[i].speed_pct <= pts[i + 1].speed_pct ==> pts[i].speed_pct <= segment_speed(pts, i, temp)
            <= pts[i + 1].speed_pct,
        pts[i + 1].speed_pct <= pts[i].speed_pct ==> pts[i + 1].speed_pct <= segment_speed(
            pts,
            i,
            temp,
        ) <= pts[i].speed_pct,
{
    let t0 = milli(pts[i].temp_c);
    let t1 = milli(pts[i + 1].temp_c);
    let s0 = pts[i].speed_pct as int;
    let s1 = pts[i + 1].speed_pct as int;
    let d = t1 - t0;
    let x = temp - t0;
    let num = s0 * d + x * (s1 - s0);
    assert(num == (d - x) * s0 + x * s1) by (nonlinear_arith)
        requires
            num == s0 * d + x * (s1 - s0),
    ;
    if s0 <= s1 {
        assert(s0 * d <= num <= s1 * d) by (nonlinear_arith)
            requires
                num == (d - x) * s0 + x * s1,
                0 <= x <= d,
                s0 <= s1,
        ;
        lemma_round_between(num, d, s0, s1);
    }
    if s1 <= s0 {
        assert(s1 * d <= num <= s0 * d) by (nonlinear_arith)
            requires
                num == (d - x) * s0 + x * s1,
                0 <= x <= d,
                s1 <= s0,
        ;
        lemma_round_between(num, d, s1, s0);
    }
}


/// Between the first and last point, the first window that holds a temperature
/// starts strictly below it.
proof fn lemma_first_window(pts: Seq<CurvePoint>, temp: int, i: int)
    requires
        0 <= i,
        i + 1 <= pts.len(),
        milli(pts[i].temp_c) < temp,
        temp < milli(pts[pts.len() - 1].temp_c),
    ensures
        i <= first_window(pts, temp, i),
        first_window(pts, temp, i) + 1 < pts.len(),
        milli(pts[first_window(pts, temp, i)].temp_c) < temp,
        temp <= milli(pts[first_window(pts, temp, i) + 1].temp_c),
    decreases pts.len() - i,
{
    if i + 1 >= pts.len() {
        assert(false);
    } else if window_holds(pts, i, temp) {
    } else {
        lemma_first_window(pts, temp, i + 1);
    }
}

/// Every speed a curve gives lies within any range that holds all of its points' speeds.
pub proof fn lemma_curve_speed_within(pts: Seq<CurvePoint>, temp: int, lo: int, hi: int)
    requires
        pts.len() >= 1,
        forall|k: int| 0 <= k < pts.len() ==> lo <= #[trigger] pts[k].speed_pct <= hi,
    ensures
        lo <= curve_speed(pts, temp) <= hi,
{
    let last = pts.len() - 1;
    if temp <= milli(pts[0].temp_c) {
    } else if temp >= milli(pts[last].temp_c) {
    } else {
        lemma_first_window(pts, temp, 0);
        let w = first_window(pts, temp, 0);
        lemma_segment_between(pts, w, temp);
        assert(lo <= pts[w].speed_pct <= hi);
        assert(lo <= pts[w + 1].speed_pct <= hi);
    }
}

/// On a valid curve, the speed at a point's own temperature is that point's speed.
pub proof fn law_curve_speed_at_point(pts: Seq<CurvePoint>, k: int)
    requires
        valid_curve(pts),
        0 <= k < pts.len(),
    ensures
        curve_speed(pts, milli(pts[k].temp_c)) == pts[k].speed_pct,
{
    let last = pts.len() - 1;
    let temp = milli(pts[k].temp_c);
    if k == 0 {
    } else if k == last {
        assert(pts[0].temp_c < pts[last].temp_c);
    } else {
        assert(pts[0].temp_c < pts[k].temp_c);
        assert(pts[k].temp_c < pts[last].temp_c);
        lemma_first_window(pts, temp, 0);
        let w = first_window(pts, temp, 0);
        if w < k - 1 {
            assert(pts[w + 1].temp_c < pts[k].temp_c);
        }
        if w > k - 1 {
            assert(pts[k].temp_c <= pts[w].temp_c);
        }
        assert(w == k - 1);
        let t0 = milli(pts[w].temp_c);
        let d = temp - t0;
        let s0 = pts[w].speed_pct as int;
        let s1 = pts[k].speed_pct as int;
        let num = s0 * d + d * (s1 - s0);
        assert(num == s1 * d) by (nonlinear_arith)
            requires
                num == s0 * d + d * (s1 - s0),
        ;
        assert(d > 0);
        lemma_round_between(num, d, s1, s1);
    }
}

/// The speeds of the points never decrease with temperature.
pub open spec fn speeds_nondecreasing(pts: Seq<CurvePoint>) -> bool {
    forall|i: int, j: int| 0 <= i < j < pts.len() ==> #[trigger] pts[i].speed_pct <= #[trigger] pts[j].speed_pct
}

/// On one segment of a valid curve, a higher temperature never gives a lower
/// speed when the segment does not fall.
proof fn lemma_segment_monotone(pts: Seq<CurvePoint>, w: int, a: int, b: int)
    requires
        0 <= w,
        w + 1 < pts.len(),
        milli(pts[w].temp_c) < milli(pts[w + 1].temp_c),
        milli(pts[w].temp_c) <= a <= b <= milli(pts[w + 1].temp_c),
        pts[w].speed_pct <= pts[w + 1].speed_pct,
    ensures
        segment_speed(pts, w, a) <= segment_speed(pts, w, b),
{
    let t0 = milli(pts[w].temp_c);
    let d = milli(pts[w + 1].temp_c) - t0;
    let s0 = pts[w].speed_pct as int;
    let s1 = pts[w + 1].speed_pct as int;
    let na = s0 * d + (a - t0) * (s1 - s0);
    let nb = s0 * d + (b - t0) * (s1 - s0);
    assert(na <= nb) by (nonlinear_arith)
        requires
            na == s0 * d + (a - t0) * (s1 - s0),
            nb == s0 * d + (b - t0) * (s1 - s0),
            a <= b,
            s0 <= s1,
    ;
    vstd::arithmetic::div_mod::lemma_div_is_ordered(2 * na + d, 2 * nb + d, 2 * d);
}

/// On a valid curve whose speeds never fall, a higher temperature never gives a lower speed.
pub proof fn law_curve_speed_monotone(pts: Seq<CurvePoint>, a: int, b: int)
    requires
        valid_curve(pts),
        speeds_nondecreasing(pts),
        a <= b,
    ensures
        curve_speed(pts, a) <= curve_speed(pts, b),
{
    let last = pts.len() - 1;
    lemma_curve_speed_within(pts, a, pts[0].speed_pct as int, pts[last].speed_pct as int);
    lemma_curve_speed_within(pts, b, pts[0].speed_pct as int, pts[last].speed_pct as int);
    if a <= milli(pts[0].temp_c) || b >= milli(pts[last].temp_c) {
    } else {
        lemma_first_window(pts, a, 0);
        lemma_first_window(pts, b, 0);
        let wa = first_window(pts, a, 0);
        let wb = first_window(pts, b, 0);
        if wa > wb {
            assert(pts[wb + 1].temp_c <= pts[wa].temp_c);
            assert(false);
        } else if wa == wb {
            lemma_segment_monotone(pts, wa, a, b);
        } else {
            lemma_segment_between(pts, wa, a);
            lemma_segment_between(pts, wb, b);
            assert(pts[wa + 1].speed_pct <= pts[wb].speed_pct);
        }
    }
}

/// What a valid curve gives at every temperature: the first point's speed at
/// or below the first point, the last point's at or above the last point, and
/// strictly between points `i` and `i + 1` (temperatures `t0 < t1`, speeds `s0`,
/// `s1`) the value `s0 + (t - t0) * (s1 - s0) / (t1 - t0)` rounded to the nearest
/// whole percent, halves rounded up: the result `r` satisfies
/// `r - 1/2 <= s0 + (t - t0) * (s1 - s0) / (t1 - t0) < r + 1/2`.
pub proof fn law_curve_speed_interpolates(pts: Seq<CurvePoint>, i: int, t: int)
    requires
        valid_curve(pts),
        0 <= i < pts.len() - 1,
    ensures
        t <= pts[0].temp_c as int * 1000 ==> curve_speed(pts, t) == pts[0].speed_pct as int,
        t >= pts[pts.len() - 1].temp_c as int * 1000 ==> curve_speed(pts, t) == pts[pts.len() - 1].speed_pct as int,
        ({
            let t0 = pts[i].temp_c as int * 1000;
            let t1 = pts[i + 1].temp_c as int * 1000;
            let s0 = pts[i].speed_pct as int;
            let s1 = pts[i + 1].speed_pct as int;
            let r = curve_speed(pts, t);
            t0 < t < t1 ==> (t1 - t0) * (2 * r - 1) <= 2 * (s0 * (t1 - t0) + (t - t0) * (s1 - s0)) < (t1 - t0) * (2
                * r + 1)
        }),
{
    let last = pts.len() - 1;
    let t0 = milli(pts[i].temp_c);
    let t1 = milli(pts[i + 1].temp_c);
    assert(pts[0].temp_c < pts[last].temp_c);
    if t0 < t && t < t1 {
        if i > 0 {
            assert(pts[0].temp_c < pts[i].temp_c);
        }
        if i + 1 < last {
            assert(pts[i + 1].temp_c < pts[last].temp_c);
        }
        lemma_first_window(pts, t, 0);
        let w = first_window(pts, t, 0);
        if w < i {
            assert(pts[w + 1].temp_c <= pts[i].temp_c);
        }
        if w > i {
            assert(pts[i + 1].temp_c <= pts[w].temp_c);
        }
        assert(w == i);
        let d = t1 - t0;
        let s0 = pts[i].speed_pct as int;
        let s1 = pts[i + 1].speed_pct as int;
        let num = s0 * d + (t - t0) * (s1 - s0);
        let r = curve_speed(pts, t);
        assert(r == (2 * num + d) / (2 * d));
        lemma_div_floor(2 * num + d, 2 * d);
        assert(d * (2 * r - 1) <= 2 * num < d * (2 * r + 1)) by (nonlinear_arith)
            requires
                (2 * d) * r <= 2 * num + d,
                2 * num + d < (2 * d) * r + 2 * d,
                d > 0,
        ;
    }
}

/// Interpolates the fan speed for `temp_milli_c` (millidegrees Celsius) on a curve.
pub fn interpolate_curve(points: &[CurvePoint], temp_milli_c: i64) -> (speed: u8)
    requires
        points@.len() >= 1,
    ensures
        speed as int == curve_speed(points@, temp_milli_c as int),
{
    let n = points.len();
    let first = points[0];
    let last = points[n - 1];
    if temp_milli_c <= first.temp_c as i64 * 1000 {
        return first.speed_pct;
    }
    if temp_milli_c >= last.temp_c as i64 * 1000 {
        return last.speed_pct;
    }
    let ghost pts = points@;
    let ghost temp = temp_milli_c as int;
    let mut i: usize = 0;
    while i + 1 < n
        invariant
            n == pts.len(),
            pts == points@,
            temp == temp_milli_c as int,
            n >= 1,
            i + 1 <= n,
            milli(pts[i as int].temp_c) < temp,
            milli(pts[0].temp_c) < temp,
            temp < milli(pts[n - 1].temp_c),
            first_window(pts, temp, 0) == first_window(pts, temp, i as int),
        decreases n - i,
    {
        let t0 = points[i].temp_c as i64 * 1000;
        let t1 = points[i + 1].temp_c as i64 * 1000;
        if temp_milli_c >= t0 && temp_milli_c <= t1 {
            proof {
                assert(first_window(pts, temp, i as int) == i as int);
                lemma_segment_between(pts, i as int, temp);
            }
            let d: i64 = t1 - t0;
            let x: i64 = temp_milli_c - t0;
            let s0: i64 = points[i].speed_pct as i64;
            let s1: i64 = points[i + 1].speed_pct as i64;
            assert(-255 * 255000 <= x * (s1 - s0) <= 255 * 255000) by (nonlinear_arith)
                requires
                    0 <= x <= 255000,
                    -255 <= s1 - s0 <= 255,
            ;
            assert(0 <= s0 * d <= 255 * 255000) by (nonlinear_arith)
                requires
                    0 <= d <= 255000,
                    0 <= s0 <= 255,
            ;
            let num: i64 = s0 * d + x * (s1 - s0);
            let r: i64 = (2 * num + d) / (2 * d);
            proof {
                assert(d == milli(pts[i + 1].temp_c) - milli(pts[i as int].temp_c));
                assert(x == temp - milli(pts[i as int].temp_c));
                assert(s0 == pts[i as int].speed_pct as int);
                assert(s1 == pts[i + 1].speed_pct as int);
                assert(num == s0 * d + x * (s1 - s0));
                let ghost q = segment_speed(pts, i as int, temp);
                assert(q == (2 * num + d) / (2 * d));
                assert(0 <= q <= 255);
                assert(2 * num + d >= 0) by (nonlinear_arith)
                    requires
                        q == (2 * num + d) / (2 * d),
                        q >= 0,
                        d > 0,
                ;
                assert(r == q);
                assert(first_window(pts, temp, 0) == i as int);
                assert(!(temp <= milli(pts[0].temp_c)));
                assert(!(temp >= milli(pts[n - 1].temp_c)));
                assert(curve_speed(pts, temp) == q);
            }
            return r as u8;
        }
        proof {
            assert(!window_holds(pts, i as int, temp));
        }
        i = i + 1;
    }
    proof {
        assert(false);
    }
    last.speed_pct
}

} // verus!
