//! Fan curves: piecewise-linear maps from temperature to fan speed, and the
//! conversion of a fan speed into a PWM duty cycle.
//!
//! Temperatures are integers in millidegrees Celsius, the unit the kernel's
//! `temp*_input` files use. An evaluated speed is an exact fraction of percent,
//! so interpolation loses nothing before the final rounding to a duty byte.
use vstd::prelude::*;
use vstd::arithmetic::div_mod::{lemma_fundamental_div_mod, lemma_mod_pos_bound};

verus! {

/// One calibration point of a curve.
#[derive(Clone, Copy, Debug, PartialEq, Eq)]
pub struct FanPoint {
    /// Temperature in millidegrees Celsius.
    pub temp: i32,
    /// Fan speed in percent, at most 100.
    pub percent: u8,
}

/// An ordered table of calibration points.
#[derive(Clone, Debug)]
pub struct Curve {
    pub points: Vec<FanPoint>,
}

/// A fan speed of `num / den` percent.
#[derive(Clone, Copy, Debug, PartialEq, Eq)]
pub struct Percent {
    pub num: u64,
    pub den: u64,
}

/// At least two points, temperatures strictly increasing, percents at most 100.
pub open spec fn curve_wf(pts: Seq<FanPoint>) -> bool {
    &&& pts.len() >= 2
    &&& forall|i: int, j: int| 0 <= i < j < pts.len() ==> pts[i].temp < pts[j].temp
    &&& forall|i: int| 0 <= i < pts.len() ==> #[trigger] pts[i].percent <= 100
}

/// Whether `t` lies in the segment that ends at point `i + 1`: above point
/// `i`, at or below point `i + 1`.
pub open spec fn in_segment(pts: Seq<FanPoint>, i: int, t: int) -> bool {
    0 <= i < pts.len() - 1 && pts[i].temp < t <= pts[i + 1].temp
}

/// The linear blend between points `a` and `b` at temperature `t`, as
/// (numerator, denominator) of a percent:
/// `a.percent + (t - a.temp) / (b.temp - a.temp) * (b.percent - a.percent)`.
pub open spec fn blend(a: FanPoint, b: FanPoint, t: int) -> (int, int) {
    (
        a.percent * (b.temp - a.temp) + (t - a.temp) * (b.percent - a.percent),
        b.temp - a.temp,
    )
}

/// The speed a curve gives at temperature `t`, as (numerator, denominator) of
/// a percent: the first point's percent at or below the first temperature, the
/// last point's at or above the last temperature, and the linear blend of the
/// enclosing segment in between.
pub open spec fn curve_percent(pts: Seq<FanPoint>, t: int) -> (int, int) {
    if t <= pts[0].temp {
        (pts[0].percent as int, 1)
    } else if t >= pts.last().temp {
        (pts.last().percent as int, 1)
    } else {
        let i = choose|i: int| in_segment(pts, i, t);
        blend(pts[i], pts[i + 1], t)
    }
}

/// The duty byte for a speed of `num / den` percent:
/// `255 * num / (100 * den)` rounded to the nearest integer, halves upwards.
pub open spec fn duty_of(num: int, den: int) -> int {
    (510 * num + 100 * den) / (200 * den)
}

impl Curve {
    pub open spec fn wf(&self) -> bool {
        curve_wf(self.points@)
    }
}

impl Percent {
    /// A well-formed speed: a positive denominator and at most 100 percent.
    pub open spec fn wf(&self) -> bool {
        self.den > 0 && self.num <= 100 * self.den
    }
}

proof fn lemma_segment_unique(pts: Seq<FanPoint>, i: int, j: int, t: int)
    requires
        curve_wf(pts),
        in_segment(pts, i, t),
        in_segment(pts, j, t),
    ensures
        i == j,
{
    if i < j {
        if i + 1 < j {
            assert(pts[i + 1].temp < pts[j].temp);
        }
    } else if j < i {
        if j + 1 < i {
            assert(pts[j + 1].temp < pts[i].temp);
        }
    }
}

proof fn lemma_blend_bounds(a: FanPoint, b: FanPoint, t: int)
    requires
        a.temp < t <= b.temp,
        a.percent <= 100,
        b.percent <= 100,
    ensures
        blend(a, b, t).0 == a.percent * (b.temp - t) + b.percent * (t - a.temp),
        0 <= blend(a, b, t).0 <= 100 * blend(a, b, t).1,
        blend(a, b, t).1 > 0,
{
    let pa = a.percent as int;
    let pb = b.percent as int;
    let ta = a.temp as int;
    let tb = b.temp as int;
    assert(pa * (tb - ta) + (t - ta) * (pb - pa) == pa * (tb - t) + pb * (t - ta))
        by (nonlinear_arith);
    assert(0 <= pa * (tb - t)) by (nonlinear_arith)
        requires
            0 <= pa,
            t <= tb,
    ;
    assert(0 <= pb * (t - ta)) by (nonlinear_arith)
        requires
            0 <= pb,
            ta < t,
    ;
    assert(pa * (tb - t) + pb * (t - ta) <= 100 * (tb - ta)) by (nonlinear_arith)
        requires
            0 <= pa <= 100,
            0 <= pb <= 100,
            ta < t <= tb,
    ;
}

/// Evaluates the curve at temperature `temp` (millidegrees Celsius).
pub fn eval_curve(curve: &Curve, temp: i64) -> (r: Percent)
    requires
        curve.wf(),
    ensures
        (r.num as int, r.den as int) == curve_percent(curve.points@, temp as int),
        r.wf(),
{
    let n = curve.points.len();
    assert(curve.points@[0].percent <= 100);
    assert(curve.points@[n - 1].percent <= 100);
    if temp <= curve.points[0].temp as i64 {
        return Percent { num: curve.points[0].percent as u64, den: 1 };
    }
    if temp >= curve.points[n - 1].temp as i64 {
        return Percent { num: curve.points[n - 1].percent as u64, den: 1 };
    }
    let mut i: usize = 0;
    while i + 1 < n
        invariant
            n == curve.points@.len(),
            curve_wf(curve.points@),
            0 <= i < n,
            curve.points@[0].temp < temp,
            curve.points@[i as int].temp < temp,
            temp < curve.points@[n - 1].temp,
        decreases n - i,
    {
        let a = curve.points[i];
        let b = curve.points[i + 1];
        if temp <= b.temp as i64 {
            proof {
                let t = temp as int;
                assert(in_segment(curve.points@, i as int, t));
                let j = choose|j: int| in_segment(curve.points@, j, t);
                lemma_segment_unique(curve.points@, i as int, j, t);
                assert(a.percent <= 100 && b.percent <= 100) by {
                    assert(curve.points@[i as int].percent <= 100);
                    assert(curve.points@[i + 1].percent <= 100);
                }
                lemma_blend_bounds(a, b, t);
                assert(curve_percent(curve.points@, t) == blend(a, b, t));
            }
            let den: i64 = b.temp as i64 - a.temp as i64;
            let lower: i64 = a.percent as i64 * (b.temp as i64 - temp);
            let upper: i64 = b.percent as i64 * (temp - a.temp as i64);
            let r = Percent { num: (lower + upper) as u64, den: den as u64 };
            return r;
        }
        i = i + 1;
    }
    proof {
        assert(false);
    }
    Percent { num: 0, den: 1 }
}

/// The PWM duty byte for a fan speed: `round(percent / 100 * 255)`.
pub fn duty_from_percent(p: Percent) -> (r: u8)
    requires
        p.wf(),
    ensures
        r as int == duty_of(p.num as int, p.den as int),
{
    let x: u128 = 510 * (p.num as u128) + 100 * (p.den as u128);
    let d: u128 = 200 * (p.den as u128);
    proof {
        let xi = x as int;
        let di = d as int;
        lemma_fundamental_div_mod(xi, di);
        lemma_mod_pos_bound(xi, di);
        let q = xi / di;
        assert(xi < 256 * di) by (nonlinear_arith)
            requires
                xi == 510 * p.num + 100 * p.den,
                di == 200 * p.den,
                p.num <= 100 * p.den,
                p.den > 0,
        ;
        assert(0 <= q < 256) by (nonlinear_arith)
            requires
                xi == di * q + xi % di,
                0 <= xi % di < di,
                0 <= xi < 256 * di,
        ;
    }
    (x / d) as u8
}

/// The PWM duty byte for a whole percent: `round(percent / 100 * 255)`.
pub fn duty_for_percent(percent: u8) -> (r: u8)
    requires
        percent <= 100,
    ensures
        r as int == duty_of(percent as int, 1),
{
    duty_from_percent(Percent { num: percent as u64, den: 1 })
}

/// The quiet profile: fan off up to 40 °C, full speed from 80 °C.
pub fn quiet_curve() -> (r: Curve)
    ensures
        r.wf(),
        r.points@ == seq![
            FanPoint { temp: 40000, percent: 0 },
            FanPoint { temp: 50000, percent: 20 },
            FanPoint { temp: 60000, percent: 40 },
            FanPoint { temp: 70000, percent: 70 },
            FanPoint { temp: 80000, percent: 100 },
        ],
{
    let points = vec![
        FanPoint { temp: 40000, percent: 0 },
        FanPoint { temp: 50000, percent: 20 },
        FanPoint { temp: 60000, percent: 40 },
        FanPoint { temp: 70000, percent: 70 },
        FanPoint { temp: 80000, percent: 100 },
    ];
    assert(curve_wf(points@));
    Curve { points }
}

/// The aggressive profile: 20 % up to 30 °C, full speed from 70 °C.
pub fn aggressive_curve() -> (r: Curve)
    ensures
        r.wf(),
        r.points@ == seq![
            FanPoint { temp: 30000, percent: 20 },
            FanPoint { temp: 40000, percent: 40 },
            FanPoint { temp: 50000, percent: 60 },
            FanPoint { temp: 60000, percent: 80 },
            FanPoint { temp: 70000, percent: 100 },
        ],
{
    let points = vec![
        FanPoint { temp: 30000, percent: 20 },
        FanPoint { temp: 40000, percent: 40 },
        FanPoint { temp: 50000, percent: 60 },
        FanPoint { temp: 60000, percent: 80 },
        FanPoint { temp: 70000, percent: 100 },
    ];
    assert(curve_wf(points@));
    Curve { points }
}

/// Below or at its first temperature a curve gives its first point's percent;
/// above or at its last temperature, its last point's percent.
pub proof fn lemma_curve_clamps(pts: Seq<FanPoint>, t: int)
    requires
        curve_wf(pts),
    ensures
        t <= pts[0].temp ==> curve_percent(pts, t) == (pts[0].percent as int, 1int),
        t >= pts.last().temp ==> curve_percent(pts, t) == (pts.last().percent as int, 1int),
{
    assert(pts[0].temp < pts[pts.len() - 1].temp);
}

/// Inside a segment whose end point is not below its start point, a curve's
/// speed does not fall as the temperature rises.
pub proof fn lemma_segment_monotone(pts: Seq<FanPoint>, i: int, t: int, u: int)
    requires
        curve_wf(pts),
        0 <= i < pts.len() - 1,
        pts[i].percent <= pts[i + 1].percent,
        pts[i].temp < t <= u < pts[i + 1].temp,
    ensures
        curve_percent(pts, t).0 * curve_percent(pts, u).1 <= curve_percent(pts, u).0
            * curve_percent(pts, t).1,
{
    let ghost (a, b) = (pts[i], pts[i + 1]);
    assert(pts[i + 1].temp <= pts.last().temp);
    lemma_segment_percent(pts, i, t);
    lemma_segment_percent(pts, i, u);
    let pa = a.percent as int;
    let pb = b.percent as int;
    let ta = a.temp as int;
    let d = b.temp - a.temp;
    assert((pa * d + (t - ta) * (pb - pa)) * d <= (pa * d + (u - ta) * (pb - pa)) * d)
        by (nonlinear_arith)
        requires
            pa <= pb,
            t <= u,
            d > 0,
    ;
}

/// At the exact middle of a segment a curve gives the mean of the two points'
/// percents.
pub proof fn lemma_segment_midpoint(pts: Seq<FanPoint>, i: int)
    requires
        curve_wf(pts),
        0 <= i < pts.len() - 1,
        (pts[i].temp + pts[i + 1].temp) % 2 == 0,
    ensures
        ({
            let m = (pts[i].temp + pts[i + 1].temp) / 2;
            2 * curve_percent(pts, m).0 == (pts[i].percent + pts[i + 1].percent)
                * curve_percent(pts, m).1
        }),
{
    let a = pts[i];
    let b = pts[i + 1];
    let m = (a.temp + b.temp) / 2;
    assert(a.temp < b.temp);
    assert(a.temp < m < b.temp);
    assert(pts[i + 1].temp <= pts.last().temp);
    lemma_segment_percent(pts, i, m);
    let pa = a.percent as int;
    let pb = b.percent as int;
    let ta = a.temp as int;
    let tb = b.temp as int;
    assert(2 * (pa * (tb - ta) + (m - ta) * (pb - pa)) == (pa + pb) * (tb - ta))
        by (nonlinear_arith)
        requires
            2 * m == ta + tb,
    ;
}

proof fn lemma_segment_percent(pts: Seq<FanPoint>, i: int, t: int)
    requires
        curve_wf(pts),
        in_segment(pts, i, t),
        t < pts.last().temp,
    ensures
        curve_percent(pts, t) == blend(pts[i], pts[i + 1], t),
{
    assert(pts[0].temp <= pts[i].temp);
    assert(in_segment(pts, i, t));
    let j = choose|j: int| in_segment(pts, j, t);
    lemma_segment_unique(pts, i, j, t);
}

proof fn lemma_percents_rise(pts: Seq<FanPoint>, a: int, b: int)
    requires
        forall|i: int| 0 <= i < pts.len() - 1 ==> #[trigger] pts[i].percent <= pts[i + 1].percent,
        0 <= a <= b < pts.len(),
    ensures
        pts[a].percent <= pts[b].percent,
    decreases b - a,
{
    if a < b {
        lemma_percents_rise(pts, a + 1, b);
        assert(pts[a].percent <= pts[a + 1].percent);
    }
}

/// Where the speed at `t` lies between the percents of points `lo` and `hi`.
spec fn bracketed(pts: Seq<FanPoint>, t: int, lo: int, hi: int) -> bool {
    let p = curve_percent(pts, t);
    &&& 0 <= lo <= hi < pts.len()
    &&& pts[lo].percent * p.1 <= p.0 <= pts[hi].percent * p.1
    &&& p.1 > 0
}

proof fn lemma_blend_between(a: FanPoint, b: FanPoint, t: int)
    requires
        a.temp < t <= b.temp,
        a.percent <= b.percent,
    ensures
        a.percent * blend(a, b, t).1 <= blend(a, b, t).0 <= b.percent * blend(a, b, t).1,
{
    let pa = a.percent as int;
    let pb = b.percent as int;
    let ta = a.temp as int;
    let tb = b.temp as int;
    assert(pa * (tb - ta) <= pa * (tb - ta) + (t - ta) * (pb - pa)) by (nonlinear_arith)
        requires
            pa <= pb,
            ta < t,
    ;
    assert(pa * (tb - ta) + (t - ta) * (pb - pa) <= pb * (tb - ta)) by (nonlinear_arith)
        requires
            pa <= pb,
            t <= tb,
    ;
}

/// On a curve whose percents never fall from one point to the next, the speed
/// never falls as the temperature rises.
pub proof fn lemma_curve_monotone(pts: Seq<FanPoint>, t: int, u: int)
    requires
        curve_wf(pts),
        forall|i: int| 0 <= i < pts.len() - 1 ==> #[trigger] pts[i].percent <= pts[i + 1].percent,
        t <= u,
    ensures
        curve_percent(pts, t).0 * curve_percent(pts, u).1 <= curve_percent(pts, u).0
            * curve_percent(pts, t).1,
{
    let n = pts.len() as int;
    let first = pts[0].temp as int;
    let last = pts[n - 1].temp as int;
    assert(first < last);
    // Bracket each temperature between the percents of the points around it.
    let (lt, ht) = bracket(pts, t);
    let (lu, hu) = bracket(pts, u);
    let pt = curve_percent(pts, t);
    let pu = curve_percent(pts, u);
    if first < t && u < last && lt == lu {
        // Both in the same segment: one blend, rising with the temperature.
        let i = lt;
        lemma_segment_percent(pts, i, t);
        lemma_segment_percent(pts, i, u);
        assert(pts[i].percent <= pts[i + 1].percent);
        let pa = pts[i].percent as int;
        let pb = pts[i + 1].percent as int;
        let ta = pts[i].temp as int;
        let d = pts[i + 1].temp - pts[i].temp;
        assert((pa * d + (t - ta) * (pb - pa)) * d <= (pa * d + (u - ta) * (pb - pa)) * d)
            by (nonlinear_arith)
            requires
                pa <= pb,
                t <= u,
                d > 0,
        ;
    } else {
        // Otherwise a point lies between them.
        assert(ht <= lu) by {
            if first < t && t < last && first < u && u < last {
                if lu < lt {
                    assert(pts[lu + 1].temp <= pts[lt].temp);
                }
            }
        }
        lemma_percents_rise(pts, ht, lu);
        assert(pt.0 * pu.1 <= pu.0 * pt.1) by (nonlinear_arith)
            requires
                pt.0 <= pts[ht].percent * pt.1,
                pts[ht].percent <= pts[lu].percent,
                pts[lu].percent * pu.1 <= pu.0,
                pt.1 > 0,
                pu.1 > 0,
        ;
    }
}

proof fn lemma_segment_exists(pts: Seq<FanPoint>, k: int, t: int)
    requires
        0 <= k < pts.len(),
        pts[k].temp < t < pts.last().temp,
    ensures
        exists|i: int| in_segment(pts, i, t),
    decreases pts.len() - k,
{
    if t <= pts[k + 1].temp {
        assert(in_segment(pts, k, t));
    } else {
        lemma_segment_exists(pts, k + 1, t);
    }
}

/// The points whose percents bracket the speed at `t` on a curve whose
/// percents never fall: the segment's ends inside the curve, the end point
/// itself outside it.
proof fn bracket(pts: Seq<FanPoint>, t: int) -> (r: (int, int))
    requires
        curve_wf(pts),
        forall|i: int| 0 <= i < pts.len() - 1 ==> #[trigger] pts[i].percent <= pts[i + 1].percent,
    ensures
        bracketed(pts, t, r.0, r.1),
        t <= pts[0].temp ==> r == (0int, 0int),
        t >= pts.last().temp ==> r == (pts.len() - 1, pts.len() - 1),
        pts[0].temp < t < pts.last().temp ==> in_segment(pts, r.0, t) && r.1 == r.0 + 1,
{
    let n = pts.len() as int;
    assert(pts[0].temp < pts[n - 1].temp);
    if t <= pts[0].temp {
        (0, 0)
    } else if t >= pts[n - 1].temp {
        (n - 1, n - 1)
    } else {
        lemma_segment_exists(pts, 0, t);
        let i = choose|i: int| in_segment(pts, i, t);
        assert(in_segment(pts, i, t));
        lemma_segment_percent(pts, i, t);
        assert(pts[i].percent <= pts[i + 1].percent);
        lemma_blend_between(pts[i], pts[i + 1], t);
        (i, i + 1)
    }
}

/// A speed of 0 percent gives duty 0 and one of 100 percent gives duty 255,
/// whatever the fraction's denominator.
pub proof fn lemma_duty_extremes(den: int)
    requires
        den > 0,
    ensures
        duty_of(0, den) == 0,
        duty_of(100 * den, den) == 255,
{
    assert(duty_of(0, den) == 0) by {
        lemma_fundamental_div_mod(100 * den, 200 * den);
        lemma_mod_pos_bound(100 * den, 200 * den);
        let q = (100 * den) / (200 * den);
        let r = (100 * den) % (200 * den);
        assert(q == 0) by (nonlinear_arith)
            requires
                100 * den == (200 * den) * q + r,
                0 <= r < 200 * den,
                den > 0,
        ;
    }
    assert(duty_of(100 * den, den) == 255) by {
        let x = 510 * (100 * den) + 100 * den;
        let d = 200 * den;
        lemma_fundamental_div_mod(x, d);
        lemma_mod_pos_bound(x, d);
        let q = x / d;
        let r = x % d;
        assert(q == 255) by (nonlinear_arith)
            requires
                x == 51100 * den,
                d == 200 * den,
                x == d * q + r,
                0 <= r < d,
                den > 0,
        ;
    }
}

} // verus!
