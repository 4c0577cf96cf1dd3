use loki_control::curve::{
    aggressive_curve, duty_for_percent, duty_from_percent, eval_curve, quiet_curve, Curve,
    FanPoint, Percent,
};

fn two_point(ta: i32, pa: u8, tb: i32, pb: u8) -> Curve {
    Curve {
        points: vec![FanPoint { temp: ta, percent: pa }, FanPoint { temp: tb, percent: pb }],
    }
}

fn value(p: Percent) -> f64 {
    p.num as f64 / p.den as f64
}

#[test]
fn clamps_below_first_point() {
    let c = quiet_curve();
    assert_eq!(eval_curve(&c, 30000), Percent { num: 0, den: 1 });
    assert_eq!(eval_curve(&c, 40000), Percent { num: 0, den: 1 });
    assert_eq!(eval_curve(&c, i64::MIN), Percent { num: 0, den: 1 });
    let a = aggressive_curve();
    assert_eq!(eval_curve(&a, -5000), Percent { num: 20, den: 1 });
}

#[test]
fn clamps_above_last_point() {
    let c = quiet_curve();
    assert_eq!(eval_curve(&c, 80000), Percent { num: 100, den: 1 });
    assert_eq!(eval_curve(&c, 95000), Percent { num: 100, den: 1 });
    assert_eq!(eval_curve(&c, i64::MAX), Percent { num: 100, den: 1 });
}

#[test]
fn interpolates_inside_a_segment() {
    let c = quiet_curve();
    // 45 °C lies halfway between (40 °C, 0 %) and (50 °C, 20 %).
    let p = eval_curve(&c, 45000);
    assert_eq!(p.den, 10000);
    assert_eq!(p.num, 100000);
    assert_eq!(value(p), 10.0);
    // 62.5 °C: a quarter of the way from (60, 40) to (70, 70).
    assert_eq!(value(eval_curve(&c, 62500)), 47.5);
    // At a point's own temperature the blend gives that point's percent.
    assert_eq!(value(eval_curve(&c, 60000)), 40.0);
}

#[test]
fn midpoint_is_mean_of_neighbours() {
    let c = aggressive_curve();
    for i in 0..4 {
        let a = c.points[i];
        let b = c.points[i + 1];
        let mid = (a.temp as i64 + b.temp as i64) / 2;
        let p = eval_curve(&c, mid);
        assert_eq!(2 * p.num, (a.percent as u64 + b.percent as u64) * p.den);
    }
    let d = two_point(0, 10, 2, 90);
    assert_eq!(value(eval_curve(&d, 1)), 50.0);
}

#[test]
fn rising_within_a_segment() {
    let c = quiet_curve();
    let mut last = -1.0;
    let mut t = 40001;
    while t < 80000 {
        let v = value(eval_curve(&c, t));
        assert!(v >= last);
        last = v;
        t += 997;
    }
}

#[test]
fn falling_segment_is_interpolated_too() {
    let d = two_point(1000, 80, 3000, 20);
    assert_eq!(value(eval_curve(&d, 2000)), 50.0);
    assert_eq!(value(eval_curve(&d, 2500)), 35.0);
}

#[test]
fn duty_extremes() {
    assert_eq!(duty_for_percent(0), 0);
    assert_eq!(duty_for_percent(100), 255);
    assert_eq!(duty_from_percent(Percent { num: 0, den: 7 }), 0);
    assert_eq!(duty_from_percent(Percent { num: 700, den: 7 }), 255);
}

#[test]
fn duty_rounds_half_up() {
    // 10 % of 255 is 25.5.
    assert_eq!(duty_from_percent(Percent { num: 100000, den: 10000 }), 26);
    assert_eq!(duty_for_percent(50), 128);
    assert_eq!(duty_for_percent(20), 51);
    assert_eq!(duty_for_percent(1), 3);
}
