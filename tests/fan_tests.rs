use loki_control::curve::quiet_curve;
use loki_control::fan::{switch_requests, tick_requests, ProfileState};
use loki_control::protocol::Request;

fn writes(rs: &[Request]) -> Vec<(String, String)> {
    rs.iter()
        .map(|r| match r {
            Request::Write { path, value } => (path.clone(), value.clone()),
            Request::Run { .. } => panic!("fan control only writes files"),
        })
        .collect()
}

fn w(p: &str, v: &str) -> (String, String) {
    (p.to_string(), v.to_string())
}

const BASE: &str = "/sys/class/hwmon/hwmon3";

#[test]
fn curve_tick_writes_mode_then_duty() {
    let s = ProfileState::Curve(quiet_curve());
    assert!(s.needs_temperature());
    let r = tick_requests(&s, BASE, Some(45000));
    assert_eq!(
        writes(&r),
        vec![w("/sys/class/hwmon/hwmon3/pwm1_enable", "1"), w("/sys/class/hwmon/hwmon3/pwm1", "26")]
    );
    let r = tick_requests(&s, BASE, Some(85000));
    assert_eq!(writes(&r)[1], w("/sys/class/hwmon/hwmon3/pwm1", "255"));
    let r = tick_requests(&s, BASE, Some(20000));
    assert_eq!(writes(&r)[1], w("/sys/class/hwmon/hwmon3/pwm1", "0"));
}

#[test]
fn curve_tick_without_reading_writes_nothing() {
    let s = ProfileState::Curve(quiet_curve());
    assert!(tick_requests(&s, BASE, None).is_empty());
}

#[test]
fn hands_off_and_manual_ticks_write_nothing() {
    assert!(!ProfileState::HandsOff.needs_temperature());
    assert!(tick_requests(&ProfileState::HandsOff, BASE, Some(70000)).is_empty());
    assert!(!ProfileState::Manual(40).needs_temperature());
    assert!(tick_requests(&ProfileState::Manual(40), BASE, Some(70000)).is_empty());
}

#[test]
fn switching_curve_to_hands_off_stops_duty_writes() {
    let before = ProfileState::Curve(quiet_curve());
    assert_eq!(tick_requests(&before, BASE, Some(65000)).len(), 2);
    let after = ProfileState::HandsOff;
    assert_eq!(
        writes(&switch_requests(&after, BASE)),
        vec![w("/sys/class/hwmon/hwmon3/pwm1_enable", "0")]
    );
    assert!(tick_requests(&after, BASE, Some(65000)).is_empty());
}

#[test]
fn switching_to_curve_or_manual_takes_control() {
    assert_eq!(
        writes(&switch_requests(&ProfileState::Curve(quiet_curve()), BASE)),
        vec![w("/sys/class/hwmon/hwmon3/pwm1_enable", "1")]
    );
    assert_eq!(
        writes(&switch_requests(&ProfileState::Manual(128), BASE)),
        vec![w("/sys/class/hwmon/hwmon3/pwm1_enable", "1"), w("/sys/class/hwmon/hwmon3/pwm1", "128")]
    );
}
