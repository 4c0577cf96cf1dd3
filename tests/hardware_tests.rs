use loki_control::hardware::{
    backlight_from, brightness_for_percent, brightness_request, find_fan_controller,
    led_brightness_request, led_color_request, led_mode_request, max_brightness,
    max_brightness_path, pick_temperature, pwm_duty_path, pwm_enable_path, temperature_inputs,
    HwmonEntry,
};
use loki_control::protocol::Request;

fn entry(path: &str, name: Option<&str>) -> HwmonEntry {
    HwmonEntry { path: path.to_string(), name: name.map(|n| n.to_string()) }
}

fn write_of(r: &Request) -> (String, String) {
    match r {
        Request::Write { path, value } => (path.clone(), value.clone()),
        Request::Run { .. } => panic!("expected a write"),
    }
}

#[test]
fn finds_first_fan_controller() {
    let entries = vec![
        entry("/sys/class/hwmon/hwmon0", Some("acpitz\n")),
        entry("/sys/class/hwmon/hwmon1", None),
        entry("/sys/class/hwmon/hwmon2", Some("  aynec\n")),
        entry("/sys/class/hwmon/hwmon3", Some("aynec\n")),
    ];
    assert_eq!(find_fan_controller(&entries), Some("/sys/class/hwmon/hwmon2".to_string()));
    let vt = vec![entry("/sys/class/hwmon/hwmon4", Some("aynec\u{b}"))];
    assert_eq!(find_fan_controller(&vt), Some("/sys/class/hwmon/hwmon4".to_string()));
}

#[test]
fn no_fan_controller() {
    let entries = vec![
        entry("/sys/class/hwmon/hwmon0", Some("aynec2\n")),
        entry("/sys/class/hwmon/hwmon1", Some("ayne")),
    ];
    assert_eq!(find_fan_controller(&entries), None);
    assert_eq!(find_fan_controller(&vec![]), None);
}

#[test]
fn pwm_paths() {
    assert_eq!(pwm_enable_path("/h"), "/h/pwm1_enable");
    assert_eq!(pwm_duty_path("/h"), "/h/pwm1");
}

#[test]
fn sensor_paths_in_order() {
    let p = temperature_inputs("/h");
    assert_eq!(p, vec!["/h/temp1_input", "/h/temp2_input", "/h/temp3_input", "/h/temp4_input", "/h/temp5_input"]);
}

#[test]
fn first_numeric_reading_wins() {
    let readings = vec![
        None,
        Some("n/a\n".to_string()),
        Some("45000\n".to_string()),
        Some("50000\n".to_string()),
    ];
    assert_eq!(pick_temperature(&readings), Some(45000));
    assert_eq!(pick_temperature(&vec![Some("-1500".to_string())]), Some(-1500));
    assert_eq!(pick_temperature(&vec![None, Some(String::new())]), None);
    assert_eq!(pick_temperature(&vec![]), None);
    assert_eq!(pick_temperature(&vec![Some("45000\u{b}".to_string())]), Some(45000));
}

#[test]
fn backlight_discovery() {
    assert_eq!(max_brightness_path("/sys/class/backlight/amdgpu_bl0"), "/sys/class/backlight/amdgpu_bl0/max_brightness");
    let b = backlight_from("/sys/class/backlight/amdgpu_bl0", "255\n").unwrap();
    assert_eq!(b.brightness_path, "/sys/class/backlight/amdgpu_bl0/brightness");
    assert_eq!(b.max_brightness, 255);
    assert!(backlight_from("/d", "-1").is_none());
    assert!(backlight_from("/d", "4294967296").is_none());
    assert_eq!(backlight_from("/d", "+7").unwrap().max_brightness, 7);
    assert_eq!(backlight_from("/d", "255\u{b}").unwrap().max_brightness, 255);
}

#[test]
fn brightness_levels() {
    assert_eq!(max_brightness(&None), 100);
    let b = backlight_from("/d", "255").unwrap();
    assert_eq!(max_brightness(&Some(b.clone())), 255);
    assert_eq!(brightness_for_percent(50, 255), 128);
    assert_eq!(brightness_for_percent(100, 255), 255);
    assert_eq!(brightness_for_percent(0, 255), 0);
    assert_eq!(brightness_for_percent(100, u32::MAX), u32::MAX);
    let r = brightness_request(&Some(b), 128).unwrap();
    assert_eq!(write_of(&r), ("/d/brightness".to_string(), "128".to_string()));
    assert!(brightness_request(&None, 10).is_none());
}

#[test]
fn joystick_light_writes() {
    let dir = "/sys/class/leds/ayn:rgb:joystick_rings";
    assert_eq!(write_of(&led_mode_request(1)), (format!("{}/led_mode", dir), "1".to_string()));
    assert_eq!(write_of(&led_brightness_request(0)), (format!("{}/brightness", dir), "0".to_string()));
    assert_eq!(
        write_of(&led_color_request(255, 0, 17)),
        (format!("{}/multi_intensity", dir), "255 0 17".to_string())
    );
}
