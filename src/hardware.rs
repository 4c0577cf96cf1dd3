//! Device files: where the fan controller, the backlight and the joystick
//! lights live, how their contents read, and the writes that drive them.
//!
//! Reading directories and files is left to the caller; these functions take
//! what was read and return the paths to read or the writes to make.
use vstd::prelude::*;
use crate::protocol::{Request, RequestView};
use crate::text::{
    concat_str, decimal, format_u64, i64_text, parse_i64, parse_u32, same_text, trim_whitespace,
    trimmed, u32_text,
};

verus! {

/// A write of `value` to the file at `path`.
pub open spec fn write_view(path: Seq<char>, value: Seq<char>) -> RequestView {
    RequestView::Write { path, value }
}

/// One directory under the hwmon class, with the contents of its `name`
/// file where that file could be read.
#[derive(Clone, Debug)]
pub struct HwmonEntry {
    pub path: String,
    pub name: Option<String>,
}

/// Whether an hwmon directory belongs to the handheld's embedded fan controller.
pub open spec fn is_fan_controller(e: HwmonEntry) -> bool {
    e.name matches Some(n) && trimmed(n@) == "aynec"@
}

/// Picks, in listing order, the first hwmon directory of the fan controller.
pub fn find_fan_controller(entries: &Vec<HwmonEntry>) -> (r: Option<String>)
    ensures
        r is None <==> forall|i: int| 0 <= i < entries@.len() ==> !is_fan_controller(
            #[trigger] entries@[i],
        ),
        r is Some ==> exists|i: int|
            0 <= i < entries@.len() && is_fan_controller(#[trigger] entries@[i]) && r->0@
                == entries@[i].path@ && forall|j: int| 0 <= j < i ==> !is_fan_controller(
                entries@[j],
            ),
{
    let mut i: usize = 0;
    while i < entries.len()
        invariant
            i <= entries@.len(),
            forall|j: int| 0 <= j < i ==> !is_fan_controller(#[trigger] entries@[j]),
        decreases entries@.len() - i,
    {
        let e = &entries[i];
        match &e.name {
            Some(n) => {
                let t = trim_whitespace(n.as_str());
                proof {
                    reveal_strlit("aynec");
                }
                if same_text(t, "aynec") {
                    assert(is_fan_controller(entries@[i as int]));
                    return Some(e.path.clone());
                }
            },
            None => {},
        }
        i = i + 1;
    }
    None
}

/// The path of the fan controller's PWM mode file.
pub fn pwm_enable_path(base: &str) -> (r: String)
    ensures
        r@ == base@ + "/pwm1_enable"@,
{
    concat_str(base, "/pwm1_enable")
}

/// The path of the fan controller's PWM duty file.
pub fn pwm_duty_path(base: &str) -> (r: String)
    ensures
        r@ == base@ + "/pwm1"@,
{
    concat_str(base, "/pwm1")
}

/// The number of temperature inputs the fan controller offers.
pub const SENSOR_COUNT: usize = 5;

/// The path of temperature input `index` (counted from 1).
pub open spec fn sensor_path(base: Seq<char>, index: nat) -> Seq<char> {
    base + "/temp"@ + decimal(index) + "_input"@
}

/// The temperature input files, in the order they are tried.
pub fn temperature_inputs(base: &str) -> (r: Vec<String>)
    ensures
        r@.len() == SENSOR_COUNT,
        forall|i: int| 0 <= i < SENSOR_COUNT ==> #[trigger] r@[i]@ == sensor_path(base@, (i + 1) as nat),
{
    let mut r: Vec<String> = Vec::new();
    let mut k: usize = 0;
    while k < SENSOR_COUNT
        invariant
            k <= SENSOR_COUNT,
            r@.len() == k,
            forall|i: int| 0 <= i < k ==> #[trigger] r@[i]@ == sensor_path(base@, (i + 1) as nat),
        decreases SENSOR_COUNT - k,
    {
        let mut p = concat_str(base, "/temp");
        let digits = format_u64((k + 1) as u64);
        p.append(digits.as_str());
        p.append("_input");
        r.push(p);
        k = k + 1;
    }
    r
}

/// The first reading, in order, that holds a decimal integer: the temperature
/// in millidegrees Celsius. A missing file is `None`.
pub open spec fn first_reading(readings: Seq<Option<Seq<char>>>) -> Option<int>
    decreases readings.len(),
{
    if readings.len() == 0 {
        None
    } else if readings[0] is Some && i64_text(readings[0]->0) is Some {
        i64_text(readings[0]->0)
    } else {
        first_reading(readings.drop_first())
    }
}

/// The temperature from the sensors' readings, in millidegrees Celsius: the
/// first reading that holds a number wins.
pub fn pick_temperature(readings: &Vec<Option<String>>) -> (r: Option<i64>)
    ensures
        r is Some <==> first_reading(readings.deep_view()) is Some,
        r is Some ==> first_reading(readings.deep_view()) == Some(r->0 as int),
{
    let ghost all = readings.deep_view();
    let mut i: usize = 0;
    assert(all.subrange(0, all.len() as int) =~= all);
    while i < readings.len()
        invariant
            i <= readings@.len(),
            all == readings.deep_view(),
            first_reading(all) == first_reading(all.subrange(i as int, all.len() as int)),
        decreases readings@.len() - i,
    {
        let ghost rest = all.subrange(i as int, all.len() as int);
        assert(rest.drop_first() =~= all.subrange(i as int + 1, all.len() as int));
        assert(rest[0] == all[i as int]);
        match &readings[i] {
            Some(t) => {
                match parse_i64(t.as_str()) {
                    Some(v) => {
                        return Some(v);
                    },
                    None => {},
                }
            },
            None => {},
        }
        i = i + 1;
    }
    None
}

/// A backlight device: the file its level is written to, and its largest level.
#[derive(Clone, Debug)]
pub struct Backlight {
    pub brightness_path: String,
    pub max_brightness: u32,
}

/// The level a backlight is taken to have when none was found.
pub const DEFAULT_MAX_BRIGHTNESS: u32 = 100;

/// The file that holds a backlight device's largest level.
pub fn max_brightness_path(device_dir: &str) -> (r: String)
    ensures
        r@ == device_dir@ + "/max_brightness"@,
{
    concat_str(device_dir, "/max_brightness")
}

/// The backlight of the device directory `device_dir`, given the contents of
/// its `max_brightness` file; none where those do not hold a `u32`.
pub fn backlight_from(device_dir: &str, max_text: &str) -> (r: Option<Backlight>)
    ensures
        r is Some <==> u32_text(max_text@) is Some,
        r matches Some(b) ==> b.brightness_path@ == device_dir@ + "/brightness"@ && Some(
            b.max_brightness as int,
        ) == u32_text(max_text@),
{
    match parse_u32(max_text) {
        Some(max) => Some(
            Backlight { brightness_path: concat_str(device_dir, "/brightness"), max_brightness: max },
        ),
        None => None,
    }
}

/// The largest backlight level: the device's, or 100 where none was found.
pub fn max_brightness(b: &Option<Backlight>) -> (r: u32)
    ensures
        r == match b {
            Some(b) => b.max_brightness,
            None => DEFAULT_MAX_BRIGHTNESS,
        },
{
    match b {
        Some(b) => b.max_brightness,
        None => DEFAULT_MAX_BRIGHTNESS,
    }
}

/// The backlight level for a slider at `percent`: `round(percent / 100 * max)`.
pub fn brightness_for_percent(percent: u8, max: u32) -> (r: u32)
    requires
        percent <= 100,
    ensures
        r as int == (2 * percent * max + 100) / 200,
{
    assert(2 * (percent as u64) * (max as u64) <= 200 * 0xffff_ffffu64) by (nonlinear_arith)
        requires
            percent <= 100,
            max <= 0xffff_ffffu64,
    ;
    let x: u64 = 2 * (percent as u64) * (max as u64) + 100;
    assert(x / 200 <= max) by {
        assert(x <= 200 * max + 100) by (nonlinear_arith)
            requires
                x == 2 * percent * max + 100,
                percent <= 100,
        ;
        assert((200 * max + 100) / 200 == max);
    }
    (x / 200) as u32
}

/// The write that sets the backlight to `level`; none where no backlight was found.
pub fn brightness_request(b: &Option<Backlight>, level: u32) -> (r: Option<Request>)
    ensures
        r is Some <==> b is Some,
        r matches Some(q) ==> q@ == write_view(b->0.brightness_path@, decimal(level as nat)),
{
    match b {
        Some(b) => Some(
            Request::Write { path: b.brightness_path.clone(), value: format_u64(level as u64) },
        ),
        None => None,
    }
}

/// The directory of the joystick ring lights.
pub open spec fn led_dir() -> Seq<char> {
    "/sys/class/leds/ayn:rgb:joystick_rings"@
}

fn led_file(leaf: &str) -> (r: String)
    ensures
        r@ == led_dir() + leaf@,
{
    concat_str("/sys/class/leds/ayn:rgb:joystick_rings", leaf)
}

/// The write that selects the lights' mode (0 breathes, 1 is steady).
pub fn led_mode_request(mode: u8) -> (r: Request)
    ensures
        r@ == write_view(led_dir() + "/led_mode"@, decimal(mode as nat)),
{
    Request::Write { path: led_file("/led_mode"), value: format_u64(mode as u64) }
}

/// The write that sets the lights' brightness.
pub fn led_brightness_request(level: u8) -> (r: Request)
    ensures
        r@ == write_view(led_dir() + "/brightness"@, decimal(level as nat)),
{
    Request::Write { path: led_file("/brightness"), value: format_u64(level as u64) }
}

/// The write that sets the lights' red, green and blue intensities.
pub fn led_color_request(red: u8, green: u8, blue: u8) -> (r: Request)
    ensures
        r@ == write_view(
            led_dir() + "/multi_intensity"@,
            decimal(red as nat) + " "@ + decimal(green as nat) + " "@ + decimal(blue as nat),
        ),
{
    let mut value = format_u64(red as u64);
    value.append(" ");
    value.append(format_u64(green as u64).as_str());
    value.append(" ");
    value.append(format_u64(blue as u64).as_str());
    Request::Write { path: led_file("/multi_intensity"), value }
}

} // verus!
