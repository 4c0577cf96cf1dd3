//! The fan profile and the decisions of the fan control loop.
//!
//! The loop runs once a second. In each tick it reads the active profile and,
//! only under a curve, the temperature, then makes the writes [`tick_requests`]
//! returns. Switching profile makes the writes [`switch_requests`] returns.
use vstd::prelude::*;
use crate::curve::{Curve, curve_percent, duty_from_percent, duty_of, eval_curve};
use crate::hardware::{pwm_duty_path, pwm_enable_path, write_view};
use crate::protocol::{Request, RequestView};
use crate::text::{decimal, format_u64};

verus! {

/// Which fan-control mode is active.
#[derive(Clone, Debug)]
pub enum ProfileState {
    /// The firmware drives the fan.
    HandsOff,
    /// The control loop drives the fan along a curve.
    Curve(Curve),
    /// A fixed duty, written when the mode was chosen.
    Manual(u8),
}

impl ProfileState {
    /// A curve profile holds a well-formed curve.
    pub open spec fn wf(&self) -> bool {
        match self {
            ProfileState::Curve(c) => c.wf(),
            _ => true,
        }
    }

    /// Whether a tick under this profile needs the temperature.
    pub fn needs_temperature(&self) -> (r: bool)
        ensures
            r == self is Curve,
    {
        match self {
            ProfileState::Curve(_) => true,
            _ => false,
        }
    }
}

/// The write that hands the fan to the firmware (`false`) or to software (`true`).
pub open spec fn pwm_mode_write(base: Seq<char>, manual: bool) -> RequestView {
    write_view(base + "/pwm1_enable"@, if manual { "1"@ } else { "0"@ })
}

/// The write of a duty byte.
pub open spec fn pwm_duty_write(base: Seq<char>, duty: int) -> RequestView {
    write_view(base + "/pwm1"@, decimal(duty as nat))
}

/// The writes of one tick: under a curve with a temperature at hand, software
/// control and the curve's duty at that temperature; otherwise none.
pub open spec fn tick_writes(state: ProfileState, base: Seq<char>, temperature: Option<int>) -> Seq<
    RequestView,
> {
    match state {
        ProfileState::Curve(c) => match temperature {
            Some(t) => {
                let p = curve_percent(c.points@, t);
                seq![pwm_mode_write(base, true), pwm_duty_write(base, duty_of(p.0, p.1))]
            },
            None => Seq::empty(),
        },
        _ => Seq::empty(),
    }
}

/// The writes that switching to a profile makes: hands-off returns the fan to
/// the firmware; a curve takes it over; a manual duty takes it over and writes
/// the duty at once.
pub open spec fn switch_writes(state: ProfileState, base: Seq<char>) -> Seq<RequestView> {
    match state {
        ProfileState::HandsOff => seq![pwm_mode_write(base, false)],
        ProfileState::Curve(_) => seq![pwm_mode_write(base, true)],
        ProfileState::Manual(duty) => seq![
            pwm_mode_write(base, true),
            pwm_duty_write(base, duty as int),
        ],
    }
}

/// The views of a list of requests.
pub open spec fn request_views(rs: Seq<Request>) -> Seq<RequestView> {
    rs.map_values(|r: Request| r@)
}

fn mode_request(base: &str, manual: bool) -> (r: Request)
    ensures
        r@ == pwm_mode_write(base@, manual),
{
    if manual {
        proof {
            reveal_strlit("1");
        }
        Request::Write { path: pwm_enable_path(base), value: String::from_str("1") }
    } else {
        proof {
            reveal_strlit("0");
        }
        Request::Write { path: pwm_enable_path(base), value: String::from_str("0") }
    }
}

fn duty_request(base: &str, duty: u8) -> (r: Request)
    ensures
        r@ == pwm_duty_write(base@, duty as int),
{
    Request::Write { path: pwm_duty_path(base), value: format_u64(duty as u64) }
}

fn software_duty(base: &str, duty: u8) -> (r: Vec<Request>)
    ensures
        request_views(r@) == seq![pwm_mode_write(base@, true), pwm_duty_write(base@, duty as int)],
{
    let r = vec![mode_request(base, true), duty_request(base, duty)];
    assert(request_views(r@) =~= seq![
        pwm_mode_write(base@, true),
        pwm_duty_write(base@, duty as int),
    ]);
    r
}

/// The writes of one tick of the control loop under `state`, where
/// `temperature` (millidegrees Celsius) is what the sensors gave, if anything.
pub fn tick_requests(state: &ProfileState, base: &str, temperature: Option<i64>) -> (r: Vec<
    Request,
>)
    requires
        state.wf(),
    ensures
        request_views(r@) == tick_writes(
            *state,
            base@,
            match temperature {
                Some(t) => Some(t as int),
                None => None,
            },
        ),
{
    match state {
        ProfileState::Curve(c) => match temperature {
            Some(t) => {
                let p = eval_curve(c, t);
                let duty = duty_from_percent(p);
                software_duty(base, duty)
            },
            None => {
                let r: Vec<Request> = Vec::new();
                assert(request_views(r@) =~= Seq::empty());
                r
            },
        },
        _ => {
            let r: Vec<Request> = Vec::new();
            assert(request_views(r@) =~= Seq::empty());
            r
        },
    }
}

/// The writes that switching to `state` makes.
pub fn switch_requests(state: &ProfileState, base: &str) -> (r: Vec<Request>)
    ensures
        request_views(r@) == switch_writes(*state, base@),
{
    match state {
        ProfileState::HandsOff => {
            let r = vec![mode_request(base, false)];
            assert(request_views(r@) =~= seq![pwm_mode_write(base@, false)]);
            r
        },
        ProfileState::Curve(_) => {
            let r = vec![mode_request(base, true)];
            assert(request_views(r@) =~= seq![pwm_mode_write(base@, true)]);
            r
        },
        ProfileState::Manual(duty) => software_duty(base, *duty),
    }
}

/// Under a curve a tick with a temperature writes a duty; after switching to
/// hands-off, the switch writes exactly the firmware-control flag and the
/// ticks that follow write nothing, whatever the sensors read.
pub proof fn lemma_hands_off_stops_driving(
    before: ProfileState,
    base: Seq<char>,
    reading: int,
    temperature: Option<int>,
)
    requires
        before is Curve,
    ensures
        tick_writes(before, base, Some(reading)).len() == 2,
        tick_writes(before, base, Some(reading))[1] is Write,
        tick_writes(before, base, Some(reading))[1]->Write_path == base + "/pwm1"@,
        switch_writes(ProfileState::HandsOff, base) == seq![pwm_mode_write(base, false)],
        tick_writes(ProfileState::HandsOff, base, temperature) == Seq::<RequestView>::empty(),
{
}

/// A manual duty is written when it is chosen and never by the control loop.
pub proof fn lemma_manual_not_driven_by_ticks(
    duty: u8,
    base: Seq<char>,
    temperature: Option<int>,
)
    ensures
        switch_writes(ProfileState::Manual(duty), base).contains(
            pwm_duty_write(base, duty as int),
        ),
        tick_writes(ProfileState::Manual(duty), base, temperature) == Seq::<RequestView>::empty(),
{
    assert(switch_writes(ProfileState::Manual(duty), base)[1] == pwm_duty_write(base, duty as int));
}

} // verus!
