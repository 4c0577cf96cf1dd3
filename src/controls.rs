//! The control panel's other settings: the default audio sink, the radios,
//! the display mode and the processor's power limit.
use vstd::prelude::*;
use crate::protocol::{Request, RequestView};
use crate::text::{
    decimal, digit_char, format_u64, lines, same_text, split_lines, strip_prefix,
    trim_whitespace, trimmed,
};

verus! {

/// A start of `program` with `args`.
pub open spec fn run_view(program: Seq<char>, args: Seq<Seq<char>>) -> RequestView {
    RequestView::Run { program, args }
}

/// The sink name used when the sound server names no default sink.
pub open spec fn fallback_sink() -> Seq<char> {
    "@DEFAULT_SINK@"@
}

/// The default sink that `pactl info` lines name: the trimmed rest of the
/// first line that starts with `Default Sink:`.
pub open spec fn sink_in_lines(ls: Seq<Seq<char>>) -> Seq<char>
    decreases ls.len(),
{
    if ls.len() == 0 {
        fallback_sink()
    } else if "Default Sink:"@.is_prefix_of(ls[0]) {
        trimmed(ls[0].subrange(13, ls[0].len() as int))
    } else {
        sink_in_lines(ls.drop_first())
    }
}

/// The default audio sink, given the output of `pactl info` (none where the
/// command failed or wrote no text).
pub fn default_sink(info: Option<String>) -> (r: String)
    ensures
        r@ == match info {
            Some(t) => sink_in_lines(lines(t@)),
            None => fallback_sink(),
        },
{
    proof {
        reveal_strlit("@DEFAULT_SINK@");
        reveal_strlit("Default Sink:");
    }
    match info {
        None => String::from_str("@DEFAULT_SINK@"),
        Some(t) => {
            let ls = split_lines(t.as_str());
            let ghost all = ls.deep_view();
            let mut i: usize = 0;
            assert(all.subrange(0, all.len() as int) =~= all);
            while i < ls.len()
                invariant
                    i <= ls@.len(),
                    all == ls.deep_view(),
                    all == lines(t@),
                    info == Some(t),
                    sink_in_lines(all) == sink_in_lines(all.subrange(i as int, all.len() as int)),
                decreases ls@.len() - i,
            {
                let ghost rest = all.subrange(i as int, all.len() as int);
                assert(rest.drop_first() =~= all.subrange(i as int + 1, all.len() as int));
                assert(rest[0] == ls@[i as int]@);
                match strip_prefix(ls[i].as_str(), "Default Sink:") {
                    Some(name) => {
                        proof {
                            reveal_strlit("Default Sink:");
                        }
                        assert(sink_in_lines(rest) == trimmed(name@));
                        return String::from_str(trim_whitespace(name));
                    },
                    None => {},
                }
                i = i + 1;
            }
            String::from_str("@DEFAULT_SINK@")
        },
    }
}

/// Whether `rfkill list` lines report the device soft-blocked: the first
/// line whose trimmed text starts with `Soft blocked:` decides, by whether its
/// trimmed rest is `yes`.
pub open spec fn blocked_in_lines(ls: Seq<Seq<char>>) -> Option<bool>
    decreases ls.len(),
{
    if ls.len() == 0 {
        None
    } else if "Soft blocked:"@.is_prefix_of(trimmed(ls[0])) {
        Some(trimmed(trimmed(ls[0]).subrange(13, trimmed(ls[0]).len() as int)) == "yes"@)
    } else {
        blocked_in_lines(ls.drop_first())
    }
}

/// Whether a radio is soft-blocked, given the output of `rfkill list <kind>`
/// (none where the command failed); none where the output does not say.
pub fn soft_blocked(listing: Option<String>) -> (r: Option<bool>)
    ensures
        r == match listing {
            Some(t) => blocked_in_lines(lines(t@)),
            None => None,
        },
{
    proof {
        reveal_strlit("Soft blocked:");
    }
    match listing {
        None => None,
        Some(t) => {
            let ls = split_lines(t.as_str());
            let ghost all = ls.deep_view();
            let mut i: usize = 0;
            assert(all.subrange(0, all.len() as int) =~= all);
            while i < ls.len()
                invariant
                    i <= ls@.len(),
                    all == ls.deep_view(),
                    all == lines(t@),
                    listing == Some(t),
                    blocked_in_lines(all) == blocked_in_lines(
                        all.subrange(i as int, all.len() as int),
                    ),
                decreases ls@.len() - i,
            {
                let ghost rest = all.subrange(i as int, all.len() as int);
                assert(rest.drop_first() =~= all.subrange(i as int + 1, all.len() as int));
                assert(rest[0] == ls@[i as int]@);
                let line = trim_whitespace(ls[i].as_str());
                match strip_prefix(line, "Soft blocked:") {
                    Some(state) => {
                        proof {
                            reveal_strlit("Soft blocked:");
                        }
                        proof {
                            reveal_strlit("yes");
                        }
                        assert(blocked_in_lines(rest) == Some(trimmed(state@) == "yes"@));
                        return Some(same_text(trim_whitespace(state), "yes"));
                    },
                    None => {},
                }
                i = i + 1;
            }
            None
        },
    }
}

fn owned(s: &str) -> (r: String)
    ensures
        r@ == s@,
{
    String::from_str(s)
}

/// Flips one radio (`wifi`, `bluetooth`) on or off.
pub fn radio_toggle_request(kind: &str) -> (r: Request)
    ensures
        r@ == run_view("rfkill"@, seq!["toggle"@, kind@]),
{
    let args = vec![owned("toggle"), owned(kind)];
    assert(args.deep_view() =~= seq!["toggle"@, kind@]);
    Request::Run { program: owned("rfkill"), args }
}

/// Blocks every radio (airplane mode on) or unblocks them all.
pub fn airplane_request(on: bool) -> (r: Request)
    ensures
        r@ == run_view("rfkill"@, seq![if on { "block"@ } else { "unblock"@ }, "all"@]),
{
    let action = if on {
        owned("block")
    } else {
        owned("unblock")
    };
    let args = vec![action, owned("all")];
    assert(args.deep_view() =~= seq![if on { "block"@ } else { "unblock"@ }, "all"@]);
    Request::Run { program: owned("rfkill"), args }
}

/// Sets the processor's sustained power limit to `watts`.
pub fn power_limit_request(watts: u32) -> (r: Request)
    ensures
        r@ == run_view("ryzenadj"@, seq!["--stapm-limit"@, decimal(watts as nat) + "000"@]),
{
    let mut limit = format_u64(watts as u64);
    limit.append("000");
    let args = vec![owned("--stapm-limit"), limit];
    assert(args.deep_view() =~= seq!["--stapm-limit"@, decimal(watts as nat) + "000"@]);
    Request::Run { program: owned("ryzenadj"), args }
}

/// The digits after the decimal point of `f` thousandths (`0 < f < 1000`),
/// without trailing zeros.
pub open spec fn fraction_digits(f: int) -> Seq<char> {
    if f % 10 != 0 {
        seq![digit_char(f / 100), digit_char((f / 10) % 10), digit_char(f % 10)]
    } else if f % 100 != 0 {
        seq![digit_char(f / 100), digit_char((f / 10) % 10)]
    } else {
        seq![digit_char(f / 100)]
    }
}

/// `m` thousandths as the shortest decimal number: `60` for 60000, `59.94`
/// for 59940.
pub open spec fn thousandths_text(m: nat) -> Seq<char> {
    if m % 1000 == 0 {
        decimal(m / 1000)
    } else {
        decimal(m / 1000) + "."@ + fraction_digits((m % 1000) as int)
    }
}

/// A display mode as the compositor's mode option writes it:
/// `<width>x<height>@<refresh>Hz`, with the refresh rate given in millihertz.
pub open spec fn mode_text(width: nat, height: nat, refresh_mhz: nat) -> Seq<char> {
    decimal(width) + "x"@ + decimal(height) + "@"@ + thousandths_text(refresh_mhz) + "Hz"@
}

fn digit_text(d: u32) -> (r: String)
    requires
        d < 10,
    ensures
        r@ == seq![digit_char(d as int)],
{
    let r = format_u64(d as u64);
    assert(r@ == seq![digit_char(d as int)]);
    r
}

fn thousandths(m: u32) -> (r: String)
    ensures
        r@ == thousandths_text(m as nat),
{
    let mut r = format_u64((m / 1000) as u64);
    let f = m % 1000;
    if f != 0 {
        r.append(".");
        r.append(digit_text(f / 100).as_str());
        if f % 100 != 0 {
            r.append(digit_text((f / 10) % 10).as_str());
            if f % 10 != 0 {
                r.append(digit_text(f % 10).as_str());
            }
        }
        proof {
            if f % 10 != 0 {
                assert(f % 100 != 0);
            }
        }
    }
    r
}

/// Switches the output `output` to a mode, with `wlr-randr`.
pub fn display_mode_request(output: &str, width: u32, height: u32, refresh_mhz: u32) -> (r:
    Request)
    ensures
        r@ == run_view(
            "wlr-randr"@,
            seq!["--output"@, output@, "--mode"@, mode_text(width as nat, height as nat, refresh_mhz as nat)],
        ),
{
    let mut mode = format_u64(width as u64);
    mode.append("x");
    mode.append(format_u64(height as u64).as_str());
    mode.append("@");
    mode.append(thousandths(refresh_mhz).as_str());
    mode.append("Hz");
    let args = vec![owned("--output"), owned(output), owned("--mode"), mode];
    assert(args.deep_view() =~= seq![
        "--output"@,
        output@,
        "--mode"@,
        mode_text(width as nat, height as nat, refresh_mhz as nat),
    ]);
    Request::Run { program: owned("wlr-randr"), args }
}

/// The arguments of `pactl` that set a sink's volume to `percent`.
pub fn volume_args(sink: &str, percent: u32) -> (r: Vec<String>)
    ensures
        r.deep_view() == seq!["set-sink-volume"@, sink@, decimal(percent as nat) + "%"@],
{
    let mut level = format_u64(percent as u64);
    level.append("%");
    let r = vec![owned("set-sink-volume"), owned(sink), level];
    assert(r.deep_view() =~= seq!["set-sink-volume"@, sink@, decimal(percent as nat) + "%"@]);
    r
}

/// The arguments of `pactl` that toggle a sink's mute.
pub fn mute_toggle_args(sink: &str) -> (r: Vec<String>)
    ensures
        r.deep_view() == seq!["set-sink-mute"@, sink@, "toggle"@],
{
    let r = vec![owned("set-sink-mute"), owned(sink), owned("toggle")];
    assert(r.deep_view() =~= seq!["set-sink-mute"@, sink@, "toggle"@]);
    r
}

/// One mode an output offers; the refresh rate is in millihertz.
#[derive(Clone, Copy, Debug, PartialEq, Eq)]
pub struct DisplayMode {
    pub width: u32,
    pub height: u32,
    pub refresh: u32,
}

/// Whether resolution `a` comes before `b`: by width, then by height.
pub open spec fn resolution_before(a: (u32, u32), b: (u32, u32)) -> bool {
    a.0 < b.0 || (a.0 == b.0 && a.1 < b.1)
}

/// Each resolution strictly before the next.
pub open spec fn resolutions_ascending(s: Seq<(u32, u32)>) -> bool {
    forall|i: int, j: int| 0 <= i < j < s.len() ==> resolution_before(s[i], s[j])
}

/// Each rate strictly below the next.
pub open spec fn rates_ascending(s: Seq<u32>) -> bool {
    forall|i: int, j: int| 0 <= i < j < s.len() ==> s[i] < s[j]
}

/// Whether some mode has this resolution.
pub open spec fn offers_resolution(modes: Seq<DisplayMode>, r: (u32, u32)) -> bool {
    exists|i: int| 0 <= i < modes.len() && (modes[i].width, modes[i].height) == r
}

/// Whether some mode has this resolution and refresh rate.
pub open spec fn offers_rate(modes: Seq<DisplayMode>, width: u32, height: u32, rate: u32) -> bool {
    exists|i: int|
        0 <= i < modes.len() && modes[i].width == width && modes[i].height == height
            && modes[i].refresh == rate
}

fn insert_resolution(v: &mut Vec<(u32, u32)>, x: (u32, u32))
    requires
        resolutions_ascending(old(v)@),
    ensures
        resolutions_ascending(final(v)@),
        forall|y: (u32, u32)| final(v)@.contains(y) <==> (old(v)@.contains(y) || y == x),
{
    let mut i: usize = 0;
    while i < v.len() && (v[i].0 < x.0 || (v[i].0 == x.0 && v[i].1 < x.1))
        invariant
            v@ == old(v)@,
            resolutions_ascending(v@),
            i <= v@.len(),
            forall|k: int| 0 <= k < i ==> resolution_before(#[trigger] v@[k], x),
        decreases v@.len() - i,
    {
        i = i + 1;
    }
    if i < v.len() && v[i].0 == x.0 && v[i].1 == x.1 {
        assert(v@[i as int] == x);
        assert(v@.contains(x));
        return;
    }
    let ghost before = v@;
    assert(i < before.len() ==> resolution_before(x, before[i as int]));
    v.insert(i, x);
    assert forall|a: int, b: int| 0 <= a < b < v@.len() implies resolution_before(
        v@[a],
        v@[b],
    ) by {
        if b < i {
            assert(v@[a] == before[a] && v@[b] == before[b]);
        } else if b == i {
            assert(v@[a] == before[a]);
        } else if a < i {
            assert(v@[a] == before[a] && v@[b] == before[b - 1]);
            assert(resolution_before(before[a], x));
            assert(resolution_before(x, before[i as int]));
            if b - 1 > i {
                assert(resolution_before(before[i as int], before[b - 1]));
            }
        } else if a == i {
            assert(v@[b] == before[b - 1]);
            if b - 1 > i {
                assert(resolution_before(before[i as int], before[b - 1]));
            }
        } else {
            assert(v@[a] == before[a - 1] && v@[b] == before[b - 1]);
        }
    }
    assert forall|y: (u32, u32)| v@.contains(y) <==> (before.contains(y) || y == x) by {
        if v@.contains(y) {
            let k = choose|k: int| 0 <= k < v@.len() && v@[k] == y;
            if k < i {
                assert(before[k] == y);
            } else if k > i {
                assert(before[k - 1] == y);
            }
        }
        if before.contains(y) {
            let k = choose|k: int| 0 <= k < before.len() && before[k] == y;
            if k < i {
                assert(v@[k] == y);
            } else {
                assert(v@[k + 1] == y);
            }
        }
        if y == x {
            assert(v@[i as int] == x);
        }
    }
    assert(forall|y: (u32, u32)| v@.contains(y) <==> (old(v)@.contains(y) || y == x));
}

fn insert_rate(v: &mut Vec<u32>, x: u32)
    requires
        rates_ascending(old(v)@),
    ensures
        rates_ascending(final(v)@),
        forall|y: u32| final(v)@.contains(y) <==> (old(v)@.contains(y) || y == x),
{
    let mut i: usize = 0;
    while i < v.len() && v[i] < x
        invariant
            v@ == old(v)@,
            rates_ascending(v@),
            i <= v@.len(),
            forall|k: int| 0 <= k < i ==> #[trigger] v@[k] < x,
        decreases v@.len() - i,
    {
        i = i + 1;
    }
    if i < v.len() && v[i] == x {
        assert(v@.contains(x));
        return;
    }
    let ghost before = v@;
    v.insert(i, x);
    assert forall|y: u32| v@.contains(y) <==> (before.contains(y) || y == x) by {
        if v@.contains(y) {
            let k = choose|k: int| 0 <= k < v@.len() && v@[k] == y;
            if k < i {
                assert(before[k] == y);
            } else if k > i {
                assert(before[k - 1] == y);
            }
        }
        if before.contains(y) {
            let k = choose|k: int| 0 <= k < before.len() && before[k] == y;
            if k < i {
                assert(v@[k] == y);
            } else {
                assert(v@[k + 1] == y);
            }
        }
        if y == x {
            assert(v@[i as int] == x);
        }
    }
    assert(forall|y: u32| v@.contains(y) <==> (old(v)@.contains(y) || y == x));
}

/// The distinct resolutions the modes offer, in ascending order.
pub fn resolutions(modes: &Vec<DisplayMode>) -> (r: Vec<(u32, u32)>)
    ensures
        resolutions_ascending(r@),
        forall|x: (u32, u32)| r@.contains(x) <==> offers_resolution(modes@, x),
{
    let mut r: Vec<(u32, u32)> = Vec::new();
    let mut i: usize = 0;
    while i < modes.len()
        invariant
            i <= modes@.len(),
            resolutions_ascending(r@),
            forall|x: (u32, u32)|
                r@.contains(x) <==> offers_resolution(modes@.subrange(0, i as int), x),
        decreases modes@.len() - i,
    {
        let m = modes[i];
        insert_resolution(&mut r, (m.width, m.height));
        i = i + 1;
        assert forall|x: (u32, u32)|
            r@.contains(x) <==> offers_resolution(modes@.subrange(0, i as int), x) by {
            let done = modes@.subrange(0, i as int);
            let prev = modes@.subrange(0, i - 1);
            if offers_resolution(done, x) {
                let k = choose|k: int| 0 <= k < done.len() && (done[k].width, done[k].height) == x;
                if k < i - 1 {
                    assert(prev[k] == done[k]);
                }
            }
            if offers_resolution(prev, x) {
                let k = choose|k: int| 0 <= k < prev.len() && (prev[k].width, prev[k].height) == x;
                assert(done[k] == prev[k]);
            }
            if x == (m.width, m.height) {
                assert(done[i - 1] == m);
            }
        }
    }
    assert(modes@.subrange(0, i as int) =~= modes@);
    r
}

/// The distinct refresh rates the modes offer at one resolution, in ascending order.
pub fn refresh_rates(modes: &Vec<DisplayMode>, width: u32, height: u32) -> (r: Vec<u32>)
    ensures
        rates_ascending(r@),
        forall|x: u32| r@.contains(x) <==> offers_rate(modes@, width, height, x),
{
    let mut r: Vec<u32> = Vec::new();
    let mut i: usize = 0;
    while i < modes.len()
        invariant
            i <= modes@.len(),
            rates_ascending(r@),
            forall|x: u32|
                r@.contains(x) <==> offers_rate(modes@.subrange(0, i as int), width, height, x),
        decreases modes@.len() - i,
    {
        let m = modes[i];
        let ghost before = r@;
        if m.width == width && m.height == height {
            insert_rate(&mut r, m.refresh);
        }
        i = i + 1;
        assert forall|x: u32|
            r@.contains(x) <==> offers_rate(modes@.subrange(0, i as int), width, height, x) by {
            let done = modes@.subrange(0, i as int);
            let prev = modes@.subrange(0, i - 1);
            if offers_rate(done, width, height, x) {
                let k = choose|k: int|
                    0 <= k < done.len() && done[k].width == width && done[k].height == height
                        && done[k].refresh == x;
                if k < i - 1 {
                    assert(prev[k] == done[k]);
                }
            }
            if offers_rate(prev, width, height, x) {
                let k = choose|k: int|
                    0 <= k < prev.len() && prev[k].width == width && prev[k].height == height
                        && prev[k].refresh == x;
                assert(done[k] == prev[k]);
            }
            if m.width == width && m.height == height && x == m.refresh {
                assert(done[i - 1] == m);
            }
        }
    }
    assert(modes@.subrange(0, i as int) =~= modes@);
    r
}

} // verus!
