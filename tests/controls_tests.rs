use loki_control::controls::{
    airplane_request, default_sink, display_mode_request, mute_toggle_args, power_limit_request,
    radio_toggle_request, soft_blocked, volume_args,
};
use loki_control::protocol::Request;

fn run_of(r: &Request) -> (String, Vec<String>) {
    match r {
        Request::Run { program, args } => (program.clone(), args.clone()),
        Request::Write { .. } => panic!("expected a program start"),
    }
}

#[test]
fn sink_from_pactl_info() {
    let info = "Server String: /run/user/1000/pulse/native\nDefault Sink: alsa_output.pci.analog-stereo \nDefault Source: mic\n";
    assert_eq!(default_sink(Some(info.to_string())), "alsa_output.pci.analog-stereo");
    assert_eq!(default_sink(Some("nothing here\n".to_string())), "@DEFAULT_SINK@");
    assert_eq!(default_sink(None), "@DEFAULT_SINK@");
}

#[test]
fn rfkill_soft_block() {
    let listing = "0: phy0: Wireless LAN\n\tSoft blocked: yes\n\tHard blocked: no\n";
    assert_eq!(soft_blocked(Some(listing.to_string())), Some(true));
    let listing = "0: phy0: Wireless LAN\n\tSoft blocked: no\n";
    assert_eq!(soft_blocked(Some(listing.to_string())), Some(false));
    assert_eq!(soft_blocked(Some(String::new())), None);
    assert_eq!(soft_blocked(None), None);
}

#[test]
fn radio_requests() {
    assert_eq!(run_of(&radio_toggle_request("wifi")), ("rfkill".to_string(), vec!["toggle".to_string(), "wifi".to_string()]));
    assert_eq!(run_of(&airplane_request(true)).1, vec!["block", "all"]);
    assert_eq!(run_of(&airplane_request(false)).1, vec!["unblock", "all"]);
}

#[test]
fn power_limit() {
    assert_eq!(run_of(&power_limit_request(15)), ("ryzenadj".to_string(), vec!["--stapm-limit".to_string(), "15000".to_string()]));
}

#[test]
fn display_modes() {
    let (p, a) = run_of(&display_mode_request("eDP-1", 1920, 1080, 60000));
    assert_eq!(p, "wlr-randr");
    assert_eq!(a, vec!["--output", "eDP-1", "--mode", "1920x1080@60Hz"]);
    for mhz in [59940u32, 40000, 50001, 120500, 1, 999, 47120] {
        let (_, a) = run_of(&display_mode_request("o", 1280, 720, mhz));
        assert_eq!(a[3], format!("1280x720@{}Hz", mhz as f64 / 1000.0));
    }
}

#[test]
fn audio_arguments() {
    assert_eq!(volume_args("sink", 40), vec!["set-sink-volume", "sink", "40%"]);
    assert_eq!(mute_toggle_args("sink"), vec!["set-sink-mute", "sink", "toggle"]);
}

use loki_control::controls::{refresh_rates, resolutions, DisplayMode};

fn mode(width: u32, height: u32, refresh: u32) -> DisplayMode {
    DisplayMode { width, height, refresh }
}

#[test]
fn resolutions_are_distinct_and_ordered() {
    let modes = vec![
        mode(1920, 1080, 60000),
        mode(1280, 720, 60000),
        mode(1920, 1080, 40000),
        mode(1280, 800, 50000),
        mode(1280, 720, 59940),
    ];
    assert_eq!(resolutions(&modes), vec![(1280, 720), (1280, 800), (1920, 1080)]);
    assert_eq!(resolutions(&vec![]), vec![]);
}

#[test]
fn refresh_rates_for_one_resolution() {
    let modes = vec![
        mode(1920, 1080, 60000),
        mode(1920, 1080, 40000),
        mode(1280, 720, 50000),
        mode(1920, 1080, 60000),
        mode(1920, 1080, 50000),
    ];
    assert_eq!(refresh_rates(&modes, 1920, 1080), vec![40000, 50000, 60000]);
    assert_eq!(refresh_rates(&modes, 1280, 720), vec![50000]);
    assert!(refresh_rates(&modes, 800, 600).is_empty());
}

#[test]
fn unicode_whitespace_is_trimmed_like_str_trim() {
    let info = "Default Sink:\u{a0}speakers\u{3000}\n";
    assert_eq!(default_sink(Some(info.to_string())), "speakers");
    let listing = "\u{b}Soft blocked:\u{a0}yes\u{85}\n";
    assert_eq!(soft_blocked(Some(listing.to_string())), Some(true));
}
