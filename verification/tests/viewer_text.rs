use harbor::text::{is_blank, trim_chars};
use harbor::runtime::{
    browser_runtime_config_value, native_cli_arg_value, native_cli_spacetimedb_uri, native_cli_tile_server_uri,
    spacetimedb_uri, tile_server_uri,
};
use harbor::timeline::{
    extend_timestamp_bounds, format_ais_dimensions, format_optional_text, format_optional_u64,
    initial_time, merge_timestamp_bounds, playback_landing, projected_ship_name, rate_factor, slider_bounds,
    slider_position, timestamp_control_step, PlaybackRate, TimestampEvent, TimestampState,
};

fn args(items: &[&str]) -> Vec<String> {
    items.iter().map(|s| s.to_string()).collect()
}

#[test]
fn reads_command_line_values() {
    let line = args(&["harbor", "--url=http://db:3000", "--tile-url", "http://tiles:8081"]);
    assert_eq!(native_cli_spacetimedb_uri(&line), Some("http://db:3000".to_string()));
    assert_eq!(native_cli_tile_server_uri(&line), Some("http://tiles:8081".to_string()));
    assert_eq!(native_cli_arg_value(&args(&["harbor", "--url="]), "--url"), None);
    assert_eq!(native_cli_arg_value(&args(&["harbor", "--url"]), "--url"), None);
    assert_eq!(native_cli_arg_value(&args(&["--url", "x"]), "--url"), None);
}

#[test]
fn prefers_command_line_then_environment_then_default() {
    assert_eq!(spacetimedb_uri(Some("cli".to_string()), Some("env".to_string())), "cli");
    assert_eq!(spacetimedb_uri(None, Some("env".to_string())), "env");
    assert_eq!(spacetimedb_uri(None, None), "http://localhost:3000");
    assert_eq!(tile_server_uri(None, None), "http://localhost:8081");
    assert_eq!(
        browser_runtime_config_value(Some("q".to_string()), Some("i".to_string())),
        Some("q".to_string())
    );
    assert_eq!(browser_runtime_config_value(None, Some("i".to_string())), Some("i".to_string()));
    assert_eq!(browser_runtime_config_value(None, Some(String::new())), None);
    assert_eq!(browser_runtime_config_value(None, None), None);
    assert_eq!(browser_runtime_config_value(Some(String::new()), Some("i".to_string())), Some(String::new()));
}

#[test]
fn computes_slider_bounds() {
    assert_eq!(slider_bounds(Some(1), Some(5), Some(9)), Some((1, 5)));
    assert_eq!(slider_bounds(Some(5), Some(1), None), None);
    assert_eq!(slider_bounds(Some(5), None, Some(2)), Some((2, 5)));
    assert_eq!(slider_bounds(None, Some(5), Some(8)), Some((5, 8)));
    assert_eq!(slider_bounds(None, None, Some(3)), Some((3, 3)));
    assert_eq!(slider_bounds(None, None, None), None);
}

#[test]
fn merges_and_extends_time_bounds() {
    assert_eq!(merge_timestamp_bounds(Some(1), None, Some(0), Some(9)), (Some(1), Some(9)));
    assert_eq!(merge_timestamp_bounds(Some(10), None, None, Some(5)), (Some(10), None));
    assert_eq!(extend_timestamp_bounds(&[4, 12, -3], Some(0), Some(10)), (Some(-3), Some(12)));
    assert_eq!(extend_timestamp_bounds(&[], None, None), (None, None));
}

#[test]
fn formats_ship_information() {
    assert_eq!(format_optional_text(Some("ROTTERDAM")), "ROTTERDAM");
    assert_eq!(format_optional_text(None), "-");
    assert_eq!(format_optional_u64(Some(244740748)), "244740748");
    assert_eq!(format_optional_u64(None), "-");
    assert_eq!(format_ais_dimensions(Some(10), Some(20), Some(3), Some(4)), "a=10 b=20 c=3 d=4");
    assert_eq!(format_ais_dimensions(Some(10), None, Some(3), Some(4)), "-");
    assert_eq!(projected_ship_name(None, 42), "Projected Ship 42");
    assert_eq!(projected_ship_name(Some("SINCFAL".to_string()), 42), "SINCFAL");
}

#[test]
fn playback_stops_at_the_newest_report() {
    assert_eq!(playback_landing(50, Some(0), Some(100)), (50, false));
    assert_eq!(playback_landing(120, Some(0), Some(100)), (100, true));
    assert_eq!(playback_landing(100, Some(0), Some(100)), (100, true));
    assert_eq!(playback_landing(-5, Some(0), Some(100)), (0, false));
    assert_eq!(playback_landing(7, None, None), (7, false));
}

#[test]
fn starts_the_timeline_at_the_oldest_known_time() {
    assert_eq!(initial_time(None, true, Some(5), Some(1)), Some(5));
    assert_eq!(initial_time(None, true, None, Some(1)), Some(1));
    assert_eq!(initial_time(Some(9), true, Some(5), Some(1)), None);
    assert_eq!(initial_time(None, false, Some(5), Some(1)), None);
    assert_eq!(initial_time(None, true, None, None), None);
}

fn ts(value: Option<i64>, editing: bool, rate: PlaybackRate) -> TimestampState {
    TimestampState { value, editing, rate }
}

#[test]
fn timestamp_controls_follow_buttons_keys_and_edits() {
    let start = ts(Some(100), true, PlaybackRate::Fast);
    assert_eq!(
        timestamp_control_step(start, TimestampEvent::KeyBack, None),
        (ts(Some(99), false, PlaybackRate::Fast), true)
    );
    assert_eq!(
        timestamp_control_step(start, TimestampEvent::StepForward, None),
        (ts(Some(101), false, PlaybackRate::Stopped), true)
    );
    assert_eq!(
        timestamp_control_step(start, TimestampEvent::Play, None),
        (ts(Some(100), false, PlaybackRate::Normal), false)
    );
    assert_eq!(
        timestamp_control_step(start, TimestampEvent::VeryFast, None),
        (ts(Some(100), false, PlaybackRate::VeryFast), false)
    );
    assert_eq!(
        timestamp_control_step(start, TimestampEvent::Reset, Some(5)),
        (ts(Some(5), false, PlaybackRate::Stopped), true)
    );
    assert_eq!(timestamp_control_step(start, TimestampEvent::Reset, None), (start, false));
    assert_eq!(
        timestamp_control_step(start, TimestampEvent::TextEdited(Some(7)), None),
        (ts(Some(7), true, PlaybackRate::Stopped), true)
    );
    let idle = ts(Some(100), false, PlaybackRate::Normal);
    assert_eq!(
        timestamp_control_step(idle, TimestampEvent::TextEdited(None), None),
        (ts(None, false, PlaybackRate::Normal), false)
    );
    assert_eq!(
        timestamp_control_step(idle, TimestampEvent::CurrentShown(42), None),
        (ts(Some(42), false, PlaybackRate::Normal), false)
    );
    assert_eq!(timestamp_control_step(start, TimestampEvent::CurrentShown(42), None), (start, false));
    assert_eq!(
        timestamp_control_step(ts(None, false, PlaybackRate::Normal), TimestampEvent::StepBack, None),
        (ts(None, false, PlaybackRate::Stopped), true)
    );
    assert_eq!(
        timestamp_control_step(idle, TimestampEvent::TextFocused, None),
        (ts(Some(100), true, PlaybackRate::Normal), false)
    );
    assert_eq!(
        timestamp_control_step(idle, TimestampEvent::SliderMoved(60), None),
        (ts(Some(60), false, PlaybackRate::Stopped), true)
    );
}

#[test]
fn slider_handle_and_rates() {
    assert_eq!(slider_position(Some(50), 10, 20), 20);
    assert_eq!(slider_position(Some(5), 10, 20), 10);
    assert_eq!(slider_position(Some(15), 10, 20), 15);
    assert_eq!(slider_position(None, 10, 20), 10);
    assert_eq!(rate_factor(PlaybackRate::Stopped), 0);
    assert_eq!(rate_factor(PlaybackRate::Normal), 1);
    assert_eq!(rate_factor(PlaybackRate::Fast), 10);
    assert_eq!(rate_factor(PlaybackRate::VeryFast), 100);
}

#[test]
fn trims_exactly_unicode_whitespace() {
    let all: Vec<char> = vec![
        '\u{9}', '\u{a}', '\u{b}', '\u{c}', '\u{d}', ' ', '\u{85}', '\u{a0}', '\u{1680}', '\u{2000}', '\u{2005}',
        '\u{200a}', '\u{2028}', '\u{2029}', '\u{202f}', '\u{205f}', '\u{3000}',
    ];
    for c in &all {
        assert!(c.is_whitespace());
    }
    assert!(is_blank(&all));
    let mut text = all.clone();
    text.push('x');
    text.extend(all.iter());
    assert_eq!(trim_chars(&text), vec!['x']);
    let kept: Vec<char> = vec!['\u{200b}', 'y', '\u{180e}'];
    assert_eq!(trim_chars(&kept), kept);
    assert!(!is_blank(&['\u{200b}']));
}
