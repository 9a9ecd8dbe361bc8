//! The viewer's timeline and ship information panel: the slider range over the stored
//! report times, and the texts of the panel's rows.
use vstd::prelude::*;

use crate::text::{chars_of, decimal, push_decimal, push_str, string_from_chars};

verus! {

/// The slider range, in seconds, for the known oldest and newest report times and the
/// current time: the report range where both ends are known and in order, else a range
/// spanning whatever is known, else none.
pub open spec fn slider_bounds_of(oldest: Option<i64>, newest: Option<i64>, current: Option<i64>) -> Option<(i64, i64)> {
    match (oldest, newest, current) {
        (Some(o), Some(n), _) if o <= n => Some((o, n)),
        (Some(o), None, Some(c)) => Some((if o <= c { o } else { c }, if o >= c { o } else { c })),
        (None, Some(n), Some(c)) => Some((if c <= n { c } else { n }, if c >= n { c } else { n })),
        (None, None, Some(c)) => Some((c, c)),
        (Some(o), None, None) => Some((o, o)),
        (None, Some(n), None) => Some((n, n)),
        _ => None,
    }
}

/// Computes the slider range from the known times.
pub fn slider_bounds(oldest: Option<i64>, newest: Option<i64>, current: Option<i64>) -> (r: Option<(i64, i64)>)
    ensures
        r == slider_bounds_of(oldest, newest, current),
{
    match (oldest, newest, current) {
        (Some(o), Some(n), _) if o <= n => Some((o, n)),
        (Some(o), None, Some(c)) => Some((if o <= c { o } else { c }, if o >= c { o } else { c })),
        (None, Some(n), Some(c)) => Some((if c <= n { c } else { n }, if c >= n { c } else { n })),
        (None, None, Some(c)) => Some((c, c)),
        (Some(o), None, None) => Some((o, o)),
        (None, Some(n), None) => Some((n, n)),
        _ => None,
    }
}

/// A text, or `-` where there is none.
pub fn format_optional_text(value: Option<&str>) -> (r: String)
    ensures
        r@ == match value {
            Some(v) => v@,
            None => "-"@,
        },
{
    let c = match value {
        Some(v) => chars_of(v),
        None => chars_of("-"),
    };
    string_from_chars(c.as_slice())
}

/// A number in decimal, or `-` where there is none.
pub fn format_optional_u64(value: Option<u64>) -> (r: String)
    ensures
        r@ == match value {
            Some(v) => decimal(v as nat),
            None => "-"@,
        },
{
    let mut out: Vec<char> = Vec::new();
    match value {
        Some(v) => push_decimal(&mut out, v),
        None => push_str(&mut out, "-"),
    }
    assert(out@ =~= match value {
        Some(v) => decimal(v as nat),
        None => "-"@,
    });
    string_from_chars(out.as_slice())
}

/// The AIS dimensions as `a=.. b=.. c=.. d=..`, or `-` unless all four are known.
pub open spec fn ais_dimensions_text(a: Option<u16>, b: Option<u16>, c: Option<u16>, d: Option<u16>) -> Seq<char> {
    match (a, b, c, d) {
        (Some(a), Some(b), Some(c), Some(d)) => "a="@ + decimal(a as nat) + " b="@ + decimal(b as nat) + " c="@
            + decimal(c as nat) + " d="@ + decimal(d as nat),
        _ => "-"@,
    }
}

/// Formats the four AIS dimensions of a ship.
pub fn format_ais_dimensions(a: Option<u16>, b: Option<u16>, c: Option<u16>, d: Option<u16>) -> (r: String)
    ensures
        r@ == ais_dimensions_text(a, b, c, d),
{
    let mut out: Vec<char> = Vec::new();
    match (a, b, c, d) {
        (Some(a), Some(b), Some(c), Some(d)) => {
            push_str(&mut out, "a=");
            push_decimal(&mut out, a as u64);
            push_str(&mut out, " b=");
            push_decimal(&mut out, b as u64);
            push_str(&mut out, " c=");
            push_decimal(&mut out, c as u64);
            push_str(&mut out, " d=");
            push_decimal(&mut out, d as u64);
        },
        _ => push_str(&mut out, "-"),
    }
    assert(out@ =~= ais_dimensions_text(a, b, c, d));
    string_from_chars(out.as_slice())
}

/// The ends of a time range are in order where both are known.
pub open spec fn bounds_ordered(oldest: Option<i64>, newest: Option<i64>) -> bool {
    match (oldest, newest) {
        (Some(o), Some(n)) => o <= n,
        _ => true,
    }
}

/// `a` where it holds a value, else `b`.
pub open spec fn first_known(a: Option<i64>, b: Option<i64>) -> Option<i64> {
    match a {
        Some(v) => Some(v),
        None => b,
    }
}

/// The timeline range after the cached oldest and newest report times arrive: each side
/// takes the cached value where there is one; where that would invert the range, a side that
/// only the previous range knew is dropped, and if both sides arrived inverted, the previous
/// range stays.
pub open spec fn merged_bounds_of(
    cached_oldest: Option<i64>,
    cached_newest: Option<i64>,
    oldest: Option<i64>,
    newest: Option<i64>,
) -> (Option<i64>, Option<i64>) {
    let mo = first_known(cached_oldest, oldest);
    let mn = first_known(cached_newest, newest);
    if !bounds_ordered(mo, mn) {
        match (cached_oldest is Some, cached_newest is Some) {
            (true, false) => (mo, None),
            (false, true) => (None, mn),
            _ => (oldest, newest),
        }
    } else {
        (mo, mn)
    }
}

fn first_known_exec(a: Option<i64>, b: Option<i64>) -> (r: Option<i64>)
    ensures
        r == first_known(a, b),
{
    match a {
        Some(v) => Some(v),
        None => b,
    }
}

/// Merges the cached oldest and newest report times into the timeline range.
pub fn merge_timestamp_bounds(
    cached_oldest: Option<i64>,
    cached_newest: Option<i64>,
    oldest: Option<i64>,
    newest: Option<i64>,
) -> (r: (Option<i64>, Option<i64>))
    ensures
        r == merged_bounds_of(cached_oldest, cached_newest, oldest, newest),
{
    let merged_oldest = first_known_exec(cached_oldest, oldest);
    let merged_newest = first_known_exec(cached_newest, newest);
    if let (Some(o), Some(n)) = (merged_oldest, merged_newest) {
        if o > n {
            return match (cached_oldest.is_some(), cached_newest.is_some()) {
                (true, false) => (merged_oldest, None),
                (false, true) => (None, merged_newest),
                _ => (oldest, newest),
            };
        }
    }
    (merged_oldest, merged_newest)
}

/// The timeline range widened to cover the first `n` of the live report times.
pub open spec fn extended_bounds_of(
    times: Seq<i64>,
    n: int,
    oldest: Option<i64>,
    newest: Option<i64>,
) -> (Option<i64>, Option<i64>)
    decreases n,
{
    if n <= 0 {
        (oldest, newest)
    } else {
        let (o, w) = extended_bounds_of(times, n - 1, oldest, newest);
        let t = times[n - 1];
        (
            Some(match o { Some(v) => if v <= t { v } else { t }, None => t }),
            Some(match w { Some(v) => if v >= t { v } else { t }, None => t }),
        )
    }
}

/// Widens the timeline range to cover the times of newly arrived reports.
pub fn extend_timestamp_bounds(times: &[i64], oldest: Option<i64>, newest: Option<i64>) -> (r: (Option<i64>, Option<i64>))
    ensures
        r == extended_bounds_of(times@, times@.len() as int, oldest, newest),
{
    let mut o = oldest;
    let mut w = newest;
    let mut i: usize = 0;
    while i < times.len()
        invariant
            i <= times@.len(),
            (o, w) == extended_bounds_of(times@, i as int, oldest, newest),
        decreases times.len() - i,
    {
        let t = times[i];
        o = Some(match o { Some(v) => if v <= t { v } else { t }, None => t });
        w = Some(match w { Some(v) => if v >= t { v } else { t }, None => t });
        i = i + 1;
    }
    (o, w)
}

/// The name shown for a projected ship: its registered name, or `Projected Ship <mmsi>`.
pub fn projected_ship_name(registered_name: Option<String>, ship_id: u64) -> (r: String)
    ensures
        r@ == match registered_name {
            Some(n) => n@,
            None => "Projected Ship "@ + decimal(ship_id as nat),
        },
{
    match registered_name {
        Some(n) => n,
        None => {
            let mut out: Vec<char> = Vec::new();
            push_str(&mut out, "Projected Ship ");
            push_decimal(&mut out, ship_id);
            string_from_chars(out.as_slice())
        },
    }
}

/// The time the timeline starts at, where it has not started yet (no current time and an
/// empty time field): the oldest time of the known range, else the oldest report time the
/// registry gives; `None` where the timeline already runs or no time is known.
pub open spec fn initial_time_of(
    current: Option<i64>,
    field_empty: bool,
    bounds_oldest: Option<i64>,
    registry_oldest: Option<i64>,
) -> Option<i64> {
    if current is Some || !field_empty {
        None
    } else if bounds_oldest is Some {
        bounds_oldest
    } else {
        registry_oldest
    }
}

/// Decides where a timeline that has not started yet starts.
pub fn initial_time(
    current: Option<i64>,
    field_empty: bool,
    bounds_oldest: Option<i64>,
    registry_oldest: Option<i64>,
) -> (r: Option<i64>)
    ensures
        r == initial_time_of(current, field_empty, bounds_oldest, registry_oldest),
{
    if current.is_some() || !field_empty {
        return None;
    }
    match bounds_oldest {
        Some(t) => Some(t),
        None => registry_oldest,
    }
}

/// Where playback lands after stepping to `next`: at the newest report time, where it got
/// there or past it, and playback stops; then no earlier than the oldest report time.
pub open spec fn playback_landing_of(next: i64, oldest: Option<i64>, newest: Option<i64>) -> (i64, bool) {
    let (capped, stop) = match newest {
        Some(n) => if next >= n { (n, true) } else { (next, false) },
        None => (next, false),
    };
    match oldest {
        Some(o) => if capped < o { (o, stop) } else { (capped, stop) },
        None => (capped, stop),
    }
}

/// Keeps a playback step within the known report times; the flag says whether playback
/// stops.
pub fn playback_landing(next: i64, oldest: Option<i64>, newest: Option<i64>) -> (r: (i64, bool))
    ensures
        r == playback_landing_of(next, oldest, newest),
{
    let mut landed = next;
    let mut stop = false;
    if let Some(n) = newest {
        if landed >= n {
            landed = n;
            stop = true;
        }
    }
    if let Some(o) = oldest {
        if landed < o {
            landed = o;
        }
    }
    (landed, stop)
}

/// How fast playback runs: stopped, or 1, 10 or 100 seconds of report time per second.
#[derive(Clone, Copy, Debug, PartialEq, Eq)]
pub enum PlaybackRate {
    Stopped,
    Normal,
    Fast,
    VeryFast,
}

/// The seconds of report time that pass per second of playback at `rate`.
pub open spec fn rate_factor_of(rate: PlaybackRate) -> u32 {
    match rate {
        PlaybackRate::Stopped => 0,
        PlaybackRate::Normal => 1,
        PlaybackRate::Fast => 10,
        PlaybackRate::VeryFast => 100,
    }
}

/// The seconds of report time that pass per second of playback.
pub fn rate_factor(rate: PlaybackRate) -> (r: u32)
    ensures
        r == rate_factor_of(rate),
{
    match rate {
        PlaybackRate::Stopped => 0,
        PlaybackRate::Normal => 1,
        PlaybackRate::Fast => 10,
        PlaybackRate::VeryFast => 100,
    }
}

/// The state of the timestamp controls: the time in the time field, in seconds (`None` where
/// the field does not hold a valid time), whether the field is being edited, and the
/// playback rate.
#[derive(Clone, Copy, Debug, PartialEq, Eq)]
pub struct TimestampState {
    pub value: Option<i64>,
    pub editing: bool,
    pub rate: PlaybackRate,
}

/// What happens at the timestamp controls, in the order the controls see it in a frame.
#[derive(Clone, Copy, Debug, PartialEq, Eq)]
pub enum TimestampEvent {
    /// The frame starts while the viewer shows the given current time.
    CurrentShown(i64),
    /// The `-` key: one second back.
    KeyBack,
    /// The `=` key: one second forward.
    KeyForward,
    /// The `Play` button.
    Play,
    /// The `10x` button.
    Fast,
    /// The `100x` button.
    VeryFast,
    /// The `Stop` button.
    Stop,
    /// The `Reset` button.
    Reset,
    /// The `-` button.
    StepBack,
    /// The `+` button.
    StepForward,
    /// The time field takes the keyboard focus.
    TextFocused,
    /// The time field loses the keyboard focus.
    TextBlurred,
    /// The text of the time field changes; it now reads the given time, or no valid time.
    TextEdited(Option<i64>),
    /// The slider is moved to the given time.
    SliderMoved(i64),
}

/// The time field moved by `delta` seconds; a field without a valid time stays as it is.
pub open spec fn shifted_value(value: Option<i64>, delta: int) -> Option<i64> {
    match value {
        Some(t) => Some((t + delta) as i64),
        None => None,
    }
}

/// Whether `event` can be taken in `state` without the time leaving the range of `i64`.
pub open spec fn timestamp_event_fits(state: TimestampState, event: TimestampEvent) -> bool {
    match event {
        TimestampEvent::KeyBack | TimestampEvent::StepBack => state.value != Some(i64::MIN),
        TimestampEvent::KeyForward | TimestampEvent::StepForward => state.value != Some(i64::MAX),
        _ => true,
    }
}

/// The state after `event`, and whether the event set a new time, given the oldest report
/// time. Every button and key leaves the edit mode. Play, 10x, 100x and Stop set the rate.
/// The keys move the time by a second and keep the rate; the `-` and `+` buttons also stop
/// playback. Reset, where the oldest time is known, stops playback and goes to it. Focus
/// starts and ends the edit mode. Editing the text takes its time, and while in edit mode
/// stops playback and sets the time. The slider stops playback and sets its time. The
/// current time is shown in the field unless it is being edited.
pub open spec fn timestamp_step_of(state: TimestampState, event: TimestampEvent, oldest: Option<i64>) -> (
    TimestampState,
    bool,
) {
    match event {
        TimestampEvent::CurrentShown(c) => if state.editing {
            (state, false)
        } else {
            (TimestampState { value: Some(c), ..state }, false)
        },
        TimestampEvent::KeyBack => (
            TimestampState { value: shifted_value(state.value, -1), editing: false, ..state },
            true,
        ),
        TimestampEvent::KeyForward => (
            TimestampState { value: shifted_value(state.value, 1), editing: false, ..state },
            true,
        ),
        TimestampEvent::Play => (TimestampState { editing: false, rate: PlaybackRate::Normal, ..state }, false),
        TimestampEvent::Fast => (TimestampState { editing: false, rate: PlaybackRate::Fast, ..state }, false),
        TimestampEvent::VeryFast => (
            TimestampState { editing: false, rate: PlaybackRate::VeryFast, ..state },
            false,
        ),
        TimestampEvent::Stop => (TimestampState { editing: false, rate: PlaybackRate::Stopped, ..state }, false),
        TimestampEvent::Reset => match oldest {
            Some(o) => (TimestampState { value: Some(o), editing: false, rate: PlaybackRate::Stopped }, true),
            None => (state, false),
        },
        TimestampEvent::StepBack => (
            TimestampState { value: shifted_value(state.value, -1), editing: false, rate: PlaybackRate::Stopped },
            true,
        ),
        TimestampEvent::StepForward => (
            TimestampState { value: shifted_value(state.value, 1), editing: false, rate: PlaybackRate::Stopped },
            true,
        ),
        TimestampEvent::TextFocused => (TimestampState { editing: true, ..state }, false),
        TimestampEvent::TextBlurred => (TimestampState { editing: false, ..state }, false),
        TimestampEvent::TextEdited(v) => if state.editing {
            (TimestampState { value: v, rate: PlaybackRate::Stopped, ..state }, true)
        } else {
            (TimestampState { value: v, ..state }, false)
        },
        TimestampEvent::SliderMoved(t) => (
            TimestampState { value: Some(t), editing: false, rate: PlaybackRate::Stopped },
            true,
        ),
    }
}

fn shift_value(value: Option<i64>, forward: bool) -> (r: Option<i64>)
    requires
        forward ==> value != Some(i64::MAX),
        !forward ==> value != Some(i64::MIN),
    ensures
        r == shifted_value(value, if forward { 1 } else { -1 }),
{
    match value {
        Some(t) => if forward {
            Some(t + 1)
        } else {
            Some(t - 1)
        },
        None => None,
    }
}

/// Takes one event at the timestamp controls: the next state, and whether the event set a
/// new time that the viewer should go to.
pub fn timestamp_control_step(state: TimestampState, event: TimestampEvent, oldest: Option<i64>) -> (r: (
    TimestampState,
    bool,
))
    requires
        timestamp_event_fits(state, event),
    ensures
        r == timestamp_step_of(state, event, oldest),
{
    match event {
        TimestampEvent::CurrentShown(c) => if state.editing {
            (state, false)
        } else {
            (TimestampState { value: Some(c), editing: state.editing, rate: state.rate }, false)
        },
        TimestampEvent::KeyBack => (
            TimestampState { value: shift_value(state.value, false), editing: false, rate: state.rate },
            true,
        ),
        TimestampEvent::KeyForward => (
            TimestampState { value: shift_value(state.value, true), editing: false, rate: state.rate },
            true,
        ),
        TimestampEvent::Play => (
            TimestampState { value: state.value, editing: false, rate: PlaybackRate::Normal },
            false,
        ),
        TimestampEvent::Fast => (TimestampState { value: state.value, editing: false, rate: PlaybackRate::Fast }, false),
        TimestampEvent::VeryFast => (
            TimestampState { value: state.value, editing: false, rate: PlaybackRate::VeryFast },
            false,
        ),
        TimestampEvent::Stop => (
            TimestampState { value: state.value, editing: false, rate: PlaybackRate::Stopped },
            false,
        ),
        TimestampEvent::Reset => match oldest {
            Some(o) => (TimestampState { value: Some(o), editing: false, rate: PlaybackRate::Stopped }, true),
            None => (state, false),
        },
        TimestampEvent::StepBack => (
            TimestampState { value: shift_value(state.value, false), editing: false, rate: PlaybackRate::Stopped },
            true,
        ),
        TimestampEvent::StepForward => (
            TimestampState { value: shift_value(state.value, true), editing: false, rate: PlaybackRate::Stopped },
            true,
        ),
        TimestampEvent::TextFocused => (TimestampState { value: state.value, editing: true, rate: state.rate }, false),
        TimestampEvent::TextBlurred => (
            TimestampState { value: state.value, editing: false, rate: state.rate },
            false,
        ),
        TimestampEvent::TextEdited(v) => if state.editing {
            (TimestampState { value: v, editing: true, rate: PlaybackRate::Stopped }, true)
        } else {
            (TimestampState { value: v, editing: false, rate: state.rate }, false)
        },
        TimestampEvent::SliderMoved(t) => (
            TimestampState { value: Some(t), editing: false, rate: PlaybackRate::Stopped },
            true,
        ),
    }
}

/// Where the slider's handle stands: at the time in the field, else at the oldest end,
/// kept within the slider's range.
pub open spec fn slider_position_of(value: Option<i64>, lo: i64, hi: i64) -> i64 {
    let v = match value {
        Some(t) => t,
        None => lo,
    };
    if v < lo {
        lo
    } else if v > hi {
        hi
    } else {
        v
    }
}

/// Places the slider's handle for the time in the field within the range `lo..=hi`.
pub fn slider_position(value: Option<i64>, lo: i64, hi: i64) -> (r: i64)
    requires
        lo <= hi,
    ensures
        r == slider_position_of(value, lo, hi),
        lo <= r <= hi,
{
    let v = match value {
        Some(t) => t,
        None => lo,
    };
    if v < lo {
        lo
    } else if v > hi {
        hi
    } else {
        v
    }
}

/// Law: what each control does to playback, the edit mode and the time, for every prior
/// state. Stop, the `-` and `+` buttons, the slider, and Reset where the oldest time is known
/// stop playback; Play, 10x and 100x run it at 1, 10 and 100 seconds per second; the keys keep
/// the rate. Every button, key and the slider end the edit mode; focus starts it. The keys
/// and the `-` and `+` buttons move a valid time by one second back or forward; Reset goes to
/// the oldest time and the slider to its time. A new time is set exactly by the keys, the
/// `-` and `+` buttons, the slider, Reset where the oldest time is known, and an edit of the
/// field in edit mode.
pub proof fn law_timestamp_controls(state: TimestampState, event: TimestampEvent, oldest: Option<i64>)
    requires
        timestamp_event_fits(state, event),
    ensures
        ({
            let (next, changed) = timestamp_step_of(state, event, oldest);
            &&& (event == TimestampEvent::Stop ==> next.rate == PlaybackRate::Stopped
                && rate_factor_of(next.rate) == 0)
            &&& (event == TimestampEvent::Play ==> rate_factor_of(next.rate) == 1)
            &&& (event == TimestampEvent::Fast ==> rate_factor_of(next.rate) == 10)
            &&& (event == TimestampEvent::VeryFast ==> rate_factor_of(next.rate) == 100)
            &&& ((event == TimestampEvent::StepBack || event == TimestampEvent::StepForward
                || event is SliderMoved) ==> next.rate == PlaybackRate::Stopped)
            &&& ((event == TimestampEvent::Reset && oldest is Some) ==> next.rate == PlaybackRate::Stopped
                && next.value == oldest)
            &&& ((event == TimestampEvent::KeyBack || event == TimestampEvent::KeyForward) ==> next.rate
                == state.rate)
            &&& (!(event is CurrentShown || event is TextFocused || event is TextEdited || (event
                == TimestampEvent::Reset && oldest is None)) ==> !next.editing)
            &&& (event == TimestampEvent::TextFocused ==> next.editing)
            &&& ((event == TimestampEvent::KeyBack || event == TimestampEvent::StepBack) ==> match state.value {
                Some(t) => next.value is Some && next.value->0 == t - 1,
                None => next.value is None,
            })
            &&& ((event == TimestampEvent::KeyForward || event == TimestampEvent::StepForward) ==> match state.value {
                Some(t) => next.value is Some && next.value->0 == t + 1,
                None => next.value is None,
            })
            &&& (event matches TimestampEvent::SliderMoved(t) ==> next.value == Some(t))
            &&& (changed <==> (event == TimestampEvent::KeyBack || event == TimestampEvent::KeyForward || event
                == TimestampEvent::StepBack || event == TimestampEvent::StepForward || event is SliderMoved || (event
                == TimestampEvent::Reset && oldest is Some) || (event is TextEdited && state.editing)))
        }),
{
}

/// Law: the slider range is never inverted.
pub proof fn law_slider_bounds_ordered(oldest: Option<i64>, newest: Option<i64>, current: Option<i64>)
    ensures
        slider_bounds_of(oldest, newest, current) matches Some((lo, hi)) ==> lo <= hi,
{
}

/// Law: merging cached report times into an ordered range leaves an ordered range.
pub proof fn law_merged_bounds_ordered(
    cached_oldest: Option<i64>,
    cached_newest: Option<i64>,
    oldest: Option<i64>,
    newest: Option<i64>,
)
    requires
        bounds_ordered(oldest, newest),
    ensures
        bounds_ordered(
            merged_bounds_of(cached_oldest, cached_newest, oldest, newest).0,
            merged_bounds_of(cached_oldest, cached_newest, oldest, newest).1,
        ),
{
}

/// Law: widening an ordered range by live report times leaves an ordered range that covers
/// every one of those times.
pub proof fn law_extended_bounds_cover(times: Seq<i64>, n: int, oldest: Option<i64>, newest: Option<i64>)
    requires
        0 <= n <= times.len(),
        bounds_ordered(oldest, newest),
    ensures
        ({
            let (o, w) = extended_bounds_of(times, n, oldest, newest);
            &&& bounds_ordered(o, w)
            &&& forall|k: int|
                0 <= k < n ==> (o matches Some(ov) && ov <= #[trigger] times[k]) && (w matches Some(wv) && times[k] <= wv)
        }),
    decreases n,
{
    if n > 0 {
        law_extended_bounds_cover(times, n - 1, oldest, newest);
    }
}

} // verus!
