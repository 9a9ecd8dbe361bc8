//! The AIS stream client: the message kinds and what is done with each, the text cleaning
//! applied to logged fields, log run numbering, reconnection back-off and the certificate
//! check switch.
use vstd::prelude::*;

use crate::text::{
    chars_of, eq_str, find_char_exec, find_char_from, lemma_find_char_from_range, parse_unsigned,
    parse_unsigned_spec, slice_chars, starts_with, starts_with_exec, string_from_chars, trim, trim_chars,
};

verus! {

/// The kinds of AIS stream message that are told apart.
#[derive(Clone, Copy, Debug, PartialEq, Eq, Structural)]
pub enum AisMessageKind {
    UnknownMessage,
    ShipStaticData,
    StandardClassBPositionReport,
    PositionReport,
    Other,
}

/// The kind that a `MessageType` field names.
pub open spec fn message_kind_of(message_type: Seq<char>) -> AisMessageKind {
    if message_type == "UnknownMessage"@ {
        AisMessageKind::UnknownMessage
    } else if message_type == "ShipStaticData"@ {
        AisMessageKind::ShipStaticData
    } else if message_type == "StandardClassBPositionReport"@ {
        AisMessageKind::StandardClassBPositionReport
    } else if message_type == "PositionReport"@ {
        AisMessageKind::PositionReport
    } else {
        AisMessageKind::Other
    }
}

/// Tells the kind of a message from its `MessageType` field.
pub fn message_kind(message_type: &str) -> (k: AisMessageKind)
    ensures
        k == message_kind_of(message_type@),
{
    let t = chars_of(message_type);
    if eq_str(t.as_slice(), "UnknownMessage") {
        AisMessageKind::UnknownMessage
    } else if eq_str(t.as_slice(), "ShipStaticData") {
        AisMessageKind::ShipStaticData
    } else if eq_str(t.as_slice(), "StandardClassBPositionReport") {
        AisMessageKind::StandardClassBPositionReport
    } else if eq_str(t.as_slice(), "PositionReport") {
        AisMessageKind::PositionReport
    } else {
        AisMessageKind::Other
    }
}

/// The message type name of a known kind; `None` for other kinds, which carry their own.
pub open spec fn kind_name_of(k: AisMessageKind) -> Option<Seq<char>> {
    match k {
        AisMessageKind::UnknownMessage => Some("UnknownMessage"@),
        AisMessageKind::ShipStaticData => Some("ShipStaticData"@),
        AisMessageKind::StandardClassBPositionReport => Some("StandardClassBPositionReport"@),
        AisMessageKind::PositionReport => Some("PositionReport"@),
        AisMessageKind::Other => None,
    }
}

impl AisMessageKind {
    /// The message type name of a known kind.
    pub fn name(&self) -> (n: Option<&'static str>)
        ensures
            match n {
                Some(s) => kind_name_of(*self) == Some(s@),
                None => kind_name_of(*self) is None,
            },
    {
        match self {
            AisMessageKind::UnknownMessage => Some("UnknownMessage"),
            AisMessageKind::ShipStaticData => Some("ShipStaticData"),
            AisMessageKind::StandardClassBPositionReport => Some("StandardClassBPositionReport"),
            AisMessageKind::PositionReport => Some("PositionReport"),
            AisMessageKind::Other => None,
        }
    }
}

/// What the stream client does with a message of each kind.
#[derive(Clone, Copy, Debug, PartialEq, Eq, Structural)]
pub enum MessageAction {
    /// Send the position to the ship registry and log it.
    RecordPosition,
    /// Send the static data to the ship registry and log it.
    RecordStaticData,
    /// Print that an unknown message came from the named ship.
    ReportUnknown,
    /// Drop the message.
    Ignore,
}

/// The action for each message kind: both position report kinds record a position.
pub open spec fn message_action_of(kind: AisMessageKind) -> MessageAction {
    match kind {
        AisMessageKind::PositionReport => MessageAction::RecordPosition,
        AisMessageKind::StandardClassBPositionReport => MessageAction::RecordPosition,
        AisMessageKind::ShipStaticData => MessageAction::RecordStaticData,
        AisMessageKind::UnknownMessage => MessageAction::ReportUnknown,
        AisMessageKind::Other => MessageAction::Ignore,
    }
}

/// Decides what to do with a message of the given kind.
pub fn message_action(kind: AisMessageKind) -> (a: MessageAction)
    ensures
        a == message_action_of(kind),
{
    match kind {
        AisMessageKind::PositionReport | AisMessageKind::StandardClassBPositionReport => {
            MessageAction::RecordPosition
        },
        AisMessageKind::ShipStaticData => MessageAction::RecordStaticData,
        AisMessageKind::UnknownMessage => MessageAction::ReportUnknown,
        AisMessageKind::Other => MessageAction::Ignore,
    }
}

/// The longest wait, in seconds, between reconnection attempts.
pub const MAX_RECONNECT_DELAY_SECS: u64 = 30;

/// The wait before the next reconnection after a failed session: twice the last wait, but
/// no more than the longest wait.
pub fn next_reconnect_delay_secs(current: u64) -> (r: u64)
    requires
        current <= u64::MAX / 2,
    ensures
        r == if 2 * current <= MAX_RECONNECT_DELAY_SECS { 2 * current } else { MAX_RECONNECT_DELAY_SECS as int },
{
    let doubled = current * 2;
    if doubled <= MAX_RECONNECT_DELAY_SECS {
        doubled
    } else {
        MAX_RECONNECT_DELAY_SECS
    }
}

/// The run number in a log file name `run_<number>_<rest>`, where the name has that form and
/// the number fits a `u32`.
pub open spec fn run_number_of(name: Seq<char>) -> Option<nat> {
    if starts_with(name, "run_"@) {
        let rest = name.skip(4);
        match find_char_from(rest, '_', 0) {
            Some(i) => parse_unsigned_spec(rest.take(i), u32::MAX as nat),
            None => None,
        }
    } else {
        None
    }
}

/// The largest run number among the first `n` names, or 0 where they hold none.
pub open spec fn max_run_number(names: Seq<String>, n: int) -> nat
    decreases n,
{
    if n <= 0 {
        0
    } else {
        let earlier = max_run_number(names, n - 1);
        match run_number_of(names[n - 1]@) {
            Some(v) => if v > earlier { v } else { earlier },
            None => earlier,
        }
    }
}

fn run_number(name: &str) -> (r: Option<u32>)
    ensures
        match r {
            Some(v) => run_number_of(name@) == Some(v as nat),
            None => run_number_of(name@) is None,
        },
{
    proof {
        reveal_strlit("run_");
    }
    let c = chars_of(name);
    let prefix = chars_of("run_");
    if !starts_with_exec(c.as_slice(), prefix.as_slice()) {
        return None;
    }
    let rest = slice_chars(c.as_slice(), 4, c.len());
    assert(rest@ =~= name@.skip(4));
    match find_char_exec(rest.as_slice(), '_', 0) {
        Some(i) => {
            proof {
                lemma_find_char_from_range(rest@, '_', 0);
            }
            let number = slice_chars(rest.as_slice(), 0, i);
            assert(number@ =~= rest@.take(i as int));
            match parse_unsigned(number.as_slice(), 4294967295) {
                Some(v) => Some(v as u32),
                None => None,
            }
        },
        None => None,
    }
}

/// The number of the next run, one past the largest run number among the names of the files
/// already in the log directory.
pub fn next_run_number(names: &[String]) -> (r: u32)
    requires
        max_run_number(names@, names@.len() as int) < u32::MAX,
    ensures
        r == max_run_number(names@, names@.len() as int) + 1,
{
    let mut max_run: u32 = 0;
    let mut i: usize = 0;
    while i < names.len()
        invariant
            i <= names@.len(),
            max_run == max_run_number(names@, i as int),
        decreases names.len() - i,
    {
        match run_number(names[i].as_str()) {
            Some(v) => {
                if v > max_run {
                    max_run = v;
                }
            },
            None => {},
        }
        i = i + 1;
    }
    proof {
        lemma_max_run_number_bounds(names@, names@.len() as int);
    }
    max_run + 1
}

proof fn lemma_max_run_number_bounds(names: Seq<String>, n: int)
    ensures
        max_run_number(names, n) <= u32::MAX,
    decreases n,
{
    if n > 0 {
        lemma_max_run_number_bounds(names, n - 1);
    }
}

/// `s` with the ASCII capitals turned into small letters.
pub open spec fn ascii_lowercase(s: Seq<char>) -> Seq<char> {
    Seq::new(s.len(), |i: int| if 'A' <= s[i] <= 'Z' { ((s[i] as u32) + 32) as char } else { s[i] })
}

/// Whether the certificate check switch holds one of the words that turn it on: `1`,
/// `true`, `yes` or `on`, in any ASCII case, around whitespace.
pub open spec fn switch_is_on(value: Seq<char>) -> bool {
    let word = ascii_lowercase(trim(value));
    word == "1"@ || word == "true"@ || word == "yes"@ || word == "on"@
}

/// Whether TLS certificate validation is switched off, from the value of the switch where
/// it is set.
pub fn cert_validation_disabled(value: Option<&str>) -> (b: bool)
    ensures
        b == match value {
            Some(v) => switch_is_on(v@),
            None => false,
        },
{
    match value {
        None => false,
        Some(v) => {
            let c = chars_of(v);
            let t = trim_chars(c.as_slice());
            let mut lower: Vec<char> = Vec::new();
            let mut i: usize = 0;
            while i < t.len()
                invariant
                    i <= t@.len(),
                    lower@ == ascii_lowercase(t@).take(i as int),
                decreases t.len() - i,
            {
                let ch = t[i];
                if 'A' <= ch && ch <= 'Z' {
                    let code = (ch as u32) + 32;
                    let low = (code as u8) as char;
                    lower.push(low);
                } else {
                    lower.push(ch);
                }
                i = i + 1;
                assert(lower@ =~= ascii_lowercase(t@).take(i as int));
            }
            assert(lower@ =~= ascii_lowercase(t@));
            eq_str(lower.as_slice(), "1") || eq_str(lower.as_slice(), "true") || eq_str(lower.as_slice(), "yes")
                || eq_str(lower.as_slice(), "on")
        },
    }
}

/// `s` with carriage returns and line feeds turned into spaces.
pub open spec fn line_breaks_to_spaces(s: Seq<char>) -> Seq<char> {
    Seq::new(s.len(), |i: int| if s[i] == '\r' || s[i] == '\n' { ' ' } else { s[i] })
}

/// A text field made fit for a one-line log entry: line breaks become spaces, and the
/// result is trimmed.
pub fn clean_string(value: &str) -> (r: String)
    ensures
        r@ == trim(line_breaks_to_spaces(value@)),
{
    let c = chars_of(value);
    let mut replaced: Vec<char> = Vec::new();
    let mut i: usize = 0;
    while i < c.len()
        invariant
            i <= c@.len(),
            c@ == value@,
            replaced@ == line_breaks_to_spaces(c@).take(i as int),
        decreases c.len() - i,
    {
        let ch = c[i];
        if ch == '\r' || ch == '\n' {
            replaced.push(' ');
        } else {
            replaced.push(ch);
        }
        i = i + 1;
        assert(replaced@ =~= line_breaks_to_spaces(c@).take(i as int));
    }
    assert(line_breaks_to_spaces(c@).take(i as int) =~= line_breaks_to_spaces(c@));
    let t = trim_chars(replaced.as_slice());
    string_from_chars(t.as_slice())
}

/// An AIS message body without fields.
#[derive(Clone, Copy, Debug, PartialEq, Eq, Structural)]
pub struct UnknownMessage {}

/// Distances in metres from the position reference point to bow, stern, port and starboard.
#[derive(Clone, Copy, Debug, PartialEq, Eq, Structural)]
pub struct ShipDimensions {
    pub a: u16,
    pub b: u16,
    pub c: u16,
    pub d: u16,
}

/// The estimated time of arrival as reported.
#[derive(Clone, Copy, Debug, PartialEq, Eq, Structural)]
pub struct Eta {
    pub day: u8,
    pub hour: u8,
    pub minute: u8,
    pub month: u8,
}

/// An error the AIS stream answers instead of messages.
#[derive(Clone, Debug, PartialEq, Eq)]
pub struct AuthError {
    pub error: String,
}

impl AuthError {
    /// The text shown for this error: the stream's own error text.
    pub fn message(&self) -> (m: String)
        ensures
            m@ == self.error@,
    {
        self.error.clone()
    }
}

} // verus!
