//! Command-line handling of the tile converter: the three input modes, the tile requests
//! they expand to, and the tile URL templates of URL mode.
use vstd::prelude::*;

use core::ops::RangeInclusive;

use crate::text::{
    chars_of, contains, contains_exec, decimal, ends_with, ends_with_exec, eq_str, find_char_exec,
    find_char_from, lemma_find_char_from_range, parse_unsigned, parse_unsigned_spec, push_chars, push_decimal, push_str,
    replace_all, replace_all_exec, rfind, rfind_exec, last_match_below, matches_at, slice_chars, starts_with, starts_with_exec,
    string_from_chars, trim_end_char, trim_end_char_exec, lacks_char,
};

verus! {

/// Trusted: std's `RangeInclusive::start` hands back the range's lower bound.
pub assume_specification<Idx>[ RangeInclusive::<Idx>::start ](r: &RangeInclusive<Idx>) -> (s: &Idx)
    ensures
        *s == r@.start,
;

/// Trusted: std's `RangeInclusive::end` hands back the range's upper bound.
pub assume_specification<Idx>[ RangeInclusive::<Idx>::end ](r: &RangeInclusive<Idx>) -> (e: &Idx)
    ensures
        *e == r@.end,
;

/// Which tile coordinate a positional argument gives.
#[derive(Clone, Copy, Debug, PartialEq, Eq, Structural)]
pub enum Axis {
    X,
    Y,
}

impl Axis {
    /// The axis name used in messages.
    pub open spec fn name(self) -> Seq<char> {
        match self {
            Axis::X => "x"@,
            Axis::Y => "y"@,
        }
    }
}

/// Why the command line was refused.
#[derive(Debug, PartialEq, Eq)]
pub enum CliError {
    MissingConfigPath,
    MissingUrlValue,
    MissingZoomValue,
    InvalidZoomValue,
    UnknownFlag(String),
    ServerModeConflict,
    UrlModeNeedsCoordinates,
    FileModeNeedsPath,
    InvalidRangeStart(Axis),
    InvalidRangeEnd(Axis),
    InvalidRangeOrder(Axis),
    InvalidCoordinate(Axis),
}

/// The mathematical form of `CliError`.
pub enum CliFailure {
    MissingConfigPath,
    MissingUrlValue,
    MissingZoomValue,
    InvalidZoomValue,
    UnknownFlag(Seq<char>),
    ServerModeConflict,
    UrlModeNeedsCoordinates,
    FileModeNeedsPath,
    InvalidRangeStart(Axis),
    InvalidRangeEnd(Axis),
    InvalidRangeOrder(Axis),
    InvalidCoordinate(Axis),
}

impl View for CliError {
    type V = CliFailure;

    open spec fn view(&self) -> CliFailure {
        match self {
            CliError::MissingConfigPath => CliFailure::MissingConfigPath,
            CliError::MissingUrlValue => CliFailure::MissingUrlValue,
            CliError::MissingZoomValue => CliFailure::MissingZoomValue,
            CliError::InvalidZoomValue => CliFailure::InvalidZoomValue,
            CliError::UnknownFlag(f) => CliFailure::UnknownFlag(f@),
            CliError::ServerModeConflict => CliFailure::ServerModeConflict,
            CliError::UrlModeNeedsCoordinates => CliFailure::UrlModeNeedsCoordinates,
            CliError::FileModeNeedsPath => CliFailure::FileModeNeedsPath,
            CliError::InvalidRangeStart(a) => CliFailure::InvalidRangeStart(*a),
            CliError::InvalidRangeEnd(a) => CliFailure::InvalidRangeEnd(*a),
            CliError::InvalidRangeOrder(a) => CliFailure::InvalidRangeOrder(*a),
            CliError::InvalidCoordinate(a) => CliFailure::InvalidCoordinate(*a),
        }
    }
}

/// The message shown for a refused command line.
pub open spec fn failure_message(e: CliFailure) -> Seq<char> {
    match e {
        CliFailure::MissingConfigPath => "missing config path"@,
        CliFailure::MissingUrlValue => "missing url value"@,
        CliFailure::MissingZoomValue => "missing zoom value"@,
        CliFailure::InvalidZoomValue => "invalid zoom value"@,
        CliFailure::UnknownFlag(f) => "unknown flag "@ + f,
        CliFailure::ServerModeConflict => "server mode does not accept --url or tile coordinates"@,
        CliFailure::UrlModeNeedsCoordinates => "url mode expects x and y coordinates"@,
        CliFailure::FileModeNeedsPath => "file mode expects a single tile path"@,
        CliFailure::InvalidRangeStart(a) => "invalid "@ + a.name() + " range start"@,
        CliFailure::InvalidRangeEnd(a) => "invalid "@ + a.name() + " range end"@,
        CliFailure::InvalidRangeOrder(a) => "invalid "@ + a.name() + " range: start must be <= end"@,
        CliFailure::InvalidCoordinate(a) => "invalid "@ + a.name() + " coordinate"@,
    }
}

/// Whether the usage text is shown along with the error.
pub open spec fn failure_prints_usage(e: CliFailure) -> bool {
    match e {
        CliFailure::InvalidZoomValue => false,
        CliFailure::InvalidRangeStart(_) => false,
        CliFailure::InvalidRangeEnd(_) => false,
        CliFailure::InvalidRangeOrder(_) => false,
        CliFailure::InvalidCoordinate(_) => false,
        _ => true,
    }
}

fn push_axis(out: &mut Vec<char>, a: Axis)
    ensures
        final(out)@ == old(out)@ + a.name(),
{
    match a {
        Axis::X => push_str(out, "x"),
        Axis::Y => push_str(out, "y"),
    }
}

impl CliError {
    /// The message of this error.
    pub fn message(&self) -> (m: String)
        ensures
            m@ == failure_message(self@),
    {
        let mut out: Vec<char> = Vec::new();
        match self {
            CliError::MissingConfigPath => push_str(&mut out, "missing config path"),
            CliError::MissingUrlValue => push_str(&mut out, "missing url value"),
            CliError::MissingZoomValue => push_str(&mut out, "missing zoom value"),
            CliError::InvalidZoomValue => push_str(&mut out, "invalid zoom value"),
            CliError::UnknownFlag(f) => {
                push_str(&mut out, "unknown flag ");
                let fc = chars_of(f.as_str());
                push_chars(&mut out, fc.as_slice());
            },
            CliError::ServerModeConflict => push_str(
                &mut out,
                "server mode does not accept --url or tile coordinates",
            ),
            CliError::UrlModeNeedsCoordinates => push_str(&mut out, "url mode expects x and y coordinates"),
            CliError::FileModeNeedsPath => push_str(&mut out, "file mode expects a single tile path"),
            CliError::InvalidRangeStart(a) => {
                push_str(&mut out, "invalid ");
                push_axis(&mut out, *a);
                push_str(&mut out, " range start");
            },
            CliError::InvalidRangeEnd(a) => {
                push_str(&mut out, "invalid ");
                push_axis(&mut out, *a);
                push_str(&mut out, " range end");
            },
            CliError::InvalidRangeOrder(a) => {
                push_str(&mut out, "invalid ");
                push_axis(&mut out, *a);
                push_str(&mut out, " range: start must be <= end");
            },
            CliError::InvalidCoordinate(a) => {
                push_str(&mut out, "invalid ");
                push_axis(&mut out, *a);
                push_str(&mut out, " coordinate");
            },
        }
        assert(out@ =~= failure_message(self@));
        string_from_chars(out.as_slice())
    }

    /// Whether the usage text accompanies this error.
    pub fn prints_usage(&self) -> (b: bool)
        ensures
            b == failure_prints_usage(self@),
    {
        match self {
            CliError::InvalidZoomValue => false,
            CliError::InvalidRangeStart(_) => false,
            CliError::InvalidRangeEnd(_) => false,
            CliError::InvalidRangeOrder(_) => false,
            CliError::InvalidCoordinate(_) => false,
            _ => true,
        }
    }
}

/// Where the tiles to convert come from.
#[derive(Debug, PartialEq, Eq)]
pub enum InputSource {
    /// One local `.pbf` file.
    File(String),
    /// Serve tiles over HTTP.
    Server,
    /// Fetch every tile of the given coordinate ranges from a tile server.
    Url { base_url: String, zoom: u8, x_range: RangeInclusive<u32>, y_range: RangeInclusive<u32> },
}

/// The mathematical form of `InputSource`; a coordinate range is its first and last value.
pub enum InputView {
    File(Seq<char>),
    Server,
    Url { base_url: Seq<char>, zoom: u8, x_range: (u32, u32), y_range: (u32, u32) },
}

/// A fresh range from `start` to `end`, both included.
pub open spec fn is_fresh_range(r: RangeInclusive<u32>, bounds: (u32, u32)) -> bool {
    r@.start == bounds.0 && r@.end == bounds.1 && !r@.exhausted
}

/// `input` is the source that `v` describes.
pub open spec fn input_matches(input: InputSource, v: InputView) -> bool {
    match (input, v) {
        (InputSource::File(p), InputView::File(q)) => p@ == q,
        (InputSource::Server, InputView::Server) => true,
        (
            InputSource::Url { base_url, zoom, x_range, y_range },
            InputView::Url { base_url: b, zoom: z, x_range: xr, y_range: yr },
        ) => base_url@ == b && zoom == z && is_fresh_range(x_range, xr) && is_fresh_range(y_range, yr),
        _ => false,
    }
}

/// A parsed command line.
#[derive(Debug, PartialEq, Eq)]
pub struct CliArgs {
    pub input: InputSource,
    pub config_path: Option<String>,
}

/// The mathematical form of `CliArgs`.
pub struct CliArgsView {
    pub input: InputView,
    pub config_path: Option<Seq<char>>,
}

/// `args` is the command line that `v` describes.
pub open spec fn cli_matches(args: CliArgs, v: CliArgsView) -> bool {
    input_matches(args.input, v.input) && opt_view(args.config_path) == v.config_path
}

/// The characters of an optional string.
pub open spec fn opt_view(s: Option<String>) -> Option<Seq<char>> {
    match s {
        Some(s) => Some(s@),
        None => None,
    }
}

/// The characters of each argument.
pub open spec fn args_view(args: Seq<String>) -> Seq<Seq<char>> {
    args.map_values(|s: String| s@)
}

/// What the option scan has collected so far.
pub struct ScanState {
    pub config_path: Option<Seq<char>>,
    pub base_url: Option<Seq<char>>,
    pub server: bool,
    pub zoom: u8,
    pub positionals: Seq<Seq<char>>,
}

/// The scan state before any argument: no options, zoom 14.
pub open spec fn initial_scan() -> ScanState {
    ScanState { config_path: None, base_url: None, server: false, zoom: 14, positionals: Seq::empty() }
}

/// Scans the arguments from position `i` on, left to right.
pub open spec fn scan_tokens(rest: Seq<Seq<char>>, i: nat, st: ScanState) -> Result<ScanState, CliFailure>
    decreases rest.len() - i,
{
    if i >= rest.len() {
        Ok(st)
    } else {
        let tok = rest[i as int];
        if tok == "--config"@ {
            if i + 1 < rest.len() {
                scan_tokens(rest, i + 2, ScanState { config_path: Some(rest[(i + 1) as int]), ..st })
            } else {
                Err(CliFailure::MissingConfigPath)
            }
        } else if tok == "--url"@ {
            if i + 1 < rest.len() {
                scan_tokens(rest, i + 2, ScanState { base_url: Some(rest[(i + 1) as int]), ..st })
            } else {
                Err(CliFailure::MissingUrlValue)
            }
        } else if tok == "--server"@ {
            scan_tokens(rest, i + 1, ScanState { server: true, ..st })
        } else if tok == "--zoom"@ {
            if i + 1 < rest.len() {
                match parse_unsigned_spec(rest[(i + 1) as int], u8::MAX as nat) {
                    Some(z) => scan_tokens(rest, i + 2, ScanState { zoom: z as u8, ..st }),
                    None => Err(CliFailure::InvalidZoomValue),
                }
            } else {
                Err(CliFailure::MissingZoomValue)
            }
        } else if starts_with(tok, "--"@) {
            Err(CliFailure::UnknownFlag(tok))
        } else {
            scan_tokens(rest, i + 1, ScanState { positionals: st.positionals.push(tok), ..st })
        }
    }
}

/// The inclusive coordinate range that `value` (`n` or `a-b`) denotes.
pub open spec fn coordinate_range_of(value: Seq<char>, axis: Axis) -> Result<(u32, u32), CliFailure> {
    match find_char_from(value, '-', 0) {
        Some(k) => match parse_unsigned_spec(value.take(k), u32::MAX as nat) {
            None => Err(CliFailure::InvalidRangeStart(axis)),
            Some(a) => match parse_unsigned_spec(value.skip(k + 1), u32::MAX as nat) {
                None => Err(CliFailure::InvalidRangeEnd(axis)),
                Some(b) => if a > b {
                    Err(CliFailure::InvalidRangeOrder(axis))
                } else {
                    Ok((a as u32, b as u32))
                },
            },
        },
        None => match parse_unsigned_spec(value, u32::MAX as nat) {
            Some(v) => Ok((v as u32, v as u32)),
            None => Err(CliFailure::InvalidCoordinate(axis)),
        },
    }
}

/// The outcome of parsing the command line `args` (program name first): `Ok(None)` when only
/// the program name is given.
pub open spec fn cli_outcome(args: Seq<Seq<char>>) -> Result<Option<CliArgsView>, CliFailure> {
    if args.len() <= 1 {
        Ok(None)
    } else {
        match scan_tokens(args.skip(1), 0, initial_scan()) {
            Err(e) => Err(e),
            Ok(st) => if st.server {
                if st.base_url is Some || st.positionals.len() > 0 {
                    Err(CliFailure::ServerModeConflict)
                } else {
                    Ok(Some(CliArgsView { input: InputView::Server, config_path: st.config_path }))
                }
            } else if st.base_url is Some {
                if st.positionals.len() != 2 {
                    Err(CliFailure::UrlModeNeedsCoordinates)
                } else {
                    match coordinate_range_of(st.positionals[0], Axis::X) {
                        Err(e) => Err(e),
                        Ok(xr) => match coordinate_range_of(st.positionals[1], Axis::Y) {
                            Err(e) => Err(e),
                            Ok(yr) => Ok(
                                Some(
                                    CliArgsView {
                                        input: InputView::Url {
                                            base_url: st.base_url->0,
                                            zoom: st.zoom,
                                            x_range: xr,
                                            y_range: yr,
                                        },
                                        config_path: st.config_path,
                                    },
                                ),
                            ),
                        },
                    }
                }
            } else if st.positionals.len() != 1 {
                Err(CliFailure::FileModeNeedsPath)
            } else {
                Ok(
                    Some(
                        CliArgsView {
                            input: InputView::File(st.positionals[0]),
                            config_path: st.config_path,
                        },
                    ),
                )
            },
        }
    }
}

/// Parses the inclusive coordinate range `value` (`n` or `a-b`) for `axis`.
pub fn parse_coordinate_range(value: &str, axis: Axis) -> (r: Result<RangeInclusive<u32>, CliError>)
    ensures
        match (r, coordinate_range_of(value@, axis)) {
            (Ok(range), Ok(bounds)) => is_fresh_range(range, bounds),
            (Err(e), Err(f)) => e@ == f,
            _ => false,
        },
{
    let chars = chars_of(value);
    coordinate_range_from_chars(chars.as_slice(), axis)
}

fn coordinate_range_from_chars(value: &[char], axis: Axis) -> (r: Result<RangeInclusive<u32>, CliError>)
    ensures
        match (r, coordinate_range_of(value@, axis)) {
            (Ok(range), Ok(bounds)) => is_fresh_range(range, bounds),
            (Err(e), Err(f)) => e@ == f,
            _ => false,
        },
{
    match find_char_exec(value, '-', 0) {
        Some(k) => {
            proof {
                lemma_find_char_from_range(value@, '-', 0);
            }
            assert(k < value.len());
            let start_text = slice_chars(value, 0, k);
            let end_text = slice_chars(value, k + 1, value.len());
            assert(start_text@ =~= value@.take(k as int));
            assert(end_text@ =~= value@.skip(k + 1));
            let start = match parse_unsigned(start_text.as_slice(), 4294967295) {
                Some(v) => v as u32,
                None => return Err(CliError::InvalidRangeStart(axis)),
            };
            let end = match parse_unsigned(end_text.as_slice(), 4294967295) {
                Some(v) => v as u32,
                None => return Err(CliError::InvalidRangeEnd(axis)),
            };
            if start > end {
                return Err(CliError::InvalidRangeOrder(axis));
            }
            Ok(RangeInclusive::new(start, end))
        },
        None => match parse_unsigned(value, 4294967295) {
            Some(v) => Ok(RangeInclusive::new(v as u32, v as u32)),
            None => Err(CliError::InvalidCoordinate(axis)),
        },
    }
}

fn chars_opt_to_string(v: &Option<Vec<char>>) -> (r: Option<String>)
    ensures
        opt_view(r) == match v {
            Some(c) => Some(c@),
            None => None::<Seq<char>>,
        },
{
    match v {
        Some(c) => Some(string_from_chars(c.as_slice())),
        None => None,
    }
}

/// The characters of an optional character vector.
pub open spec fn opt_chars(v: Option<Vec<char>>) -> Option<Seq<char>> {
    match v {
        Some(c) => Some(c@),
        None => None,
    }
}

impl CliArgs {
    /// Parses the command line `args`, program name first. `Ok(None)` means that only the
    /// program name was given, in which case the usage text is due.
    pub fn parse(args: &[String]) -> (r: Result<Option<CliArgs>, CliError>)
        requires
            args@.len() >= 1,
        ensures
            match (r, cli_outcome(args_view(args@))) {
                (Ok(None), Ok(None)) => true,
                (Ok(Some(c)), Ok(Some(v))) => cli_matches(c, v),
                (Err(e), Err(f)) => e@ == f,
                _ => false,
            },
    {
        let ghost all = args_view(args@);
        assert(all.len() == args@.len());
        if args.len() == 1 {
            return Ok(None);
        }
        let ghost rest = all.skip(1);
        let n = args.len() - 1;
        let mut tokens: Vec<Vec<char>> = Vec::new();
        let mut t: usize = 0;
        while t < n
            invariant
                n == args@.len() - 1,
                t <= n,
                tokens@.len() == t,
                all == args_view(args@),
                rest == all.skip(1),
                forall|k: int| 0 <= k < t ==> #[trigger] tokens@[k]@ == rest[k],
            decreases n - t,
        {
            tokens.push(chars_of(args[t + 1].as_str()));
            t = t + 1;
        }
        let mut config_path: Option<Vec<char>> = None;
        let mut base_url: Option<Vec<char>> = None;
        let mut server_mode = false;
        let mut zoom: u8 = 14;
        let mut positionals: Vec<Vec<char>> = Vec::new();
        let mut index: usize = 0;
        let ghost target = scan_tokens(rest, 0, initial_scan());
        assert(rest.len() == n);
        proof {
            let st = ScanState { config_path: None, base_url: None, server: false, zoom: 14, positionals: Seq::empty() };
            assert(positionals@.map_values(|p: Vec<char>| p@) =~= Seq::<Seq<char>>::empty());
            assert(st == initial_scan());
        }
        while index < n
            invariant
                n == rest.len(),
                all.len() == n + 1,
                rest == all.skip(1),
                all == args_view(args@),
                tokens@.len() == n,
                index <= n + 1,
                forall|k: int| 0 <= k < n ==> #[trigger] tokens@[k]@ == rest[k],
                target == scan_tokens(rest, 0, initial_scan()),
                target == scan_tokens(
                    rest,
                    index as nat,
                    ScanState {
                        config_path: opt_chars(config_path),
                        base_url: opt_chars(base_url),
                        server: server_mode,
                        zoom: zoom,
                        positionals: positionals@.map_values(|p: Vec<char>| p@),
                    },
                ),
            decreases n + 1 - index,
        {
            let ghost st = ScanState {
                config_path: opt_chars(config_path),
                base_url: opt_chars(base_url),
                server: server_mode,
                zoom: zoom,
                positionals: positionals@.map_values(|p: Vec<char>| p@),
            };
            let tok = &tokens[index];
            assert(tok@ == rest[index as int]);
            if eq_str(tok.as_slice(), "--config") {
                if index + 1 >= n {
                    return Err(CliError::MissingConfigPath);
                }
                config_path = Some(tokens[index + 1].clone());
                index = index + 2;
            } else if eq_str(tok.as_slice(), "--url") {
                if index + 1 >= n {
                    return Err(CliError::MissingUrlValue);
                }
                base_url = Some(tokens[index + 1].clone());
                index = index + 2;
            } else if eq_str(tok.as_slice(), "--server") {
                server_mode = true;
                index = index + 1;
            } else if eq_str(tok.as_slice(), "--zoom") {
                if index + 1 >= n {
                    return Err(CliError::MissingZoomValue);
                }
                match parse_unsigned(tokens[index + 1].as_slice(), 255) {
                    Some(z) => {
                        zoom = z as u8;
                    },
                    None => {
                        return Err(CliError::InvalidZoomValue);
                    },
                }
                index = index + 2;
            } else {
                let dash = chars_of("--");
                if starts_with_exec(tok.as_slice(), dash.as_slice()) {
                    return Err(CliError::UnknownFlag(string_from_chars(tok.as_slice())));
                }
                positionals.push(tok.clone());
                index = index + 1;
                assert(positionals@.map_values(|p: Vec<char>| p@) =~= st.positionals.push(tok@));
            }
        }
        let ghost st = ScanState {
            config_path: opt_chars(config_path),
            base_url: opt_chars(base_url),
            server: server_mode,
            zoom: zoom,
            positionals: positionals@.map_values(|p: Vec<char>| p@),
        };
        assert(target == Ok::<ScanState, CliFailure>(st));
        let config = chars_opt_to_string(&config_path);
        if server_mode {
            if base_url.is_some() || positionals.len() > 0 {
                return Err(CliError::ServerModeConflict);
            }
            return Ok(Some(CliArgs { input: InputSource::Server, config_path: config }));
        }
        match base_url {
            Some(url) => {
                if positionals.len() != 2 {
                    return Err(CliError::UrlModeNeedsCoordinates);
                }
                assert(positionals@[0]@ == st.positionals[0]);
                assert(positionals@[1]@ == st.positionals[1]);
                let x_range = coordinate_range_from_chars(positionals[0].as_slice(), Axis::X)?;
                let y_range = coordinate_range_from_chars(positionals[1].as_slice(), Axis::Y)?;
                let base = string_from_chars(url.as_slice());
                Ok(
                    Some(
                        CliArgs {
                            input: InputSource::Url { base_url: base, zoom, x_range, y_range },
                            config_path: config,
                        },
                    ),
                )
            },
            None => {
                if positionals.len() != 1 {
                    return Err(CliError::FileModeNeedsPath);
                }
                assert(positionals@[0]@ == st.positionals[0]);
                let path = string_from_chars(positionals[0].as_slice());
                Ok(Some(CliArgs { input: InputSource::File(path), config_path: config }))
            },
        }
    }
}

/// The characters of `/<zoom>/<x>/<y>`.
pub open spec fn zxy_path(zoom: nat, x: nat, y: nat) -> Seq<char> {
    "/"@ + decimal(zoom) + "/"@ + decimal(x) + "/"@ + decimal(y)
}

/// The URL of tile `zoom/x/y` on the server whose sample or base URL is `base_url`: a URL
/// holding `{z}`, `{x}` or `{y}` is a template whose placeholders are filled in; otherwise the
/// path after its last `/v3/` is replaced, or `/v3` is appended where missing.
pub open spec fn tile_url_of(base_url: Seq<char>, zoom: u8, x: u32, y: u32) -> Seq<char> {
    let trimmed = trim_end_char(base_url, '/');
    if contains(trimmed, "{z}"@) || contains(trimmed, "{x}"@) || contains(trimmed, "{y}"@) {
        replace_all(
            replace_all(replace_all(trimmed, "{z}"@, decimal(zoom as nat)), "{x}"@, decimal(x as nat)),
            "{y}"@,
            decimal(y as nat),
        )
    } else {
        match rfind(trimmed, "/v3/"@) {
            Some(i) => trimmed.take(i) + "/v3"@ + zxy_path(zoom as nat, x as nat, y as nat) + ".pbf"@,
            None => if ends_with(trimmed, "/v3"@) {
                trimmed + zxy_path(zoom as nat, x as nat, y as nat) + ".pbf"@
            } else {
                trimmed + "/v3"@ + zxy_path(zoom as nat, x as nat, y as nat) + ".pbf"@
            },
        }
    }
}

fn push_zxy(out: &mut Vec<char>, zoom: u8, x: u32, y: u32)
    ensures
        final(out)@ == old(out)@ + zxy_path(zoom as nat, x as nat, y as nat),
{
    push_str(out, "/");
    push_decimal(out, zoom as u64);
    push_str(out, "/");
    push_decimal(out, x as u64);
    push_str(out, "/");
    push_decimal(out, y as u64);
    assert(out@ =~= old(out)@ + zxy_path(zoom as nat, x as nat, y as nat));
}

fn decimal_chars(n: u64) -> (v: Vec<char>)
    ensures
        v@ == decimal(n as nat),
{
    let mut v: Vec<char> = Vec::new();
    push_decimal(&mut v, n);
    assert(v@ =~= decimal(n as nat));
    v
}

/// Builds the URL of tile `zoom/x/y` from the server's sample or base URL.
pub fn build_tile_url(base_url: &str, zoom: u8, x: u32, y: u32) -> (r: String)
    ensures
        r@ == tile_url_of(base_url@, zoom, x, y),
{
    let base = chars_of(base_url);
    let trimmed = trim_end_char_exec(base.as_slice(), '/');
    let pz = chars_of("{z}");
    let px = chars_of("{x}");
    let py = chars_of("{y}");
    proof {
        reveal_strlit("{z}");
        reveal_strlit("{x}");
        reveal_strlit("{y}");
    }
    if contains_exec(trimmed.as_slice(), pz.as_slice()) || contains_exec(trimmed.as_slice(), px.as_slice())
        || contains_exec(trimmed.as_slice(), py.as_slice()) {
        let dz = decimal_chars(zoom as u64);
        let dx = decimal_chars(x as u64);
        let dy = decimal_chars(y as u64);
        let a = replace_all_exec(trimmed.as_slice(), pz.as_slice(), dz.as_slice());
        let b = replace_all_exec(a.as_slice(), px.as_slice(), dx.as_slice());
        let c = replace_all_exec(b.as_slice(), py.as_slice(), dy.as_slice());
        return string_from_chars(c.as_slice());
    }
    let v3 = chars_of("/v3/");
    let mut out: Vec<char>;
    match rfind_exec(trimmed.as_slice(), v3.as_slice()) {
        Some(i) => {
            proof {
                reveal_strlit("/v3/");
                lemma_last_match_in_range(trimmed@, v3@, trimmed@.len() as int);
            }
            out = slice_chars(trimmed.as_slice(), 0, i);
            assert(out@ =~= trimmed@.take(i as int));
            push_str(&mut out, "/v3");
        },
        None => {
            let tail = chars_of("/v3");
            out = trimmed.clone();
            if !ends_with_exec(trimmed.as_slice(), tail.as_slice()) {
                push_str(&mut out, "/v3");
            }
        },
    }
    push_zxy(&mut out, zoom, x, y);
    push_str(&mut out, ".pbf");
    string_from_chars(out.as_slice())
}

proof fn lemma_last_match_in_range(s: Seq<char>, pat: Seq<char>, k: int)
    ensures
        match last_match_below(s, pat, k) {
            Some(i) => 0 <= i < k && matches_at(s, pat, i),
            None => true,
        },
    decreases k,
{
    if k > 0 && !matches_at(s, pat, k - 1) {
        lemma_last_match_in_range(s, pat, k - 1);
    }
}

/// The path a tile is fetched from under a server's base URL: `/v3/<zoom>/<x>/<y>.pbf`.
pub open spec fn v3_tile_path(zoom: u8, x: u32, y: u32) -> Seq<char> {
    "/v3/"@ + decimal(zoom as nat) + "/"@ + decimal(x as nat) + "/"@ + decimal(y as nat) + ".pbf"@
}

proof fn lemma_ends_with_suffix(a: Seq<char>, b: Seq<char>)
    ensures
        ends_with(a + b, b),
{
    assert((a + b).skip((a + b).len() - b.len()) =~= b);
}

proof fn lemma_last_match_is_last(s: Seq<char>, pat: Seq<char>, k: int)
    ensures
        match last_match_below(s, pat, k) {
            Some(i) => forall|j: int| i < j < k ==> !matches_at(s, pat, j),
            None => forall|j: int| j < k ==> !matches_at(s, pat, j),
        },
    decreases k,
{
    if k > 0 && !matches_at(s, pat, k - 1) {
        lemma_last_match_is_last(s, pat, k - 1);
    }
}

/// Law: for a base URL without `{z}`, `{x}` or `{y}` placeholders, the tile URL always ends
/// in `/v3/<zoom>/<x>/<y>.pbf`. Of the base without trailing slashes: where it neither holds
/// `/v3/` nor ends in `/v3`, the URL is the base followed by that path; where it ends in `/v3`
/// without holding `/v3/`, the URL is the base without its `/v3` followed by that path; where
/// it holds `/v3/`, the URL is the base up to its last `/v3/` followed by that path.
pub proof fn law_tile_url_targets_v3(base: Seq<char>, zoom: u8, x: u32, y: u32)
    requires
        !contains(trim_end_char(base, '/'), "{z}"@),
        !contains(trim_end_char(base, '/'), "{x}"@),
        !contains(trim_end_char(base, '/'), "{y}"@),
    ensures
        ends_with(tile_url_of(base, zoom, x, y), v3_tile_path(zoom, x, y)),
        !contains(trim_end_char(base, '/'), "/v3/"@) && !ends_with(trim_end_char(base, '/'), "/v3"@) ==> tile_url_of(
            base,
            zoom,
            x,
            y,
        ) == trim_end_char(base, '/') + v3_tile_path(zoom, x, y),
        !contains(trim_end_char(base, '/'), "/v3/"@) && ends_with(trim_end_char(base, '/'), "/v3"@) ==> tile_url_of(
            base,
            zoom,
            x,
            y,
        ) == trim_end_char(base, '/').drop_last().drop_last().drop_last() + v3_tile_path(zoom, x, y),
        contains(trim_end_char(base, '/'), "/v3/"@) ==> exists|i: int|
            {
                &&& matches_at(trim_end_char(base, '/'), "/v3/"@, i)
                &&& forall|j: int| i < j ==> !matches_at(trim_end_char(base, '/'), "/v3/"@, j)
                &&& tile_url_of(base, zoom, x, y) == trim_end_char(base, '/').take(i) + v3_tile_path(zoom, x, y)
            },
{
    reveal_strlit("/v3/");
    reveal_strlit("/v3");
    reveal_strlit("/");
    let t = trim_end_char(base, '/');
    let zxy = zxy_path(zoom as nat, x as nat, y as nat);
    let tail = v3_tile_path(zoom, x, y);
    assert("/v3"@ + zxy + ".pbf"@ =~= tail);
    lemma_last_match_in_range(t, "/v3/"@, t.len() as int);
    match rfind(t, "/v3/"@) {
        Some(i) => {
            assert(tile_url_of(base, zoom, x, y) =~= t.take(i) + tail);
            lemma_ends_with_suffix(t.take(i), tail);
            lemma_last_match_is_last(t, "/v3/"@, t.len() as int);
            assert(matches_at(t, "/v3/"@, i));
        },
        None => {
            lemma_last_match_is_last(t, "/v3/"@, t.len() as int);
            assert(!contains(t, "/v3/"@));
            if ends_with(t, "/v3"@) {
                let pre = t.take(t.len() - 3);
                assert(t.drop_last().drop_last().drop_last() =~= pre);
                assert(t =~= pre + "/v3"@);
                assert(tile_url_of(base, zoom, x, y) =~= pre + tail);
                lemma_ends_with_suffix(pre, tail);
            } else {
                assert(tile_url_of(base, zoom, x, y) =~= t + tail);
                lemma_ends_with_suffix(t, tail);
            }
        },
    }
}

/// The output path `<zoom>/<x>_<y>.glb` of a tile fetched in URL mode.
pub open spec fn tile_output_path_of(zoom: u8, x: u32, y: u32) -> Seq<char> {
    decimal(zoom as nat) + "/"@ + decimal(x as nat) + "_"@ + decimal(y as nat) + ".glb"@
}

/// Builds the output path `<zoom>/<x>_<y>.glb` of a tile fetched in URL mode.
pub fn tile_output_path(zoom: u8, x: u32, y: u32) -> (r: String)
    ensures
        r@ == tile_output_path_of(zoom, x, y),
{
    let mut out: Vec<char> = Vec::new();
    push_decimal(&mut out, zoom as u64);
    push_str(&mut out, "/");
    push_decimal(&mut out, x as u64);
    push_str(&mut out, "_");
    push_decimal(&mut out, y as u64);
    push_str(&mut out, ".glb");
    assert(out@ =~= tile_output_path_of(zoom, x, y));
    string_from_chars(out.as_slice())
}

/// One tile to convert.
#[derive(Debug, PartialEq, Eq)]
pub struct TileRequest {
    pub source_label: String,
    pub output_path: String,
    pub fetch_url: Option<String>,
    pub file_path: Option<String>,
}

/// The request for tile `zoom/x/y` of the server at `base_url`.
pub open spec fn url_request_matches(r: TileRequest, base_url: Seq<char>, zoom: u8, x: u32, y: u32) -> bool {
    &&& r.source_label@ == tile_url_of(base_url, zoom, x, y)
    &&& r.output_path@ == tile_output_path_of(zoom, x, y)
    &&& opt_view(r.fetch_url) == Some(tile_url_of(base_url, zoom, x, y))
    &&& r.file_path is None
}

/// Some request of `r` asks for tile `zoom/x/y` of the server at `base_url`.
pub open spec fn tile_requested(r: Seq<TileRequest>, base_url: Seq<char>, zoom: u8, x: u32, y: u32) -> bool {
    exists|k: int| 0 <= k < r.len() && #[trigger] url_request_matches(r[k], base_url, zoom, x, y)
}

/// Where the last file name of `p` begins: just after its last `/`, or at the start.
pub open spec fn file_name_start(p: Seq<char>) -> int {
    match rfind(p, seq!['/']) {
        Some(i) => i + 1,
        None => 0,
    }
}

/// The last file name of `p`: what follows its last `/`.
pub open spec fn file_name_of(p: Seq<char>) -> Seq<char> {
    p.subrange(file_name_start(p), p.len() as int)
}

/// A path whose meaning is the same on every platform: it holds no `\` and no `:`, and it
/// ends in a file name that is neither empty nor `.` nor `..`.
pub open spec fn plain_file_path(p: Seq<char>) -> bool {
    &&& lacks_char(p, '\\')
    &&& lacks_char(p, ':')
    &&& file_name_of(p).len() > 0
    &&& file_name_of(p) != seq!['.']
    &&& file_name_of(p) != seq!['.', '.']
}

/// Where the stem of the file name of `p` ends: at the last `.` of the name, unless the name
/// has none or its only `.` is its first character, in which case at the end of `p`.
pub open spec fn file_stem_end(p: Seq<char>) -> int {
    match rfind(p, seq!['.']) {
        Some(d) => if d > file_name_start(p) {
            d
        } else {
            p.len() as int
        },
        None => p.len() as int,
    }
}

/// `p` with the extension of its file name set to `ext`: the old extension, if any, is
/// replaced, else `.` and `ext` are appended.
pub open spec fn with_extension_of(p: Seq<char>, ext: Seq<char>) -> Seq<char> {
    p.subrange(0, file_stem_end(p)) + seq!['.'] + ext
}

/// `p` with the extension of its file name set to `glb`.
pub open spec fn with_glb_extension(p: Seq<char>) -> Seq<char> {
    with_extension_of(p, seq!['g', 'l', 'b'])
}

/// Trusted: std's `Path::with_extension`, read back as text. std panics on an extension that
/// holds a path separator, so `extension` holds neither `/` nor `\`. Where `path` is a plain
/// file path and `extension` is a non-empty name without `.`, the result is `path` with the
/// extension of its file name replaced by, or extended with, `extension`, as std's
/// documentation of `with_extension` and `set_extension` describes. On other paths the result
/// depends on the platform's path syntax, and nothing is stated.
#[verifier::external_body]
fn path_with_extension(path: &str, extension: &str) -> (s: String)
    requires
        lacks_char(extension@, '/'),
        lacks_char(extension@, '\\'),
    ensures
        plain_file_path(path@) && extension@.len() > 0 && lacks_char(extension@, '.') ==> s@ == with_extension_of(
            path@,
            extension@,
        ),
{
    std::path::Path::new(path).with_extension(extension).to_string_lossy().into_owned()
}

impl CliArgs {
    /// The tiles that this command line asks to convert: the file of file mode, none in server
    /// mode, and in URL mode every tile of the x range times the y range, x outermost.
    pub fn tile_requests(&self) -> (r: Vec<TileRequest>)
        ensures
            match &self.input {
                InputSource::File(path) => r@.len() == 1 && r@[0].source_label@ == path@
                    && r@[0].fetch_url is None && opt_view(r@[0].file_path) == Some(path@)
                    && (plain_file_path(path@) ==> r@[0].output_path@ == with_glb_extension(path@)),
                InputSource::Server => r@.len() == 0,
                InputSource::Url { base_url, zoom, x_range, y_range } => {
                    let nx = x_range@.end - x_range@.start + 1;
                    let ny = y_range@.end - y_range@.start + 1;
                    &&& (x_range@.start > x_range@.end || y_range@.start > y_range@.end) ==> r@.len() == 0
                    &&& (x_range@.start <= x_range@.end && y_range@.start <= y_range@.end && !x_range@.exhausted
                        && !y_range@.exhausted) ==> {
                        &&& r@.len() == nx * ny
                        &&& forall|k: int|
                            0 <= k < r@.len() ==> url_request_matches(
                                #[trigger] r@[k],
                                base_url@,
                                *zoom,
                                (x_range@.start + k / ny) as u32,
                                (y_range@.start + k % ny) as u32,
                            )
                        &&& forall|x: u32, y: u32|
                            x_range@.start <= x <= x_range@.end && y_range@.start <= y <= y_range@.end
                                ==> #[trigger] tile_requested(r@, base_url@, *zoom, x, y)
                    }
                },
            },
    {
        match &self.input {
            InputSource::File(path) => {
                proof {
                    reveal_strlit("glb");
                    assert("glb"@ =~= seq!['g', 'l', 'b']);
                }
                let mut v: Vec<TileRequest> = Vec::new();
                v.push(
                    TileRequest {
                        source_label: path.clone(),
                        output_path: path_with_extension(path.as_str(), "glb"),
                        fetch_url: None,
                        file_path: Some(path.clone()),
                    },
                );
                v
            },
            InputSource::Server => Vec::new(),
            InputSource::Url { base_url, zoom, x_range, y_range } => {
                let xs = *x_range.start();
                let xe = *x_range.end();
                let ys = *y_range.start();
                let ye = *y_range.end();
                let mut requests: Vec<TileRequest> = Vec::new();
                if xs > xe || ys > ye {
                    return requests;
                }
                let ghost ny: int = ye - ys + 1;
                let mut x: u64 = xs as u64;
                while x <= xe as u64
                    invariant
                        xs <= x <= xe as int + 1,
                        ys <= ye,
                        ny == ye - ys + 1,
                        requests@.len() == (x - xs) * ny,
                        forall|k: int|
                            0 <= k < requests@.len() ==> url_request_matches(
                                #[trigger] requests@[k],
                                base_url@,
                                *zoom,
                                (xs + k / ny) as u32,
                                (ys + k % ny) as u32,
                            ),
                    decreases xe as u64 + 1 - x,
                {
                    let mut y: u64 = ys as u64;
                    while y <= ye as u64
                        invariant
                            xs <= x <= xe,
                            ys <= y <= ye as int + 1,
                            ny == ye - ys + 1,
                            requests@.len() == (x - xs) * ny + (y - ys),
                            forall|k: int|
                                0 <= k < requests@.len() ==> url_request_matches(
                                    #[trigger] requests@[k],
                                    base_url@,
                                    *zoom,
                                    (xs + k / ny) as u32,
                                    (ys + k % ny) as u32,
                                ),
                        decreases ye as u64 + 1 - y,
                    {
                        let url = build_tile_url(base_url.as_str(), *zoom, x as u32, y as u32);
                        let req = TileRequest {
                            source_label: build_tile_url(base_url.as_str(), *zoom, x as u32, y as u32),
                            output_path: tile_output_path(*zoom, x as u32, y as u32),
                            fetch_url: Some(url),
                            file_path: None,
                        };
                        let ghost k = requests@.len() as int;
                        proof {
                            vstd::arithmetic::div_mod::lemma_fundamental_div_mod_converse(
                                k,
                                ny,
                                x - xs,
                                y - ys,
                            );
                        }
                        requests.push(req);
                        y = y + 1;
                    }
                    proof {
                        assert((x - xs) * ny + ny == (x + 1 - xs) * ny) by (nonlinear_arith);
                    }
                    x = x + 1;
                }
                proof {
                    assert forall|tx: u32, ty: u32|
                        xs <= tx <= xe && ys <= ty <= ye implies #[trigger] tile_requested(
                        requests@,
                        base_url@,
                        *zoom,
                        tx,
                        ty,
                    ) by {
                        let k = (tx - xs) * ny + (ty - ys);
                        vstd::arithmetic::div_mod::lemma_fundamental_div_mod_converse(k, ny, tx - xs, ty - ys);
                        assert(0 <= k < (xe as int + 1 - xs) * ny) by (nonlinear_arith)
                            requires
                                0 <= tx - xs <= xe - xs,
                                0 <= ty - ys < ny,
                                k == (tx - xs) * ny + (ty - ys),
                        ;
                        assert(url_request_matches(requests@[k], base_url@, *zoom, tx, ty));
                    }
                }
                requests
            },
        }
    }
}

/// The config path that `--config <path>` gives, looking from the first argument after the
/// program name: `Ok(None)` without the flag, an error when the flag ends the line.
pub open spec fn config_path_outcome(args: Seq<Seq<char>>, i: nat) -> Result<Option<Seq<char>>, CliFailure>
    decreases args.len() - i,
{
    if i >= args.len() {
        Ok(None)
    } else if args[i as int] == "--config"@ {
        if i + 1 < args.len() {
            Ok(Some(args[(i + 1) as int]))
        } else {
            Err(CliFailure::MissingConfigPath)
        }
    } else {
        config_path_outcome(args, i + 1)
    }
}

/// The usage text shown for a refused or empty command line, one line per mode and a last
/// line on what the tool does.
pub open spec fn usage_text_of(program: Seq<char>) -> Seq<char> {
    "Usage: "@ + program + " [--config <config.toml>] <tile.pbf>\n"@ + "   or: "@ + program
        + " [--config <config.toml>] --url <server-url> <x|x0-x1> <y|y0-y1> [--zoom <z>]\n"@ + "   or: "@ + program
        + " [--config <config.toml>] --server\n"@
        + "Prints a decoded Mapbox Vector Tile report and exports water geometry to GLB.\n"@
}

/// Builds the usage text for the program named `program`.
pub fn usage_text(program: &str) -> (r: String)
    ensures
        r@ == usage_text_of(program@),
{
    let p = chars_of(program);
    let mut out: Vec<char> = Vec::new();
    push_str(&mut out, "Usage: ");
    push_chars(&mut out, p.as_slice());
    push_str(&mut out, " [--config <config.toml>] <tile.pbf>\n");
    push_str(&mut out, "   or: ");
    push_chars(&mut out, p.as_slice());
    push_str(&mut out, " [--config <config.toml>] --url <server-url> <x|x0-x1> <y|y0-y1> [--zoom <z>]\n");
    push_str(&mut out, "   or: ");
    push_chars(&mut out, p.as_slice());
    push_str(&mut out, " [--config <config.toml>] --server\n");
    push_str(&mut out, "Prints a decoded Mapbox Vector Tile report and exports water geometry to GLB.\n");
    assert(out@ =~= usage_text_of(program@));
    string_from_chars(out.as_slice())
}

/// Finds the config path given by `--config <path>` among the arguments after the program name.
pub fn config_path_from_args(args: &[String]) -> (r: Result<Option<String>, CliError>)
    ensures
        match (r, config_path_outcome(args_view(args@), 1)) {
            (Ok(p), Ok(q)) => opt_view(p) == q,
            (Err(e), Err(f)) => e@ == f,
            _ => false,
        },
{
    let ghost all = args_view(args@);
    let mut index: usize = 1;
    while index < args.len()
        invariant
            1 <= index,
            all == args_view(args@),
            all.len() == args@.len(),
            config_path_outcome(all, 1) == config_path_outcome(all, index as nat),
        decreases args.len() - index,
    {
        let tok = chars_of(args[index].as_str());
        if eq_str(tok.as_slice(), "--config") {
            if index + 1 < args.len() {
                let p = args[index + 1].clone();
                return Ok(Some(p));
            }
            return Err(CliError::MissingConfigPath);
        }
        index = index + 1;
    }
    Ok(None)
}

} // verus!
