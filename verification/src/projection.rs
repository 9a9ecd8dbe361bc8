//! Ship position projection: which location reports bracket a query time for each ship,
//! which ships get a projection, and which stored projections go stale; and a ship's reports
//! in time order. Timestamps are microseconds since the Unix epoch.
use vstd::prelude::*;

verus! {

/// The ship and time of one stored location report.
#[derive(Clone, Copy, Debug, PartialEq, Eq, Structural)]
pub struct ReportStamp {
    pub ship_mmsi: u64,
    pub timestamp: i64,
}

/// Why a projection request was refused.
#[derive(Clone, Copy, Debug, PartialEq, Eq, Structural)]
pub enum ProjectionError {
    NonPositiveWindow,
    WindowUnderflow,
    WindowOverflow,
}

/// The message of a refused projection request.
pub open spec fn projection_error_message(e: ProjectionError) -> Seq<char> {
    match e {
        ProjectionError::NonPositiveWindow => "visibility_window_micros must be greater than 0"@,
        ProjectionError::WindowUnderflow => "Projection window underflow"@,
        ProjectionError::WindowOverflow => "Projection window overflow"@,
    }
}

impl ProjectionError {
    /// The message of this error.
    pub fn message(&self) -> (m: &'static str)
        ensures
            m@ == projection_error_message(*self),
    {
        match self {
            ProjectionError::NonPositiveWindow => "visibility_window_micros must be greater than 0",
            ProjectionError::WindowUnderflow => "Projection window underflow",
            ProjectionError::WindowOverflow => "Projection window overflow",
        }
    }
}

/// The reports considered for a query at `query` with half-width `window`: from
/// `query - window` up to and including `query + window`.
pub open spec fn window_bounds_of(query: i64, window: i64) -> Result<(int, int), ProjectionError> {
    if window <= 0 {
        Err(ProjectionError::NonPositiveWindow)
    } else if query - window < i64::MIN {
        Err(ProjectionError::WindowUnderflow)
    } else if query + window + 1 > i64::MAX {
        Err(ProjectionError::WindowOverflow)
    } else {
        Ok((query - window, query + window + 1))
    }
}

/// Report `i` lies in the half-open window from `start` to `end`.
pub open spec fn selected(reports: Seq<ReportStamp>, i: int, start: int, end: int) -> bool {
    start <= reports[i].timestamp < end
}

/// The report at or before `query` chosen for `ship` among the first `n` reports: the
/// latest one, and the first of those that share the latest time.
pub open spec fn before_scan(reports: Seq<ReportStamp>, n: int, ship: u64, query: i64, start: int, end: int) -> Option<int>
    decreases n,
{
    if n <= 0 {
        None
    } else {
        let prev = before_scan(reports, n - 1, ship, query, start, end);
        let r = reports[n - 1];
        if r.ship_mmsi == ship && selected(reports, n - 1, start, end) && r.timestamp <= query && (
        prev is None || r.timestamp > reports[prev->0].timestamp) {
            Some(n - 1)
        } else {
            prev
        }
    }
}

/// The report after `query` chosen for `ship` among the first `n` reports: the earliest
/// one, and the first of those that share the earliest time.
pub open spec fn after_scan(reports: Seq<ReportStamp>, n: int, ship: u64, query: i64, start: int, end: int) -> Option<int>
    decreases n,
{
    if n <= 0 {
        None
    } else {
        let prev = after_scan(reports, n - 1, ship, query, start, end);
        let r = reports[n - 1];
        if r.ship_mmsi == ship && selected(reports, n - 1, start, end) && r.timestamp > query && (
        prev is None || r.timestamp < reports[prev->0].timestamp) {
            Some(n - 1)
        } else {
            prev
        }
    }
}

/// Report `j` is one of `ship`'s reports in the window at or before `query`.
pub open spec fn before_candidate(reports: Seq<ReportStamp>, j: int, ship: u64, query: i64, start: int, end: int) -> bool {
    0 <= j < reports.len() && reports[j].ship_mmsi == ship && selected(reports, j, start, end) && reports[j].timestamp
        <= query
}

/// Report `j` is one of `ship`'s reports in the window after `query`.
pub open spec fn after_candidate(reports: Seq<ReportStamp>, j: int, ship: u64, query: i64, start: int, end: int) -> bool {
    0 <= j < reports.len() && reports[j].ship_mmsi == ship && selected(reports, j, start, end) && reports[j].timestamp
        > query
}

/// Law: the report chosen before the query time is the ship's latest report in the window
/// at or before it, the first one of that time; the report chosen after is the ship's
/// earliest report in the window after it, the first one of that time; each is missing
/// only where the ship has no such report.
pub proof fn law_bracketing_reports(reports: Seq<ReportStamp>, n: int, ship: u64, query: i64, start: int, end: int)
    requires
        0 <= n <= reports.len(),
    ensures
        match before_scan(reports, n, ship, query, start, end) {
            Some(b) => {
                &&& 0 <= b < n
                &&& before_candidate(reports, b, ship, query, start, end)
                &&& forall|j: int|
                    0 <= j < n && #[trigger] before_candidate(reports, j, ship, query, start, end) ==> reports[j].timestamp
                        < reports[b].timestamp || (reports[j].timestamp == reports[b].timestamp && b <= j)
            },
            None => forall|j: int| 0 <= j < n ==> !#[trigger] before_candidate(reports, j, ship, query, start, end),
        },
        match after_scan(reports, n, ship, query, start, end) {
            Some(a) => {
                &&& 0 <= a < n
                &&& after_candidate(reports, a, ship, query, start, end)
                &&& forall|j: int|
                    0 <= j < n && #[trigger] after_candidate(reports, j, ship, query, start, end) ==> reports[a].timestamp
                        < reports[j].timestamp || (reports[j].timestamp == reports[a].timestamp && a <= j)
            },
            None => forall|j: int| 0 <= j < n ==> !#[trigger] after_candidate(reports, j, ship, query, start, end),
        },
    decreases n,
{
    if n > 0 {
        law_bracketing_reports(reports, n - 1, ship, query, start, end);
    }
}

/// Whether `ship` gets a projection: it has a report at or before the query in the window,
/// and where it also has one after, the time between the two fits in 64 bits.
pub open spec fn projected(reports: Seq<ReportStamp>, ship: u64, query: i64, start: int, end: int) -> bool {
    match before_scan(reports, reports.len() as int, ship, query, start, end) {
        None => false,
        Some(b) => match after_scan(reports, reports.len() as int, ship, query, start, end) {
            None => true,
            Some(a) => reports[a].timestamp - reports[b].timestamp <= i64::MAX,
        },
    }
}

/// The reports that bracket the query time for one ship.
#[derive(Clone, Copy, Debug, PartialEq, Eq, Structural)]
pub struct ShipWindow {
    pub ship_mmsi: u64,
    /// Position of the report at or before the query time.
    pub before: usize,
    /// Position of the report after the query time, where there is one.
    pub after: Option<usize>,
}

/// What a projection request leads to.
#[derive(Clone, Debug, PartialEq, Eq)]
pub struct ProjectionPlan {
    /// One entry per projected ship, by ascending MMSI.
    pub windows: Vec<ShipWindow>,
    /// The stored projections to delete, in the order given.
    pub stale: Vec<u64>,
}

/// Some report of `ship` lies in the window.
pub open spec fn has_report(reports: Seq<ReportStamp>, ship: u64, start: int, end: int) -> bool {
    exists|i: int| 0 <= i < reports.len() && reports[i].ship_mmsi == ship && #[trigger] selected(reports, i, start, end)
}

proof fn lemma_before_scan(reports: Seq<ReportStamp>, n: int, ship: u64, query: i64, start: int, end: int)
    requires
        0 <= n <= reports.len(),
    ensures
        match before_scan(reports, n, ship, query, start, end) {
            Some(b) => 0 <= b < n && reports[b].ship_mmsi == ship && selected(reports, b, start, end)
                && reports[b].timestamp <= query,
            None => true,
        },
    decreases n,
{
    if n > 0 {
        lemma_before_scan(reports, n - 1, ship, query, start, end);
    }
}

proof fn lemma_after_scan(reports: Seq<ReportStamp>, n: int, ship: u64, query: i64, start: int, end: int)
    requires
        0 <= n <= reports.len(),
    ensures
        match after_scan(reports, n, ship, query, start, end) {
            Some(a) => 0 <= a < n && reports[a].ship_mmsi == ship && selected(reports, a, start, end)
                && reports[a].timestamp > query,
            None => true,
        },
    decreases n,
{
    if n > 0 {
        lemma_after_scan(reports, n - 1, ship, query, start, end);
    }
}

/// Finds the smallest MMSI above `lo` (or any, where `lo` is none) among the ships with a
/// report in the window.
fn next_ship_above(reports: &[ReportStamp], start: i64, end: i64, lo: Option<u64>) -> (r: Option<u64>)
    ensures
        match r {
            Some(m) => has_report(reports@, m, start as int, end as int) && (lo matches Some(l) ==> m > l)
                && forall|m2: u64|
                    has_report(reports@, m2, start as int, end as int) && (lo matches Some(l) ==> m2 > l) ==> m <= m2,
            None => forall|m2: u64|
                has_report(reports@, m2, start as int, end as int) ==> (lo matches Some(l) && m2 <= l),
        },
{
    let mut best: Option<u64> = None;
    let mut i: usize = 0;
    while i < reports.len()
        invariant
            i <= reports@.len(),
            match best {
                Some(m) => has_report(reports@, m, start as int, end as int) && (lo matches Some(l) ==> m > l)
                    && forall|j: int|
                        0 <= j < i && selected(reports@, j, start as int, end as int) && (lo matches Some(l)
                            ==> reports@[j].ship_mmsi > l) ==> m <= #[trigger] reports@[j].ship_mmsi,
                None => forall|j: int|
                    0 <= j < i && #[trigger] selected(reports@, j, start as int, end as int) ==> (lo matches Some(l)
                        && reports@[j].ship_mmsi <= l),
            },
        decreases reports.len() - i,
    {
        let r = reports[i];
        let above = match lo {
            Some(l) => r.ship_mmsi > l,
            None => true,
        };
        if start <= r.timestamp && r.timestamp < end && above {
            let better = match best {
                Some(m) => r.ship_mmsi < m,
                None => true,
            };
            if better {
                assert(selected(reports@, i as int, start as int, end as int));
                best = Some(r.ship_mmsi);
            }
        }
        i = i + 1;
    }
    proof {
        match best {
            Some(m) => {
                assert forall|m2: u64|
                    has_report(reports@, m2, start as int, end as int) && (lo matches Some(l) ==> m2 > l) implies m <= m2 by {
                    let j = choose|j: int|
                        0 <= j < reports@.len() && reports@[j].ship_mmsi == m2 && #[trigger] selected(
                            reports@,
                            j,
                            start as int,
                            end as int,
                        );
                    assert(m <= reports@[j].ship_mmsi);
                }
            },
            None => {
                assert forall|m2: u64| has_report(reports@, m2, start as int, end as int) implies (lo matches Some(l)
                    && m2 <= l) by {
                    let j = choose|j: int|
                        0 <= j < reports@.len() && reports@[j].ship_mmsi == m2 && #[trigger] selected(
                            reports@,
                            j,
                            start as int,
                            end as int,
                        );
                }
            },
        }
    }
    best
}

/// Finds the chosen before and after reports of `ship`.
fn bracketing_reports(reports: &[ReportStamp], ship: u64, query: i64, start: i64, end: i64) -> (r: (Option<usize>, Option<usize>))
    ensures
        opt_int(r.0) == before_scan(reports@, reports@.len() as int, ship, query, start as int, end as int),
        opt_int(r.1) == after_scan(reports@, reports@.len() as int, ship, query, start as int, end as int),
{
    let mut before: Option<usize> = None;
    let mut after: Option<usize> = None;
    let mut i: usize = 0;
    while i < reports.len()
        invariant
            i <= reports@.len(),
            opt_int(before) == before_scan(reports@, i as int, ship, query, start as int, end as int),
            opt_int(after) == after_scan(reports@, i as int, ship, query, start as int, end as int),
        decreases reports.len() - i,
    {
        proof {
            lemma_before_scan(reports@, i as int, ship, query, start as int, end as int);
            lemma_after_scan(reports@, i as int, ship, query, start as int, end as int);
        }
        let r = reports[i];
        if r.ship_mmsi == ship && start <= r.timestamp && r.timestamp < end {
            if r.timestamp <= query {
                let replace = match before {
                    Some(b) => r.timestamp > reports[b].timestamp,
                    None => true,
                };
                if replace {
                    before = Some(i);
                }
            } else {
                let replace = match after {
                    Some(a) => r.timestamp < reports[a].timestamp,
                    None => true,
                };
                if replace {
                    after = Some(i);
                }
            }
        }
        i = i + 1;
    }
    (before, after)
}

/// A position as a mathematical integer.
pub open spec fn opt_int(p: Option<usize>) -> Option<int> {
    match p {
        Some(v) => Some(v as int),
        None => None,
    }
}

/// `windows` holds, by strictly ascending MMSI, exactly the projected ships, each with its
/// chosen before and after reports.
pub open spec fn windows_match(windows: Seq<ShipWindow>, reports: Seq<ReportStamp>, query: i64, start: int, end: int) -> bool {
    &&& forall|k: int, l: int| 0 <= k < l < windows.len() ==> windows[k].ship_mmsi < windows[l].ship_mmsi
    &&& forall|k: int|
        0 <= k < windows.len() ==> {
            let w = #[trigger] windows[k];
            &&& projected(reports, w.ship_mmsi, query, start, end)
            &&& before_scan(reports, reports.len() as int, w.ship_mmsi, query, start, end) == Some(w.before as int)
            &&& after_scan(reports, reports.len() as int, w.ship_mmsi, query, start, end) == opt_int(w.after)
        }
    &&& forall|m: u64|
        projected(reports, m, query, start, end) ==> exists|k: int|
            0 <= k < windows.len() && #[trigger] windows[k].ship_mmsi == m
}

/// The stored projections that the request deletes: those of ships that get no projection.
pub open spec fn stale_of(existing: Seq<u64>, windows: Seq<ShipWindow>) -> Seq<u64> {
    existing.filter(|m: u64| !(exists|k: int| 0 <= k < windows.len() && windows[k].ship_mmsi == m))
}

proof fn lemma_projected_has_report(reports: Seq<ReportStamp>, m: u64, query: i64, start: int, end: int)
    requires
        projected(reports, m, query, start, end),
    ensures
        has_report(reports, m, start, end),
{
    lemma_before_scan(reports, reports.len() as int, m, query, start, end);
    let b = before_scan(reports, reports.len() as int, m, query, start, end)->0;
    assert(selected(reports, b, start, end));
}

fn window_contains(windows: &Vec<ShipWindow>, m: u64) -> (b: bool)
    ensures
        b == (exists|k: int| 0 <= k < windows@.len() && windows@[k].ship_mmsi == m),
{
    let mut i: usize = 0;
    while i < windows.len()
        invariant
            i <= windows@.len(),
            forall|k: int| 0 <= k < i ==> windows@[k].ship_mmsi != m,
        decreases windows.len() - i,
    {
        if windows[i].ship_mmsi == m {
            return true;
        }
        i = i + 1;
    }
    false
}

/// Plans a projection request for time `query_timestamp` over the reports
/// `reports` (in index order), given the MMSIs of the stored projections.
pub fn project_ship_locations(
    query_timestamp: i64,
    visibility_window_micros: i64,
    reports: &[ReportStamp],
    existing: &[u64],
) -> (r: Result<ProjectionPlan, ProjectionError>)
    ensures
        match (r, window_bounds_of(query_timestamp, visibility_window_micros)) {
            (Err(e), Err(f)) => e == f,
            (Ok(plan), Ok((start, end))) => windows_match(plan.windows@, reports@, query_timestamp, start, end)
                && plan.stale@ == stale_of(existing@, plan.windows@),
            _ => false,
        },
{
    if visibility_window_micros <= 0 {
        return Err(ProjectionError::NonPositiveWindow);
    }
    let start = match query_timestamp.checked_sub(visibility_window_micros) {
        Some(s) => s,
        None => return Err(ProjectionError::WindowUnderflow),
    };
    let end = match query_timestamp.checked_add(visibility_window_micros) {
        Some(e) => match e.checked_add(1) {
            Some(e1) => e1,
            None => return Err(ProjectionError::WindowOverflow),
        },
        None => return Err(ProjectionError::WindowOverflow),
    };
    let ghost s = start as int;
    let ghost e = end as int;
    let mut windows: Vec<ShipWindow> = Vec::new();
    let mut last: Option<u64> = None;
    loop
        invariant
            s == start as int,
            e == end as int,
            forall|k: int, l: int| 0 <= k < l < windows@.len() ==> windows@[k].ship_mmsi < windows@[l].ship_mmsi,
            forall|k: int|
                0 <= k < windows@.len() ==> {
                    let w = #[trigger] windows@[k];
                    &&& projected(reports@, w.ship_mmsi, query_timestamp, s, e)
                    &&& before_scan(reports@, reports@.len() as int, w.ship_mmsi, query_timestamp, s, e) == Some(w.before as int)
                    &&& after_scan(reports@, reports@.len() as int, w.ship_mmsi, query_timestamp, s, e) == opt_int(w.after)
                    &&& (last matches Some(l) && w.ship_mmsi <= l)
                },
            forall|m: u64|
                projected(reports@, m, query_timestamp, s, e) && (last matches Some(l) && m <= l) ==> exists|k: int|
                    0 <= k < windows@.len() && #[trigger] windows@[k].ship_mmsi == m,
        ensures
            windows_match(windows@, reports@, query_timestamp, s, e),
        decreases (match last { Some(l) => u64::MAX - l, None => u64::MAX as int + 1 }),
    {
        let next = next_ship_above(reports, start, end, last);
        match next {
            None => {
                proof {
                    assert forall|m: u64| projected(reports@, m, query_timestamp, s, e) implies exists|k: int|
                        0 <= k < windows@.len() && #[trigger] windows@[k].ship_mmsi == m by {
                        lemma_projected_has_report(reports@, m, query_timestamp, s, e);
                    }
                }
                break;
            },
            Some(m) => {
                let (before, after) = bracketing_reports(reports, m, query_timestamp, start, end);
                proof {
                    lemma_before_scan(reports@, reports@.len() as int, m, query_timestamp, s, e);
                    lemma_after_scan(reports@, reports@.len() as int, m, query_timestamp, s, e);
                }
                let keep = match before {
                    None => false,
                    Some(b) => match after {
                        None => true,
                        Some(a) => reports[a].timestamp.checked_sub(reports[b].timestamp).is_some(),
                    },
                };
                let ghost old_windows = windows@;
                if keep {
                    windows.push(ShipWindow { ship_mmsi: m, before: before.unwrap(), after });
                }
                proof {
                    assert forall|m2: u64|
                        projected(reports@, m2, query_timestamp, s, e) && m2 <= m implies exists|k: int|
                            0 <= k < windows@.len() && #[trigger] windows@[k].ship_mmsi == m2 by {
                        lemma_projected_has_report(reports@, m2, query_timestamp, s, e);
                        if last matches Some(l) && m2 <= l {
                            let k = choose|k: int| 0 <= k < old_windows.len() && #[trigger] old_windows[k].ship_mmsi == m2;
                            assert(windows@[k] == old_windows[k]);
                        } else {
                            assert(m2 == m);
                            assert(windows@[windows@.len() - 1].ship_mmsi == m);
                        }
                    }
                }
                last = Some(m);
            },
        }
    }
    let mut stale: Vec<u64> = Vec::new();
    let mut i: usize = 0;
    while i < existing.len()
        invariant
            i <= existing@.len(),
            stale@ == stale_of(existing@.take(i as int), windows@),
        decreases existing.len() - i,
    {
        let m = existing[i];
        let present = window_contains(&windows, m);
        proof {
            let t = existing@.take(i + 1);
            assert(t.drop_last() =~= existing@.take(i as int));
            assert(t.last() == m);
            reveal(Seq::filter);
        }
        if !present {
            stale.push(m);
        }
        i = i + 1;
    }
    assert(existing@.take(i as int) =~= existing@);
    Ok(ProjectionPlan { windows, stale })
}

/// The registry's single row of time bounds: the oldest and newest report times, in
/// microseconds since the epoch, where known.
#[derive(Clone, Copy, Debug, PartialEq, Eq, Structural)]
pub struct GlobalState {
    pub id: u8,
    pub oldest: Option<i64>,
    pub newest: Option<i64>,
}

/// The time of the oldest or newest stored location report.
#[derive(Clone, Copy, Debug, PartialEq, Eq, Structural)]
pub struct OldestLocationReportTime {
    pub timestamp: i64,
}

/// Finds the earliest report time at or after the epoch among `timestamps`.
pub fn oldest_location_report_time(timestamps: &[i64]) -> (r: Option<OldestLocationReportTime>)
    ensures
        match r {
            Some(t) => 0 <= t.timestamp && timestamps@.contains(t.timestamp) && forall|i: int|
                0 <= i < timestamps@.len() && timestamps@[i] >= 0 ==> t.timestamp <= timestamps@[i],
            None => forall|i: int| 0 <= i < timestamps@.len() ==> timestamps@[i] < 0,
        },
{
    let mut best: Option<i64> = None;
    let mut i: usize = 0;
    while i < timestamps.len()
        invariant
            i <= timestamps@.len(),
            match best {
                Some(t) => 0 <= t && timestamps@.contains(t) && forall|j: int|
                    0 <= j < i && timestamps@[j] >= 0 ==> t <= timestamps@[j],
                None => forall|j: int| 0 <= j < i ==> timestamps@[j] < 0,
            },
        decreases timestamps.len() - i,
    {
        let t = timestamps[i];
        if t >= 0 {
            let better = match best {
                Some(b) => t < b,
                None => true,
            };
            if better {
                assert(timestamps@[i as int] == t);
                best = Some(t);
            }
        }
        i = i + 1;
    }
    match best {
        Some(t) => Some(OldestLocationReportTime { timestamp: t }),
        None => None,
    }
}

/// Finds the latest report time at or after the epoch among `timestamps`.
pub fn newest_location_report_time(timestamps: &[i64]) -> (r: Option<OldestLocationReportTime>)
    ensures
        match r {
            Some(t) => 0 <= t.timestamp && timestamps@.contains(t.timestamp) && forall|i: int|
                0 <= i < timestamps@.len() && timestamps@[i] >= 0 ==> timestamps@[i] <= t.timestamp,
            None => forall|i: int| 0 <= i < timestamps@.len() ==> timestamps@[i] < 0,
        },
{
    let mut best: Option<i64> = None;
    let mut i: usize = 0;
    while i < timestamps.len()
        invariant
            i <= timestamps@.len(),
            match best {
                Some(t) => 0 <= t && timestamps@.contains(t) && forall|j: int|
                    0 <= j < i && timestamps@[j] >= 0 ==> timestamps@[j] <= t,
                None => forall|j: int| 0 <= j < i ==> timestamps@[j] < 0,
            },
        decreases timestamps.len() - i,
    {
        let t = timestamps[i];
        if t >= 0 {
            let later = match best {
                Some(b) => t >= b,
                None => true,
            };
            if later {
                assert(timestamps@[i as int] == t);
                best = Some(t);
            }
        }
        i = i + 1;
    }
    match best {
        Some(t) => Some(OldestLocationReportTime { timestamp: t }),
        None => None,
    }
}

/// Checks that a minute after `timestamp` is still a representable time.
pub fn set_current_time(timestamp: i64) -> (r: Result<(), String>)
    ensures
        match r {
            Ok(()) => timestamp + 60_000_000 <= i64::MAX,
            Err(e) => timestamp + 60_000_000 > i64::MAX && e@ == "Timestamp overflow"@,
        },
{
    match timestamp.checked_add(60_000_000) {
        Some(_) => Ok(()),
        None => {
            let c = crate::text::chars_of("Timestamp overflow");
            Err(crate::text::string_from_chars(c.as_slice()))
        },
    }
}

/// Report `i` comes before report `j` in time order: earlier, or at the same time and
/// stored first.
pub open spec fn earlier_report(reports: Seq<ReportStamp>, i: int, j: int) -> bool {
    reports[i].timestamp < reports[j].timestamp || (reports[i].timestamp == reports[j].timestamp && i < j)
}

/// `order` lists the positions of exactly `ship`'s reports, each once, in time order.
pub open spec fn reports_in_time_order(reports: Seq<ReportStamp>, ship: u64, order: Seq<usize>) -> bool {
    &&& forall|k: int| 0 <= k < order.len() ==> #[trigger] order[k] < reports.len() && reports[order[k] as int].ship_mmsi == ship
    &&& forall|j: int| 0 <= j < reports.len() && reports[j].ship_mmsi == ship ==> order.contains(j as usize)
    &&& forall|k: int, l: int| 0 <= k < l < order.len() ==> earlier_report(reports, #[trigger] order[k] as int, #[trigger] order[l] as int)
}

/// The positions of one ship's reports, earliest first; reports of the same time keep
/// their stored order.
pub fn ship_location_reports(reports: &[ReportStamp], ship: u64) -> (order: Vec<usize>)
    ensures
        reports_in_time_order(reports@, ship, order@),
{
    let mut order: Vec<usize> = Vec::new();
    let mut j: usize = 0;
    while j < reports.len()
        invariant
            j <= reports@.len(),
            forall|k: int| 0 <= k < order@.len() ==> #[trigger] order@[k] < j && reports@[order@[k] as int].ship_mmsi == ship,
            forall|i: int| 0 <= i < j && reports@[i].ship_mmsi == ship ==> order@.contains(i as usize),
            forall|k: int, l: int| 0 <= k < l < order@.len() ==> earlier_report(reports@, #[trigger] order@[k] as int, #[trigger] order@[l] as int),
        decreases reports.len() - j,
    {
        if reports[j].ship_mmsi == ship {
            let t = reports[j].timestamp;
            let mut p: usize = 0;
            while p < order.len() && reports[order[p]].timestamp <= t
                invariant
                    p <= order@.len(),
                    j < reports@.len(),
                    forall|k: int| 0 <= k < order@.len() ==> #[trigger] order@[k] < j,
                    forall|k: int| 0 <= k < p ==> #[trigger] reports@[order@[k] as int].timestamp <= t,
                decreases order.len() - p,
            {
                p = p + 1;
            }
            let ghost before = order@;
            order.insert(p, j);
            proof {
                assert(order@ =~= before.insert(p as int, j));
                assert forall|k: int, l: int| 0 <= k < l < order@.len() implies earlier_report(reports@, #[trigger] order@[k] as int, #[trigger] order@[l] as int) by {
                    if l < p {
                        assert(order@[k] == before[k] && order@[l] == before[l]);
                    } else if l == p {
                        assert(order@[k] == before[k]);
                        assert(reports@[before[k] as int].timestamp <= t);
                        assert(before[k] < j);
                    } else if k < p {
                        assert(order@[k] == before[k] && order@[l] == before[l - 1]);
                        if k < l - 1 {
                            assert(earlier_report(reports@, before[k] as int, before[l - 1] as int));
                        }
                    } else if k == p {
                        // the first one after the inserted report is later than it
                        assert(order@[l] == before[l - 1]);
                        assert(reports@[before[p as int] as int].timestamp > t);
                        if l - 1 > p {
                            assert(earlier_report(reports@, before[p as int] as int, before[l - 1] as int));
                        }
                    } else {
                        assert(order@[k] == before[k - 1] && order@[l] == before[l - 1]);
                    }
                }
                assert forall|i: int| 0 <= i < j + 1 && reports@[i].ship_mmsi == ship implies order@.contains(i as usize) by {
                    if i == j {
                        assert(order@[p as int] == j);
                    } else {
                        assert(before.contains(i as usize));
                        let m = choose|m: int| 0 <= m < before.len() && before[m] == i as usize;
                        if m < p {
                            assert(order@[m] == i as usize);
                        } else {
                            assert(order@[m + 1] == i as usize);
                        }
                    }
                }
            }
        }
        j = j + 1;
    }
    order
}

/// The position of a ship's latest report: the last stored one among those of the latest
/// time, or none where the ship has no report.
pub fn latest_ship_location_report(reports: &[ReportStamp], ship: u64) -> (r: Option<usize>)
    ensures
        match r {
            Some(i) => i < reports@.len() && reports@[i as int].ship_mmsi == ship && forall|j: int|
                0 <= j < reports@.len() && reports@[j].ship_mmsi == ship ==> earlier_report(reports@, j, i as int) || j == i,
            None => forall|j: int| 0 <= j < reports@.len() ==> reports@[j].ship_mmsi != ship,
        },
{
    let mut best: Option<usize> = None;
    let mut j: usize = 0;
    while j < reports.len()
        invariant
            j <= reports@.len(),
            match best {
                Some(i) => i < j && reports@[i as int].ship_mmsi == ship && forall|m: int|
                    0 <= m < j && reports@[m].ship_mmsi == ship ==> earlier_report(reports@, m, i as int) || m == i,
                None => forall|m: int| 0 <= m < j ==> reports@[m].ship_mmsi != ship,
            },
        decreases reports.len() - j,
    {
        if reports[j].ship_mmsi == ship {
            let later = match best {
                Some(i) => reports[j].timestamp >= reports[i].timestamp,
                None => true,
            };
            let ghost old_best = best;
            if later {
                best = Some(j);
            }
            proof {
                if let Some(i) = old_best {
                    assert forall|m: int| 0 <= m < j + 1 && reports@[m].ship_mmsi == ship implies earlier_report(
                        reports@,
                        m,
                        best->0 as int,
                    ) || m == best->0 by {
                        if m < j {
                            assert(earlier_report(reports@, m, i as int) || m == i);
                        }
                    }
                }
            }
        }
        j = j + 1;
    }
    best
}

/// How a ship's projected position is estimated from its window.
#[derive(Clone, Copy, Debug, PartialEq, Eq, Structural)]
pub enum EstimateMethod {
    /// Between the reports before and after the query time.
    Interpolate,
    /// Forward from the report before, by its course and speed.
    DeadReckon,
    /// At the report before.
    Hold,
}

/// The estimate for a window: interpolation where a report after the query time is known,
/// else dead reckoning where the report before has both a course and a speed, else holding
/// the report before.
pub open spec fn estimate_method_of(has_after: bool, course_known: bool, speed_known: bool) -> EstimateMethod {
    if has_after {
        EstimateMethod::Interpolate
    } else if course_known && speed_known {
        EstimateMethod::DeadReckon
    } else {
        EstimateMethod::Hold
    }
}

/// Chooses how to estimate the position for `window`, given whether the report before the
/// query time has a course over ground and a speed over ground.
pub fn estimate_method(window: &ShipWindow, course_known: bool, speed_known: bool) -> (m: EstimateMethod)
    ensures
        m == estimate_method_of(window.after is Some, course_known, speed_known),
        window.after is Some ==> m == EstimateMethod::Interpolate,
        m == EstimateMethod::DeadReckon <==> window.after is None && course_known && speed_known,
{
    if window.after.is_some() {
        EstimateMethod::Interpolate
    } else if course_known && speed_known {
        EstimateMethod::DeadReckon
    } else {
        EstimateMethod::Hold
    }
}

/// Law: a ship with a report after the query time is always interpolated, whatever course
/// and speed its report before carries; dead reckoning is chosen exactly when there is no
/// report after and the report before has both a course and a speed; the position is held
/// at the report before exactly when there is no report after and either is missing.
pub proof fn law_estimate_method_choice(has_after: bool, course_known: bool, speed_known: bool)
    ensures
        has_after ==> estimate_method_of(has_after, course_known, speed_known) == EstimateMethod::Interpolate,
        estimate_method_of(has_after, course_known, speed_known) == EstimateMethod::DeadReckon <==> !has_after
            && course_known && speed_known,
        estimate_method_of(has_after, course_known, speed_known) == EstimateMethod::Hold <==> !has_after && !(
        course_known && speed_known),
{
}

/// The MMSIs of a plan's windows, in order.
pub open spec fn window_ships(windows: Seq<ShipWindow>) -> Seq<u64> {
    windows.map_values(|w: ShipWindow| w.ship_mmsi)
}

proof fn lemma_strictly_sorted_unique(a: Seq<u64>, b: Seq<u64>)
    requires
        forall|k: int, l: int| 0 <= k < l < a.len() ==> a[k] < a[l],
        forall|k: int, l: int| 0 <= k < l < b.len() ==> b[k] < b[l],
        forall|x: u64| a.contains(x) <==> b.contains(x),
    ensures
        a == b,
    decreases a.len(),
{
    if a.len() == 0 {
        if b.len() > 0 {
            assert(b.contains(b[0]));
        }
        assert(a =~= b);
    } else {
        assert(a.contains(a[0]));
        if b.len() == 0 {
            assert(false);
        }
        assert(b.contains(b[0]));
        let ja = choose|j: int| 0 <= j < b.len() && b[j] == a[0];
        let jb = choose|j: int| 0 <= j < a.len() && a[j] == b[0];
        assert(b[0] <= b[ja]);
        assert(a[0] <= a[jb]);
        assert(a[0] == b[0]);
        let a2 = a.drop_first();
        let b2 = b.drop_first();
        assert forall|x: u64| a2.contains(x) <==> b2.contains(x) by {
            if a2.contains(x) {
                let i = choose|i: int| 0 <= i < a2.len() && a2[i] == x;
                assert(a[i + 1] == x);
                assert(a.contains(x));
                let j = choose|j: int| 0 <= j < b.len() && b[j] == x;
                assert(a[0] < a[i + 1]);
                assert(j != 0);
                assert(b2[j - 1] == x);
            }
            if b2.contains(x) {
                let j = choose|j: int| 0 <= j < b2.len() && b2[j] == x;
                assert(b[j + 1] == x);
                assert(b.contains(x));
                let i = choose|i: int| 0 <= i < a.len() && a[i] == x;
                assert(b[0] < b[j + 1]);
                assert(i != 0);
                assert(a2[i - 1] == x);
            }
        }
        lemma_strictly_sorted_unique(a2, b2);
        assert(a.len() == b.len());
        assert forall|i: int| 0 <= i < a.len() implies a[i] == b[i] by {
            if i > 0 {
                assert(a[i] == a2[i - 1]);
                assert(b[i] == b2[i - 1]);
            }
        }
        assert(a =~= b);
    }
}

/// Law: a repeated projection request over the same reports, at the same time and window,
/// gives the same windows as the first, and where the stored projections are the first
/// request's ships it deletes none of them.
pub proof fn law_repeated_projection_stable(
    reports: Seq<ReportStamp>,
    query: i64,
    start: int,
    end: int,
    first: Seq<ShipWindow>,
    second: Seq<ShipWindow>,
)
    requires
        windows_match(first, reports, query, start, end),
        windows_match(second, reports, query, start, end),
    ensures
        second == first,
        stale_of(window_ships(first), second).len() == 0,
{
    let a = window_ships(first);
    let b = window_ships(second);
    assert forall|x: u64| a.contains(x) <==> b.contains(x) by {
        if a.contains(x) {
            let k = choose|k: int| 0 <= k < a.len() && a[k] == x;
            assert(first[k].ship_mmsi == x);
            assert(projected(reports, x, query, start, end));
            let l = choose|l: int| 0 <= l < second.len() && #[trigger] second[l].ship_mmsi == x;
            assert(b[l] == x);
        }
        if b.contains(x) {
            let l = choose|l: int| 0 <= l < b.len() && b[l] == x;
            assert(second[l].ship_mmsi == x);
            assert(projected(reports, x, query, start, end));
            let k = choose|k: int| 0 <= k < first.len() && #[trigger] first[k].ship_mmsi == x;
            assert(a[k] == x);
        }
    }
    assert forall|k: int, l: int| 0 <= k < l < a.len() implies a[k] < a[l] by {
        assert(first[k].ship_mmsi < first[l].ship_mmsi);
    }
    assert forall|k: int, l: int| 0 <= k < l < b.len() implies b[k] < b[l] by {
        assert(second[k].ship_mmsi < second[l].ship_mmsi);
    }
    lemma_strictly_sorted_unique(a, b);
    assert(first.len() == second.len());
    assert forall|k: int| 0 <= k < first.len() implies second[k] == first[k] by {
        assert(a[k] == b[k]);
        let w1 = first[k];
        let w2 = second[k];
        assert(before_scan(reports, reports.len() as int, w1.ship_mmsi, query, start, end) == Some(w1.before as int));
        assert(before_scan(reports, reports.len() as int, w2.ship_mmsi, query, start, end) == Some(w2.before as int));
        assert(opt_int(w1.after) == opt_int(w2.after));
    }
    assert(second =~= first);
    let pred = |m: u64| !(exists|k: int| 0 <= k < second.len() && second[k].ship_mmsi == m);
    assert forall|i: int| 0 <= i < a.len() implies !pred(#[trigger] a[i]) by {
        assert(second[i].ship_mmsi == a[i]);
    }
    assert(a.all(|x: u64| !pred(x)));
    a.lemma_all_neg_filter_empty(pred);
}

} // verus!
