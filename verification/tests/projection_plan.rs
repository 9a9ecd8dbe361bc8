use harbor::projection::{
    estimate_method, newest_location_report_time, oldest_location_report_time, project_ship_locations,
    set_current_time, EstimateMethod, GlobalState, OldestLocationReportTime, ProjectionError, ReportStamp, ShipWindow,
};

fn stamp(ship_mmsi: u64, timestamp: i64) -> ReportStamp {
    ReportStamp { ship_mmsi, timestamp }
}

#[test]
fn refuses_bad_windows() {
    assert_eq!(project_ship_locations(0, 0, &[], &[]), Err(ProjectionError::NonPositiveWindow));
    assert_eq!(project_ship_locations(i64::MIN, 1, &[], &[]), Err(ProjectionError::WindowUnderflow));
    assert_eq!(project_ship_locations(i64::MAX - 1, 1, &[], &[]), Err(ProjectionError::WindowOverflow));
    assert_eq!(ProjectionError::NonPositiveWindow.message(), "visibility_window_micros must be greater than 0");
    assert_eq!(ProjectionError::WindowUnderflow.message(), "Projection window underflow");
}

#[test]
fn brackets_the_query_time_for_each_ship() {
    let reports = vec![
        stamp(2, 100),
        stamp(1, 90),
        stamp(1, 110),
        stamp(2, 120),
        stamp(1, 95),
        stamp(1, 95),
        stamp(3, 500),
        stamp(4, 130),
    ];
    let plan = project_ship_locations(100, 50, &reports, &[3, 1, 9]).expect("window is valid");
    assert_eq!(
        plan.windows,
        vec![
            ShipWindow { ship_mmsi: 1, before: 4, after: Some(2) },
            ShipWindow { ship_mmsi: 2, before: 0, after: Some(3) },
        ]
    );
    assert_eq!(plan.stale, vec![3, 9]);
}

#[test]
fn a_ship_without_earlier_reports_gets_no_projection() {
    let reports = vec![stamp(5, 150)];
    let plan = project_ship_locations(100, 100, &reports, &[5]).expect("window is valid");
    assert!(plan.windows.is_empty());
    assert_eq!(plan.stale, vec![5]);
}

#[test]
fn finds_oldest_and_newest_report_times() {
    let times = [30, -5, 10, 70, 10];
    assert_eq!(oldest_location_report_time(&times), Some(OldestLocationReportTime { timestamp: 10 }));
    assert_eq!(newest_location_report_time(&times), Some(OldestLocationReportTime { timestamp: 70 }));
    assert_eq!(oldest_location_report_time(&[-1]), None);
    assert_eq!(newest_location_report_time(&[]), None);
}

#[test]
fn checks_the_current_time_has_room() {
    assert_eq!(set_current_time(1_000), Ok(()));
    assert_eq!(set_current_time(i64::MAX - 59_999_999), Err("Timestamp overflow".to_string()));
    let state = GlobalState { id: 0, oldest: Some(1), newest: None };
    assert_eq!(state.oldest, Some(1));
}

#[test]
fn a_repeated_projection_keeps_its_windows_and_deletes_nothing() {
    let reports = vec![stamp(2, 100), stamp(1, 90), stamp(1, 110), stamp(2, 120), stamp(3, 500)];
    let first = project_ship_locations(100, 20, &reports, &[7, 2]).expect("valid window");
    assert_eq!(first.stale, vec![7]);
    let stored: Vec<u64> = first.windows.iter().map(|w| w.ship_mmsi).collect();
    let second = project_ship_locations(100, 20, &reports, &stored).expect("valid window");
    assert_eq!(second.windows, first.windows);
    assert!(second.stale.is_empty());
}

#[test]
fn chooses_the_estimate_method() {
    let between = ShipWindow { ship_mmsi: 1, before: 0, after: Some(1) };
    let open = ShipWindow { ship_mmsi: 1, before: 0, after: None };
    assert_eq!(estimate_method(&between, false, false), EstimateMethod::Interpolate);
    assert_eq!(estimate_method(&open, true, true), EstimateMethod::DeadReckon);
    assert_eq!(estimate_method(&open, true, false), EstimateMethod::Hold);
    assert_eq!(estimate_method(&open, false, true), EstimateMethod::Hold);
}
