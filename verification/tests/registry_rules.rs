use harbor::cli::usage_text;
use harbor::poi::{has_street_path, is_street_highway, is_town_place, street_label};
use harbor::projected_ships::plan_projected_ships;
use harbor::projection::{latest_ship_location_report, ship_location_reports, ReportStamp};
use harbor::ship_class::{demo_ship_name, ShipClass};
use harbor::ships::ships_to_add;

fn stamp(ship_mmsi: u64, timestamp: i64) -> ReportStamp {
    ReportStamp { ship_mmsi, timestamp }
}

#[test]
fn orders_a_ships_reports_by_time() {
    let reports = vec![stamp(1, 30), stamp(2, 5), stamp(1, 10), stamp(1, 30), stamp(1, 20)];
    assert_eq!(ship_location_reports(&reports, 1), vec![2, 4, 0, 3]);
    assert_eq!(ship_location_reports(&reports, 3), Vec::<usize>::new());
    assert_eq!(latest_ship_location_report(&reports, 1), Some(3));
    assert_eq!(latest_ship_location_report(&reports, 2), Some(1));
    assert_eq!(latest_ship_location_report(&reports, 9), None);
}

#[test]
fn names_demo_ships() {
    assert_eq!(demo_ship_name(ShipClass::Tug), "Tug Demo Ship");
    assert_eq!(demo_ship_name(ShipClass::DredgingOrUnderwaterOps), "Dredging Demo Ship");
}

#[test]
fn adds_only_missing_sample_ships() {
    let existing = vec!["Northwind".to_string(), "Other".to_string()];
    assert_eq!(ships_to_add(&existing), vec!["Wayfarer", "Evening Tide"]);
    assert_eq!(ships_to_add(&[]), vec!["Wayfarer", "Northwind", "Evening Tide"]);
}

#[test]
fn prints_usage_for_each_mode() {
    let text = usage_text("osm_pbf_processor");
    let lines: Vec<&str> = text.lines().collect();
    assert_eq!(lines.len(), 4);
    assert_eq!(lines[0], "Usage: osm_pbf_processor [--config <config.toml>] <tile.pbf>");
    assert_eq!(lines[2], "   or: osm_pbf_processor [--config <config.toml>] --server");
}

#[test]
fn picks_points_of_interest() {
    assert!(is_town_place("village"));
    assert!(!is_town_place("suburb"));
    assert!(is_street_highway("living_street"));
    assert!(is_street_highway("tertiary_link"));
    assert!(!is_street_highway("footway"));
    assert_eq!(street_label(Some("Main Street"), Some("N57")), Some("Main Street"));
    assert_eq!(street_label(None, Some("N57")), Some("N57"));
    assert_eq!(street_label(None, None), None);
    assert!(has_street_path(2));
    assert!(!has_street_path(1));
}

#[test]
fn keeps_projected_ship_entities_in_step() {
    // Entities 10 and 11 show ships 1 and 2; entity 12 shows ship 3 again after 13 did.
    let entities = vec![(10, 1), (11, 2), (13, 3), (12, 3)];
    let physical = vec![(20, 2), (21, 1), (22, 2)];
    let plan = plan_projected_ships(&[1, 4, 3], &entities, &physical);
    assert_eq!(plan.row_targets, vec![Some(10), None, Some(13)]);
    assert_eq!(plan.despawn_projected, vec![11]);
    assert_eq!(plan.despawn_physical, vec![20, 22]);
}
