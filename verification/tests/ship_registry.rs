use harbor::ship_class::{format_ship_type, ReportedShipType, ShipClass};
use harbor::ship_types::MajorAisShipType;
use harbor::ships::{
    add_ship, backfill_major_ship_types, identity_connected, identity_disconnected, init, merge_ship,
    merge_ship_static_data, normalize_eta_day, normalize_eta_hour, normalize_eta_minute, normalize_eta_month,
    normalize_imo_number, normalize_optional_string, normalize_static_update, ships_equal, upsert_ship_static_data,
    Ship, ShipWrite, StaticReport,
};

fn named_ship(mmsi: u64, name: &str, call_sign: Option<&str>) -> Ship {
    Ship {
        mmsi,
        name: name.to_string(),
        call_sign: call_sign.map(|s| s.to_string()),
        destination: None,
        dimension_a: None,
        dimension_b: None,
        dimension_c: None,
        dimension_d: None,
        dte: None,
        eta_month: None,
        eta_day: None,
        eta_hour: None,
        eta_minute: None,
        fix_type: None,
        imo_number: None,
        maximum_static_draught: None,
        ship_type: None,
        ais_version: None,
        major_ship_type: None,
    }
}

fn report(name: &str, call_sign: &str, destination: &str, ship_type: u8) -> StaticReport {
    StaticReport {
        name: name.to_string(),
        call_sign: call_sign.to_string(),
        destination: destination.to_string(),
        dimension_a: 10,
        dimension_b: 20,
        dimension_c: 3,
        dimension_d: 4,
        dte: false,
        eta_month: 13,
        eta_day: 5,
        eta_hour: 24,
        eta_minute: 30,
        fix_type: 1,
        imo_number: 0,
        maximum_static_draught: 5.5f64.to_bits(),
        ship_type,
        ais_version: 2,
    }
}

#[test]
fn adding_a_new_ship_inserts_a_named_row() {
    let write = add_ship(None, "SINCFAL".to_string(), Some("PD1234".to_string()), 244740748);
    assert_eq!(write, ShipWrite::Insert(named_ship(244740748, "SINCFAL", Some("PD1234"))));
}

#[test]
fn adding_a_known_ship_keeps_its_name_when_the_new_one_is_blank() {
    let existing = named_ship(1, "POROS", Some("AB"));
    assert_eq!(add_ship(Some(&existing), "  ".to_string(), None, 1), ShipWrite::Unchanged);
    let write = add_ship(Some(&existing), "NEW NAME".to_string(), None, 1);
    assert_eq!(write, ShipWrite::Update(named_ship(1, "NEW NAME", Some("AB"))));
}

#[test]
fn adding_the_same_ship_twice_changes_nothing() {
    let first = add_ship(None, "A".to_string(), None, 7);
    let row = match first {
        ShipWrite::Insert(row) => row,
        other => panic!("expected insert, got {other:?}"),
    };
    assert_eq!(add_ship(Some(&row), "A".to_string(), None, 7), ShipWrite::Unchanged);
}

#[test]
fn merges_names_and_call_signs() {
    let existing = named_ship(3, "OLD", Some("CS"));
    let merged = merge_ship(&existing, "".to_string(), Some("NEW".to_string()));
    assert_eq!(merged.name, "OLD");
    assert_eq!(merged.call_sign, Some("NEW".to_string()));
    assert!(ships_equal(&existing, &existing));
    assert!(!ships_equal(&existing, &merged));
}

#[test]
fn normalizes_static_fields() {
    assert_eq!(normalize_optional_string("  PD1 ".to_string()), Some("PD1".to_string()));
    assert_eq!(normalize_optional_string(" \t".to_string()), None);
    assert_eq!(normalize_eta_month(0), None);
    assert_eq!(normalize_eta_month(12), Some(12));
    assert_eq!(normalize_eta_day(32), None);
    assert_eq!(normalize_eta_day(1), Some(1));
    assert_eq!(normalize_eta_hour(24), None);
    assert_eq!(normalize_eta_hour(23), Some(23));
    assert_eq!(normalize_eta_minute(60), None);
    assert_eq!(normalize_eta_minute(0), Some(0));
    assert_eq!(normalize_imo_number(0), None);
    assert_eq!(normalize_imo_number(9074729), Some(9074729));
    let update = normalize_static_update(report("X", " ", "ROTTERDAM ", 52));
    assert_eq!(update.call_sign, None);
    assert_eq!(update.destination, Some("ROTTERDAM".to_string()));
    assert_eq!(update.eta_month, None);
    assert_eq!(update.eta_hour, None);
    assert_eq!(update.eta_day, Some(5));
    assert_eq!(update.major_ship_type, Some(MajorAisShipType::SpecialCraft));
}

#[test]
fn static_data_for_a_new_ship_uses_the_mmsi_when_unnamed() {
    let write = upsert_ship_static_data(None, 244620651, report("  ", "CALL", "", 70));
    match write {
        ShipWrite::Insert(row) => {
            assert_eq!(row.name, "244620651");
            assert_eq!(row.call_sign, Some("CALL".to_string()));
            assert_eq!(row.destination, None);
            assert_eq!(row.major_ship_type, Some(MajorAisShipType::Cargo));
            assert_eq!(row.maximum_static_draught, Some(5.5f64.to_bits()));
        }
        other => panic!("expected insert, got {other:?}"),
    }
}

#[test]
fn static_data_keeps_known_fields_and_is_idempotent() {
    let mut existing = named_ship(9, "NAME", Some("CS"));
    existing.destination = Some("HAMBURG".to_string());
    existing.eta_month = Some(4);
    let write = upsert_ship_static_data(Some(&existing), 9, report("", "", "", 80));
    let row = match write {
        ShipWrite::Update(row) => row,
        other => panic!("expected update, got {other:?}"),
    };
    assert_eq!(row.name, "NAME");
    assert_eq!(row.call_sign, Some("CS".to_string()));
    assert_eq!(row.destination, Some("HAMBURG".to_string()));
    assert_eq!(row.eta_month, Some(4));
    assert_eq!(row.dimension_a, Some(10));
    assert_eq!(row.major_ship_type, Some(MajorAisShipType::Tanker));
    assert_eq!(upsert_ship_static_data(Some(&row), 9, report("", "", "", 80)), ShipWrite::Unchanged);
    let update = normalize_static_update(report("", "", "", 80));
    assert_eq!(merge_ship_static_data(Some(&row), 9, update), row);
}

#[test]
fn backfills_missing_major_types() {
    let mut typed = named_ship(1, "A", None);
    typed.ship_type = Some(36);
    let mut done = named_ship(2, "B", None);
    done.ship_type = Some(36);
    done.major_ship_type = Some(MajorAisShipType::FishingOrService);
    let untyped = named_ship(3, "C", None);
    let updates = backfill_major_ship_types(&[typed, done, untyped]);
    assert_eq!(updates.len(), 1);
    assert_eq!(updates[0].mmsi, 1);
    assert_eq!(updates[0].major_ship_type, Some(MajorAisShipType::FishingOrService));
}

#[test]
fn classifies_ship_type_codes() {
    assert_eq!(MajorAisShipType::from(0), MajorAisShipType::NotAvailable);
    assert_eq!(MajorAisShipType::from(19), MajorAisShipType::Reserved);
    assert_eq!(MajorAisShipType::from(20), MajorAisShipType::WingInGround);
    assert_eq!(MajorAisShipType::from(69), MajorAisShipType::Passenger);
    assert_eq!(MajorAisShipType::from(99), MajorAisShipType::Other);
    assert_eq!(MajorAisShipType::from(100), MajorAisShipType::Unknown(100));
    assert_eq!(MajorAisShipType::Tanker.describe(), "Tanker");
    assert_eq!(MajorAisShipType::Unknown(200).describe(), "Unknown AIS ship type code");
    assert_eq!(MajorAisShipType::WingInGround.short_description(), "WIG / SAR aircraft");
    assert_eq!(MajorAisShipType::Unknown(5).short_description(), "Unknown");
}

#[test]
fn picks_ship_models_and_labels() {
    assert_eq!(ShipClass::from_major_ais_type(Some(&ReportedShipType::TowingLarge)), ShipClass::Tug);
    assert_eq!(ShipClass::from_major_ais_type(Some(&ReportedShipType::PleasureCraft)), ShipClass::Speedboat);
    assert_eq!(ShipClass::from_major_ais_type(Some(&ReportedShipType::Cargo)), ShipClass::Default);
    assert_eq!(ShipClass::from_major_ais_type(None), ShipClass::Default);
    assert_eq!(ShipClass::Tug.scene_path(), "models/tugboat.glb");
    assert_eq!(ShipClass::Default.scene_path(), "models/container_ship.glb");
    assert_eq!(format_ship_type(Some(&ReportedShipType::SearchAndRescueVessel)), "Search and Rescue Vessel");
    assert_eq!(format_ship_type(Some(&ReportedShipType::Unknown(123))), "Unknown (123)");
    assert_eq!(format_ship_type(None), "-");
}

#[test]
fn connection_reducers_do_nothing() {
    init();
    identity_connected();
    identity_disconnected();
}

#[test]
fn draughts_compare_as_floats() {
    let mut left = named_ship(7, "A", None);
    let mut right = named_ship(7, "A", None);
    left.maximum_static_draught = Some(0.0f64.to_bits());
    right.maximum_static_draught = Some((-0.0f64).to_bits());
    assert!(ships_equal(&left, &right));
    right.maximum_static_draught = Some(0.5f64.to_bits());
    assert!(!ships_equal(&left, &right));
    left.maximum_static_draught = Some(f64::NAN.to_bits());
    right.maximum_static_draught = Some(f64::NAN.to_bits());
    assert!(!ships_equal(&left, &right));
    assert!(!ships_equal(&left, &left));
    left.maximum_static_draught = Some(f64::INFINITY.to_bits());
    assert!(ships_equal(&left, &left));
    assert_eq!(add_ship(Some(&right), "A".to_string(), None, 7), ShipWrite::Update(right.clone()));
}
