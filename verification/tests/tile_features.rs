use harbor::geometry::{
    decode_feature_line_strings, decode_feature_polygons, decode_polygon_rings, read_point_delta, ring_twice_area,
    zigzag_decode, GeometryError,
};
use harbor::report::{decode_geometry_stats, format_counts, GeometryStats, LayerReport, TileReport};
use harbor::tile::{
    feature_tag_value, find_layer, layer_extent, matches_class_filter, polygon_feature_indices,
    select_transportation_features, Feature, GeomType, Layer, Tile, Value,
};

fn text_value(s: &str) -> Value {
    Value {
        string_value: Some(s.to_string()),
        float_value: None,
        double_value: None,
        int_value: None,
        uint_value: None,
        sint_value: None,
        bool_value: None,
    }
}

fn int_value(v: i64) -> Value {
    Value {
        string_value: None,
        float_value: None,
        double_value: None,
        int_value: Some(v),
        uint_value: None,
        sint_value: None,
        bool_value: None,
    }
}

fn feature(id: u64, tags: Vec<u32>, geom_type: i32, geometry: Vec<u32>) -> Feature {
    Feature { id: Some(id), tags, geom_type: Some(geom_type), geometry }
}

fn transportation_layer() -> Layer {
    Layer {
        name: "transportation".to_string(),
        features: vec![
            feature(1, vec![0, 0], 2, vec![9, 0, 0, 10, 20, 0]),
            feature(2, vec![0, 1], 2, vec![9, 0, 0, 10, 0, 20]),
        ],
        keys: vec!["class".to_string()],
        values: vec![text_value("ferry"), text_value("road")],
        extent: Some(4096),
        version: Some(2),
    }
}

// A square ring: MoveTo(0,0), LineTo(10,0),(10,10),(0,10), ClosePath.
fn square(x: u32) -> Vec<u32> {
    vec![9, x, 0, 26, 20, 0, 0, 20, 19, 0, 15]
}

#[test]
fn filters_transportation_by_class() {
    let layer = transportation_layer();
    let selection = select_transportation_features(&layer, Some("ferry"), None);
    assert_eq!(selection.counts.line_strings, 1);
    assert_eq!(selection.counts.skipped, 1);
}

#[test]
fn excludes_transportation_class() {
    let layer = transportation_layer();
    let selection = select_transportation_features(&layer, None, Some("ferry"));
    assert_eq!(selection.counts.line_strings, 1);
    assert_eq!(selection.counts.skipped, 1);
    assert_eq!(selection.features.len(), 1);
    assert_eq!(selection.features[0].0, 1);
}

#[test]
fn tag_values_and_class_filters() {
    let layer = transportation_layer();
    assert_eq!(feature_tag_value(&layer.features[0], &layer, "class"), Some("ferry"));
    assert_eq!(feature_tag_value(&layer.features[1], &layer, "class"), Some("road"));
    assert_eq!(feature_tag_value(&layer.features[0], &layer, "name"), None);
    assert!(matches_class_filter(&layer.features[0], &layer, Some("ferry"), None));
    assert!(!matches_class_filter(&layer.features[1], &layer, Some("ferry"), None));
    assert!(!matches_class_filter(&layer.features[0], &layer, None, Some("ferry")));
    assert!(matches_class_filter(&layer.features[0], &layer, None, None));
}

#[test]
fn finds_layers_and_extents() {
    let mut other = transportation_layer();
    other.name = "water".to_string();
    other.extent = None;
    let tile = Tile { layers: vec![transportation_layer(), other] };
    assert_eq!(find_layer(&tile, "water"), Some(1));
    assert_eq!(find_layer(&tile, "building"), None);
    assert_eq!(layer_extent(&tile, "transportation"), Some(4096));
    assert_eq!(layer_extent(&tile, "water"), Some(4096));
    // A missing layer falls back to the first extent any layer gives.
    assert_eq!(layer_extent(&tile, "building"), Some(4096));
    assert_eq!(layer_extent(&Tile { layers: vec![] }, "building"), None);
}

#[test]
fn picks_polygon_features() {
    let mut layer = transportation_layer();
    layer.features.push(feature(3, vec![], 3, square(0)));
    assert_eq!(polygon_feature_indices(&layer), vec![2]);
    assert_eq!(layer.features[2].geometry_type(), GeomType::Polygon);
}

#[test]
fn decodes_zigzag_parameters() {
    assert_eq!(zigzag_decode(0), 0);
    assert_eq!(zigzag_decode(1), -1);
    assert_eq!(zigzag_decode(2), 1);
    assert_eq!(zigzag_decode(3), -2);
    assert_eq!(zigzag_decode(u32::MAX), i32::MIN);
}

#[test]
fn reads_point_deltas() {
    let commands = [9, 4, 3];
    let mut cursor = 1;
    assert_eq!(read_point_delta(&commands, &mut cursor), Ok((2, -2)));
    assert_eq!(cursor, 3);
    assert_eq!(read_point_delta(&commands, &mut cursor), Err(GeometryError::TruncatedPointDelta));
}

#[test]
fn decodes_closed_square_ring() {
    let rings = decode_polygon_rings(&square(0)).expect("square should decode");
    assert_eq!(rings, vec![vec![(0, 0), (10, 0), (10, 10), (0, 10), (0, 0)]]);
    assert_eq!(ring_twice_area(&rings[0]), 200);
}

#[test]
fn refuses_broken_polygon_streams() {
    assert_eq!(decode_polygon_rings(&[9, 0, 0]), Err(GeometryError::MissingClosePath));
    assert_eq!(decode_polygon_rings(&[9, 0, 0, 10, 2, 2, 15]), Err(GeometryError::RingTooShort));
    assert_eq!(decode_polygon_rings(&[10, 2, 2]), Err(GeometryError::LineToBeforePolygonMoveTo));
    assert_eq!(decode_polygon_rings(&[17, 0, 0, 2, 2]), Err(GeometryError::MoveToCount(2)));
    assert_eq!(decode_polygon_rings(&[3]), Err(GeometryError::UnsupportedCommand(3)));
    assert_eq!(decode_polygon_rings(&[9, 0]), Err(GeometryError::TruncatedPointDelta));
    assert_eq!(
        GeometryError::MoveToCount(2).message(),
        "polygon MoveTo expected count=1, found 2"
    );
}

#[test]
fn groups_exterior_with_hole() {
    // Exterior counter-clockwise in tile space, hole the other way round.
    let mut commands = vec![9, 0, 0, 26, 40, 0, 0, 40, 39, 0, 15];
    commands.extend_from_slice(&[9, 10, 11, 26, 0, 20, 20, 0, 0, 19, 15]);
    let polygons = decode_feature_polygons(&commands).expect("polygon should decode");
    assert_eq!(polygons.len(), 1);
    assert_eq!(polygons[0].exterior.len(), 5);
    assert_eq!(polygons[0].interiors.len(), 1);
    assert_eq!(polygons[0].interiors[0].first(), polygons[0].interiors[0].last());
}

#[test]
fn decodes_line_strings() {
    let lines = decode_feature_line_strings(&[9, 0, 0, 18, 20, 0, 0, 20]).expect("line should decode");
    assert_eq!(lines, vec![vec![(0, 0), (10, 0), (10, 10)]]);
}

#[test]
fn counts_geometry_commands() {
    let stats = decode_geometry_stats(&square(0)).expect("stats should decode");
    assert_eq!(stats.vertices, 4);
    assert_eq!(stats.paths, 1);
    assert_eq!(stats.rings, 1);
    assert_eq!(decode_geometry_stats(&[4]), Err(GeometryError::UnsupportedCommand(4)));
    let mut total = GeometryStats::default();
    total.add_feature_type(GeomType::Polygon);
    total.add_assign(stats);
    total.add_assign(stats);
    assert_eq!(total.polygons, 1);
    assert_eq!(total.vertices, 8);
}

#[test]
fn formats_key_counts() {
    let counts = vec![("class".to_string(), 3), ("name".to_string(), 1)];
    assert_eq!(format_counts(&counts), "class=3, name=1");
    assert_eq!(format_counts(&[]), "");
}

#[test]
fn reports_layer_keys_and_warnings() {
    let layer = Layer {
        name: "roads".to_string(),
        features: vec![
            feature(1, vec![0, 0, 1, 1], 2, vec![9, 0, 0, 10, 20, 0]),
            feature(2, vec![1, 0, 0, 1, 5, 0], 2, vec![9, 0, 0, 10, 0, 20]),
            feature(3, vec![1, 9, 0], 3, vec![4]),
            feature(4, vec![2, 0], 1, vec![9, 2, 2]),
        ],
        keys: vec!["class".to_string(), "name".to_string(), "brunnel".to_string()],
        values: vec![text_value("road"), int_value(7)],
        extent: None,
        version: None,
    };
    assert!(LayerReport::counts_fit(&layer));
    let report = LayerReport::from_layer(&layer);
    assert_eq!(report.name, "roads");
    assert_eq!(report.version, 1);
    assert_eq!(report.extent, 4096);
    assert_eq!(report.features, 4);
    assert_eq!(report.geometry.lines, 2);
    assert_eq!(report.geometry.polygons, 1);
    assert_eq!(report.geometry.points, 1);
    assert_eq!(report.geometry.vertices, 5);
    assert_eq!(
        report.top_keys,
        vec![("class".to_string(), 2), ("name".to_string(), 2), ("brunnel".to_string(), 1)]
    );
    assert_eq!(
        report.decode_warnings,
        vec![
            "odd tag stream length (1)".to_string(),
            "tag key index out of range (1)".to_string(),
            "tag value index out of range (1)".to_string(),
            "unsupported geometry command 4 (1)".to_string(),
        ]
    );
    let tile = Tile { layers: vec![layer] };
    let tile_report = TileReport::from_tile(&tile);
    assert_eq!(tile_report.layers.len(), 1);
    assert_eq!(tile_report.layers[0].top_keys.len(), 3);
}

#[test]
fn reports_at_most_eight_keys() {
    let keys: Vec<String> = (0..10).map(|i| format!("k{i}")).collect();
    let mut tags = Vec::new();
    for i in 0..10u32 {
        for _ in 0..(i % 3 + 1) {
            tags.push(i);
            tags.push(0);
        }
    }
    let layer = Layer {
        name: "many".to_string(),
        features: vec![feature(1, tags, 1, vec![9, 0, 0])],
        keys,
        values: vec![text_value("x")],
        extent: Some(512),
        version: Some(2),
    };
    let report = LayerReport::from_layer(&layer);
    let names: Vec<&str> = report.top_keys.iter().map(|(k, _)| k.as_str()).collect();
    assert_eq!(names, vec!["k2", "k5", "k8", "k1", "k4", "k7", "k0", "k3"]);
    assert_eq!(report.top_keys[0].1, 3);
    assert_eq!(report.top_keys[7].1, 1);
    assert!(report.decode_warnings.is_empty());
    assert_eq!(report.extent, 512);
}
