use harbor::routes::{
    build_backend_url, default_backend, default_server_bind, is_import_poi_route, parse_tile_route, server_address,
    TileRoute, DEFAULT_SERVER_PORT,
};

#[test]
fn parses_tile_route() {
    assert_eq!(
        parse_tile_route("/data/14/8396/5421.glb"),
        Some(TileRoute { zoom: 14, x: 8396, y: 5421 })
    );
}

#[test]
fn parses_tile_route_with_query_string() {
    assert_eq!(
        parse_tile_route("/data/14/8396/5421.glb?cache=0"),
        Some(TileRoute { zoom: 14, x: 8396, y: 5421 })
    );
}

#[test]
fn rejects_invalid_tile_route() {
    assert_eq!(parse_tile_route("/data/14/8396/5421.pbf"), None);
    assert_eq!(parse_tile_route("/tiles/14/8396/5421.glb"), None);
    assert_eq!(parse_tile_route("/data/14/8396/not-a-number.glb"), None);
}

#[test]
fn builds_backend_url() {
    assert_eq!(
        build_backend_url("http://localhost:8080", TileRoute { zoom: 14, x: 8396, y: 5421 }),
        "http://localhost:8080/data/v3/14/8396/5421.pbf"
    );
}

#[test]
fn detects_import_poi_route() {
    assert!(is_import_poi_route("/import_poi"));
    assert!(is_import_poi_route("/import_poi?dry_run=1"));
    assert!(!is_import_poi_route("/data/14/8396/5421.glb"));
}

#[test]
fn server_defaults_and_listen_address() {
    assert_eq!(server_address(&default_server_bind(), DEFAULT_SERVER_PORT), "0.0.0.0:8081");
    assert_eq!(default_backend(), "http://localhost:8080");
    assert_eq!(server_address("127.0.0.1", 0), "127.0.0.1:0");
}
