use harbor::map_tiles::{
    desired_tiles_for_focus, next_tile_load_radius, tile_asset_path, tile_cache_relative_path, tile_request_url,
    TileKey,
};
use harbor::routes::{parse_tile_route, TileRoute};

const TILE_ZOOM_LEVEL: u32 = 14;
const TILE_ANCHOR_LATITUDE: f64 = 51.90189;
const TILE_ANCHOR_LONGITUDE: f64 = 4.49171;
const DEFAULT_TILE_LOAD_RADIUS: i32 = 5;

fn lat_lon_to_tile(latitude: f64, longitude: f64, zoom_level: u32) -> (f64, f64) {
    let tiles_per_axis = 2f64.powi(zoom_level as i32);
    let lat_radians = latitude.to_radians();
    let x = (longitude + 180.0) / 360.0 * tiles_per_axis;
    let y = (1.0 - ((lat_radians.tan() + 1.0 / lat_radians.cos()).ln() / std::f64::consts::PI)) * 0.5
        * tiles_per_axis;
    (x, y)
}

fn key(zoom_level: u32, x: i32, y: i32) -> TileKey {
    TileKey { zoom_level, x, y }
}

#[test]
fn builds_tile_request_url() {
    assert_eq!(
        tile_request_url("http://localhost:8081", key(14, 8396, 5421)),
        "http://localhost:8081/data/14/8396/5421.glb"
    );
}

#[test]
fn builds_cache_relative_path() {
    assert_eq!(tile_cache_relative_path(key(14, 8396, 5421)), "14/8396_5421.glb");
}

#[test]
fn computes_desired_tiles_around_focus() {
    let (anchor_x, anchor_y) = lat_lon_to_tile(TILE_ANCHOR_LATITUDE, TILE_ANCHOR_LONGITUDE, TILE_ZOOM_LEVEL);
    let center_x = anchor_x.floor() as i32;
    let center_y = anchor_y.floor() as i32;

    let desired = desired_tiles_for_focus(TILE_ZOOM_LEVEL, center_x, center_y, DEFAULT_TILE_LOAD_RADIUS);

    assert!(!desired.is_empty());
    assert!(desired.contains(&key(TILE_ZOOM_LEVEL, center_x, center_y)));
}

#[test]
fn desired_tiles_cover_the_whole_square() {
    let desired = desired_tiles_for_focus(14, 100, -7, 2);
    assert_eq!(desired.len(), 25);
    assert_eq!(desired[0], key(14, 98, -9));
    assert_eq!(desired[1], key(14, 98, -8));
    assert_eq!(desired[5], key(14, 99, -9));
    assert_eq!(desired[24], key(14, 102, -5));
    for x in 98..=102 {
        for y in -9..=-5 {
            assert!(desired.contains(&key(14, x, y)));
        }
    }
    assert!(!desired.contains(&key(14, 103, -7)));
}

#[test]
fn negative_radius_wants_no_tiles() {
    assert!(desired_tiles_for_focus(14, 5, 5, -1).is_empty());
    assert_eq!(desired_tiles_for_focus(14, 5, 5, 0), vec![key(14, 5, 5)]);
}

#[test]
fn request_url_drops_trailing_slashes_and_keeps_signs() {
    assert_eq!(tile_request_url("http://tiles:9000//", key(3, -1, 2)), "http://tiles:9000/data/3/-1/2.glb");
}

#[test]
fn viewer_request_path_is_what_the_server_serves() {
    let url = tile_request_url("http://localhost:8081/", key(14, 8396, 5421));
    let path = url.strip_prefix("http://localhost:8081").unwrap();
    assert_eq!(parse_tile_route(path), Some(TileRoute { zoom: 14, x: 8396, y: 5421 }));
}

#[test]
fn asset_path_names_the_cache_source() {
    assert_eq!(tile_asset_path(key(14, 8396, 5421)), "tile_cache://14/8396_5421.glb");
    assert_eq!(tile_cache_relative_path(key(2, -3, -4)), "2/-3_-4.glb");
}

#[test]
fn load_radius_follows_brackets() {
    assert_eq!(next_tile_load_radius(5, true, false), 4);
    assert_eq!(next_tile_load_radius(5, false, true), 6);
    assert_eq!(next_tile_load_radius(5, true, true), 5);
    assert_eq!(next_tile_load_radius(5, false, false), 5);
    assert_eq!(next_tile_load_radius(i32::MIN, true, false), i32::MIN);
    assert_eq!(next_tile_load_radius(i32::MAX, false, true), i32::MAX);
}
