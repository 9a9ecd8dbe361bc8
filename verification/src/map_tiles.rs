//! The viewer's map tiles: which tiles surround the camera focus, where each tile is cached
//! and fetched from, and how the load radius follows the keyboard.
use vstd::prelude::*;

use crate::routes::{law_tile_route_roundtrip, tile_request_path, tile_route_of, TileRoute};
use crate::text::{
    chars_of, decimal, push_decimal, push_signed_decimal, push_str, signed_decimal,
    string_from_chars, trim_end_char, trim_end_char_exec,
};

verus! {

/// A map tile: zoom level and tile column and row.
#[derive(Clone, Copy, Debug, PartialEq, Eq, Hash, Structural)]
pub struct TileKey {
    pub zoom_level: u32,
    pub x: i32,
    pub y: i32,
}

/// The tiles within `radius` columns and rows of the centre tile, as a square; none where
/// the radius is negative. Columns are outermost.
pub fn desired_tiles_for_focus(zoom_level: u32, center_x: i32, center_y: i32, tile_load_radius: i32) -> (r: Vec<TileKey>)
    requires
        i32::MIN <= center_x - tile_load_radius && center_x + tile_load_radius <= i32::MAX,
        i32::MIN <= center_y - tile_load_radius && center_y + tile_load_radius <= i32::MAX,
    ensures
        tile_load_radius < 0 ==> r@.len() == 0,
        tile_load_radius >= 0 ==> {
            let n = 2 * tile_load_radius + 1;
            &&& r@.len() == n * n
            &&& forall|k: int|
                0 <= k < r@.len() ==> #[trigger] r@[k] == (TileKey {
                    zoom_level: zoom_level,
                    x: (center_x - tile_load_radius + k / n) as i32,
                    y: (center_y - tile_load_radius + k % n) as i32,
                })
        },
        forall|x: i32, y: i32|
            center_x - tile_load_radius <= x <= center_x + tile_load_radius && center_y
                - tile_load_radius <= y <= center_y + tile_load_radius ==> #[trigger] r@.contains(
                TileKey { zoom_level: zoom_level, x: x, y: y },
            ),
{
    let mut desired: Vec<TileKey> = Vec::new();
    if tile_load_radius < 0 {
        return desired;
    }
    let ghost n: int = 2 * tile_load_radius + 1;
    let x0 = center_x - tile_load_radius;
    let x1 = center_x + tile_load_radius;
    let y0 = center_y - tile_load_radius;
    let y1 = center_y + tile_load_radius;
    let mut x: i64 = x0 as i64;
    while x <= x1 as i64
        invariant
            x0 <= x <= x1 + 1,
            x0 == center_x - tile_load_radius,
            x1 == center_x + tile_load_radius,
            y0 == center_y - tile_load_radius,
            y1 == center_y + tile_load_radius,
            n == 2 * tile_load_radius + 1,
            tile_load_radius >= 0,
            desired@.len() == (x - x0) * n,
            forall|k: int|
                0 <= k < desired@.len() ==> #[trigger] desired@[k] == (TileKey {
                    zoom_level: zoom_level,
                    x: (center_x - tile_load_radius + k / n) as i32,
                    y: (center_y - tile_load_radius + k % n) as i32,
                }),
        decreases x1 as i64 + 1 - x,
    {
        let mut y: i64 = y0 as i64;
        while y <= y1 as i64
            invariant
                x0 <= x <= x1,
                y0 <= y <= y1 + 1,
                x0 == center_x - tile_load_radius,
                y0 == center_y - tile_load_radius,
                y1 == center_y + tile_load_radius,
                n == 2 * tile_load_radius + 1,
                desired@.len() == (x - x0) * n + (y - y0),
                forall|k: int|
                    0 <= k < desired@.len() ==> #[trigger] desired@[k] == (TileKey {
                        zoom_level: zoom_level,
                        x: (center_x - tile_load_radius + k / n) as i32,
                        y: (center_y - tile_load_radius + k % n) as i32,
                    }),
            decreases y1 as i64 + 1 - y,
        {
            let ghost k = desired@.len() as int;
            proof {
                vstd::arithmetic::div_mod::lemma_fundamental_div_mod_converse(k, n, x - x0, y - y0);
            }
            desired.push(TileKey { zoom_level, x: x as i32, y: y as i32 });
            y = y + 1;
        }
        proof {
            assert((x - x0) * n + n == (x + 1 - x0) * n) by (nonlinear_arith);
        }
        x = x + 1;
    }
    proof {
        assert((x1 + 1 - x0) * n == n * n) by (nonlinear_arith)
            requires
                x1 + 1 - x0 == n,
        ;
    }
    assert forall|tx: i32, ty: i32|
        center_x - tile_load_radius <= tx <= center_x + tile_load_radius && center_y - tile_load_radius
            <= ty <= center_y + tile_load_radius implies #[trigger] desired@.contains(
        TileKey { zoom_level: zoom_level, x: tx, y: ty },
    ) by {
        let k = (tx - x0) * n + (ty - y0);
        vstd::arithmetic::div_mod::lemma_fundamental_div_mod_converse(k, n, tx - x0, ty - y0);
        assert(0 <= k < n * n) by (nonlinear_arith)
            requires
                0 <= tx - x0 < n,
                0 <= ty - y0 < n,
                k == (tx - x0) * n + (ty - y0),
        ;
        assert(desired@[k] == TileKey { zoom_level: zoom_level, x: tx, y: ty });
    }
    desired
}

/// The cache path `<zoom>/<x>_<y>.glb` of a tile.
pub open spec fn tile_cache_path_of(key: TileKey) -> Seq<char> {
    decimal(key.zoom_level as nat) + "/"@ + signed_decimal(key.x as int) + "_"@ + signed_decimal(key.y as int)
        + ".glb"@
}

fn push_cache_path(out: &mut Vec<char>, key: TileKey)
    ensures
        final(out)@ == old(out)@ + tile_cache_path_of(key),
{
    push_decimal(out, key.zoom_level as u64);
    push_str(out, "/");
    push_signed_decimal(out, key.x as i64);
    push_str(out, "_");
    push_signed_decimal(out, key.y as i64);
    push_str(out, ".glb");
    assert(out@ =~= old(out)@ + tile_cache_path_of(key));
}

/// The path of a tile below the tile cache root.
pub fn tile_cache_relative_path(key: TileKey) -> (r: String)
    ensures
        r@ == tile_cache_path_of(key),
{
    let mut out: Vec<char> = Vec::new();
    push_cache_path(&mut out, key);
    assert(out@ =~= tile_cache_path_of(key));
    string_from_chars(out.as_slice())
}

/// The asset path of a cached tile, in the tile cache asset source.
pub fn tile_asset_path(key: TileKey) -> (r: String)
    ensures
        r@ == "tile_cache://"@ + tile_cache_path_of(key),
{
    let mut out: Vec<char> = Vec::new();
    push_str(&mut out, "tile_cache://");
    push_cache_path(&mut out, key);
    string_from_chars(out.as_slice())
}

/// The URL `<server>/data/<zoom>/<x>/<y>.glb` a tile is fetched from, dropping trailing
/// slashes of the server URL.
pub open spec fn tile_request_url_of(server_uri: Seq<char>, key: TileKey) -> Seq<char> {
    trim_end_char(server_uri, '/') + "/data/"@ + decimal(key.zoom_level as nat) + "/"@ + signed_decimal(key.x as int)
        + "/"@ + signed_decimal(key.y as int) + ".glb"@
}

/// Builds the URL a tile is fetched from.
pub fn tile_request_url(server_uri: &str, key: TileKey) -> (r: String)
    ensures
        r@ == tile_request_url_of(server_uri@, key),
{
    let s = chars_of(server_uri);
    let mut out = trim_end_char_exec(s.as_slice(), '/');
    push_str(&mut out, "/data/");
    push_decimal(&mut out, key.zoom_level as u64);
    push_str(&mut out, "/");
    push_signed_decimal(&mut out, key.x as i64);
    push_str(&mut out, "/");
    push_signed_decimal(&mut out, key.y as i64);
    push_str(&mut out, ".glb");
    assert(out@ =~= tile_request_url_of(server_uri@, key));
    string_from_chars(out.as_slice())
}

/// The server route of a tile with a zoom level, column and row that the tile server accepts.
pub open spec fn served_route(key: TileKey) -> TileRoute {
    TileRoute { zoom: key.zoom_level as u8, x: key.x as u32, y: key.y as u32 }
}

/// Law: the URL the viewer fetches a tile from is the server address followed by the path
/// under which the tile server serves that same tile.
pub proof fn law_request_url_is_served_path(server_uri: Seq<char>, key: TileKey)
    requires
        key.zoom_level <= u8::MAX,
        0 <= key.x,
        0 <= key.y,
    ensures
        tile_request_url_of(server_uri, key) == trim_end_char(server_uri, '/') + tile_request_path(
            served_route(key),
        ),
        tile_route_of(tile_request_path(served_route(key))) == Some(served_route(key)),
{
    reveal_strlit("/data/");
    reveal_strlit("/data");
    reveal_strlit("/");
    let route = served_route(key);
    assert(route.zoom as nat == key.zoom_level as nat);
    assert(route.x as nat == key.x as int);
    assert(route.y as nat == key.y as int);
    assert(signed_decimal(key.x as int) == decimal(route.x as nat));
    assert(signed_decimal(key.y as int) == decimal(route.y as nat));
    assert(tile_request_url_of(server_uri, key) =~= trim_end_char(server_uri, '/') + tile_request_path(route));
    law_tile_route_roundtrip(route, Seq::empty());
}

/// The load radius after a frame's key presses: one less for `[`, one more for `]`,
/// saturating at the ends of the range.
pub open spec fn next_radius_of(current: i32, decrease: bool, increase: bool) -> i32 {
    let lowered = if decrease && current > i32::MIN { (current - 1) as i32 } else { current };
    if increase && lowered < i32::MAX { (lowered + 1) as i32 } else { lowered }
}

/// Applies a frame's key presses to the tile load radius.
pub fn next_tile_load_radius(current: i32, decrease: bool, increase: bool) -> (r: i32)
    ensures
        r == next_radius_of(current, decrease, increase),
{
    let mut next = current;
    if decrease && next > i32::MIN {
        next = next - 1;
    }
    if increase && next < i32::MAX {
        next = next + 1;
    }
    next
}

} // verus!
