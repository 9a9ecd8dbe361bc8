//! Request routing of the tile server: which requests are served, and the backend address
//! each tile request is forwarded to.
use vstd::prelude::*;

use crate::text::{
    before_char, before_char_exec, chars_of, decimal, ends_with, ends_with_exec, eq_str, parse_unsigned,
    parse_unsigned_spec, push_decimal, push_str, slice_chars, split_char, split_char_exec,
    string_from_chars, trim_end_char, trim_end_char_exec, lacks_char, lemma_before_first,
    lemma_decimal_lacks, lemma_lacks_concat, lemma_parse_decimal, lemma_split_first, lemma_split_none,
};

verus! {

/// A tile addressed by a server request path `/data/<zoom>/<x>/<y>.glb`.
#[derive(Clone, Copy, Debug, PartialEq, Eq, Structural)]
pub struct TileRoute {
    pub zoom: u8,
    pub x: u32,
    pub y: u32,
}

/// The tile that a request URL addresses, where it addresses one.
pub open spec fn tile_route_of(url: Seq<char>) -> Option<TileRoute> {
    let segments = split_char(before_char(url, '?'), '/');
    if segments.len() == 5 && segments[0].len() == 0 && segments[1] == "data"@
        && ends_with(segments[4], ".glb"@) {
        let y_text = segments[4].take(segments[4].len() - ".glb"@.len());
        match (
            parse_unsigned_spec(segments[2], u8::MAX as nat),
            parse_unsigned_spec(segments[3], u32::MAX as nat),
            parse_unsigned_spec(y_text, u32::MAX as nat),
        ) {
            (Some(zoom), Some(x), Some(y)) => Some(TileRoute { zoom: zoom as u8, x: x as u32, y: y as u32 }),
            _ => None,
        }
    } else {
        None
    }
}

/// Parses a request URL of the form `/data/<zoom>/<x>/<y>.glb`, ignoring any query string.
pub fn parse_tile_route(url: &str) -> (r: Option<TileRoute>)
    ensures
        r == tile_route_of(url@),
{
    let chars = chars_of(url);
    let path = before_char_exec(chars.as_slice(), '?');
    let segments = split_char_exec(path.as_slice(), '/');
    if segments.len() != 5 {
        return None;
    }
    if segments[0].len() != 0 || !eq_str(segments[1].as_slice(), "data") {
        return None;
    }
    let suffix = chars_of(".glb");
    if !ends_with_exec(segments[4].as_slice(), suffix.as_slice()) {
        return None;
    }
    let y_text = slice_chars(segments[4].as_slice(), 0, segments[4].len() - suffix.len());
    let zoom = parse_unsigned(segments[2].as_slice(), 255);
    let x = parse_unsigned(segments[3].as_slice(), 4294967295);
    let y = parse_unsigned(y_text.as_slice(), 4294967295);
    assert(y_text@ =~= segments@[4]@.take(segments@[4]@.len() - ".glb"@.len()));
    match (zoom, x, y) {
        (Some(zoom), Some(x), Some(y)) => Some(TileRoute { zoom: zoom as u8, x: x as u32, y: y as u32 }),
        _ => None,
    }
}

/// Appends `/<zoom>/<x>/<y>` to `out`.
fn push_tile_path(out: &mut Vec<char>, zoom: u64, x: u64, y: u64)
    ensures
        final(out)@ == old(out)@ + "/"@ + decimal(zoom as nat) + "/"@ + decimal(x as nat) + "/"@
            + decimal(y as nat),
{
    push_str(out, "/");
    push_decimal(out, zoom);
    push_str(out, "/");
    push_decimal(out, x);
    push_str(out, "/");
    push_decimal(out, y);
    assert(out@ =~= old(out)@ + "/"@ + decimal(zoom as nat) + "/"@ + decimal(x as nat) + "/"@
        + decimal(y as nat));
}

/// The characters of `/<zoom>/<x>/<y>`.
pub open spec fn tile_path(zoom: nat, x: nat, y: nat) -> Seq<char> {
    "/"@ + decimal(zoom) + "/"@ + decimal(x) + "/"@ + decimal(y)
}

/// The request path under which the server serves a tile: `/data/<zoom>/<x>/<y>.glb`.
pub open spec fn tile_request_path(route: TileRoute) -> Seq<char> {
    "/data"@ + tile_path(route.zoom as nat, route.x as nat, route.y as nat) + ".glb"@
}

/// Law: from the request path of a tile the server reads back that tile, and a query string
/// after the path changes nothing.
pub proof fn law_tile_route_roundtrip(route: TileRoute, query: Seq<char>)
    ensures
        tile_route_of(tile_request_path(route)) == Some(route),
        tile_route_of(tile_request_path(route) + "?"@ + query) == Some(route),
{
    reveal_strlit("/data");
    reveal_strlit("/");
    reveal_strlit(".glb");
    reveal_strlit("data");
    reveal_strlit("?");
    let z = route.zoom as nat;
    let x = route.x as nat;
    let y = route.y as nat;
    let dz = decimal(z);
    let dx = decimal(x);
    let dy = decimal(y);
    let glb = ".glb"@;
    let last = dy + glb;
    let path = tile_request_path(route);
    let empty = Seq::<char>::empty();
    let r3 = dx + seq!['/'] + last;
    let r2 = dz + seq!['/'] + r3;
    let r1 = "data"@ + seq!['/'] + r2;
    assert(path =~= empty + seq!['/'] + r1);
    lemma_decimal_lacks(z, '/');
    lemma_decimal_lacks(x, '/');
    lemma_decimal_lacks(y, '/');
    assert(lacks_char(glb, '/'));
    assert(lacks_char("data"@, '/'));
    lemma_lacks_concat(dy, glb, '/');
    lemma_split_first(empty, '/', r1);
    lemma_split_first("data"@, '/', r2);
    lemma_split_first(dz, '/', r3);
    lemma_split_first(dx, '/', last);
    lemma_split_none(last, '/');
    let segments = split_char(path, '/');
    assert(segments =~= seq![empty, "data"@, dz, dx, last]);
    assert(last.skip(last.len() - glb.len()) =~= glb);
    assert(last.take(last.len() - glb.len()) =~= dy);
    lemma_parse_decimal(z, u8::MAX as nat);
    lemma_parse_decimal(x, u32::MAX as nat);
    lemma_parse_decimal(y, u32::MAX as nat);
    // The path holds no `?`, so a query string after it is cut off again.
    lemma_decimal_lacks(z, '?');
    lemma_decimal_lacks(x, '?');
    lemma_decimal_lacks(y, '?');
    assert(lacks_char(glb, '?'));
    assert(lacks_char("data"@, '?'));
    assert(lacks_char(seq!['/'], '?'));
    lemma_lacks_concat(dy, glb, '?');
    lemma_lacks_concat(dx, seq!['/'], '?');
    lemma_lacks_concat(dx + seq!['/'], last, '?');
    lemma_lacks_concat(dz, seq!['/'], '?');
    lemma_lacks_concat(dz + seq!['/'], r3, '?');
    lemma_lacks_concat("data"@, seq!['/'], '?');
    lemma_lacks_concat("data"@ + seq!['/'], r2, '?');
    lemma_lacks_concat(seq!['/'], r1, '?');
    assert(path =~= seq!['/'] + r1);
    lemma_split_none(path, '?');
    lemma_before_first(path, '?', query);
    assert(path + "?"@ + query =~= path + seq!['?'] + query);
}

/// The backend URL that a tile request is forwarded to.
pub open spec fn backend_url_of(backend: Seq<char>, route: TileRoute) -> Seq<char> {
    trim_end_char(backend, '/') + "/data/v3"@ + tile_path(route.zoom as nat, route.x as nat, route.y as nat)
        + ".pbf"@
}

/// Builds `<backend>/data/v3/<zoom>/<x>/<y>.pbf`, dropping trailing slashes of `backend`.
pub fn build_backend_url(backend: &str, route: TileRoute) -> (r: String)
    ensures
        r@ == backend_url_of(backend@, route),
{
    let b = chars_of(backend);
    let mut out = trim_end_char_exec(b.as_slice(), '/');
    push_str(&mut out, "/data/v3");
    push_tile_path(&mut out, route.zoom as u64, route.x as u64, route.y as u64);
    push_str(&mut out, ".pbf");
    assert(out@ =~= backend_url_of(backend@, route));
    string_from_chars(out.as_slice())
}

/// Whether a request URL, ignoring any query string, is the POI import path.
pub open spec fn is_import_poi_route_of(url: Seq<char>) -> bool {
    before_char(url, '?') == "/import_poi"@
}

/// Whether `url` addresses the POI import endpoint.
pub fn is_import_poi_route(url: &str) -> (b: bool)
    ensures
        b == is_import_poi_route_of(url@),
{
    let chars = chars_of(url);
    let path = before_char_exec(chars.as_slice(), '?');
    eq_str(path.as_slice(), "/import_poi")
}

/// The HTTP request methods that the server tells apart.
#[derive(Clone, Copy, Debug, PartialEq, Eq, Structural)]
pub enum HttpMethod {
    Get,
    Post,
    Other,
}

/// What the server does with a request.
#[derive(Clone, Copy, Debug, PartialEq, Eq, Structural)]
pub enum RequestAction {
    /// Run the POI import and report its counts.
    ImportPoi,
    /// Answer 405.
    MethodNotAllowed,
    /// Answer 404.
    NotFound,
    /// Fetch the tile from the backend, convert it and answer with the GLB bytes.
    ServeTile(TileRoute),
}

/// The action for a request with the given method and URL.
pub open spec fn request_action_of(method: HttpMethod, url: Seq<char>) -> RequestAction {
    if is_import_poi_route_of(url) {
        if method == HttpMethod::Post {
            RequestAction::ImportPoi
        } else {
            RequestAction::MethodNotAllowed
        }
    } else if method != HttpMethod::Get {
        RequestAction::MethodNotAllowed
    } else {
        match tile_route_of(url) {
            Some(route) => RequestAction::ServeTile(route),
            None => RequestAction::NotFound,
        }
    }
}

/// Law: a GET request for the request path of a tile, with or without a query string, is
/// answered by serving that tile, which is fetched from the backend at
/// `<backend>/data/v3/<zoom>/<x>/<y>.pbf`; any other method is refused.
pub proof fn law_tile_request_served(route: TileRoute, query: Seq<char>, method: HttpMethod)
    ensures
        request_action_of(HttpMethod::Get, tile_request_path(route)) == RequestAction::ServeTile(route),
        request_action_of(HttpMethod::Get, tile_request_path(route) + "?"@ + query) == RequestAction::ServeTile(
            route,
        ),
        method != HttpMethod::Get ==> request_action_of(method, tile_request_path(route))
            == RequestAction::MethodNotAllowed,
{
    reveal_strlit("/import_poi");
    reveal_strlit("/data");
    reveal_strlit("?");
    law_tile_route_roundtrip(route, query);
    let path = tile_request_path(route);
    assert(path[1] == 'd');
    assert("/import_poi"@[1] == 'i');
    // The path holds no `?`, so both URLs have the path itself before any query.
    lemma_path_before_query(route, query);
    assert(before_char(path, '?') != "/import_poi"@);
}

proof fn lemma_path_before_query(route: TileRoute, query: Seq<char>)
    ensures
        before_char(tile_request_path(route), '?') == tile_request_path(route),
        before_char(tile_request_path(route) + "?"@ + query, '?') == tile_request_path(route),
{
    reveal_strlit("/data");
    reveal_strlit("/");
    reveal_strlit(".glb");
    reveal_strlit("?");
    let z = route.zoom as nat;
    let x = route.x as nat;
    let y = route.y as nat;
    let path = tile_request_path(route);
    lemma_decimal_lacks(z, '?');
    lemma_decimal_lacks(x, '?');
    lemma_decimal_lacks(y, '?');
    assert(lacks_char("/data"@, '?'));
    assert(lacks_char("/"@, '?'));
    assert(lacks_char(".glb"@, '?'));
    lemma_lacks_concat("/data"@, "/"@, '?');
    lemma_lacks_concat("/data"@ + "/"@, decimal(z), '?');
    lemma_lacks_concat("/data"@ + "/"@ + decimal(z), "/"@, '?');
    lemma_lacks_concat("/data"@ + "/"@ + decimal(z) + "/"@, decimal(x), '?');
    lemma_lacks_concat("/data"@ + "/"@ + decimal(z) + "/"@ + decimal(x), "/"@, '?');
    lemma_lacks_concat("/data"@ + "/"@ + decimal(z) + "/"@ + decimal(x) + "/"@, decimal(y), '?');
    lemma_lacks_concat("/data"@ + "/"@ + decimal(z) + "/"@ + decimal(x) + "/"@ + decimal(y), ".glb"@, '?');
    assert(path =~= "/data"@ + "/"@ + decimal(z) + "/"@ + decimal(x) + "/"@ + decimal(y) + ".glb"@);
    lemma_split_none(path, '?');
    lemma_before_first(path, '?', query);
    assert(path + "?"@ + query =~= path + seq!['?'] + query);
}

/// Decides how the server answers a request.
pub fn route_request(method: HttpMethod, url: &str) -> (a: RequestAction)
    ensures
        a == request_action_of(method, url@),
{
    if is_import_poi_route(url) {
        if method == HttpMethod::Post {
            RequestAction::ImportPoi
        } else {
            RequestAction::MethodNotAllowed
        }
    } else if method != HttpMethod::Get {
        RequestAction::MethodNotAllowed
    } else {
        match parse_tile_route(url) {
            Some(route) => RequestAction::ServeTile(route),
            None => RequestAction::NotFound,
        }
    }
}

/// The body of the answer to a completed POI import.
pub fn poi_import_summary(towns: usize, streets: usize) -> (r: String)
    ensures
        r@ == "imported poi data: towns="@ + decimal(towns as nat) + " streets="@ + decimal(
            streets as nat,
        ),
{
    let mut out: Vec<char> = Vec::new();
    push_str(&mut out, "imported poi data: towns=");
    push_decimal(&mut out, towns as u64);
    push_str(&mut out, " streets=");
    push_decimal(&mut out, streets as u64);
    assert(out@ =~= "imported poi data: towns="@ + decimal(towns as nat) + " streets="@ + decimal(
        streets as nat,
    ));
    string_from_chars(out.as_slice())
}

/// The port the tile server listens on unless configured otherwise.
pub const DEFAULT_SERVER_PORT: u16 = 8081;

/// The address the tile server binds to unless configured otherwise: every interface.
pub fn default_server_bind() -> (r: String)
    ensures
        r@ == "0.0.0.0"@,
{
    let c = chars_of("0.0.0.0");
    string_from_chars(c.as_slice())
}

/// The backend the tile server forwards to unless configured otherwise.
pub fn default_backend() -> (r: String)
    ensures
        r@ == "http://localhost:8080"@,
{
    let c = chars_of("http://localhost:8080");
    string_from_chars(c.as_slice())
}

/// The socket address the tile server listens on: `<bind>:<port>`.
pub fn server_address(bind: &str, port: u16) -> (r: String)
    ensures
        r@ == bind@ + ":"@ + decimal(port as nat),
{
    let mut out = chars_of(bind);
    push_str(&mut out, ":");
    push_decimal(&mut out, port as u64);
    string_from_chars(out.as_slice())
}

} // verus!
