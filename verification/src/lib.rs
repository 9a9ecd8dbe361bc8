//! Verified core of the harbor ship-tracking tools: the ship registry's rules, position
//! projection, the AIS stream client's decisions, the viewer's map tile loading, and the
//! vector tile server's request routing, tile decoding and GLB framing.
use vstd::prelude::*;

pub mod ais;
pub mod cli;
pub mod geometry;
pub mod glb;
pub mod map_tiles;
pub mod poi;
pub mod projected_ships;
pub mod projection;
pub mod report;
pub mod routes;
pub mod runtime;
pub mod scene;
pub mod ship_class;
pub mod ship_types;
pub mod ships;
pub mod tally;
pub mod text;
pub mod tile;
pub mod tile_bytes;
pub mod tile_queue;
pub mod timeline;

verus! {

} // verus!
