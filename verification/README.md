# harbor

A Verus library for a small ship-tracking system: a registry of ships and their AIS
position reports, a client that feeds the registry from an AIS stream, a 3D viewer, and a
server that turns vector map tiles into GLB scenes.

The library in `src/` holds the logic, each function with a contract that Verus proves:

- `ships`, `ship_types`, `projection`: the registry's rules for adding ships and merging
  static AIS data, and which stored reports bracket a query time for each ship.
- `ais`: what the stream client does with each message, and the text it logs.
- `map_tiles`, `tile_queue`, `timeline`, `runtime`, `ship_class`: the viewer's tiles around
  the camera, its tile loading queue, the timeline range and timestamp controls, its configuration, and labels.
- `routes`, `tile`, `geometry`, `report`, `tally`, `glb`, `scene`, `tile_bytes`, `cli`, `poi`:
  the tile server's routing and defaults, vector tile features and geometry decoding, layer reports, GLB
  framing and scene plan, payload decompression, command line and point-of-interest rules.
- `text`: the character-level helpers the rest is built on.

Laws that span functions are public proof functions named `law_*`.

`app/` is the tile server program around the library: HTTP, configuration files, network
fetches, and the floating point geometry and mesh building.
