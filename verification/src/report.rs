//! Tile reports: per-layer geometry counts, the most used tag keys and the decoding
//! warnings.
use vstd::prelude::*;

use crate::geometry::{clamp_nat, geometry_error_message, read_point_delta, GeometryError};
use crate::tally::{
    lemma_occurrences_bound, list_in_order, listed_in_order, occurrences, ranks_before, tallies, table_view,
    tally_add, texts_distinct,
};
use crate::text::{chars_of, decimal, push_chars, push_decimal, push_str, string_from_chars};
use crate::tile::{geom_type_of, Feature, GeomType, Layer};

verus! {

/// Geometry counts of a layer. Counters wrap around at the top of `usize`.
#[derive(Clone, Copy, Debug, Default, PartialEq, Eq, Structural)]
pub struct GeometryStats {
    pub points: usize,
    pub lines: usize,
    pub polygons: usize,
    pub unknown: usize,
    pub vertices: usize,
    pub rings: usize,
    pub paths: usize,
}

/// `st` with one more feature of type `t`.
pub open spec fn with_feature_type(st: GeometryStats, t: GeomType) -> GeometryStats {
    match t {
        GeomType::Point => GeometryStats { points: st.points.wrapping_add(1), ..st },
        GeomType::LineString => GeometryStats { lines: st.lines.wrapping_add(1), ..st },
        GeomType::Polygon => GeometryStats { polygons: st.polygons.wrapping_add(1), ..st },
        GeomType::Unknown => GeometryStats { unknown: st.unknown.wrapping_add(1), ..st },
    }
}

/// `st` with the vertex, ring and path counts of `rhs` added.
pub open spec fn with_geometry(st: GeometryStats, rhs: GeometryStats) -> GeometryStats {
    GeometryStats {
        vertices: st.vertices.wrapping_add(rhs.vertices),
        rings: st.rings.wrapping_add(rhs.rings),
        paths: st.paths.wrapping_add(rhs.paths),
        ..st
    }
}

impl GeometryStats {
    /// Counts one more feature of type `geometry_type`.
    pub fn add_feature_type(&mut self, geometry_type: GeomType)
        ensures
            *final(self) == with_feature_type(*old(self), geometry_type),
    {
        match geometry_type {
            GeomType::Point => self.points = self.points.wrapping_add(1),
            GeomType::LineString => self.lines = self.lines.wrapping_add(1),
            GeomType::Polygon => self.polygons = self.polygons.wrapping_add(1),
            GeomType::Unknown => self.unknown = self.unknown.wrapping_add(1),
        }
    }

    /// Adds the vertex, ring and path counts of `rhs`; the feature type counts stay.
    pub fn add_assign(&mut self, rhs: Self)
        ensures
            *final(self) == with_geometry(*old(self), rhs),
    {
        self.vertices = self.vertices.wrapping_add(rhs.vertices);
        self.rings = self.rings.wrapping_add(rhs.rings);
        self.paths = self.paths.wrapping_add(rhs.paths);
    }
}

/// Whether the `count` point deltas starting at `cursor` are all present.
pub open spec fn points_present(commands: Seq<u32>, cursor: int, count: nat) -> bool {
    count == 0 || cursor + 2 * count <= commands.len()
}

/// The counts of a command stream from position `cursor` on, added to `st`: every MoveTo
/// point starts a path, every point is a vertex, every ClosePath repetition a ring.
pub open spec fn stats_from(commands: Seq<u32>, cursor: int, st: GeometryStats) -> Result<GeometryStats, GeometryError>
    decreases clamp_nat(commands.len() - cursor),
{
    if cursor < 0 || cursor >= commands.len() {
        Ok(st)
    } else {
        let command = commands[cursor];
        let id = command % 8;
        let count = command / 8;
        if id == 1 || id == 2 {
            if !points_present(commands, cursor + 1, count as nat) {
                Err(GeometryError::TruncatedPointDelta)
            } else {
                let paths = if id == 1 { st.paths.wrapping_add(count as usize) } else { st.paths };
                stats_from(
                    commands,
                    cursor + 1 + 2 * count,
                    GeometryStats { paths, vertices: st.vertices.wrapping_add(count as usize), ..st },
                )
            }
        } else if id == 7 {
            stats_from(commands, cursor + 1, GeometryStats { rings: st.rings.wrapping_add(count as usize), ..st })
        } else {
            Err(GeometryError::UnsupportedCommand(id))
        }
    }
}

/// The all-zero counts.
pub open spec fn zero_stats() -> GeometryStats {
    GeometryStats { points: 0, lines: 0, polygons: 0, unknown: 0, vertices: 0, rings: 0, paths: 0 }
}

/// Steps over `count` point deltas.
fn skip_points(commands: &[u32], cursor: &mut usize, count: u32) -> (r: Result<(), GeometryError>)
    requires
        *old(cursor) <= commands@.len(),
    ensures
        match r {
            Ok(()) => points_present(commands@, *old(cursor) as int, count as nat) && *final(cursor) == *old(
                cursor,
            ) + 2 * count,
            Err(e) => !points_present(commands@, *old(cursor) as int, count as nat) && e
                == GeometryError::TruncatedPointDelta,
        },
{
    let ghost c0 = *cursor as int;
    let mut k: u32 = 0;
    while k < count
        invariant
            c0 == *old(cursor) as int,
            k <= count,
            *cursor == c0 + 2 * k,
            *cursor <= commands@.len(),
        decreases count - k,
    {
        read_point_delta(commands, cursor)?;
        k = k + 1;
    }
    Ok(())
}

/// Counts the vertices, rings and paths of a geometry command stream.
pub fn decode_geometry_stats(commands: &[u32]) -> (r: Result<GeometryStats, GeometryError>)
    ensures
        match (r, stats_from(commands@, 0, zero_stats())) {
            (Ok(s), Ok(t)) => s == t,
            (Err(e), Err(f)) => e == f,
            _ => false,
        },
{
    let mut cursor: usize = 0;
    let mut stats = GeometryStats { points: 0, lines: 0, polygons: 0, unknown: 0, vertices: 0, rings: 0, paths: 0 };
    while cursor < commands.len()
        invariant
            cursor <= commands@.len(),
            stats_from(commands@, 0, zero_stats()) == stats_from(commands@, cursor as int, stats),
        decreases commands.len() - cursor,
    {
        let command = commands[cursor];
        cursor = cursor + 1;
        let command_id = command & 7;
        let count = command >> 3;
        assert(command_id == command % 8 && count == command / 8) by (bit_vector)
            requires
                command_id == command & 7,
                count == command >> 3,
        ;
        if command_id == 1 || command_id == 2 {
            if command_id == 1 {
                stats.paths = stats.paths.wrapping_add(count as usize);
            }
            skip_points(commands, &mut cursor, count)?;
            stats.vertices = stats.vertices.wrapping_add(count as usize);
        } else if command_id == 7 {
            stats.rings = stats.rings.wrapping_add(count as usize);
        } else {
            return Err(GeometryError::UnsupportedCommand(command_id));
        }
    }
    Ok(stats)
}

/// `key=count` items joined by `, `.
pub open spec fn counts_text(counts: Seq<(Seq<char>, usize)>) -> Seq<char>
    decreases counts.len(),
{
    if counts.len() == 0 {
        Seq::empty()
    } else if counts.len() == 1 {
        counts[0].0 + "="@ + decimal(counts[0].1 as nat)
    } else {
        counts_text(counts.drop_last()) + ", "@ + counts.last().0 + "="@ + decimal(counts.last().1 as nat)
    }
}

/// The characters of each key of a count list.
pub open spec fn counts_view(counts: Seq<(String, usize)>) -> Seq<(Seq<char>, usize)> {
    counts.map_values(|c: (String, usize)| (c.0@, c.1))
}

/// Formats key counts as `key=count` items joined by `, `.
pub fn format_counts(counts: &[(String, usize)]) -> (r: String)
    ensures
        r@ == counts_text(counts_view(counts@)),
{
    let mut out: Vec<char> = Vec::new();
    let mut i: usize = 0;
    while i < counts.len()
        invariant
            i <= counts@.len(),
            out@ == counts_text(counts_view(counts@.take(i as int))),
        decreases counts.len() - i,
    {
        let ghost prev = out@;
        if i > 0 {
            push_str(&mut out, ", ");
        }
        let key = chars_of(counts[i].0.as_str());
        push_chars(&mut out, key.as_slice());
        push_str(&mut out, "=");
        push_decimal(&mut out, counts[i].1 as u64);
        proof {
            let t = counts_view(counts@.take(i + 1));
            assert(t.drop_last() =~= counts_view(counts@.take(i as int)));
            assert(t.last() == (counts@[i as int].0@, counts@[i as int].1));
            if i == 0 {
                assert(prev =~= Seq::<char>::empty());
                assert(out@ =~= t[0].0 + "="@ + decimal(t[0].1 as nat));
            } else {
                assert(out@ =~= prev + ", "@ + t.last().0 + "="@ + decimal(t.last().1 as nat));
            }
        }
        i = i + 1;
    }
    assert(counts@.take(i as int) =~= counts@);
    string_from_chars(out.as_slice())
}

/// The key counted for tag pair `p` of `f`: the key's text where both its key index and its
/// value index are in range.
pub open spec fn pair_key(f: Feature, layer: Layer, p: int) -> Seq<Seq<char>> {
    let key_index = f.tags@[2 * p] as int;
    let value_index = f.tags@[2 * p + 1] as int;
    if key_index < layer.keys@.len() && value_index < layer.values@.len() {
        seq![layer.keys@[key_index]@]
    } else {
        Seq::empty()
    }
}

/// The warning for tag pair `p` of `f`, where one of its indices is out of range.
pub open spec fn pair_warning(f: Feature, layer: Layer, p: int) -> Seq<Seq<char>> {
    let key_index = f.tags@[2 * p] as int;
    let value_index = f.tags@[2 * p + 1] as int;
    if key_index >= layer.keys@.len() {
        seq!["tag key index out of range"@]
    } else if value_index >= layer.values@.len() {
        seq!["tag value index out of range"@]
    } else {
        Seq::empty()
    }
}

/// The keys counted for the first `p` tag pairs of `f`.
pub open spec fn pair_keys(f: Feature, layer: Layer, p: nat) -> Seq<Seq<char>>
    decreases p,
{
    if p == 0 {
        Seq::empty()
    } else {
        pair_keys(f, layer, (p - 1) as nat) + pair_key(f, layer, p - 1)
    }
}

/// The warnings for the first `p` tag pairs of `f`.
pub open spec fn pair_warnings(f: Feature, layer: Layer, p: nat) -> Seq<Seq<char>>
    decreases p,
{
    if p == 0 {
        Seq::empty()
    } else {
        pair_warnings(f, layer, (p - 1) as nat) + pair_warning(f, layer, p - 1)
    }
}

/// The number of complete tag pairs of `f`; a last odd tag is no pair.
pub open spec fn pair_count(f: Feature) -> nat {
    (f.tags@.len() / 2) as nat
}

/// The warnings a feature gives: that its geometry does not decode, then those of its tag
/// pairs, then that its tag list has odd length.
pub open spec fn feature_warnings(f: Feature, layer: Layer) -> Seq<Seq<char>> {
    let decoding = match stats_from(f.geometry@, 0, zero_stats()) {
        Ok(_) => Seq::<Seq<char>>::empty(),
        Err(e) => seq![geometry_error_message(e)],
    };
    let odd = if f.tags@.len() % 2 != 0 { seq!["odd tag stream length"@] } else { Seq::<Seq<char>>::empty() };
    decoding + pair_warnings(f, layer, pair_count(f)) + odd
}

/// The keys counted over the first `n` features of a layer.
pub open spec fn layer_keys(layer: Layer, n: nat) -> Seq<Seq<char>>
    decreases n,
{
    if n == 0 {
        Seq::empty()
    } else {
        let f = layer.features@[n - 1];
        layer_keys(layer, (n - 1) as nat) + pair_keys(f, layer, pair_count(f))
    }
}

/// The warnings over the first `n` features of a layer.
pub open spec fn layer_warnings(layer: Layer, n: nat) -> Seq<Seq<char>>
    decreases n,
{
    if n == 0 {
        Seq::empty()
    } else {
        layer_warnings(layer, (n - 1) as nat) + feature_warnings(layer.features@[n - 1], layer)
    }
}

/// The geometry counts over the first `n` features of a layer: each feature's type, and the
/// vertices, rings and paths of each geometry that decodes.
pub open spec fn layer_geometry(layer: Layer, n: nat) -> GeometryStats
    decreases n,
{
    if n == 0 {
        zero_stats()
    } else {
        let f = layer.features@[n - 1];
        let typed = with_feature_type(layer_geometry(layer, (n - 1) as nat), geom_type_of(f.geom_type));
        match stats_from(f.geometry@, 0, zero_stats()) {
            Ok(st) => with_geometry(typed, st),
            Err(_) => typed,
        }
    }
}

/// The number of features of a layer.
pub open spec fn feature_total(layer: Layer) -> nat {
    layer.features@.len()
}

/// The line shown for a warning that occurred `count` times.
pub open spec fn warning_line(warning: Seq<char>, count: usize) -> Seq<char> {
    warning + " ("@ + decimal(count as nat) + ")"@
}

/// The texts and counts of a list of counted strings.
pub open spec fn counted_view(t: Seq<(String, usize)>) -> Seq<(Seq<char>, usize)> {
    t.map_values(|e: (String, usize)| (e.0@, e.1))
}

/// The most frequent tag keys listed in a layer report.
pub const TOP_KEY_LIMIT: usize = 8;

/// What the report shows of a layer, but for the statistics of numeric tag values.
pub struct LayerReport {
    pub name: String,
    pub version: u32,
    pub extent: u32,
    pub features: usize,
    pub geometry: GeometryStats,
    pub top_keys: Vec<(String, usize)>,
    pub decode_warnings: Vec<String>,
}

/// `report` is what the layer report shows of `layer`: its name, version (1 where unset),
/// extent (4096 where unset), feature count and geometry counts; the tag keys used most, at
/// most eight, each with its count, by count and then by key, every key left out ranking
/// after them; and the decoding warnings, each once with the number of times it came up,
/// in the order of their texts.
pub open spec fn reports_layer(report: LayerReport, layer: Layer) -> bool {
    &&& report.name@ == layer.name@
    &&& report.version == match layer.version { Some(v) => v, None => 1 }
    &&& report.extent == match layer.extent { Some(e) => e, None => 4096 }
    &&& report.features == layer.features@.len()
    &&& report.geometry == layer_geometry(layer, feature_total(layer))
    &&& ({
        let keys = layer_keys(layer, feature_total(layer));
        let top = counted_view(report.top_keys@);
        &&& top.len() <= TOP_KEY_LIMIT
        &&& listed_in_order(top, true)
        &&& forall|i: int| 0 <= i < top.len() ==> #[trigger] top[i].1 == occurrences(keys, top[i].0) && top[i].1 > 0
        &&& forall|k: Seq<char>|
            #![trigger occurrences(keys, k)]
            occurrences(keys, k) > 0 && (forall|i: int| 0 <= i < top.len() ==> top[i].0 != k) ==> top.len()
                == TOP_KEY_LIMIT && ranks_before(top[TOP_KEY_LIMIT - 1], (k, occurrences(keys, k) as usize), true)
    })
    &&& exists|t: Seq<(Seq<char>, usize)>|
        {
            &&& tallies(t, layer_warnings(layer, feature_total(layer)))
            &&& listed_in_order(t, false)
            &&& report.decode_warnings@.len() == t.len()
            &&& forall|i: int| 0 <= i < t.len() ==> #[trigger] report.decode_warnings@[i]@ == warning_line(t[i].0, t[i].1)
        }
}

/// Whether the counts of a layer fit in `usize`: its counted tag keys and its warnings are
/// fewer than the largest `usize`.
pub open spec fn layer_counts_fit(layer: Layer) -> bool {
    &&& layer_keys(layer, feature_total(layer)).len() < usize::MAX
    &&& layer_warnings(layer, feature_total(layer)).len() < usize::MAX
}

/// A bound on the counted tag keys and warnings of the first `n` features: their tag pairs
/// and two more per feature.
pub open spec fn event_bound(layer: Layer, n: nat) -> nat
    decreases n,
{
    if n == 0 {
        0
    } else {
        event_bound(layer, (n - 1) as nat) + pair_count(layer.features@[n - 1]) + 2
    }
}

proof fn lemma_pair_events_bound(f: Feature, layer: Layer, p: nat)
    ensures
        pair_keys(f, layer, p).len() <= p,
        pair_warnings(f, layer, p).len() <= p,
    decreases p,
{
    if p > 0 {
        lemma_pair_events_bound(f, layer, (p - 1) as nat);
    }
}

proof fn lemma_layer_events_bound(layer: Layer, n: nat)
    requires
        n <= layer.features@.len(),
    ensures
        layer_keys(layer, n).len() <= event_bound(layer, n),
        layer_warnings(layer, n).len() <= event_bound(layer, n),
    decreases n,
{
    if n > 0 {
        lemma_layer_events_bound(layer, (n - 1) as nat);
        let f = layer.features@[n - 1];
        lemma_pair_events_bound(f, layer, pair_count(f));
    }
}

proof fn lemma_event_bound_grows(layer: Layer, n: nat, m: nat)
    requires
        n <= m,
    ensures
        event_bound(layer, n) <= event_bound(layer, m),
    decreases m,
{
    if n < m {
        lemma_event_bound_grows(layer, n, (m - 1) as nat);
    }
}

impl LayerReport {
    /// Whether the counts of a layer surely fit in `usize`: its tag pairs and two more per
    /// feature are fewer than the largest `usize`.
    pub fn counts_fit(layer: &Layer) -> (b: bool)
        ensures
            b == (event_bound(*layer, feature_total(*layer)) < usize::MAX),
            b ==> layer_counts_fit(*layer),
    {
        let mut total: usize = 0;
        let mut n: usize = 0;
        while n < layer.features.len()
            invariant
                n <= layer.features@.len(),
                total == event_bound(*layer, n as nat),
            decreases layer.features.len() - n,
        {
            let pairs = layer.features[n].tags.len() / 2;
            if total >= usize::MAX - 2 || pairs >= usize::MAX - 2 - total {
                proof {
                    lemma_event_bound_grows(*layer, (n + 1) as nat, feature_total(*layer));
                }
                return false;
            }
            total = total + pairs + 2;
            n = n + 1;
        }
        proof {
            lemma_layer_events_bound(*layer, feature_total(*layer));
        }
        total < usize::MAX
    }
}

/// The report of a tile: one layer report per layer, in order.
pub struct TileReport {
    pub layers: Vec<LayerReport>,
}

impl TileReport {
    /// Reports every layer of a tile.
    pub fn from_tile(tile: &crate::tile::Tile) -> (r: TileReport)
        requires
            forall|i: int| 0 <= i < tile.layers@.len() ==> layer_counts_fit(#[trigger] tile.layers@[i]),
        ensures
            r.layers@.len() == tile.layers@.len(),
            forall|i: int| 0 <= i < tile.layers@.len() ==> reports_layer(#[trigger] r.layers@[i], tile.layers@[i]),
    {
        let mut layers: Vec<LayerReport> = Vec::new();
        let mut i: usize = 0;
        while i < tile.layers.len()
            invariant
                i <= tile.layers@.len(),
                forall|j: int| 0 <= j < tile.layers@.len() ==> layer_counts_fit(#[trigger] tile.layers@[j]),
                layers@.len() == i,
                forall|j: int| 0 <= j < i ==> reports_layer(#[trigger] layers@[j], tile.layers@[j]),
            decreases tile.layers.len() - i,
        {
            let report = LayerReport::from_layer(&tile.layers[i]);
            layers.push(report);
            i = i + 1;
        }
        TileReport { layers }
    }
}

proof fn lemma_pair_keys_grow(f: Feature, layer: Layer, p: nat, q: nat)
    requires
        p <= q,
    ensures
        pair_keys(f, layer, p).len() <= pair_keys(f, layer, q).len(),
    decreases q,
{
    if p < q {
        lemma_pair_keys_grow(f, layer, p, (q - 1) as nat);
    }
}

proof fn lemma_pair_warnings_grow(f: Feature, layer: Layer, p: nat, q: nat)
    requires
        p <= q,
    ensures
        pair_warnings(f, layer, p).len() <= pair_warnings(f, layer, q).len(),
    decreases q,
{
    if p < q {
        lemma_pair_warnings_grow(f, layer, p, (q - 1) as nat);
    }
}

proof fn lemma_layer_events_grow(layer: Layer, n: nat, m: nat)
    requires
        n <= m,
    ensures
        layer_keys(layer, n).len() <= layer_keys(layer, m).len(),
        layer_warnings(layer, n).len() <= layer_warnings(layer, m).len(),
    decreases m,
{
    if n < m {
        lemma_layer_events_grow(layer, n, (m - 1) as nat);
    }
}

proof fn lemma_tallies_same_entries(t1: Seq<(Seq<char>, usize)>, t2: Seq<(Seq<char>, usize)>, s: Seq<Seq<char>>)
    requires
        tallies(t1, s),
        texts_distinct(t2),
        forall|e: (Seq<char>, usize)| #[trigger] t2.contains(e) == t1.contains(e),
    ensures
        tallies(t2, s),
{
    assert forall|i: int| 0 <= i < t2.len() implies #[trigger] t2[i].1 == occurrences(s, t2[i].0) && t2[i].1 > 0 by {
        assert(t2.contains(t2[i]));
        let j = choose|j: int| 0 <= j < t1.len() && #[trigger] t1[j] == t2[i];
        assert(t1[j].1 == occurrences(s, t1[j].0));
    }
    assert forall|k: Seq<char>| occurrences(s, k) > 0 implies exists|i: int| 0 <= i < t2.len() && #[trigger] t2[i].0 == k by {
        let j = choose|j: int| 0 <= j < t1.len() && #[trigger] t1[j].0 == k;
        assert(t1.contains(t1[j]));
        assert(t2.contains(t1[j]));
        let i = choose|i: int| 0 <= i < t2.len() && #[trigger] t2[i] == t1[j];
        assert(t2[i].0 == k);
    }
}

fn tally_literal(t: &mut Vec<(Vec<char>, usize)>, text: &str, Ghost(s): Ghost<Seq<Seq<char>>>)
    requires
        tallies(table_view(old(t)@), s),
        s.len() < usize::MAX,
    ensures
        tallies(table_view(final(t)@), s.push(text@)),
{
    proof {
        lemma_occurrences_bound(s, text@);
    }
    let k = chars_of(text);
    tally_add(t, k, Ghost(s));
}

impl LayerReport {
    /// Summarises a layer as `reports_layer` describes. The caller checks first that the
    /// counts fit, with `counts_fit` where it cannot tell otherwise.
    pub fn from_layer(layer: &Layer) -> (r: LayerReport)
        requires
            layer_counts_fit(*layer),
        ensures
            reports_layer(r, *layer),
    {
        let ghost all_keys = layer_keys(*layer, feature_total(*layer));
        let ghost all_warnings = layer_warnings(*layer, feature_total(*layer));
        let mut geometry = GeometryStats { points: 0, lines: 0, polygons: 0, unknown: 0, vertices: 0, rings: 0, paths: 0 };
        let mut key_counts: Vec<(Vec<char>, usize)> = Vec::new();
        let mut warnings: Vec<(Vec<char>, usize)> = Vec::new();
        let mut n: usize = 0;
        while n < layer.features.len()
            invariant
                n <= layer.features@.len(),
                all_keys == layer_keys(*layer, feature_total(*layer)),
                all_warnings == layer_warnings(*layer, feature_total(*layer)),
                all_keys.len() < usize::MAX,
                all_warnings.len() < usize::MAX,
                geometry == layer_geometry(*layer, n as nat),
                tallies(table_view(key_counts@), layer_keys(*layer, n as nat)),
                tallies(table_view(warnings@), layer_warnings(*layer, n as nat)),
            decreases layer.features.len() - n,
        {
            let feature = &layer.features[n];
            proof {
                lemma_layer_events_grow(*layer, (n + 1) as nat, feature_total(*layer));
                lemma_pair_keys_grow(*feature, *layer, 0, pair_count(*feature));
            }
            let ghost keys_before = layer_keys(*layer, n as nat);
            let ghost warnings_before = layer_warnings(*layer, n as nat);
            let ghost mut warnings_so_far = warnings_before;
            geometry.add_feature_type(feature.geometry_type());
            match decode_geometry_stats(feature.geometry.as_slice()) {
                Ok(st) => {
                    geometry.add_assign(st);
                },
                Err(e) => {
                    let m = e.message();
                    let text = chars_of(m.as_str());
                    proof {
                        lemma_pair_warnings_grow(*feature, *layer, 0, pair_count(*feature));
                        lemma_occurrences_bound(warnings_so_far, text@);
                    }
                    tally_add(&mut warnings, text, Ghost(warnings_so_far));
                    proof {
                        warnings_so_far = warnings_so_far.push(geometry_error_message(e));
                    }
                },
            }
            let ghost decoding = warnings_so_far.skip(warnings_before.len() as int);
            proof {
                assert(warnings_so_far =~= warnings_before + decoding);
                assert(decoding =~= match stats_from(feature.geometry@, 0, zero_stats()) {
                    Ok(_) => Seq::<Seq<char>>::empty(),
                    Err(e) => seq![geometry_error_message(e)],
                });
            }
            let pairs = feature.tags.len() / 2;
            let mut p: usize = 0;
            let ghost mut keys_so_far = keys_before;
            while p < pairs
                invariant
                    n < layer.features@.len(),
                    *feature == layer.features@[n as int],
                    pairs == pair_count(*feature),
                    p <= pairs,
                    all_keys.len() < usize::MAX,
                    all_warnings.len() < usize::MAX,
                    keys_so_far == keys_before + pair_keys(*feature, *layer, p as nat),
                    warnings_so_far == warnings_before + decoding + pair_warnings(*feature, *layer, p as nat),
                    layer_keys(*layer, (n + 1) as nat).len() <= all_keys.len(),
                    layer_warnings(*layer, (n + 1) as nat).len() <= all_warnings.len(),
                    keys_before == layer_keys(*layer, n as nat),
                    warnings_before == layer_warnings(*layer, n as nat),
                    decoding == match stats_from(feature.geometry@, 0, zero_stats()) {
                        Ok(_) => Seq::<Seq<char>>::empty(),
                        Err(e) => seq![geometry_error_message(e)],
                    },
                    tallies(table_view(key_counts@), keys_so_far),
                    tallies(table_view(warnings@), warnings_so_far),
                decreases pairs - p,
            {
                proof {
                    lemma_pair_keys_grow(*feature, *layer, (p + 1) as nat, pair_count(*feature));
                    lemma_pair_warnings_grow(*feature, *layer, (p + 1) as nat, pair_count(*feature));
                }
                let tag_count = feature.tags.len();
                assert(2 * (tag_count / 2) <= tag_count);
                assert(2 * p + 1 < tag_count);
                let key_index = feature.tags[2 * p] as usize;
                let value_index = feature.tags[2 * p + 1] as usize;
                if key_index >= layer.keys.len() {
                    tally_literal(&mut warnings, "tag key index out of range", Ghost(warnings_so_far));
                    proof {
                        warnings_so_far = warnings_so_far.push("tag key index out of range"@);
                        assert(pair_warning(*feature, *layer, p as int) == seq!["tag key index out of range"@]);
                        assert(keys_so_far =~= keys_before + pair_keys(*feature, *layer, (p + 1) as nat));
                        assert(warnings_so_far =~= warnings_before + decoding + pair_warnings(*feature, *layer, (p + 1) as nat));
                    }
                } else if value_index >= layer.values.len() {
                    tally_literal(&mut warnings, "tag value index out of range", Ghost(warnings_so_far));
                    proof {
                        warnings_so_far = warnings_so_far.push("tag value index out of range"@);
                        assert(keys_so_far =~= keys_before + pair_keys(*feature, *layer, (p + 1) as nat));
                        assert(warnings_so_far =~= warnings_before + decoding + pair_warnings(*feature, *layer, (p + 1) as nat));
                    }
                } else {
                    let key = chars_of(layer.keys[key_index].as_str());
                    proof {
                        lemma_occurrences_bound(keys_so_far, key@);
                    }
                    tally_add(&mut key_counts, key, Ghost(keys_so_far));
                    proof {
                        keys_so_far = keys_so_far.push(layer.keys@[key_index as int]@);
                        assert(keys_so_far =~= keys_before + pair_keys(*feature, *layer, (p + 1) as nat));
                        assert(warnings_so_far =~= warnings_before + decoding + pair_warnings(*feature, *layer, (p + 1) as nat));
                    }
                }
                p = p + 1;
            }
            if feature.tags.len() % 2 != 0 {
                tally_literal(&mut warnings, "odd tag stream length", Ghost(warnings_so_far));
                proof {
                    warnings_so_far = warnings_so_far.push("odd tag stream length"@);
                }
            }
            proof {
                assert(keys_so_far =~= layer_keys(*layer, (n + 1) as nat));
                assert(warnings_so_far =~= layer_warnings(*layer, (n + 1) as nat));
            }
            n = n + 1;
        }
        let ghost key_view = table_view(key_counts@);
        let ghost warning_view = table_view(warnings@);
        let ranked = list_in_order(key_counts, true);
        let ordered_warnings = list_in_order(warnings, false);
        proof {
            lemma_tallies_same_entries(key_view, table_view(ranked@), all_keys);
            lemma_tallies_same_entries(warning_view, table_view(ordered_warnings@), all_warnings);
        }
        let ghost rv = table_view(ranked@);
        let limit = if ranked.len() < TOP_KEY_LIMIT { ranked.len() } else { TOP_KEY_LIMIT };
        let mut top_keys: Vec<(String, usize)> = Vec::new();
        let mut i: usize = 0;
        while i < limit
            invariant
                i <= limit <= ranked@.len(),
                rv == table_view(ranked@),
                counted_view(top_keys@) == rv.take(i as int),
            decreases limit - i,
        {
            let name = string_from_chars(ranked[i].0.as_slice());
            let ghost before = top_keys@;
            let count = ranked[i].1;
            let entry = (name, count);
            top_keys.push(entry);
            proof {
                assert(rv[i as int] == (ranked@[i as int].0@, ranked@[i as int].1));
                assert(top_keys@ == before.push(entry));
                assert(counted_view(before).len() == i);
                assert(top_keys@.len() == i + 1);
                assert(counted_view(top_keys@)[i as int] == (entry.0@, entry.1));
                assert forall|m: int| 0 <= m < i implies #[trigger] counted_view(top_keys@)[m] == counted_view(before)[m] by {
                    assert(top_keys@[m] == before[m]);
                }
                assert(counted_view(top_keys@) =~= rv.take(i + 1));
            }
            i = i + 1;
        }
        let ghost wv = table_view(ordered_warnings@);
        let mut decode_warnings: Vec<String> = Vec::new();
        let mut j: usize = 0;
        while j < ordered_warnings.len()
            invariant
                j <= ordered_warnings@.len(),
                wv == table_view(ordered_warnings@),
                decode_warnings@.len() == j,
                forall|m: int| 0 <= m < j ==> #[trigger] decode_warnings@[m]@ == warning_line(wv[m].0, wv[m].1),
            decreases ordered_warnings.len() - j,
        {
            let mut line: Vec<char> = Vec::new();
            push_chars(&mut line, ordered_warnings[j].0.as_slice());
            push_str(&mut line, " (");
            push_decimal(&mut line, ordered_warnings[j].1 as u64);
            push_str(&mut line, ")");
            proof {
                assert(line@ =~= warning_line(wv[j as int].0, wv[j as int].1));
            }
            decode_warnings.push(string_from_chars(line.as_slice()));
            j = j + 1;
        }
        proof {
            let top = counted_view(top_keys@);
            assert forall|k: Seq<char>|
                #![trigger occurrences(all_keys, k)]
                occurrences(all_keys, k) > 0 && (forall|i2: int| 0 <= i2 < top.len() ==> top[i2].0 != k) implies top.len()
                    == TOP_KEY_LIMIT && ranks_before(top[TOP_KEY_LIMIT - 1], (k, occurrences(all_keys, k) as usize), true) by {
                let m = choose|m: int| 0 <= m < rv.len() && #[trigger] rv[m].0 == k;
                assert(rv[m].1 == occurrences(all_keys, k));
                if m < limit {
                    assert(top[m].0 == k);
                }
                assert(m >= limit);
                assert(limit == TOP_KEY_LIMIT);
                if m > TOP_KEY_LIMIT - 1 {
                    assert(ranks_before(rv[TOP_KEY_LIMIT - 1], rv[m], true));
                }
            }
            assert(listed_in_order(top, true)) by {
                assert forall|a: int, b: int| 0 <= a < b < top.len() implies ranks_before(#[trigger] top[a], #[trigger] top[b], true) by {
                    assert(ranks_before(rv[a], rv[b], true));
                }
            }
            assert forall|i2: int| 0 <= i2 < top.len() implies #[trigger] top[i2].1 == occurrences(all_keys, top[i2].0) && top[i2].1 > 0 by {
                assert(top[i2] == rv[i2]);
            }
        }
        let name = string_from_chars(chars_of(layer.name.as_str()).as_slice());
        let version = match layer.version {
            Some(v) => v,
            None => 1,
        };
        let extent = match layer.extent {
            Some(e) => e,
            None => 4096,
        };
        LayerReport {
            name,
            version,
            extent,
            features: layer.features.len(),
            geometry,
            top_keys,
            decode_warnings,
        }
    }
}

} // verus!
