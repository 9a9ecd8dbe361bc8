//! The decoded Mapbox Vector Tile: layers, features, tag lookup, and the feature selection
//! that each geometry extraction starts from.
use vstd::prelude::*;

use crate::text::{chars_of, eq_str};

verus! {

/// The geometry type of a feature.
#[derive(Clone, Copy, Debug, PartialEq, Eq, Structural)]
pub enum GeomType {
    Unknown,
    Point,
    LineString,
    Polygon,
}

/// The geometry type that a raw type code stands for: unset and unknown codes count as
/// `Unknown`.
pub open spec fn geom_type_of(code: Option<i32>) -> GeomType {
    match code {
        Some(1) => GeomType::Point,
        Some(2) => GeomType::LineString,
        Some(3) => GeomType::Polygon,
        _ => GeomType::Unknown,
    }
}

/// A tile feature.
#[derive(Clone, Debug, PartialEq, Eq)]
pub struct Feature {
    pub id: Option<u64>,
    pub tags: Vec<u32>,
    /// The raw geometry type code.
    pub geom_type: Option<i32>,
    pub geometry: Vec<u32>,
}

impl Feature {
    /// The geometry type of this feature.
    pub fn geometry_type(&self) -> (t: GeomType)
        ensures
            t == geom_type_of(self.geom_type),
    {
        match self.geom_type {
            Some(1) => GeomType::Point,
            Some(2) => GeomType::LineString,
            Some(3) => GeomType::Polygon,
            _ => GeomType::Unknown,
        }
    }
}

/// A tag value. The two float fields hold the bit patterns of the encoded 32-bit and 64-bit
/// floats.
#[derive(Clone, Debug, PartialEq, Eq)]
pub struct Value {
    pub string_value: Option<String>,
    pub float_value: Option<u32>,
    pub double_value: Option<u64>,
    pub int_value: Option<i64>,
    pub uint_value: Option<u64>,
    pub sint_value: Option<i64>,
    pub bool_value: Option<bool>,
}

/// The characters of a value's string, where it has one.
pub open spec fn value_text(v: Value) -> Option<Seq<char>> {
    match v.string_value {
        Some(s) => Some(s@),
        None => None,
    }
}

impl Value {
    /// The value's string, where it has one.
    pub fn as_str(&self) -> (r: Option<&str>)
        ensures
            match r {
                Some(s) => value_text(*self) == Some(s@),
                None => value_text(*self) is None,
            },
    {
        match &self.string_value {
            Some(s) => Some(s.as_str()),
            None => None,
        }
    }
}

/// A tile layer.
#[derive(Clone, Debug, PartialEq, Eq)]
pub struct Layer {
    pub name: String,
    pub features: Vec<Feature>,
    pub keys: Vec<String>,
    pub values: Vec<Value>,
    pub extent: Option<u32>,
    pub version: Option<u32>,
}

/// A decoded tile.
#[derive(Clone, Debug, PartialEq, Eq)]
pub struct Tile {
    pub layers: Vec<Layer>,
}

/// The string value of the first tag of `feature` whose key is `key`, reading the tag pairs
/// from pair `i` on: nothing where a key index before it, or its value index, is out of
/// range, or where its value is not a string.
pub open spec fn tag_value_from(feature: Feature, layer: Layer, key: Seq<char>, i: int) -> Option<Seq<char>>
    decreases feature.tags@.len() - 2 * i,
{
    if i < 0 || 2 * i + 1 >= feature.tags@.len() {
        None
    } else {
        let key_index = feature.tags@[2 * i] as int;
        let value_index = feature.tags@[2 * i + 1] as int;
        if key_index >= layer.keys@.len() {
            None
        } else if layer.keys@[key_index]@ != key {
            tag_value_from(feature, layer, key, i + 1)
        } else if value_index >= layer.values@.len() {
            None
        } else {
            value_text(layer.values@[value_index])
        }
    }
}

/// Looks up the string value of the tag `key_name` of `feature`.
pub fn feature_tag_value<'a>(feature: &Feature, layer: &'a Layer, key_name: &str) -> (r: Option<&'a str>)
    ensures
        match r {
            Some(s) => tag_value_from(*feature, *layer, key_name@, 0) == Some(s@),
            None => tag_value_from(*feature, *layer, key_name@, 0) is None,
        },
{
    let key = chars_of(key_name);
    let mut i: usize = 0;
    while i < feature.tags.len() / 2
        invariant
            i <= feature.tags@.len() / 2,
            key@ == key_name@,
            tag_value_from(*feature, *layer, key_name@, 0) == tag_value_from(*feature, *layer, key_name@, i as int),
        decreases feature.tags.len() / 2 - i,
    {
        let key_index = feature.tags[2 * i] as usize;
        let value_index = feature.tags[2 * i + 1] as usize;
        if key_index >= layer.keys.len() {
            return None;
        }
        let k = chars_of(layer.keys[key_index].as_str());
        if !eq_str(k.as_slice(), key_name) {
            i = i + 1;
            continue;
        }
        if value_index >= layer.values.len() {
            return None;
        }
        return layer.values[value_index].as_str();
    }
    None
}

/// Whether a feature passes the class filters: its `class` tag must equal `class_filter`
/// where one is given, and must differ from `exclude_class` where one is given.
pub open spec fn passes_class_filter(
    feature: Feature,
    layer: Layer,
    class_filter: Option<Seq<char>>,
    exclude_class: Option<Seq<char>>,
) -> bool {
    let class_value = tag_value_from(feature, layer, "class"@, 0);
    (class_filter matches Some(c) ==> class_value == Some(c)) && (exclude_class matches Some(c) ==> class_value != Some(c))
}

/// The characters of an optional text.
pub open spec fn opt_text(s: Option<&str>) -> Option<Seq<char>> {
    match s {
        Some(s) => Some(s@),
        None => None,
    }
}

/// Applies the class filters to a feature.
pub fn matches_class_filter(
    feature: &Feature,
    layer: &Layer,
    class_filter: Option<&str>,
    exclude_class: Option<&str>,
) -> (b: bool)
    ensures
        b == passes_class_filter(*feature, *layer, opt_text(class_filter), opt_text(exclude_class)),
{
    let class_value = feature_tag_value(feature, layer, "class");
    let value_chars = match class_value {
        Some(v) => Some(chars_of(v)),
        None => None,
    };
    if let Some(filter) = class_filter {
        let equal = match &value_chars {
            Some(v) => eq_str(v.as_slice(), filter),
            None => false,
        };
        if !equal {
            return false;
        }
    }
    if let Some(exclude) = exclude_class {
        let equal = match &value_chars {
            Some(v) => eq_str(v.as_slice(), exclude),
            None => false,
        };
        if equal {
            return false;
        }
    }
    true
}

/// The position of the first layer named `name`.
pub open spec fn first_layer_named(tile: Tile, name: Seq<char>, i: int) -> Option<int>
    decreases tile.layers@.len() - i,
{
    if i < 0 || i >= tile.layers@.len() {
        None
    } else if tile.layers@[i].name@ == name {
        Some(i)
    } else {
        first_layer_named(tile, name, i + 1)
    }
}

/// Finds the first layer named `name`.
pub fn find_layer(tile: &Tile, name: &str) -> (r: Option<usize>)
    ensures
        match r {
            Some(i) => first_layer_named(*tile, name@, 0) == Some(i as int),
            None => first_layer_named(*tile, name@, 0) is None,
        },
{
    let mut i: usize = 0;
    while i < tile.layers.len()
        invariant
            i <= tile.layers@.len(),
            first_layer_named(*tile, name@, 0) == first_layer_named(*tile, name@, i as int),
        decreases tile.layers.len() - i,
    {
        let n = chars_of(tile.layers[i].name.as_str());
        if eq_str(n.as_slice(), name) {
            return Some(i);
        }
        i = i + 1;
    }
    None
}

/// The first extent that any layer from position `i` on declares.
pub open spec fn first_extent_from(tile: Tile, i: int) -> Option<u32>
    decreases tile.layers@.len() - i,
{
    if i < 0 || i >= tile.layers@.len() {
        None
    } else if tile.layers@[i].extent is Some {
        tile.layers@[i].extent
    } else {
        first_extent_from(tile, i + 1)
    }
}

/// The extent of the layer named `name` where it declares one, else the first extent any
/// layer declares.
pub open spec fn layer_extent_of(tile: Tile, name: Seq<char>) -> Option<u32> {
    match first_layer_named(tile, name, 0) {
        Some(i) if tile.layers@[i].extent is Some => tile.layers@[i].extent,
        _ => first_extent_from(tile, 0),
    }
}

proof fn lemma_first_layer_named_range(tile: Tile, name: Seq<char>, i: int)
    ensures
        first_layer_named(tile, name, i) matches Some(j) ==> 0 <= j < tile.layers@.len(),
    decreases tile.layers@.len() - i,
{
    if 0 <= i < tile.layers@.len() && tile.layers@[i].name@ != name {
        lemma_first_layer_named_range(tile, name, i + 1);
    }
}

/// The extent to use for the layer named `layer_name`.
pub fn layer_extent(tile: &Tile, layer_name: &str) -> (r: Option<u32>)
    ensures
        r == layer_extent_of(*tile, layer_name@),
{
    proof {
        lemma_first_layer_named_range(*tile, layer_name@, 0);
    }
    if let Some(i) = find_layer(tile, layer_name) {
        if let Some(e) = tile.layers[i].extent {
            return Some(e);
        }
    }
    let mut i: usize = 0;
    while i < tile.layers.len()
        invariant
            i <= tile.layers@.len(),
            first_extent_from(*tile, 0) == first_extent_from(*tile, i as int),
            layer_extent_of(*tile, layer_name@) == first_extent_from(*tile, 0),
        decreases tile.layers.len() - i,
    {
        if let Some(e) = tile.layers[i].extent {
            return Some(e);
        }
        i = i + 1;
    }
    None
}

/// The positions of the polygon features of a layer, in layer order.
pub open spec fn polygon_features_of(features: Seq<Feature>) -> Seq<usize>
    decreases features.len(),
{
    if features.len() == 0 {
        Seq::empty()
    } else {
        let rest = polygon_features_of(features.drop_last());
        if geom_type_of(features.last().geom_type) == GeomType::Polygon {
            rest.push((features.len() - 1) as usize)
        } else {
            rest
        }
    }
}

/// Finds the polygon features of a layer, whose geometry the water and land extraction
/// decode.
pub fn polygon_feature_indices(layer: &Layer) -> (r: Vec<usize>)
    ensures
        r@ == polygon_features_of(layer.features@),
{
    let mut r: Vec<usize> = Vec::new();
    let mut i: usize = 0;
    while i < layer.features.len()
        invariant
            i <= layer.features@.len(),
            r@ == polygon_features_of(layer.features@.take(i as int)),
        decreases layer.features.len() - i,
    {
        proof {
            let t = layer.features@.take(i + 1);
            assert(t.drop_last() =~= layer.features@.take(i as int));
        }
        if layer.features[i].geometry_type() == GeomType::Polygon {
            r.push(i);
        }
        i = i + 1;
    }
    assert(layer.features@.take(i as int) =~= layer.features@);
    r
}

/// How the transportation features of a layer were sorted.
#[derive(Clone, Copy, Debug, Default, PartialEq, Eq, Structural)]
pub struct TransportationFeatureCounts {
    pub polygons: usize,
    pub line_strings: usize,
    pub skipped: usize,
}

/// How a selected transportation feature is turned into polygons.
#[derive(Clone, Copy, Debug, PartialEq, Eq, Structural)]
pub enum TransportationKind {
    /// Decoded as polygons.
    Polygon,
    /// Decoded as lines and buffered to the line width.
    LineString,
}

/// The sorting of a layer's transportation features.
#[derive(Clone, Debug, PartialEq, Eq)]
pub struct TransportationSelection {
    pub counts: TransportationFeatureCounts,
    /// Selected features, by position in the layer, in layer order.
    pub features: Vec<(usize, TransportationKind)>,
}

/// The selection over the first `n` features: features failing the class filters, and
/// features that are neither polygons nor lines, are skipped.
pub open spec fn selection_prefix(
    layer: Layer,
    n: int,
    class_filter: Option<Seq<char>>,
    exclude_class: Option<Seq<char>>,
) -> (TransportationFeatureCounts, Seq<(usize, TransportationKind)>)
    decreases n,
{
    if n <= 0 {
        (TransportationFeatureCounts { polygons: 0, line_strings: 0, skipped: 0 }, Seq::empty())
    } else {
        let (c, f) = selection_prefix(layer, n - 1, class_filter, exclude_class);
        let feature = layer.features@[n - 1];
        if !passes_class_filter(feature, layer, class_filter, exclude_class) {
            (TransportationFeatureCounts { skipped: (c.skipped + 1) as usize, ..c }, f)
        } else {
            match geom_type_of(feature.geom_type) {
                GeomType::Polygon => (
                    TransportationFeatureCounts { polygons: (c.polygons + 1) as usize, ..c },
                    f.push(((n - 1) as usize, TransportationKind::Polygon)),
                ),
                GeomType::LineString => (
                    TransportationFeatureCounts { line_strings: (c.line_strings + 1) as usize, ..c },
                    f.push(((n - 1) as usize, TransportationKind::LineString)),
                ),
                _ => (TransportationFeatureCounts { skipped: (c.skipped + 1) as usize, ..c }, f),
            }
        }
    }
}

/// Sorts the features of a transportation layer: which to decode as polygons, which as
/// lines, and how many of each and how many skipped.
pub fn select_transportation_features(
    layer: &Layer,
    class_filter: Option<&str>,
    exclude_class: Option<&str>,
) -> (r: TransportationSelection)
    ensures
        (r.counts, r.features@) == selection_prefix(
            *layer,
            layer.features@.len() as int,
            opt_text(class_filter),
            opt_text(exclude_class),
        ),
        r.counts.polygons + r.counts.line_strings + r.counts.skipped == layer.features@.len(),
{
    let mut counts = TransportationFeatureCounts { polygons: 0, line_strings: 0, skipped: 0 };
    let mut features: Vec<(usize, TransportationKind)> = Vec::new();
    let mut i: usize = 0;
    while i < layer.features.len()
        invariant
            i <= layer.features@.len(),
            (counts, features@) == selection_prefix(*layer, i as int, opt_text(class_filter), opt_text(exclude_class)),
            counts.polygons + counts.line_strings + counts.skipped == i,
        decreases layer.features.len() - i,
    {
        let feature = &layer.features[i];
        if !matches_class_filter(feature, layer, class_filter, exclude_class) {
            counts.skipped = counts.skipped + 1;
        } else {
            match feature.geometry_type() {
                GeomType::Polygon => {
                    counts.polygons = counts.polygons + 1;
                    features.push((i, TransportationKind::Polygon));
                },
                GeomType::LineString => {
                    counts.line_strings = counts.line_strings + 1;
                    features.push((i, TransportationKind::LineString));
                },
                _ => {
                    counts.skipped = counts.skipped + 1;
                },
            }
        }
        i = i + 1;
    }
    TransportationSelection { counts, features }
}

} // verus!
