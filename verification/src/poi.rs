//! Which map objects become points of interest: the place kinds that count as towns, the
//! road kinds that count as streets, and the label a street is listed under.
use vstd::prelude::*;

use crate::text::eq_str;

verus! {

/// The `place` values of the nodes imported as towns.
pub open spec fn town_place(place: Seq<char>) -> bool {
    place == "city"@ || place == "town"@ || place == "village"@ || place == "hamlet"@
}

/// Whether a node with this `place` value is imported as a town.
pub fn is_town_place(place: &str) -> (b: bool)
    ensures
        b == town_place(place@),
{
    let c = crate::text::chars_of(place);
    eq_str(c.as_slice(), "city") || eq_str(c.as_slice(), "town") || eq_str(c.as_slice(), "village") || eq_str(
        c.as_slice(),
        "hamlet",
    )
}

/// The `highway` values of the ways imported as streets: the road classes from motorway down
/// to service roads, and their link roads.
pub open spec fn street_highway(highway: Seq<char>) -> bool {
    ||| highway == "motorway"@
    ||| highway == "trunk"@
    ||| highway == "primary"@
    ||| highway == "secondary"@
    ||| highway == "tertiary"@
    ||| highway == "unclassified"@
    ||| highway == "residential"@
    ||| highway == "living_street"@
    ||| highway == "service"@
    ||| highway == "road"@
    ||| highway == "motorway_link"@
    ||| highway == "trunk_link"@
    ||| highway == "primary_link"@
    ||| highway == "secondary_link"@
    ||| highway == "tertiary_link"@
}

/// Whether a way with this `highway` value is imported as a street.
pub fn is_street_highway(highway: &str) -> (b: bool)
    ensures
        b == street_highway(highway@),
{
    let c = crate::text::chars_of(highway);
    let s = c.as_slice();
    eq_str(s, "motorway") || eq_str(s, "trunk") || eq_str(s, "primary") || eq_str(s, "secondary") || eq_str(
        s,
        "tertiary",
    ) || eq_str(s, "unclassified") || eq_str(s, "residential") || eq_str(s, "living_street") || eq_str(
        s,
        "service",
    ) || eq_str(s, "road") || eq_str(s, "motorway_link") || eq_str(s, "trunk_link") || eq_str(s, "primary_link")
        || eq_str(s, "secondary_link") || eq_str(s, "tertiary_link")
}

/// The label a street is listed under: its `name` tag, else its `ref` tag; a way with
/// neither is not listed.
pub fn street_label<'a>(name: Option<&'a str>, reference: Option<&'a str>) -> (r: Option<&'a str>)
    ensures
        r == match name {
            Some(n) => Some(n),
            None => reference,
        },
{
    match name {
        Some(n) => Some(n),
        None => reference,
    }
}

/// The fewest located nodes a way needs to become a street.
pub const MIN_STREET_POINTS: usize = 2;

/// Whether a way with this many located nodes is long enough to become a street.
pub fn has_street_path(located_points: usize) -> (b: bool)
    ensures
        b == (located_points >= MIN_STREET_POINTS),
{
    located_points >= MIN_STREET_POINTS
}

} // verus!
