//! The plan of a tile's GLB scene: which meshes it holds, under which names, in which order.
use vstd::prelude::*;

use crate::text::{chars_of, string_from_chars};

verus! {

/// The kinds of mesh a tile's scene can hold.
#[derive(Clone, Copy, Debug, PartialEq, Eq)]
pub enum SceneMeshKind {
    Ground,
    Transportation,
    BuildingRoof,
    BuildingWall,
    WaterSurface,
    WaterBottom,
    WaterSide,
}

/// One mesh of the scene: its kind and the name it is exported under.
#[derive(Clone, Debug, PartialEq, Eq)]
pub struct SceneMeshPart {
    pub kind: SceneMeshKind,
    pub name: String,
}

/// The kind and name of each part.
pub open spec fn parts_view(parts: Seq<SceneMeshPart>) -> Seq<(SceneMeshKind, Seq<char>)> {
    parts.map_values(|p: SceneMeshPart| (p.kind, p.name@))
}

/// A one-part list where `present`, else an empty one.
pub open spec fn part_if(present: bool, kind: SceneMeshKind, name: Seq<char>) -> Seq<(SceneMeshKind, Seq<char>)> {
    if present {
        seq![(kind, name)]
    } else {
        Seq::empty()
    }
}

/// The scene's meshes, in export order: the ground where a land mesh was built; the roads,
/// named after their layer, where a transportation mesh was built; the building roofs and
/// walls where not empty; the water surface, bottom and sides where not empty.
pub open spec fn scene_mesh_plan_of(
    land: bool,
    transportation_layer: Option<Seq<char>>,
    roof: bool,
    wall: bool,
    surface: bool,
    bottom: bool,
    side: bool,
) -> Seq<(SceneMeshKind, Seq<char>)> {
    part_if(land, SceneMeshKind::Ground, "ground"@) + match transportation_layer {
        Some(layer) => seq![(SceneMeshKind::Transportation, layer)],
        None => Seq::empty(),
    } + part_if(roof, SceneMeshKind::BuildingRoof, "building_roof"@) + part_if(
        wall,
        SceneMeshKind::BuildingWall,
        "building_wall"@,
    ) + part_if(surface, SceneMeshKind::WaterSurface, "water_surface"@) + part_if(
        bottom,
        SceneMeshKind::WaterBottom,
        "water_bottom"@,
    ) + part_if(side, SceneMeshKind::WaterSide, "water_side"@)
}

fn push_part_if(parts: &mut Vec<SceneMeshPart>, present: bool, kind: SceneMeshKind, name: &str)
    ensures
        parts_view(final(parts)@) == parts_view(old(parts)@) + part_if(present, kind, name@),
{
    if present {
        let c = chars_of(name);
        let part = SceneMeshPart { kind, name: string_from_chars(c.as_slice()) };
        let ghost before = parts@;
        parts.push(part);
        assert(parts_view(parts@) =~= parts_view(before) + part_if(present, kind, name@));
    } else {
        assert(parts_view(parts@) =~= parts_view(parts@) + part_if(present, kind, name@));
    }
}

/// Plans a tile's scene from which meshes were built: the land mesh, the transportation mesh
/// (given by its layer's name), and which building and water meshes are not empty.
pub fn scene_mesh_plan(
    land: bool,
    transportation_layer: Option<&str>,
    roof: bool,
    wall: bool,
    surface: bool,
    bottom: bool,
    side: bool,
) -> (r: Vec<SceneMeshPart>)
    ensures
        parts_view(r@) == scene_mesh_plan_of(
            land,
            match transportation_layer {
                Some(l) => Some(l@),
                None => None,
            },
            roof,
            wall,
            surface,
            bottom,
            side,
        ),
{
    let mut parts: Vec<SceneMeshPart> = Vec::new();
    assert(parts_view(parts@) =~= Seq::empty());
    push_part_if(&mut parts, land, SceneMeshKind::Ground, "ground");
    let ghost after_land = parts_view(parts@);
    match transportation_layer {
        Some(layer) => push_part_if(&mut parts, true, SceneMeshKind::Transportation, layer),
        None => {},
    }
    let ghost t = match transportation_layer {
        Some(l) => Some(l@),
        None => None::<Seq<char>>,
    };
    assert(parts_view(parts@) =~= after_land + match t {
        Some(layer) => seq![(SceneMeshKind::Transportation, layer)],
        None => Seq::empty(),
    });
    push_part_if(&mut parts, roof, SceneMeshKind::BuildingRoof, "building_roof");
    push_part_if(&mut parts, wall, SceneMeshKind::BuildingWall, "building_wall");
    push_part_if(&mut parts, surface, SceneMeshKind::WaterSurface, "water_surface");
    push_part_if(&mut parts, bottom, SceneMeshKind::WaterBottom, "water_bottom");
    push_part_if(&mut parts, side, SceneMeshKind::WaterSide, "water_side");
    assert(parts_view(parts@) =~= scene_mesh_plan_of(land, t, roof, wall, surface, bottom, side));
    parts
}

} // verus!
