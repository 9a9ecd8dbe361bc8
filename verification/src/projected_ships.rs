//! The viewer's projected ships kept in step with the registry's current projections: which
//! ship entity each projection updates, which projections need a new entity, and which
//! entities go because their ship is no longer projected.
use vstd::prelude::*;

verus! {

/// The first entity, in the given order, that shows ship `ship`; `entities` pairs each
/// entity with the ship it shows.
pub open spec fn first_entity_for(entities: Seq<(u64, u64)>, ship: u64) -> Option<u64>
    decreases entities.len(),
{
    if entities.len() == 0 {
        None
    } else if entities[0].1 == ship {
        Some(entities[0].0)
    } else {
        first_entity_for(entities.drop_first(), ship)
    }
}

/// The entities, in order, whose ship has no current projection.
pub open spec fn stale_entities(entities: Seq<(u64, u64)>, projected: Seq<u64>) -> Seq<(u64, u64)> {
    entities.filter(|e: (u64, u64)| !projected.contains(e.1))
}

/// The physical ship entities, in order, that stand for ship `ship`.
pub open spec fn physical_for(physical: Seq<(u64, u64)>, ship: u64) -> Seq<u64> {
    physical.filter(|p: (u64, u64)| p.1 == ship).map_values(|p: (u64, u64)| p.0)
}

/// For each stale entity in order, the physical ship entities of its ship.
pub open spec fn physical_despawns(stale: Seq<(u64, u64)>, physical: Seq<(u64, u64)>) -> Seq<u64>
    decreases stale.len(),
{
    if stale.len() == 0 {
        Seq::empty()
    } else {
        physical_despawns(stale.drop_last(), physical) + physical_for(physical, stale.last().1)
    }
}

/// How the projected ship entities follow a new set of projections.
#[derive(Clone, Debug, PartialEq, Eq)]
pub struct ProjectedShipPlan {
    /// For each projection, in order: the entity that already shows its ship and is updated,
    /// or none where a new entity is spawned.
    pub row_targets: Vec<Option<u64>>,
    /// The projected ship entities to despawn.
    pub despawn_projected: Vec<u64>,
    /// The physical ship entities to despawn with them.
    pub despawn_physical: Vec<u64>,
}

fn first_entity_exec(entities: &[(u64, u64)], ship: u64) -> (r: Option<u64>)
    ensures
        r == first_entity_for(entities@, ship),
{
    let mut i: usize = 0;
    proof {
        assert(entities@.skip(0) =~= entities@);
    }
    while i < entities.len()
        invariant
            i <= entities@.len(),
            first_entity_for(entities@, ship) == first_entity_for(entities@.skip(i as int), ship),
        decreases entities.len() - i,
    {
        proof {
            assert(entities@.skip(i as int)[0] == entities@[i as int]);
            assert(entities@.skip(i as int).drop_first() =~= entities@.skip(i + 1));
        }
        if entities[i].1 == ship {
            return Some(entities[i].0);
        }
        i = i + 1;
    }
    proof {
        assert(entities@.skip(i as int).len() == 0);
    }
    None
}

fn holds_ship(ships: &[u64], ship: u64) -> (b: bool)
    ensures
        b == ships@.contains(ship),
{
    let mut i: usize = 0;
    while i < ships.len()
        invariant
            i <= ships@.len(),
            forall|j: int| 0 <= j < i ==> ships@[j] != ship,
        decreases ships.len() - i,
    {
        if ships[i] == ship {
            return true;
        }
        i = i + 1;
    }
    false
}

fn push_physical_for(out: &mut Vec<u64>, physical: &[(u64, u64)], ship: u64)
    ensures
        final(out)@ == old(out)@ + physical_for(physical@, ship),
{
    let ghost start = out@;
    let mut i: usize = 0;
    while i < physical.len()
        invariant
            i <= physical@.len(),
            out@ == start + physical_for(physical@.take(i as int), ship),
        decreases physical.len() - i,
    {
        proof {
            reveal(Seq::filter);
            let t = physical@.take(i + 1);
            assert(t.drop_last() =~= physical@.take(i as int));
            assert(t.last() == physical@[i as int]);
        }
        if physical[i].1 == ship {
            out.push(physical[i].0);
        }
        proof {
            assert(out@ =~= start + physical_for(physical@.take(i + 1), ship));
        }
        i = i + 1;
    }
    proof {
        assert(physical@.take(i as int) =~= physical@);
    }
}

/// Plans how the projected ship entities follow the current projections `projected` (the
/// ship of each projection, in order), given the projected ship entities and the physical
/// ship entities, each paired with the ship it shows, in query order.
pub fn plan_projected_ships(projected: &[u64], entities: &[(u64, u64)], physical: &[(u64, u64)]) -> (r:
    ProjectedShipPlan)
    ensures
        r.row_targets@.len() == projected@.len(),
        forall|i: int| 0 <= i < projected@.len() ==> #[trigger] r.row_targets@[i] == first_entity_for(entities@, projected@[i]),
        r.despawn_projected@ == stale_entities(entities@, projected@).map_values(|e: (u64, u64)| e.0),
        r.despawn_physical@ == physical_despawns(stale_entities(entities@, projected@), physical@),
{
    let mut row_targets: Vec<Option<u64>> = Vec::new();
    let mut i: usize = 0;
    while i < projected.len()
        invariant
            i <= projected@.len(),
            row_targets@.len() == i,
            forall|j: int| 0 <= j < i ==> #[trigger] row_targets@[j] == first_entity_for(entities@, projected@[j]),
        decreases projected.len() - i,
    {
        row_targets.push(first_entity_exec(entities, projected[i]));
        i = i + 1;
    }
    let ghost keep = |e: (u64, u64)| !projected@.contains(e.1);
    let mut despawn_projected: Vec<u64> = Vec::new();
    let mut despawn_physical: Vec<u64> = Vec::new();
    let mut k: usize = 0;
    while k < entities.len()
        invariant
            k <= entities@.len(),
            keep == |e: (u64, u64)| !projected@.contains(e.1),
            despawn_projected@ == entities@.take(k as int).filter(keep).map_values(|e: (u64, u64)| e.0),
            despawn_physical@ == physical_despawns(entities@.take(k as int).filter(keep), physical@),
        decreases entities.len() - k,
    {
        let ghost prefix = entities@.take(k as int);
        let ghost next = entities@.take(k + 1);
        proof {
            reveal(Seq::filter);
            assert(next.drop_last() =~= prefix);
            assert(next.last() == entities@[k as int]);
        }
        let entry = entities[k];
        if !holds_ship(projected, entry.1) {
            despawn_projected.push(entry.0);
            push_physical_for(&mut despawn_physical, physical, entry.1);
            proof {
                let f = next.filter(keep);
                assert(f == prefix.filter(keep).push(entry));
                assert(f.drop_last() =~= prefix.filter(keep));
                assert(despawn_projected@ =~= f.map_values(|e: (u64, u64)| e.0));
            }
        } else {
            proof {
                assert(next.filter(keep) == prefix.filter(keep));
            }
        }
        k = k + 1;
    }
    proof {
        assert(entities@.take(k as int) =~= entities@);
    }
    ProjectedShipPlan { row_targets, despawn_projected, despawn_physical }
}

} // verus!
