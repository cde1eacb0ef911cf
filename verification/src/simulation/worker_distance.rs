use vstd::prelude::*;

use crate::buildings::{BuildingPlacement, BuildingType, PlacementView, StockpileResource, views};

use super::distance::{BuildingDistance, DistanceKey, DistanceTable};
use super::pathfinding::pair_key;

verus! {

/// The stockpile resource a weapon workshop draws from.
pub open spec fn workshop_resource(t: BuildingType) -> Option<StockpileResource> {
    match t {
        BuildingType::FletchersWorkshop | BuildingType::PoleturnersWorkshop => Some(StockpileResource::Wood),
        BuildingType::BlacksmithsWorkshop | BuildingType::ArmourersWorkshop => Some(StockpileResource::Iron),
        _ => None,
    }
}

/// Whether workers walk from `a` to `b`: between a weapon workshop and the
/// stockpile of its resource, between a weapon workshop and an armoury,
/// and from an armoury to a wood or iron stockpile.
pub open spec fn worker_route(a: PlacementView, b: PlacementView) -> bool {
    ||| a.building_type.is_weapon_workshop() && b.stockpile_resource == workshop_resource(a.building_type)
    ||| b.building_type.is_weapon_workshop() && a.stockpile_resource == workshop_resource(b.building_type)
    ||| a.building_type.is_weapon_workshop() && b.building_type == BuildingType::Armoury
    ||| a.building_type == BuildingType::Armoury && b.building_type.is_weapon_workshop()
    ||| a.building_type == BuildingType::Armoury && (b.stockpile_resource == Some(StockpileResource::Wood)
        || b.stockpile_resource == Some(StockpileResource::Iron))
}

/// Some pair of buildings with a worker route has key `k`.
pub open spec fn worker_pair(bs: Seq<PlacementView>, k: DistanceKey) -> bool {
    exists|a: int, b: int|
        0 <= a < bs.len() && 0 <= b < bs.len() && worker_route(#[trigger] bs[a], #[trigger] bs[b]) && k == pair_key(
            bs[a].id,
            bs[b].id,
        )
}

/// `w` holds exactly the worker routes among `bs` that `all` records,
/// with the values `all` records.
pub open spec fn worker_fresh(
    bs: Seq<PlacementView>,
    all: Map<DistanceKey, BuildingDistance>,
    w: Map<DistanceKey, BuildingDistance>,
) -> bool {
    &&& forall|k: DistanceKey| #[trigger] w.contains_key(k) <==> (worker_pair(bs, k) && all.contains_key(k))
    &&& forall|k: DistanceKey| #[trigger] w.contains_key(k) ==> w[k] == all[k]
}

spec fn worker_pair_done(bs: Seq<PlacementView>, k: DistanceKey, i: int, j: int) -> bool {
    exists|a: int, b: int|
        0 <= a < bs.len() && 0 <= b < bs.len() && (a < i || (a == i && b < j)) && worker_route(
            #[trigger] bs[a],
            #[trigger] bs[b],
        ) && k == pair_key(bs[a].id, bs[b].id)
}

fn is_worker_route(a: &BuildingPlacement, b: &BuildingPlacement) -> (r: bool)
    ensures
        r == worker_route(a@, b@),
{
    let a_resource = match a.building_type {
        BuildingType::FletchersWorkshop | BuildingType::PoleturnersWorkshop => Some(StockpileResource::Wood),
        BuildingType::BlacksmithsWorkshop | BuildingType::ArmourersWorkshop => Some(StockpileResource::Iron),
        _ => None,
    };
    let b_resource = match b.building_type {
        BuildingType::FletchersWorkshop | BuildingType::PoleturnersWorkshop => Some(StockpileResource::Wood),
        BuildingType::BlacksmithsWorkshop | BuildingType::ArmourersWorkshop => Some(StockpileResource::Iron),
        _ => None,
    };
    let a_workshop = a.building_type.is_workshop();
    let b_workshop = b.building_type.is_workshop();
    let a_armoury = a.building_type == BuildingType::Armoury;
    let b_armoury = b.building_type == BuildingType::Armoury;
    (a_workshop && b.stockpile_resource == a_resource) || (b_workshop && a.stockpile_resource == b_resource) || (
    a_workshop && b_armoury) || (a_armoury && b_workshop) || (a_armoury && (b.stockpile_resource == Some(
        StockpileResource::Wood,
    ) || b.stockpile_resource == Some(StockpileResource::Iron)))
}

/// Copies the route from `start` to `finish` into `out` when `all` has it.
fn insert_distance(out: &mut DistanceTable, all: &DistanceTable, start_building_id: u32, finish_building_id: u32)
    ensures
        final(out)@ == (if all@.contains_key(pair_key(start_building_id, finish_building_id)) {
            old(out)@.insert(
                pair_key(start_building_id, finish_building_id),
                all@[pair_key(start_building_id, finish_building_id)],
            )
        } else {
            old(out)@
        }),
        old(out).keys_distinct() ==> final(out).keys_distinct(),
{
    let key = DistanceKey::new(start_building_id, finish_building_id);
    match all.get(&key) {
        Some(distance) => {
            proof {
                all.lemma_values_keyed(key);
            }
            out.insert(*distance);
        },
        None => {},
    }
}

/// The routes the workers of weapon production walk, copied from `distances`.
pub fn build_worker_distances(buildings: &Vec<BuildingPlacement>, distances: &DistanceTable) -> (r: DistanceTable)
    ensures
        worker_fresh(views(buildings@), distances@, r@),
        r.keys_distinct(),
{
    let ghost bs = views(buildings@);
    let n = buildings.len();
    let mut out = DistanceTable::new();
    let mut i: usize = 0;
    while i < n
        invariant
            bs == views(buildings@),
            n == bs.len(),
            i <= n,
            out.keys_distinct(),
            forall|k: DistanceKey|
                #[trigger] out@.contains_key(k) <==> (worker_pair_done(bs, k, i as int, 0) && distances@.contains_key(k)),
            forall|k: DistanceKey| #[trigger] out@.contains_key(k) ==> out@[k] == distances@[k],
        decreases n - i,
    {
        let mut j: usize = 0;
        while j < n
            invariant
                bs == views(buildings@),
                n == bs.len(),
                i < n,
                j <= n,
                out.keys_distinct(),
                forall|k: DistanceKey|
                    #[trigger] out@.contains_key(k) <==> (worker_pair_done(bs, k, i as int, j as int)
                        && distances@.contains_key(k)),
                forall|k: DistanceKey| #[trigger] out@.contains_key(k) ==> out@[k] == distances@[k],
            decreases n - j,
        {
            let related = is_worker_route(&buildings[i], &buildings[j]);
            if related {
                insert_distance(&mut out, distances, buildings[i].id, buildings[j].id);
            }
            proof {
                let kk = pair_key(bs[i as int].id, bs[j as int].id);
                assert forall|k: DistanceKey|
                    worker_pair_done(bs, k, i as int, j + 1) <==> (worker_pair_done(bs, k, i as int, j as int) || (related
                        && k == kk)) by {
                    if related && k == kk {
                        assert(worker_route(bs[i as int], bs[j as int]));
                    }
                    if worker_pair_done(bs, k, i as int, j + 1) {
                        let (a, b) = choose|a: int, b: int|
                            0 <= a < bs.len() && 0 <= b < bs.len() && (a < i || (a == i && b < j + 1)) && worker_route(
                                #[trigger] bs[a],
                                #[trigger] bs[b],
                            ) && k == pair_key(bs[a].id, bs[b].id);
                        if a == i && b == j {
                            assert(related);
                        } else {
                            assert(worker_pair_done(bs, k, i as int, j as int));
                        }
                    }
                    if worker_pair_done(bs, k, i as int, j as int) {
                        let (a, b) = choose|a: int, b: int|
                            0 <= a < bs.len() && 0 <= b < bs.len() && (a < i || (a == i && b < j)) && worker_route(
                                #[trigger] bs[a],
                                #[trigger] bs[b],
                            ) && k == pair_key(bs[a].id, bs[b].id);
                        assert(a < i || (a == i && b < j + 1));
                    }
                }
            }
            j = j + 1;
        }
        proof {
            assert forall|k: DistanceKey| worker_pair_done(bs, k, i + 1, 0) <==> worker_pair_done(bs, k, i as int, n as int) by {
                if worker_pair_done(bs, k, i + 1, 0) {
                    let (a, b) = choose|a: int, b: int|
                        0 <= a < bs.len() && 0 <= b < bs.len() && (a < i + 1 || (a == i + 1 && b < 0)) && worker_route(
                            #[trigger] bs[a],
                            #[trigger] bs[b],
                        ) && k == pair_key(bs[a].id, bs[b].id);
                    assert(a < i || (a == i && b < n));
                }
                if worker_pair_done(bs, k, i as int, n as int) {
                    let (a, b) = choose|a: int, b: int|
                        0 <= a < bs.len() && 0 <= b < bs.len() && (a < i || (a == i && b < n)) && worker_route(
                            #[trigger] bs[a],
                            #[trigger] bs[b],
                        ) && k == pair_key(bs[a].id, bs[b].id);
                    assert(a < i + 1);
                }
            }
        }
        i = i + 1;
    }
    proof {
        assert forall|k: DistanceKey| worker_pair_done(bs, k, n as int, 0) <==> worker_pair(bs, k) by {
            if worker_pair(bs, k) {
                let (a, b) = choose|a: int, b: int|
                    0 <= a < bs.len() && 0 <= b < bs.len() && worker_route(#[trigger] bs[a], #[trigger] bs[b]) && k == pair_key(
                        bs[a].id,
                        bs[b].id,
                    );
                assert(a < n);
            }
        }
    }
    out
}

} // verus!
