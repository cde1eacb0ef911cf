use vstd::prelude::*;

use crate::buildings::{BuildingPlacement, BuildingType, PlacementView, StockpileResource, views};
use crate::map::MAX_CELL_COUNT;

use super::distance::{BuildingDistance, DistanceKey, DistanceTable};
use super::pathfinding::{distances_bounded, pair_key};
use super::production_cycle::{find_stockpile_for_resource, first_stockpile};

verus! {

/// Work ticks of one wheat farm cycle.
pub const WHEAT_FARM_WORK_TICKS: u64 = 6_950;
/// Loaded walks to the wheat stockpile, each followed by an empty walk
/// back, in one farm cycle.
pub const WHEAT_FARM_WALKS_PER_CYCLE: u32 = 12;
/// Ticks a wind mill needs to grind one unit of wheat.
pub const MILL_PROCESS_TICKS: u64 = 312;
/// Workers of a wind mill.
pub const MILL_WORKER_COUNT: u32 = 3;
/// Work ticks of one bakery batch.
pub const BAKERY_WORK_TICKS: u64 = 1_700;
/// Ticks per cell of a loaded farmer.
pub const FARM_LOADED_TICKS_PER_CELL: u64 = 16;
/// Ticks per cell of a farmer walking back empty.
pub const FARM_EMPTY_TICKS_PER_CELL: u64 = 12;
/// Ticks per cell of a miller.
pub const MILL_TICKS_PER_CELL: u64 = 16;
/// Ticks per cell of a baker.
pub const BAKERY_TICKS_PER_CELL: u64 = 24;

/// A reason the bread chain cannot run completely.
#[derive(Debug, Clone, Copy, PartialEq, Eq, Structural)]
pub enum BreadIssue {
    MissingWheatStockpile,
    MissingFlourStockpile,
    NoGranary,
    UnreachableRoute { start_building_id: u32, finish_building_id: u32 },
    BakeryUnreachable { bakery_id: u32 },
}

/// The walking times of the bread chain: per farm its cycle, per mill the
/// walking part of its cycle, per bakery its batch cycle, all in ticks.
#[derive(Debug, Clone)]
pub struct BreadRoutes {
    pub farm_count: usize,
    pub mill_count: usize,
    pub bakery_count: usize,
    pub granary_count: usize,
    pub farm_cycle_ticks: Vec<(u32, u64)>,
    pub mill_travel_ticks: Vec<(u32, u64)>,
    pub bakery_cycle_ticks: Vec<(u32, u64)>,
    pub issues: Vec<BreadIssue>,
}

/// Ticks a farmer walks per cycle for a farm `distance_cells` from the
/// wheat stockpile: each walk there loaded and back empty.
pub open spec fn farm_travel_ticks_spec(distance_cells: u32) -> int {
    distance_cells * ((FARM_LOADED_TICKS_PER_CELL + FARM_EMPTY_TICKS_PER_CELL) * WHEAT_FARM_WALKS_PER_CYCLE)
}

/// A farm further from the wheat stockpile never makes its farmer's walks
/// shorter, and the walking time is spread evenly over the distance: the
/// extra cells cost what a farm that far away would walk.
pub proof fn lemma_farm_walks_scale(d1: u32, d2: u32)
    requires
        d1 <= d2,
    ensures
        farm_travel_ticks_spec(d1) <= farm_travel_ticks_spec(d2),
        farm_travel_ticks_spec(d2) - farm_travel_ticks_spec(d1) == farm_travel_ticks_spec((d2 - d1) as u32),
        farm_travel_ticks_spec(0) == 0,
{
    let k = (FARM_LOADED_TICKS_PER_CELL + FARM_EMPTY_TICKS_PER_CELL) * WHEAT_FARM_WALKS_PER_CYCLE;
    assert(k == 336);
    assert(d1 * 336 <= d2 * 336) by (nonlinear_arith)
        requires
            d1 <= d2,
    ;
    assert(d2 * 336 - d1 * 336 == (d2 - d1) * 336) by (nonlinear_arith);
}

pub fn farm_travel_ticks(distance_cells: u32) -> (r: u64)
    ensures
        r == farm_travel_ticks_spec(distance_cells),
        r <= 0xffff_ffff * 336,
{
    let walks: u64 = WHEAT_FARM_WALKS_PER_CYCLE as u64;
    let round_trip: u64 = FARM_LOADED_TICKS_PER_CELL + FARM_EMPTY_TICKS_PER_CELL;
    assert(walks == 12 && round_trip == 28);
    let per_cell: u64 = round_trip * walks;
    assert(per_cell == 336);
    assert(distance_cells * 336 <= 0xffff_ffff * 336) by (nonlinear_arith)
        requires
            distance_cells <= 0xffff_ffff,
    ;
    distance_cells as u64 * per_cell
}

/// The recorded length of the route from `a` to `b`, if it is reachable.
pub open spec fn route_len(t: Map<DistanceKey, BuildingDistance>, a: u32, b: u32) -> Option<u32> {
    if t.contains_key(pair_key(a, b)) {
        t[pair_key(a, b)].distance_cells
    } else {
        None
    }
}

/// Number of buildings of type `ty`.
pub open spec fn count_of(bs: Seq<PlacementView>, ty: BuildingType) -> nat
    decreases bs.len(),
{
    if bs.len() == 0 {
        0
    } else {
        count_of(bs.drop_last(), ty) + if bs.last().building_type == ty {
            1nat
        } else {
            0nat
        }
    }
}

/// Cycle ticks of every farm with a route to wheat stockpile `w`.
pub open spec fn farm_cycles(bs: Seq<PlacementView>, t: Map<DistanceKey, BuildingDistance>, w: u32) -> Seq<(u32, u64)>
    decreases bs.len(),
{
    if bs.len() == 0 {
        Seq::empty()
    } else {
        let rest = farm_cycles(bs.drop_last(), t, w);
        let b = bs.last();
        if b.building_type == BuildingType::WheatFarm && route_len(t, b.id, w) is Some {
            rest.push((b.id, (WHEAT_FARM_WORK_TICKS + farm_travel_ticks_spec(route_len(t, b.id, w)->0)) as u64))
        } else {
            rest
        }
    }
}

/// The unreachable farm routes.
pub open spec fn farm_issues(bs: Seq<PlacementView>, t: Map<DistanceKey, BuildingDistance>, w: u32) -> Seq<BreadIssue>
    decreases bs.len(),
{
    if bs.len() == 0 {
        Seq::empty()
    } else {
        let rest = farm_issues(bs.drop_last(), t, w);
        let b = bs.last();
        if b.building_type == BuildingType::WheatFarm && route_len(t, b.id, w) is None {
            rest.push(BreadIssue::UnreachableRoute { start_building_id: b.id, finish_building_id: w })
        } else {
            rest
        }
    }
}

/// The cells of a mill's round flour stockpile -> wheat stockpile -> mill
/// -> flour stockpile, or the first leg that is unreachable.
pub open spec fn mill_route(t: Map<DistanceKey, BuildingDistance>, flour: u32, wheat: u32, mill: u32) -> Result<int, BreadIssue> {
    match route_len(t, flour, wheat) {
        None => Err(BreadIssue::UnreachableRoute { start_building_id: flour, finish_building_id: wheat }),
        Some(d1) => match route_len(t, wheat, mill) {
            None => Err(BreadIssue::UnreachableRoute { start_building_id: wheat, finish_building_id: mill }),
            Some(d2) => match route_len(t, mill, flour) {
                None => Err(BreadIssue::UnreachableRoute { start_building_id: mill, finish_building_id: flour }),
                Some(d3) => Ok(d1 + d2 + d3),
            },
        },
    }
}

/// Walking ticks of every mill with a complete round.
pub open spec fn mill_travels(bs: Seq<PlacementView>, t: Map<DistanceKey, BuildingDistance>, flour: u32, wheat: u32) -> Seq<
    (u32, u64),
>
    decreases bs.len(),
{
    if bs.len() == 0 {
        Seq::empty()
    } else {
        let rest = mill_travels(bs.drop_last(), t, flour, wheat);
        let b = bs.last();
        if b.building_type == BuildingType::Windmill && mill_route(t, flour, wheat, b.id) is Ok {
            rest.push((b.id, (mill_route(t, flour, wheat, b.id)->Ok_0 * MILL_TICKS_PER_CELL) as u64))
        } else {
            rest
        }
    }
}

/// The first unreachable leg of every mill without a complete round.
pub open spec fn mill_issues(bs: Seq<PlacementView>, t: Map<DistanceKey, BuildingDistance>, flour: u32, wheat: u32) -> Seq<
    BreadIssue,
>
    decreases bs.len(),
{
    if bs.len() == 0 {
        Seq::empty()
    } else {
        let rest = mill_issues(bs.drop_last(), t, flour, wheat);
        let b = bs.last();
        if b.building_type == BuildingType::Windmill && mill_route(t, flour, wheat, b.id) is Err {
            rest.push(mill_route(t, flour, wheat, b.id)->Err_0)
        } else {
            rest
        }
    }
}

/// The cells of a bakery's round granary -> flour stockpile -> bakery ->
/// granary through granary `g`, if every leg is reachable.
pub open spec fn bakery_round(t: Map<DistanceKey, BuildingDistance>, g: u32, flour: u32, bakery: u32) -> Option<int> {
    match route_len(t, g, flour) {
        None => None,
        Some(d1) => match route_len(t, flour, bakery) {
            None => None,
            Some(d2) => match route_len(t, bakery, g) {
                None => None,
                Some(d3) => Some(d1 + d2 + d3),
            },
        },
    }
}

pub open spec fn min_option(a: Option<int>, b: Option<int>) -> Option<int> {
    match (a, b) {
        (Some(x), Some(y)) => Some(if y < x { y } else { x }),
        (Some(x), None) => Some(x),
        (None, y) => y,
    }
}

/// The shortest bakery round over all granaries.
pub open spec fn best_bakery_round(bs: Seq<PlacementView>, t: Map<DistanceKey, BuildingDistance>, flour: u32, bakery: u32) -> Option<
    int,
>
    decreases bs.len(),
{
    if bs.len() == 0 {
        None
    } else {
        let rest = best_bakery_round(bs.drop_last(), t, flour, bakery);
        let b = bs.last();
        if b.building_type == BuildingType::Granary {
            min_option(rest, bakery_round(t, b.id, flour, bakery))
        } else {
            rest
        }
    }
}

/// The best bakery round is the shortest: no granary gives a shorter
/// round, and some granary gives exactly that one.
proof fn lemma_best_round_is_least(bs: Seq<PlacementView>, t: Map<DistanceKey, BuildingDistance>, flour: u32, bakery: u32)
    ensures
        forall|j: int|
            0 <= j < bs.len() && (#[trigger] bs[j]).building_type == BuildingType::Granary && bakery_round(
                t,
                bs[j].id,
                flour,
                bakery,
            ) is Some ==> best_bakery_round(bs, t, flour, bakery) is Some && best_bakery_round(bs, t, flour, bakery)->0
                <= bakery_round(t, bs[j].id, flour, bakery)->0,
        best_bakery_round(bs, t, flour, bakery) is Some ==> exists|j: int|
            0 <= j < bs.len() && (#[trigger] bs[j]).building_type == BuildingType::Granary && bakery_round(
                t,
                bs[j].id,
                flour,
                bakery,
            ) == best_bakery_round(bs, t, flour, bakery),
    decreases bs.len(),
{
    if bs.len() > 0 {
        let p = bs.drop_last();
        lemma_best_round_is_least(p, t, flour, bakery);
        let n = bs.len() - 1;
        assert forall|j: int|
            0 <= j < bs.len() && (#[trigger] bs[j]).building_type == BuildingType::Granary && bakery_round(
                t,
                bs[j].id,
                flour,
                bakery,
            ) is Some implies best_bakery_round(bs, t, flour, bakery) is Some && best_bakery_round(bs, t, flour, bakery)->0
            <= bakery_round(t, bs[j].id, flour, bakery)->0 by {
            if j < n {
                assert(p[j] == bs[j]);
            }
        }
        if best_bakery_round(bs, t, flour, bakery) is Some {
            if bs[n].building_type == BuildingType::Granary && best_bakery_round(bs, t, flour, bakery) == bakery_round(
                t,
                bs[n].id,
                flour,
                bakery,
            ) {
            } else {
                let j = choose|j: int|
                    0 <= j < p.len() && (#[trigger] p[j]).building_type == BuildingType::Granary && bakery_round(
                        t,
                        p[j].id,
                        flour,
                        bakery,
                    ) == best_bakery_round(p, t, flour, bakery);
                assert(bs[j] == p[j]);
            }
        }
    }
}

/// A bakery round is three recorded walks, each at most `u32::MAX` cells.
proof fn lemma_round_bounded(t: Map<DistanceKey, BuildingDistance>, g: u32, flour: u32, bakery: u32)
    ensures
        bakery_round(t, g, flour, bakery) matches Some(c) ==> 0 <= c <= 3 * u32::MAX,
{
}

/// Every listed bakery cycle is the work time plus the walk of that
/// bakery's best round.
proof fn lemma_cycles_use_best_round(all: Seq<PlacementView>, bs: Seq<PlacementView>, t: Map<DistanceKey, BuildingDistance>, flour: u32)
    ensures
        forall|k: int|
            0 <= k < bakery_cycles(all, bs, t, flour).len() ==> {
                let e = #[trigger] bakery_cycles(all, bs, t, flour)[k];
                &&& best_bakery_round(all, t, flour, e.0) is Some
                &&& e.1 == (BAKERY_WORK_TICKS + best_bakery_round(all, t, flour, e.0)->0 * BAKERY_TICKS_PER_CELL) as u64
            },
    decreases bs.len(),
{
    if bs.len() > 0 {
        lemma_cycles_use_best_round(all, bs.drop_last(), t, flour);
    }
}

/// A bakery works through its nearest granary: each bakery cycle reported
/// is the bakery's work time plus the walk of its round through some
/// granary (granary, flour stockpile, bakery, back to the granary), and
/// that round is no longer than the round through any granary the bakery
/// can reach, so an added granary never makes a bakery slower.
pub proof fn lemma_bakery_uses_shortest_round(
    all: Seq<PlacementView>,
    bs: Seq<PlacementView>,
    t: Map<DistanceKey, BuildingDistance>,
    flour: u32,
)
    ensures
        forall|k: int, j: int|
            0 <= k < bakery_cycles(all, bs, t, flour).len() && 0 <= j < all.len() && (#[trigger] all[j]).building_type
                == BuildingType::Granary && bakery_round(t, all[j].id, flour, (#[trigger] bakery_cycles(all, bs, t, flour)[k]).0)
                is Some ==> bakery_cycles(all, bs, t, flour)[k].1 <= BAKERY_WORK_TICKS + bakery_round(
                t,
                all[j].id,
                flour,
                bakery_cycles(all, bs, t, flour)[k].0,
            )->0 * BAKERY_TICKS_PER_CELL,
        forall|k: int|
            0 <= k < bakery_cycles(all, bs, t, flour).len() ==> exists|j: int|
                0 <= j < all.len() && (#[trigger] all[j]).building_type == BuildingType::Granary && bakery_round(
                    t,
                    all[j].id,
                    flour,
                    (#[trigger] bakery_cycles(all, bs, t, flour)[k]).0,
                ) is Some && bakery_cycles(all, bs, t, flour)[k].1 == BAKERY_WORK_TICKS + bakery_round(
                    t,
                    all[j].id,
                    flour,
                    bakery_cycles(all, bs, t, flour)[k].0,
                )->0 * BAKERY_TICKS_PER_CELL,
{
    let cycles = bakery_cycles(all, bs, t, flour);
    lemma_cycles_use_best_round(all, bs, t, flour);
    assert forall|k: int, j: int|
        0 <= k < cycles.len() && 0 <= j < all.len() && (#[trigger] all[j]).building_type == BuildingType::Granary
            && bakery_round(t, all[j].id, flour, (#[trigger] cycles[k]).0) is Some implies cycles[k].1
        <= BAKERY_WORK_TICKS + bakery_round(t, all[j].id, flour, cycles[k].0)->0 * BAKERY_TICKS_PER_CELL by {
        let e = cycles[k];
        lemma_best_round_is_least(all, t, flour, e.0);
        let b = best_bakery_round(all, t, flour, e.0)->0;
        let g = choose|g: int|
            0 <= g < all.len() && (#[trigger] all[g]).building_type == BuildingType::Granary && bakery_round(t, all[g].id, flour, e.0)
                == best_bakery_round(all, t, flour, e.0);
        lemma_round_bounded(t, all[g].id, flour, e.0);
        assert(0 <= b <= 3 * u32::MAX);
        assert(e.1 == BAKERY_WORK_TICKS + b * BAKERY_TICKS_PER_CELL);
    }
    assert forall|k: int| 0 <= k < cycles.len() implies exists|j: int|
        0 <= j < all.len() && (#[trigger] all[j]).building_type == BuildingType::Granary && bakery_round(
            t,
            all[j].id,
            flour,
            (#[trigger] cycles[k]).0,
        ) is Some && cycles[k].1 == BAKERY_WORK_TICKS + bakery_round(t, all[j].id, flour, cycles[k].0)->0
            * BAKERY_TICKS_PER_CELL by {
        let e = cycles[k];
        lemma_best_round_is_least(all, t, flour, e.0);
        let g = choose|g: int|
            0 <= g < all.len() && (#[trigger] all[g]).building_type == BuildingType::Granary && bakery_round(t, all[g].id, flour, e.0)
                == best_bakery_round(all, t, flour, e.0);
        lemma_round_bounded(t, all[g].id, flour, e.0);
        assert(e.1 == BAKERY_WORK_TICKS + bakery_round(t, all[g].id, flour, e.0)->0 * BAKERY_TICKS_PER_CELL);
    }
}

/// Batch cycle ticks of every bakery with a round through some granary.
pub open spec fn bakery_cycles(all: Seq<PlacementView>, bs: Seq<PlacementView>, t: Map<DistanceKey, BuildingDistance>, flour: u32) -> Seq<
    (u32, u64),
>
    decreases bs.len(),
{
    if bs.len() == 0 {
        Seq::empty()
    } else {
        let rest = bakery_cycles(all, bs.drop_last(), t, flour);
        let b = bs.last();
        if b.building_type == BuildingType::Bakery && best_bakery_round(all, t, flour, b.id) is Some {
            rest.push((b.id, (BAKERY_WORK_TICKS + best_bakery_round(all, t, flour, b.id)->0 * BAKERY_TICKS_PER_CELL) as u64))
        } else {
            rest
        }
    }
}

/// The bakeries without any round.
pub open spec fn bakery_issues(all: Seq<PlacementView>, bs: Seq<PlacementView>, t: Map<DistanceKey, BuildingDistance>, flour: u32) -> Seq<
    BreadIssue,
>
    decreases bs.len(),
{
    if bs.len() == 0 {
        Seq::empty()
    } else {
        let rest = bakery_issues(all, bs.drop_last(), t, flour);
        let b = bs.last();
        if b.building_type == BuildingType::Bakery && best_bakery_round(all, t, flour, b.id) is None {
            rest.push(BreadIssue::BakeryUnreachable { bakery_id: b.id })
        } else {
            rest
        }
    }
}

/// Every issue of the bread chain, in the order they are found: missing
/// stockpiles and granary, then unreachable farm, mill and bakery routes.
pub open spec fn bread_issues(bs: Seq<PlacementView>, t: Map<DistanceKey, BuildingDistance>) -> Seq<BreadIssue> {
    let wheat = first_stockpile(bs, StockpileResource::Wheat);
    let flour = first_stockpile(bs, StockpileResource::Flour);
    let missing = (if wheat is None {
        seq![BreadIssue::MissingWheatStockpile]
    } else {
        Seq::empty()
    }) + (if flour is None {
        seq![BreadIssue::MissingFlourStockpile]
    } else {
        Seq::empty()
    }) + (if count_of(bs, BuildingType::Granary) == 0 {
        seq![BreadIssue::NoGranary]
    } else {
        Seq::empty()
    });
    let farms = match wheat {
        Some(w) => farm_issues(bs, t, w),
        None => Seq::empty(),
    };
    let mills = match (wheat, flour) {
        (Some(w), Some(f)) => mill_issues(bs, t, f, w),
        _ => Seq::empty(),
    };
    let bakeries = match flour {
        Some(f) => bakery_issues(bs, bs, t, f),
        None => Seq::empty(),
    };
    missing + farms + mills + bakeries
}

/// The route length between two buildings, if reachable.
fn distance(distances: &DistanceTable, start_id: u32, finish_id: u32) -> (r: Option<u32>)
    ensures
        r == route_len(distances@, start_id, finish_id),
{
    match distances.get(&DistanceKey::new(start_id, finish_id)) {
        Some(d) => d.distance_cells,
        None => None,
    }
}

/// Number of buildings of type `ty`.
fn count_buildings(buildings: &Vec<BuildingPlacement>, ty: BuildingType) -> (r: usize)
    ensures
        r == count_of(views(buildings@), ty),
{
    let ghost bs = views(buildings@);
    let mut n: usize = 0;
    let mut i: usize = 0;
    while i < buildings.len()
        invariant
            bs == views(buildings@),
            i <= bs.len(),
            n == count_of(bs.subrange(0, i as int), ty),
            n <= i,
        decreases bs.len() - i,
    {
        assert(bs.subrange(0, i + 1).drop_last() =~= bs.subrange(0, i as int));
        assert(buildings@[i as int]@ == bs[i as int]);
        if buildings[i].building_type == ty {
            n = n + 1;
        }
        i = i + 1;
    }
    assert(bs.subrange(0, i as int) =~= bs);
    n
}

/// The walking times of the bread chain on the recorded routes, and what
/// keeps parts of it from running.
pub fn bread_routes(buildings: &Vec<BuildingPlacement>, distances: &DistanceTable) -> (r: BreadRoutes)
    requires
        distances_bounded(distances@, MAX_CELL_COUNT as nat),
    ensures
        r.farm_count == count_of(views(buildings@), BuildingType::WheatFarm),
        r.mill_count == count_of(views(buildings@), BuildingType::Windmill),
        r.bakery_count == count_of(views(buildings@), BuildingType::Bakery),
        r.granary_count == count_of(views(buildings@), BuildingType::Granary),
        r.farm_cycle_ticks@ == match first_stockpile(views(buildings@), StockpileResource::Wheat) {
            Some(w) => farm_cycles(views(buildings@), distances@, w),
            None => Seq::empty(),
        },
        r.mill_travel_ticks@ == match (
            first_stockpile(views(buildings@), StockpileResource::Wheat),
            first_stockpile(views(buildings@), StockpileResource::Flour),
        ) {
            (Some(w), Some(f)) => mill_travels(views(buildings@), distances@, f, w),
            _ => Seq::empty(),
        },
        r.bakery_cycle_ticks@ == match first_stockpile(views(buildings@), StockpileResource::Flour) {
            Some(f) => bakery_cycles(views(buildings@), views(buildings@), distances@, f),
            None => Seq::empty(),
        },
        r.issues@ == bread_issues(views(buildings@), distances@),
{
    let ghost bs = views(buildings@);
    let ghost t = distances@;
    let wheat = find_stockpile_for_resource(buildings, StockpileResource::Wheat);
    let flour = find_stockpile_for_resource(buildings, StockpileResource::Flour);
    let wheat_id: Option<u32> = match wheat {
        Some(b) => Some(b.id),
        None => None,
    };
    let flour_id: Option<u32> = match flour {
        Some(b) => Some(b.id),
        None => None,
    };
    let farm_count = count_buildings(buildings, BuildingType::WheatFarm);
    let mill_count = count_buildings(buildings, BuildingType::Windmill);
    let bakery_count = count_buildings(buildings, BuildingType::Bakery);
    let granary_count = count_buildings(buildings, BuildingType::Granary);
    let mut issues: Vec<BreadIssue> = Vec::new();
    if wheat_id.is_none() {
        issues.push(BreadIssue::MissingWheatStockpile);
    }
    if flour_id.is_none() {
        issues.push(BreadIssue::MissingFlourStockpile);
    }
    if granary_count == 0 {
        issues.push(BreadIssue::NoGranary);
    }
    let ghost missing = issues@;
    let mut farm_cycle_ticks: Vec<(u32, u64)> = Vec::new();
    if let Some(w) = wheat_id {
        let mut i: usize = 0;
        while i < buildings.len()
            invariant
                bs == views(buildings@),
                t == distances@,
                distances_bounded(t, MAX_CELL_COUNT as nat),
                i <= bs.len(),
                farm_cycle_ticks@ == farm_cycles(bs.subrange(0, i as int), t, w),
                issues@ == missing + farm_issues(bs.subrange(0, i as int), t, w),
            decreases bs.len() - i,
        {
            assert(bs.subrange(0, i + 1).drop_last() =~= bs.subrange(0, i as int));
            assert(buildings@[i as int]@ == bs[i as int]);
            if buildings[i].building_type == BuildingType::WheatFarm {
                match distance(distances, buildings[i].id, w) {
                    Some(d) => {
                        proof {
                            assert(t.contains_key(pair_key(buildings@[i as int].id, w)));
                        }
                        farm_cycle_ticks.push((buildings[i].id, WHEAT_FARM_WORK_TICKS + farm_travel_ticks(d)));
                    },
                    None => {
                        issues.push(BreadIssue::UnreachableRoute { start_building_id: buildings[i].id, finish_building_id: w });
                        assert(issues@ =~= missing + farm_issues(bs.subrange(0, i + 1), t, w));
                    },
                }
            }
            i = i + 1;
        }
        assert(bs.subrange(0, i as int) =~= bs);
    } else {
        assert(issues@ =~= missing + Seq::<BreadIssue>::empty());
    }
    let ghost after_farms = issues@;
    let mut mill_travel_ticks: Vec<(u32, u64)> = Vec::new();
    match (wheat_id, flour_id) {
        (Some(w), Some(f)) => {
            let mut i: usize = 0;
            assert(after_farms =~= after_farms + mill_issues(bs.subrange(0, 0), t, f, w));
            while i < buildings.len()
                invariant
                    bs == views(buildings@),
                    t == distances@,
                    distances_bounded(t, MAX_CELL_COUNT as nat),
                    i <= bs.len(),
                    mill_travel_ticks@ == mill_travels(bs.subrange(0, i as int), t, f, w),
                    issues@ == after_farms + mill_issues(bs.subrange(0, i as int), t, f, w),
                decreases bs.len() - i,
            {
                assert(bs.subrange(0, i + 1).drop_last() =~= bs.subrange(0, i as int));
                assert(buildings@[i as int]@ == bs[i as int]);
                if buildings[i].building_type == BuildingType::Windmill {
                    let mill = buildings[i].id;
                    match distance(distances, f, w) {
                        None => {
                            issues.push(BreadIssue::UnreachableRoute { start_building_id: f, finish_building_id: w });
                            assert(issues@ =~= after_farms + mill_issues(bs.subrange(0, i + 1), t, f, w));
                        },
                        Some(d1) => match distance(distances, w, mill) {
                            None => {
                                issues.push(BreadIssue::UnreachableRoute { start_building_id: w, finish_building_id: mill });
                                assert(issues@ =~= after_farms + mill_issues(bs.subrange(0, i + 1), t, f, w));
                            },
                            Some(d2) => match distance(distances, mill, f) {
                                None => {
                                    issues.push(BreadIssue::UnreachableRoute { start_building_id: mill, finish_building_id: f });
                                    assert(issues@ =~= after_farms + mill_issues(bs.subrange(0, i + 1), t, f, w));
                                },
                                Some(d3) => {
                                    proof {
                                        assert(t.contains_key(pair_key(f, w)));
                                        assert(t.contains_key(pair_key(w, mill)));
                                        assert(t.contains_key(pair_key(mill, f)));
                                    }
                                    let cells = d1 as u64 + d2 as u64 + d3 as u64;
                                    mill_travel_ticks.push((mill, cells * MILL_TICKS_PER_CELL));
                                },
                            },
                        },
                    }
                }
                i = i + 1;
            }
            assert(bs.subrange(0, i as int) =~= bs);
        },
        _ => {
            assert(issues@ =~= after_farms + Seq::<BreadIssue>::empty());
        },
    }
    let ghost after_mills = issues@;
    let mut bakery_cycle_ticks: Vec<(u32, u64)> = Vec::new();
    if let Some(f) = flour_id {
        let mut i: usize = 0;
        assert(after_mills =~= after_mills + bakery_issues(bs, bs.subrange(0, 0), t, f));
        while i < buildings.len()
            invariant
                bs == views(buildings@),
                t == distances@,
                distances_bounded(t, MAX_CELL_COUNT as nat),
                i <= bs.len(),
                bakery_cycle_ticks@ == bakery_cycles(bs, bs.subrange(0, i as int), t, f),
                issues@ == after_mills + bakery_issues(bs, bs.subrange(0, i as int), t, f),
            decreases bs.len() - i,
        {
            assert(bs.subrange(0, i + 1).drop_last() =~= bs.subrange(0, i as int));
            assert(buildings@[i as int]@ == bs[i as int]);
            if buildings[i].building_type == BuildingType::Bakery {
                let bakery = buildings[i].id;
                match best_round(buildings, distances, f, bakery) {
                    Some(cells) => {
                        bakery_cycle_ticks.push((bakery, BAKERY_WORK_TICKS + cells * BAKERY_TICKS_PER_CELL));
                    },
                    None => {
                        issues.push(BreadIssue::BakeryUnreachable { bakery_id: bakery });
                        assert(issues@ =~= after_mills + bakery_issues(bs, bs.subrange(0, i + 1), t, f));
                    },
                }
            }
            i = i + 1;
        }
        assert(bs.subrange(0, i as int) =~= bs);
    } else {
        assert(issues@ =~= after_mills + Seq::<BreadIssue>::empty());
    }
    BreadRoutes {
        farm_count,
        mill_count,
        bakery_count,
        granary_count,
        farm_cycle_ticks,
        mill_travel_ticks,
        bakery_cycle_ticks,
        issues,
    }
}

/// The shortest round from a granary through the flour stockpile to the
/// bakery and back, over all granaries.
fn best_round(buildings: &Vec<BuildingPlacement>, distances: &DistanceTable, flour: u32, bakery: u32) -> (r: Option<u64>)
    requires
        distances_bounded(distances@, MAX_CELL_COUNT as nat),
    ensures
        match best_bakery_round(views(buildings@), distances@, flour, bakery) {
            Some(c) => r == Some(c as u64) && 0 <= c <= 3 * MAX_CELL_COUNT,
            None => r is None,
        },
{
    let ghost bs = views(buildings@);
    let ghost t = distances@;
    let mut best: Option<u64> = None;
    let mut i: usize = 0;
    while i < buildings.len()
        invariant
            bs == views(buildings@),
            t == distances@,
            distances_bounded(t, MAX_CELL_COUNT as nat),
            i <= bs.len(),
            match best_bakery_round(bs.subrange(0, i as int), t, flour, bakery) {
                Some(c) => best == Some(c as u64) && 0 <= c <= 3 * MAX_CELL_COUNT,
                None => best is None,
            },
        decreases bs.len() - i,
    {
        assert(bs.subrange(0, i + 1).drop_last() =~= bs.subrange(0, i as int));
        assert(buildings@[i as int]@ == bs[i as int]);
        if buildings[i].building_type == BuildingType::Granary {
            let g = buildings[i].id;
            let round: Option<u64> = match distance(distances, g, flour) {
                None => None,
                Some(d1) => match distance(distances, flour, bakery) {
                    None => None,
                    Some(d2) => match distance(distances, bakery, g) {
                        None => None,
                        Some(d3) => {
                            proof {
                                assert(t.contains_key(pair_key(g, flour)));
                                assert(t.contains_key(pair_key(flour, bakery)));
                                assert(t.contains_key(pair_key(bakery, g)));
                            }
                            Some(d1 as u64 + d2 as u64 + d3 as u64)
                        },
                    },
                },
            };
            best = match (best, round) {
                (Some(x), Some(y)) => Some(if y < x { y } else { x }),
                (Some(x), None) => Some(x),
                (None, y) => y,
            };
        }
        i = i + 1;
    }
    assert(bs.subrange(0, i as int) =~= bs);
    best
}

} // verus!
