use vstd::prelude::*;

use crate::buildings::{
    BuildingComponent, BuildingFactory, BuildingPlacement, BuildingType, EntryPoint, Footprint, PlacementView,
    StockpileResource, fresh_placement, shape_size, stack_offset, views,
};
use crate::map::{CellMap, MapBounds, MapError, MAX_CELL_COUNT, bounds_allocatable};
use crate::walls::{WallSegment, line_cells, max_i32, min_i32};

use super::distance::{BuildingDistance, DistanceKey, DistanceTable};
use super::game_time::GameTime;
use crate::project::{SavedBuilding, loadable_anchors, saved_ids_distinct, saved_views, validate_unique_ids};

use super::entry_logic::{lemma_first_available_ok, building_entry, calculate_building_entry, resolve_entry_point_for_square, square_entry};
use super::layout::{
    CANVAS_MARGIN, additions_ok, bounds_within, canvas_for, grow_bounds, grown_bounds, lemma_layout_grow, lemma_margin,
    margin_high, margin_low, building_at, lemma_layout_add_wall, lemma_wall_cells_in_box, lemma_layout_sublist, picks,
    lemma_filter_equiv, lemma_remove_wall, lemma_anchor_from_cells, wall_ids_distinct, anchor_in_range, building_blocks_at, cells_inside, lemma_building_at_push, lemma_layout_append,
    lemma_placement_ok_facts, lemma_wall_at_push, layout_ok, objects_disjoint, objects_inside, placement_ok, wall_at,
};
use super::pathfinding::{
    distance_record_ok, distances_bounded, distances_fresh, has_id, ids_distinct, pair_key, recompute_building_distances,
    recorded_from_pair,
};
use super::worker_distance::{build_worker_distances, worker_fresh};
use super::bread::{
    BreadRoutes, bakery_cycles, bread_issues, bread_routes, count_of, farm_cycles, mill_travels,
};
use super::production_cycle::{
    ProductionCycle, ProductionCycleError, ProductionRouteUsage, SimulationSettings, WeaponType, distance_cells,
    distance_sum, find_building, find_stockpile_for_resource, is_route, lemma_sums_bounded, lemma_sums_prefix,
    lemma_route_le_sum, lemma_sums_update, merge_usage, merged_route, new_route, phase_result, production_routes, push_leg, ticks_sum,
    travel_ticks_for_distance, travel_ticks_spec, trips_sum, usage_ok, first_stockpile,
};

verus! {

/// Why a layout operation was refused.
#[derive(Debug, Clone, Copy, PartialEq, Eq)]
pub enum SimulatorError {
    MapConflict(MapError),
    InvalidMapSize,
    InvalidWallDirection,
    StockpileDesignationRequiresStockpile,
    InvalidProject(&'static str),
    UnsupportedProjectVersion { version: u32 },
}

impl From<MapError> for SimulatorError {
    fn from(error: MapError) -> SimulatorError {
        SimulatorError::MapConflict(error)
    }
}

impl vstd::std_specs::convert::FromSpecImpl<MapError> for SimulatorError {
    open spec fn obeys_from_spec() -> bool {
        true
    }

    open spec fn from_spec(error: MapError) -> SimulatorError {
        SimulatorError::MapConflict(error)
    }
}

/// What a removal at a cell took away.
#[derive(Debug, Clone, PartialEq, Eq)]
pub enum RemoveOutcome {
    Nothing,
    Buildings { removed_ids: Vec<u32>, goods_yard_group_id: Option<u32> },
    Wall { id: u32 },
}

/// The map reserves exactly the cells of the buildings and walls, and
/// blocks exactly their blocking cells.
pub open spec fn map_matches(map: CellMap, bs: Seq<PlacementView>, ws: Seq<WallSegment>) -> bool {
    &&& forall|x: i32, y: i32| #[trigger] map.occupied_at(x as int, y as int) == (building_at(bs, x, y) || wall_at(ws, x, y))
    &&& forall|x: i32, y: i32|
        #[trigger] map.blocked_at(x as int, y as int) == (building_blocks_at(bs, x, y) || wall_at(ws, x, y))
}

/// Every recorded entry point lies on the canvas.
pub open spec fn entries_inside(b: MapBounds, bs: Seq<PlacementView>) -> bool {
    forall|i: int| 0 <= i < bs.len() ==> ((#[trigger] bs[i]).entry_point matches Some(e) ==> b.has(e.x as int, e.y as int))
}

/// An entry point a building gets is on the map.
pub proof fn lemma_building_entry_inside(map: CellMap, ws: Seq<WallSegment>, t: BuildingType, x: int, y: int, n: int)
    ensures
        building_entry(map, ws, t, x, y, n) matches Some(e) ==> map.in_bounds(e.x as int, e.y as int),
{
    let r = super::entry_logic::wall_rotation(ws, x, y, n);
    lemma_first_available_ok(map, seq![((x + 4) as i32, (y + 3) as i32)], 0);
    lemma_first_available_ok(map, super::entry_logic::entry_candidates(x, y, n, r), 0);
    lemma_first_available_ok(map, super::entry_logic::entry_candidates(x, y, n, 0), 0);
}

/// After refreshing, every entry point is on the map.
pub proof fn lemma_refreshed_inside(map: CellMap, ws: Seq<WallSegment>, bs: Seq<PlacementView>)
    ensures
        entries_inside(map.bounds_spec(), refreshed_all(map, ws, bs)),
{
    let r = refreshed_all(map, ws, bs);
    assert forall|i: int| 0 <= i < r.len() implies ((#[trigger] r[i]).entry_point matches Some(e) ==> map.bounds_spec().has(
        e.x as int,
        e.y as int,
    )) by {
        let b = bs[i];
        lemma_building_entry_inside(map, ws, b.building_type, b.x as int, b.y as int, b.footprint.width as int);
    }
}

/// An entry point is kept while it is on the map and not blocked.
pub open spec fn entry_available(map: CellMap, e: Option<EntryPoint>) -> bool {
    match e {
        Some(p) => map.in_bounds(p.x as int, p.y as int) && !map.blocked_at(p.x as int, p.y as int),
        None => false,
    }
}

/// A sub-structure whose unavailable entry is computed anew.
pub open spec fn refreshed_component(map: CellMap, c: BuildingComponent) -> BuildingComponent {
    BuildingComponent {
        id: c.id,
        component_type: c.component_type,
        x: c.x,
        y: c.y,
        size: c.size,
        entry_point: if entry_available(map, c.entry_point) {
            c.entry_point
        } else {
            square_entry(map, c.x as int, c.y as int, c.size as int, 0)
        },
    }
}

/// A building whose unavailable entry points are computed anew on `map`.
pub open spec fn refreshed(map: CellMap, ws: Seq<WallSegment>, b: PlacementView) -> PlacementView {
    PlacementView {
        id: b.id,
        building_type: b.building_type,
        x: b.x,
        y: b.y,
        goods_yard_group_id: b.goods_yard_group_id,
        stockpile_resource: b.stockpile_resource,
        entry_point: if entry_available(map, b.entry_point) {
            b.entry_point
        } else {
            building_entry(map, ws, b.building_type, b.x as int, b.y as int, b.footprint.width as int)
        },
        footprint: b.footprint,
        components: b.components.map_values(|c: BuildingComponent| refreshed_component(map, c)),
    }
}

/// Every building with its unavailable entry points computed anew.
pub open spec fn refreshed_all(map: CellMap, ws: Seq<WallSegment>, bs: Seq<PlacementView>) -> Seq<PlacementView> {
    bs.map_values(|b: PlacementView| refreshed(map, ws, b))
}

/// Same identity and shape; resources and entries may differ.
pub open spec fn same_shape(a: PlacementView, b: PlacementView) -> bool {
    &&& a.id == b.id
    &&& a.building_type == b.building_type
    &&& a.x == b.x
    &&& a.y == b.y
    &&& a.goods_yard_group_id == b.goods_yard_group_id
    &&& a.footprint == b.footprint
    &&& a.components.len() == b.components.len()
}

pub open spec fn same_shapes(a: Seq<PlacementView>, b: Seq<PlacementView>) -> bool {
    &&& a.len() == b.len()
    &&& forall|i: int| 0 <= i < a.len() ==> same_shape(#[trigger] a[i], b[i])
}

/// Buildings of the same shapes occupy the same cells and keep the layout
/// invariant.
pub proof fn lemma_same_shapes(map: CellMap, bounds: MapBounds, a: Seq<PlacementView>, b: Seq<PlacementView>, ws: Seq<WallSegment>)
    requires
        same_shapes(a, b),
    ensures
        forall|x: i32, y: i32| #[trigger] building_at(b, x, y) == building_at(a, x, y),
        forall|x: i32, y: i32| #[trigger] building_blocks_at(b, x, y) == building_blocks_at(a, x, y),
        map_matches(map, a, ws) ==> map_matches(map, b, ws),
        layout_ok(bounds, a, ws) ==> layout_ok(bounds, b, ws),
{
    assert forall|x: i32, y: i32| #[trigger] building_at(b, x, y) == building_at(a, x, y) by {
        if building_at(a, x, y) {
            let i = choose|i: int| 0 <= i < a.len() && (#[trigger] a[i]).covers(x, y);
            assert(same_shape(a[i], b[i]));
            assert(b[i].covers(x, y));
        }
        if building_at(b, x, y) {
            let i = choose|i: int| 0 <= i < b.len() && (#[trigger] b[i]).covers(x, y);
            assert(same_shape(a[i], b[i]));
            assert(a[i].covers(x, y));
        }
    }
    assert forall|x: i32, y: i32| #[trigger] building_blocks_at(b, x, y) == building_blocks_at(a, x, y) by {
        if building_blocks_at(a, x, y) {
            let i = choose|i: int| 0 <= i < a.len() && (#[trigger] a[i]).blocks(x, y);
            assert(same_shape(a[i], b[i]));
            assert(b[i].blocks(x, y));
        }
        if building_blocks_at(b, x, y) {
            let i = choose|i: int| 0 <= i < b.len() && (#[trigger] b[i]).blocks(x, y);
            assert(same_shape(a[i], b[i]));
            assert(a[i].blocks(x, y));
        }
    }
    if layout_ok(bounds, a, ws) {
        assert forall|i: int| 0 <= i < b.len() implies placement_ok(#[trigger] b[i]) by {
            assert(same_shape(a[i], b[i]));
            assert(placement_ok(a[i]));
        }
        assert forall|i: int| 0 <= i < b.len() implies super::layout::cells_inside(bounds, (#[trigger] b[i]).occupied_cells_spec()) by {
            assert(same_shape(a[i], b[i]));
            assert(super::layout::cells_inside(bounds, a[i].occupied_cells_spec()));
        }
        assert forall|i1: int, i2: int, x: i32, y: i32|
            0 <= i1 < b.len() && 0 <= i2 < b.len() && i1 != i2 && #[trigger] b[i1].covers(x, y) implies !#[trigger] b[i2].covers(x, y) by {
            assert(same_shape(a[i1], b[i1]));
            assert(same_shape(a[i2], b[i2]));
            assert(a[i1].covers(x, y));
            if b[i2].covers(x, y) {
                assert(a[i2].covers(x, y));
            }
        }
        assert forall|i: int, j: int, x: i32, y: i32|
            0 <= i < b.len() && 0 <= j < ws.len() && #[trigger] b[i].covers(x, y) implies !#[trigger] ws[j].cells_spec().contains((x, y)) by {
            assert(same_shape(a[i], b[i]));
            assert(a[i].covers(x, y));
        }
        assert forall|i1: int, i2: int| 0 <= i1 < b.len() && 0 <= i2 < b.len() && i1 != i2 implies (#[trigger] b[i1]).id != (#[trigger] b[i2]).id by {
            assert(same_shape(a[i1], b[i1]));
            assert(same_shape(a[i2], b[i2]));
        }
    }
}

/// Refreshing entries keeps every shape.
pub proof fn lemma_refreshed_shapes(map: CellMap, ws: Seq<WallSegment>, bs: Seq<PlacementView>)
    ensures
        same_shapes(bs, refreshed_all(map, ws, bs)),
{
}

/// Whether an entry point is on the map and free of blocking objects.
fn is_entry_point_available(map: &CellMap, entry_point: Option<EntryPoint>) -> (r: bool)
    requires
        map.wf(),
    ensures
        r == entry_available(*map, entry_point),
{
    match entry_point {
        Some(e) => map.is_in_bounds(e.x, e.y) && !map.is_blocked(e.x, e.y),
        None => false,
    }
}

/// Recomputes the entry points of every building whose entry is gone.
fn refresh_entries(buildings: &mut Vec<BuildingPlacement>, map: &CellMap, walls: &Vec<WallSegment>)
    requires
        map.wf(),
        forall|i: int| 0 <= i < old(buildings)@.len() ==> placement_ok(#[trigger] views(old(buildings)@)[i]),
    ensures
        views(final(buildings)@) == refreshed_all(*map, walls@, views(old(buildings)@)),
{
    let ghost start = views(buildings@);
    let n = buildings.len();
    let mut i: usize = 0;
    while i < n
        invariant
            map.wf(),
            n == start.len(),
            buildings@.len() == n,
            i <= n,
            forall|t: int| 0 <= t < n ==> placement_ok(#[trigger] start[t]),
            forall|t: int| 0 <= t < i ==> (#[trigger] views(buildings@)[t]) == refreshed(*map, walls@, start[t]),
            forall|t: int| i <= t < n ==> (#[trigger] views(buildings@)[t]) == start[t],
        decreases n - i,
    {
        let ghost bv = start[i as int];
        assert(views(buildings@)[i as int] == bv);
        proof {
            lemma_placement_ok_facts(bv);
        }
        let building = &buildings[i];
        let entry = if is_entry_point_available(map, building.entry_point) {
            building.entry_point
        } else {
            calculate_building_entry(map, walls, building.building_type, building.x, building.y, building.width() as i32)
        };
        let mut components: Vec<BuildingComponent> = Vec::new();
        let mut k: usize = 0;
        while k < building.components.len()
            invariant
                map.wf(),
                bv == building@,
                bv.components.len() == 0,
                k <= bv.components.len(),
                components@ =~= bv.components.subrange(0, k as int).map_values(|c: BuildingComponent| refreshed_component(*map, c)),
            decreases bv.components.len() - k,
        {
            let c = building.components[k];
            let e = if is_entry_point_available(map, c.entry_point) {
                c.entry_point
            } else {
                resolve_entry_point_for_square(map, c.x, c.y, c.size as i32, 0)
            };
            components.push(BuildingComponent { entry_point: e, ..c });
            k = k + 1;
        }
        assert(bv.components.subrange(0, k as int) =~= bv.components);
        let mut updated = building.duplicate();
        updated.entry_point = entry;
        updated.components = components;
        assert(updated@ == refreshed(*map, walls@, bv));
        let ghost before = buildings@;
        buildings.set(i, updated);
        proof {
            assert forall|t: int| 0 <= t < i + 1 implies (#[trigger] views(buildings@)[t]) == refreshed(*map, walls@, start[t]) by {
                if t < i {
                    assert(buildings@[t] == before[t]);
                    assert(views(before)[t] == before[t]@);
                }
            }
            assert forall|t: int| i + 1 <= t < n implies (#[trigger] views(buildings@)[t]) == start[t] by {
                assert(buildings@[t] == before[t]);
                assert(views(before)[t] == before[t]@);
            }
        }
        i = i + 1;
    }
    assert(views(buildings@) =~= refreshed_all(*map, walls@, start));
}

/// A new building with the entry points computed on `map`.
pub open spec fn assigned(map: CellMap, ws: Seq<WallSegment>, b: PlacementView) -> PlacementView {
    PlacementView {
        id: b.id,
        building_type: b.building_type,
        x: b.x,
        y: b.y,
        goods_yard_group_id: b.goods_yard_group_id,
        stockpile_resource: b.stockpile_resource,
        entry_point: building_entry(map, ws, b.building_type, b.x as int, b.y as int, b.footprint.width as int),
        footprint: b.footprint,
        components: b.components.map_values(
            |c: BuildingComponent|
                BuildingComponent {
                    id: c.id,
                    component_type: c.component_type,
                    x: c.x,
                    y: c.y,
                    size: c.size,
                    entry_point: square_entry(map, c.x as int, c.y as int, c.size as int, 0),
                },
        ),
    }
}

/// When a cell list is inside the map, a conflict can only be an occupied
/// cell, and there is one unless every cell is free.
pub proof fn lemma_conflict_in_bounds(map: CellMap, cells: Seq<(i32, i32)>, i: int)
    requires
        0 <= i,
        forall|k: int| i <= k < cells.len() ==> map.in_bounds((#[trigger] cells[k]).0 as int, cells[k].1 as int),
    ensures
        map.conflict_from(cells, i) != Some(MapError::OutOfBounds),
        map.conflict_from(cells, i) is None <==> forall|k: int|
            i <= k < cells.len() ==> !map.occupied_at((#[trigger] cells[k]).0 as int, cells[k].1 as int),
    decreases cells.len() - i,
{
    if 0 <= i < cells.len() {
        lemma_conflict_in_bounds(map, cells, i + 1);
    }
}

/// Checks that every cell of every placement is on the map and free.
fn check_placements(map: &CellMap, news: &Vec<BuildingPlacement>) -> (r: Result<(), MapError>)
    requires
        map.wf(),
        forall|k: int| 0 <= k < news@.len() ==> (#[trigger] news@[k])@.fits(),
    ensures
        r is Ok <==> forall|k: int| 0 <= k < news@.len() ==> map.all_free((#[trigger] news@[k])@.occupied_cells_spec()),
        r matches Err(e) ==> exists|k: int| 0 <= k < news@.len() && map.first_conflict((#[trigger] news@[k])@.occupied_cells_spec()) == Some(e),
{
    let mut k: usize = 0;
    while k < news.len()
        invariant
            map.wf(),
            forall|t: int| 0 <= t < news@.len() ==> (#[trigger] news@[t])@.fits(),
            k <= news@.len(),
            forall|t: int| 0 <= t < k ==> map.all_free((#[trigger] news@[t])@.occupied_cells_spec()),
        decreases news@.len() - k,
    {
        match map.can_place(&news[k]) {
            Ok(()) => {},
            Err(e) => {
                assert(map.first_conflict(news@[k as int]@.occupied_cells_spec()) == Some(e));
                return Err(e);
            },
        }
        k = k + 1;
    }
    Ok(())
}

/// The buildings a placement of type `t` at `(x, y)` adds: the four
/// stockpiles of a goods yard, otherwise one building.
pub open spec fn new_placements(next_id: u32, next_group: u32, t: BuildingType, x: i32, y: i32) -> Seq<PlacementView> {
    if t == BuildingType::GoodsYard {
        Seq::new(
            4,
            |k: int|
                fresh_placement(
                    (next_id + k) as u32,
                    BuildingType::Stockpile,
                    (x + stack_offset(k).0) as i32,
                    (y + stack_offset(k).1) as i32,
                    Some(next_group),
                ),
        )
    } else {
        seq![fresh_placement(next_id, t, x, y, None)]
    }
}

/// How many building identifiers placing a building of type `t` takes: the
/// four stockpiles of a goods yard, or one.
pub open spec fn ids_taken(t: BuildingType) -> int {
    if t == BuildingType::GoodsYard {
        4
    } else {
        1
    }
}

/// Some new building would take a cell a building or wall holds.
pub open spec fn placement_conflicts(news: Seq<PlacementView>, bs: Seq<PlacementView>, ws: Seq<WallSegment>) -> bool {
    exists|k: int, x: i32, y: i32|
        0 <= k < news.len() && #[trigger] news[k].covers(x, y) && (building_at(bs, x, y) || wall_at(ws, x, y))
}

/// The new buildings of a placement with a margin around them on `target`
/// may join the layout exactly when none of their cells is taken.
proof fn lemma_new_placements(
    map: CellMap,
    target: MapBounds,
    bs: Seq<PlacementView>,
    ws: Seq<WallSegment>,
    t: BuildingType,
    x: i32,
    y: i32,
    next_id: u32,
    next_group: u32,
)
    requires
        map.wf(),
        map.bounds_spec() == target,
        map_matches(map, bs, ws),
        target.min_x + CANVAS_MARGIN <= x,
        target.min_y + CANVAS_MARGIN <= y,
        x + shape_size(t) + CANVAS_MARGIN <= target.max_x,
        y + shape_size(t) + CANVAS_MARGIN <= target.max_y,
        next_id + ids_taken(t) <= u32::MAX,
        forall|i: int| 0 <= i < bs.len() ==> (#[trigger] bs[i]).id < next_id,
    ensures
        ({
            let news = new_placements(next_id, next_group, t, x, y);
            &&& (forall|k: int| 0 <= k < news.len() ==> map.all_free((#[trigger] news[k]).occupied_cells_spec()))
                <==> !placement_conflicts(news, bs, ws)
            &&& forall|k: int| 0 <= k < news.len() ==> (#[trigger] news[k]).fits()
            &&& forall|k: int, c: int|
                0 <= k < news.len() && 0 <= c < news[k].occupied_cells_spec().len() ==> map.in_bounds(
                    (#[trigger] news[k].occupied_cells_spec()[c]).0 as int,
                    news[k].occupied_cells_spec()[c].1 as int,
                )
            &&& !placement_conflicts(news, bs, ws) ==> additions_ok(target, bs, ws, news)
        }),
{
    let news = new_placements(next_id, next_group, t, x, y);
    assert forall|k: int| 0 <= k < news.len() implies placement_ok(#[trigger] news[k]) && news[k].x >= x && news[k].y >= y
        && news[k].x + shape_size(news[k].building_type) <= x + shape_size(t) && news[k].y + shape_size(news[k].building_type)
        <= y + shape_size(t) by {
        assert(news[k].components =~= Seq::<BuildingComponent>::empty());
    }
    assert forall|k: int| 0 <= k < news.len() implies (#[trigger] news[k]).fits() && cells_inside(target, news[k].occupied_cells_spec())
        && forall|c: int|
            0 <= c < news[k].occupied_cells_spec().len() ==> map.in_bounds(
                (#[trigger] news[k].occupied_cells_spec()[c]).0 as int,
                news[k].occupied_cells_spec()[c].1 as int,
            ) by {
        lemma_placement_ok_facts(news[k]);
        assert forall|c: int| 0 <= c < news[k].occupied_cells_spec().len() implies target.has(
            (#[trigger] news[k].occupied_cells_spec()[c]).0 as int,
            news[k].occupied_cells_spec()[c].1 as int,
        ) by {
            let cell = news[k].occupied_cells_spec()[c];
            assert(news[k].covers(cell.0, cell.1));
        }
    }
    if forall|k: int| 0 <= k < news.len() ==> map.all_free((#[trigger] news[k]).occupied_cells_spec()) {
        assert forall|k: int, cx: i32, cy: i32|
            0 <= k < news.len() && #[trigger] news[k].covers(cx, cy) implies !(building_at(bs, cx, cy) || wall_at(ws, cx, cy)) by {
            let c = choose|c: int| 0 <= c < news[k].occupied_cells_spec().len() && news[k].occupied_cells_spec()[c] == (cx, cy);
            assert(map.all_free(news[k].occupied_cells_spec()));
            assert(!map.occupied_at(cx as int, cy as int));
        }
    }
    if !placement_conflicts(news, bs, ws) {
        assert forall|k: int| 0 <= k < news.len() implies map.all_free((#[trigger] news[k]).occupied_cells_spec()) by {
            assert forall|c: int| 0 <= c < news[k].occupied_cells_spec().len() implies map.in_bounds(
                (#[trigger] news[k].occupied_cells_spec()[c]).0 as int,
                news[k].occupied_cells_spec()[c].1 as int,
            ) && !map.occupied_at(news[k].occupied_cells_spec()[c].0 as int, news[k].occupied_cells_spec()[c].1 as int) by {
                let cell = news[k].occupied_cells_spec()[c];
                assert(news[k].covers(cell.0, cell.1));
            }
        }
        assert forall|k1: int, k2: int, cx: i32, cy: i32|
            0 <= k1 < news.len() && 0 <= k2 < news.len() && k1 != k2 && #[trigger] news[k1].covers(cx, cy) implies !#[trigger] news[k2].covers(
            cx,
            cy,
        ) by {
            lemma_placement_ok_facts(news[k1]);
            lemma_placement_ok_facts(news[k2]);
        }
        assert forall|k: int, cx: i32, cy: i32|
            0 <= k < news.len() && #[trigger] news[k].covers(cx, cy) implies !building_at(bs, cx, cy) && !wall_at(ws, cx, cy) by {
        }
    }
}

/// Cells around the building at position `i` while the buildings before it
/// are being filtered into `kv`.
proof fn lemma_remove_one(
    bounds: MapBounds,
    bs: Seq<PlacementView>,
    ws: Seq<WallSegment>,
    kv: Seq<PlacementView>,
    idx: Seq<int>,
    i: int,
    x: i32,
    y: i32,
)
    requires
        layout_ok(bounds, bs, ws),
        picks(bs, kv, idx),
        forall|a: int| 0 <= a < idx.len() ==> #[trigger] idx[a] < i,
        0 <= i < bs.len(),
    ensures
        building_at(kv + bs.subrange(i, bs.len() as int), x, y) == (bs[i].covers(x, y) || building_at(
            kv + bs.subrange(i + 1, bs.len() as int),
            x,
            y,
        )),
        building_blocks_at(kv + bs.subrange(i, bs.len() as int), x, y) == (bs[i].blocks(x, y) || building_blocks_at(
            kv + bs.subrange(i + 1, bs.len() as int),
            x,
            y,
        )),
        bs[i].covers(x, y) ==> !building_at(kv + bs.subrange(i + 1, bs.len() as int), x, y) && !wall_at(ws, x, y)
            && !building_blocks_at(kv + bs.subrange(i + 1, bs.len() as int), x, y),
{
    let n = bs.len() as int;
    let cur = bs[i];
    let rest = bs.subrange(i + 1, n);
    super::layout::lemma_building_at_concat(kv, bs.subrange(i, n), x, y);
    super::layout::lemma_building_at_concat(kv, rest, x, y);
    assert(bs.subrange(i, n) =~= seq![cur] + rest);
    super::layout::lemma_building_at_concat(seq![cur], rest, x, y);
    if cur.covers(x, y) {
        assert(seq![cur][0] == cur);
    }
    if building_at(seq![cur], x, y) {
        let t = choose|t: int| 0 <= t < 1 && (#[trigger] seq![cur][t]).covers(x, y);
    }
    if cur.blocks(x, y) {
        assert(seq![cur][0] == cur);
    }
    if building_blocks_at(seq![cur], x, y) {
        let t = choose|t: int| 0 <= t < 1 && (#[trigger] seq![cur][t]).blocks(x, y);
    }
    if cur.covers(x, y) {
        if building_at(kv, x, y) {
            let a = choose|a: int| 0 <= a < kv.len() && (#[trigger] kv[a]).covers(x, y);
            assert(kv[a] == bs[idx[a]]);
            assert(idx[a] < i);
        }
        if building_at(rest, x, y) {
            let t = choose|t: int| 0 <= t < rest.len() && (#[trigger] rest[t]).covers(x, y);
            assert(rest[t] == bs[i + 1 + t]);
        }
        if building_blocks_at(kv, x, y) {
            let a = choose|a: int| 0 <= a < kv.len() && (#[trigger] kv[a]).blocks(x, y);
            assert(kv[a] == bs[idx[a]]);
            lemma_placement_ok_facts(kv[a]);
            assert(building_at(kv, x, y));
        }
        if building_blocks_at(rest, x, y) {
            let t = choose|t: int| 0 <= t < rest.len() && (#[trigger] rest[t]).blocks(x, y);
            assert(rest[t] == bs[i + 1 + t]);
            lemma_placement_ok_facts(rest[t]);
            assert(building_at(rest, x, y));
        }
    }
}

/// Buildings whose identifier is not in `ids`.
pub open spec fn unlisted(ids: Seq<u32>) -> spec_fn(PlacementView) -> bool {
    |b: PlacementView| !ids.contains(b.id)
}

/// Buildings whose identifier is in `ids`.
pub open spec fn listed(ids: Seq<u32>) -> spec_fn(PlacementView) -> bool {
    |b: PlacementView| ids.contains(b.id)
}

/// The identifiers of a list of buildings, in order.
pub open spec fn ids_of(bs: Seq<PlacementView>) -> Seq<u32> {
    bs.map_values(|b: PlacementView| b.id)
}

/// The first problem among `cells` from position `i` on, on a canvas of
/// `b` holding the given buildings and walls: a cell off the canvas, or a
/// taken cell.
pub open spec fn first_taken(
    b: MapBounds,
    bs: Seq<PlacementView>,
    ws: Seq<WallSegment>,
    cells: Seq<(i32, i32)>,
    i: int,
) -> Option<MapError>
    decreases cells.len() - i,
{
    if i < 0 || i >= cells.len() {
        None
    } else if !b.has(cells[i].0 as int, cells[i].1 as int) {
        Some(MapError::OutOfBounds)
    } else if building_at(bs, cells[i].0, cells[i].1) || wall_at(ws, cells[i].0, cells[i].1) {
        Some(MapError::Occupied)
    } else {
        first_taken(b, bs, ws, cells, i + 1)
    }
}

/// The first problem met putting the buildings from position `k` on, after
/// those before them, onto a canvas of `b`.
pub open spec fn building_load_error(b: MapBounds, bs: Seq<PlacementView>, k: int) -> Option<SimulatorError>
    decreases bs.len() - k,
{
    if k < 0 || k >= bs.len() {
        None
    } else if bs[k].entry_point matches Some(e) && !b.has(e.x as int, e.y as int) {
        Some(SimulatorError::InvalidProject("building entry point is outside the map"))
    } else {
        match first_taken(b, bs.subrange(0, k), Seq::empty(), bs[k].occupied_cells_spec(), 0) {
            Some(e) => Some(SimulatorError::MapConflict(e)),
            None => building_load_error(b, bs, k + 1),
        }
    }
}

/// The first problem met putting the walls from position `j` on, after the
/// buildings and the walls before them, onto a canvas of `b`.
pub open spec fn wall_load_error(b: MapBounds, bs: Seq<PlacementView>, ws: Seq<WallSegment>, j: int) -> Option<SimulatorError>
    decreases ws.len() - j,
{
    if j < 0 || j >= ws.len() {
        None
    } else if !ws[j].axis_aligned() {
        Some(SimulatorError::InvalidWallDirection)
    } else {
        match first_taken(b, bs, ws.subrange(0, j), ws[j].cells_spec(), 0) {
            Some(e) => Some(SimulatorError::MapConflict(e)),
            None => wall_load_error(b, bs, ws, j + 1),
        }
    }
}

/// The largest building identifier, or zero.
pub open spec fn max_saved_id(s: Seq<SavedBuilding>) -> u32
    decreases s.len(),
{
    if s.len() == 0 {
        0
    } else if s.last().id > max_saved_id(s.drop_last()) {
        s.last().id
    } else {
        max_saved_id(s.drop_last())
    }
}

/// The largest goods yard group identifier, or zero.
pub open spec fn max_saved_group(s: Seq<SavedBuilding>) -> u32
    decreases s.len(),
{
    if s.len() == 0 {
        0
    } else if s.last().goods_yard_group_id matches Some(g) && g > max_saved_group(s.drop_last()) {
        s.last().goods_yard_group_id->0
    } else {
        max_saved_group(s.drop_last())
    }
}

/// The largest wall identifier, or zero.
pub open spec fn max_wall_id(s: Seq<WallSegment>) -> u32
    decreases s.len(),
{
    if s.len() == 0 {
        0
    } else if s.last().id > max_wall_id(s.drop_last()) {
        s.last().id
    } else {
        max_wall_id(s.drop_last())
    }
}

/// Why a saved layout cannot be loaded, in the order the checks are made.
pub open spec fn load_error(bounds: MapBounds, saved: Seq<SavedBuilding>, walls: Seq<WallSegment>) -> Option<SimulatorError> {
    if !bounds.valid() {
        Some(SimulatorError::InvalidMapSize)
    } else if !saved_ids_distinct(saved) {
        Some(SimulatorError::InvalidProject("building IDs must be unique"))
    } else if !wall_ids_distinct(walls) {
        Some(SimulatorError::InvalidProject("wall IDs must be unique"))
    } else if max_saved_id(saved) == u32::MAX {
        Some(SimulatorError::InvalidProject("building ID is too large"))
    } else if max_saved_group(saved) == u32::MAX {
        Some(SimulatorError::InvalidProject("goods yard group ID is too large"))
    } else if max_wall_id(walls) == u32::MAX {
        Some(SimulatorError::InvalidProject("wall ID is too large"))
    } else if !bounds_allocatable(bounds) {
        Some(SimulatorError::InvalidMapSize)
    } else {
        match building_load_error(bounds, saved_views(saved), 0) {
            Some(e) => Some(e),
            None => wall_load_error(bounds, saved_views(saved), walls, 0),
        }
    }
}

/// A map's conflict check agrees with `first_taken` on the objects it holds.
pub proof fn lemma_conflict_matches(
    map: CellMap,
    bs: Seq<PlacementView>,
    ws: Seq<WallSegment>,
    cells: Seq<(i32, i32)>,
    i: int,
)
    requires
        map_matches(map, bs, ws),
        0 <= i,
    ensures
        map.conflict_from(cells, i) == first_taken(map.bounds_spec(), bs, ws, cells, i),
    decreases cells.len() - i,
{
    if i < cells.len() {
        assert(map.occupied_at(cells[i].0 as int, cells[i].1 as int) == (building_at(bs, cells[i].0, cells[i].1) || wall_at(
            ws,
            cells[i].0,
            cells[i].1,
        )));
        lemma_conflict_matches(map, bs, ws, cells, i + 1);
    }
}

/// Without a conflict every cell is on the canvas and free.
pub proof fn lemma_no_first_taken(b: MapBounds, bs: Seq<PlacementView>, ws: Seq<WallSegment>, cells: Seq<(i32, i32)>, i: int)
    requires
        0 <= i,
        first_taken(b, bs, ws, cells, i) is None,
    ensures
        forall|k: int|
            i <= k < cells.len() ==> b.has((#[trigger] cells[k]).0 as int, cells[k].1 as int) && !building_at(
                bs,
                cells[k].0,
                cells[k].1,
            ) && !wall_at(ws, cells[k].0, cells[k].1),
    decreases cells.len() - i,
{
    if i < cells.len() {
        lemma_no_first_taken(b, bs, ws, cells, i + 1);
    }
}

/// Every identifier is at most the largest one.
pub proof fn lemma_max_ids(s: Seq<SavedBuilding>, ws: Seq<WallSegment>)
    ensures
        forall|t: int| 0 <= t < s.len() ==> (#[trigger] s[t]).id <= max_saved_id(s),
        forall|t: int| 0 <= t < s.len() ==> ((#[trigger] s[t]).goods_yard_group_id matches Some(g) ==> g <= max_saved_group(s)),
        forall|t: int| 0 <= t < ws.len() ==> (#[trigger] ws[t]).id <= max_wall_id(ws),
    decreases s.len() + ws.len(),
{
    if s.len() > 0 {
        lemma_max_ids(s.drop_last(), ws);
        assert forall|t: int| 0 <= t < s.len() implies (#[trigger] s[t]).id <= max_saved_id(s) && (s[t].goods_yard_group_id matches Some(g)
            ==> g <= max_saved_group(s)) by {
            if t < s.len() - 1 {
                assert(s[t] == s.drop_last()[t]);
            }
        }
    } else if ws.len() > 0 {
        lemma_max_ids(s, ws.drop_last());
        assert forall|t: int| 0 <= t < ws.len() implies (#[trigger] ws[t]).id <= max_wall_id(ws) by {
            if t < ws.len() - 1 {
                assert(ws[t] == ws.drop_last()[t]);
            }
        }
    }
}

/// The largest identifier is zero or one of the identifiers.
pub proof fn lemma_max_attained(s: Seq<SavedBuilding>, ws: Seq<WallSegment>)
    ensures
        max_saved_id(s) == 0 || exists|t: int| 0 <= t < s.len() && (#[trigger] s[t]).id == max_saved_id(s),
        max_saved_group(s) == 0 || exists|t: int| 0 <= t < s.len() && (#[trigger] s[t]).goods_yard_group_id == Some(max_saved_group(s)),
        max_wall_id(ws) == 0 || exists|t: int| 0 <= t < ws.len() && (#[trigger] ws[t]).id == max_wall_id(ws),
    decreases s.len() + ws.len(),
{
    if s.len() > 0 {
        lemma_max_attained(s.drop_last(), ws);
        let p = s.drop_last();
        if max_saved_id(s) != 0 && max_saved_id(s) == max_saved_id(p) {
            let t = choose|t: int| 0 <= t < p.len() && (#[trigger] p[t]).id == max_saved_id(p);
            assert(s[t] == p[t]);
        }
        if max_saved_id(s) != max_saved_id(p) {
            assert(s[s.len() - 1].id == max_saved_id(s));
        }
        if max_saved_group(s) != 0 && max_saved_group(s) == max_saved_group(p) {
            let t = choose|t: int| 0 <= t < p.len() && (#[trigger] p[t]).goods_yard_group_id == Some(max_saved_group(p));
            assert(s[t] == p[t]);
        }
        if max_saved_group(s) != max_saved_group(p) {
            assert(s[s.len() - 1].goods_yard_group_id == Some(max_saved_group(s)));
        }
    } else if ws.len() > 0 {
        lemma_max_attained(s, ws.drop_last());
        let p = ws.drop_last();
        if max_wall_id(ws) != 0 && max_wall_id(ws) == max_wall_id(p) {
            let t = choose|t: int| 0 <= t < p.len() && (#[trigger] p[t]).id == max_wall_id(p);
            assert(ws[t] == p[t]);
        }
        if max_wall_id(ws) != max_wall_id(p) {
            assert(ws[ws.len() - 1].id == max_wall_id(ws));
        }
    }
}

/// No cell from position `i` on is off the canvas or taken, so there is
/// no conflict.
pub proof fn lemma_first_taken_none(b: MapBounds, bs: Seq<PlacementView>, ws: Seq<WallSegment>, cells: Seq<(i32, i32)>, i: int)
    requires
        0 <= i,
        forall|k: int|
            i <= k < cells.len() ==> b.has((#[trigger] cells[k]).0 as int, cells[k].1 as int) && !building_at(
                bs,
                cells[k].0,
                cells[k].1,
            ) && !wall_at(ws, cells[k].0, cells[k].1),
    ensures
        first_taken(b, bs, ws, cells, i) is None,
    decreases cells.len() - i,
{
    if i < cells.len() {
        lemma_first_taken_none(b, bs, ws, cells, i + 1);
    }
}

/// The buildings of a valid layout load one after the other without a problem.
pub proof fn lemma_buildings_load(b: MapBounds, bs: Seq<PlacementView>, ws: Seq<WallSegment>, k: int)
    requires
        layout_ok(b, bs, ws),
        entries_inside(b, bs),
        0 <= k,
    ensures
        building_load_error(b, bs, k) is None,
    decreases bs.len() - k,
{
    if k < bs.len() {
        let cur = bs[k];
        let prev = bs.subrange(0, k);
        let cells = cur.occupied_cells_spec();
        assert(super::layout::cells_inside(b, cells));
        assert forall|c: int| 0 <= c < cells.len() implies b.has((#[trigger] cells[c]).0 as int, cells[c].1 as int) && !building_at(
            prev,
            cells[c].0,
            cells[c].1,
        ) && !wall_at(Seq::<WallSegment>::empty(), cells[c].0, cells[c].1) by {
            assert(cur.covers(cells[c].0, cells[c].1));
            if building_at(prev, cells[c].0, cells[c].1) {
                let t = choose|t: int| 0 <= t < prev.len() && (#[trigger] prev[t]).covers(cells[c].0, cells[c].1);
                assert(prev[t] == bs[t]);
            }
        }
        lemma_first_taken_none(b, prev, Seq::<WallSegment>::empty(), cells, 0);
        lemma_buildings_load(b, bs, ws, k + 1);
    }
}

/// The walls of a valid layout load one after the other without a problem.
pub proof fn lemma_walls_load(b: MapBounds, bs: Seq<PlacementView>, ws: Seq<WallSegment>, j: int)
    requires
        layout_ok(b, bs, ws),
        0 <= j,
    ensures
        wall_load_error(b, bs, ws, j) is None,
    decreases ws.len() - j,
{
    if j < ws.len() {
        let cur = ws[j];
        let prev = ws.subrange(0, j);
        let cells = cur.cells_spec();
        assert(super::layout::cells_inside(b, cells));
        assert forall|c: int| 0 <= c < cells.len() implies b.has((#[trigger] cells[c]).0 as int, cells[c].1 as int) && !building_at(
            bs,
            cells[c].0,
            cells[c].1,
        ) && !wall_at(prev, cells[c].0, cells[c].1) by {
            assert(cur.cells_spec().contains((cells[c].0, cells[c].1)));
            if building_at(bs, cells[c].0, cells[c].1) {
                let t = choose|t: int| 0 <= t < bs.len() && (#[trigger] bs[t]).covers(cells[c].0, cells[c].1);
            }
            if wall_at(prev, cells[c].0, cells[c].1) {
                let t = choose|t: int| 0 <= t < prev.len() && (#[trigger] prev[t]).cells_spec().contains((cells[c].0, cells[c].1));
                assert(prev[t] == ws[t]);
            }
        }
        lemma_first_taken_none(b, bs, prev, cells, 0);
        lemma_walls_load(b, bs, ws, j + 1);
    }
}

fn max_building_id(saved: &Vec<SavedBuilding>) -> (r: u32)
    ensures
        r == max_saved_id(saved@),
{
    let mut r: u32 = 0;
    let mut i: usize = 0;
    while i < saved.len()
        invariant
            i <= saved@.len(),
            r == max_saved_id(saved@.subrange(0, i as int)),
        decreases saved@.len() - i,
    {
        assert(saved@.subrange(0, i + 1).drop_last() =~= saved@.subrange(0, i as int));
        if saved[i].id > r {
            r = saved[i].id;
        }
        i = i + 1;
    }
    assert(saved@.subrange(0, i as int) =~= saved@);
    r
}

fn max_group_id(saved: &Vec<SavedBuilding>) -> (r: u32)
    ensures
        r == max_saved_group(saved@),
{
    let mut r: u32 = 0;
    let mut i: usize = 0;
    while i < saved.len()
        invariant
            i <= saved@.len(),
            r == max_saved_group(saved@.subrange(0, i as int)),
        decreases saved@.len() - i,
    {
        assert(saved@.subrange(0, i + 1).drop_last() =~= saved@.subrange(0, i as int));
        match saved[i].goods_yard_group_id {
            Some(g) => {
                if g > r {
                    r = g;
                }
            },
            None => {},
        }
        i = i + 1;
    }
    assert(saved@.subrange(0, i as int) =~= saved@);
    r
}

fn max_wall_id_of(walls: &Vec<WallSegment>) -> (r: u32)
    ensures
        r == max_wall_id(walls@),
{
    let mut r: u32 = 0;
    let mut i: usize = 0;
    while i < walls.len()
        invariant
            i <= walls@.len(),
            r == max_wall_id(walls@.subrange(0, i as int)),
        decreases walls@.len() - i,
    {
        assert(walls@.subrange(0, i + 1).drop_last() =~= walls@.subrange(0, i as int));
        if walls[i].id > r {
            r = walls[i].id;
        }
        i = i + 1;
    }
    assert(walls@.subrange(0, i as int) =~= walls@);
    r
}

/// Buildings of goods yard group `g`.
pub open spec fn in_group(g: u32) -> spec_fn(PlacementView) -> bool {
    |b: PlacementView| b.goods_yard_group_id == Some(g)
}

/// The buildings removed together with `t`: its whole goods yard group,
/// or `t` alone.
pub open spec fn removed_with(t: PlacementView) -> spec_fn(PlacementView) -> bool {
    |b: PlacementView|
        match t.goods_yard_group_id {
            Some(g) => b.goods_yard_group_id == Some(g),
            None => b.id == t.id,
        }
}

/// The buildings that stay when `t` is removed.
pub open spec fn kept_without(t: PlacementView) -> spec_fn(PlacementView) -> bool {
    |b: PlacementView| !removed_with(t)(b)
}

/// Removing any stockpile of a goods yard removes the whole yard: no
/// building of its group is left, and every building outside the group
/// stays.
pub proof fn lemma_goods_yard_removed_whole(map: CellMap, ws: Seq<WallSegment>, bs: Seq<PlacementView>, t: PlacementView)
    requires
        ids_distinct(bs),
        t.goods_yard_group_id is Some,
    ensures
        ({
            let after = refreshed_all(map, ws, bs.filter(kept_without(t)));
            &&& forall|k: int| 0 <= k < after.len() ==> (#[trigger] after[k]).goods_yard_group_id != t.goods_yard_group_id
            &&& forall|i: int|
                0 <= i < bs.len() && (#[trigger] bs[i]).goods_yard_group_id != t.goods_yard_group_id ==> ids_of(
                    after,
                ).contains(bs[i].id)
        }),
{
    let kept = bs.filter(kept_without(t));
    let after = refreshed_all(map, ws, kept);
    assert forall|k: int| 0 <= k < after.len() implies (#[trigger] after[k]).goods_yard_group_id != t.goods_yard_group_id by {
        bs.lemma_filter_pred(kept_without(t), k);
    }
    lemma_ids_of_filter(bs, kept_without(t));
    assert(ids_of(after) =~= ids_of(kept));
}

/// With distinct identifiers, the identifiers kept by a filter are those of
/// the buildings it keeps.
pub proof fn lemma_ids_of_filter(bs: Seq<PlacementView>, p: spec_fn(PlacementView) -> bool)
    requires
        ids_distinct(bs),
    ensures
        forall|i: int| 0 <= i < bs.len() ==> ids_of(bs.filter(p)).contains(#[trigger] bs[i].id) == p(bs[i]),
{
    assert forall|i: int| 0 <= i < bs.len() implies ids_of(bs.filter(p)).contains(#[trigger] bs[i].id) == p(bs[i]) by {
        let f = bs.filter(p);
        if p(bs[i]) {
            bs.lemma_filter_contains(p, i);
            let k = choose|k: int| 0 <= k < f.len() && f[k] == bs[i];
            assert(ids_of(f)[k] == bs[i].id);
        }
        if ids_of(f).contains(bs[i].id) {
            let k = choose|k: int| 0 <= k < ids_of(f).len() && ids_of(f)[k] == bs[i].id;
            bs.lemma_filter_pred(p, k);
            assert(f.contains(f[k]));
            bs.lemma_filter_contains_rev(p, f[k]);
            let j = choose|j: int| 0 <= j < bs.len() && bs[j] == f[k];
            assert(bs[j].id == bs[i].id);
        }
    }
}

/// Position of the first building with identifier `id`.
fn position_of_id(buildings: &Vec<BuildingPlacement>, id: u32) -> (r: Option<usize>)
    ensures
        match r {
            Some(i) => i < buildings@.len() && buildings@[i as int].id == id && forall|t: int|
                0 <= t < i ==> (#[trigger] buildings@[t]).id != id,
            None => forall|t: int| 0 <= t < buildings@.len() ==> (#[trigger] views(buildings@)[t]).id != id,
        },
{
    let mut i: usize = 0;
    while i < buildings.len()
        invariant
            i <= buildings@.len(),
            forall|t: int| 0 <= t < i ==> (#[trigger] buildings@[t]).id != id,
        decreases buildings@.len() - i,
    {
        if buildings[i].id == id {
            return Some(i);
        }
        i = i + 1;
    }
    proof {
        assert forall|t: int| 0 <= t < buildings@.len() implies (#[trigger] views(buildings@)[t]).id != id by {
            assert(views(buildings@)[t] == buildings@[t]@);
        }
    }
    None
}

/// Position of the first building that reserves cell `(x, y)`.
fn position_covering(buildings: &Vec<BuildingPlacement>, x: i32, y: i32) -> (r: Option<usize>)
    requires
        forall|t: int| 0 <= t < buildings@.len() ==> (#[trigger] buildings@[t])@.fits(),
    ensures
        match r {
            Some(i) => i < buildings@.len() && views(buildings@)[i as int].covers(x, y) && forall|t: int|
                0 <= t < i ==> !(#[trigger] views(buildings@)[t]).covers(x, y),
            None => forall|t: int| 0 <= t < buildings@.len() ==> !(#[trigger] views(buildings@)[t]).covers(x, y),
        },
{
    let mut i: usize = 0;
    while i < buildings.len()
        invariant
            forall|t: int| 0 <= t < buildings@.len() ==> (#[trigger] buildings@[t])@.fits(),
            i <= buildings@.len(),
            forall|t: int| 0 <= t < i ==> !(#[trigger] views(buildings@)[t]).covers(x, y),
        decreases buildings@.len() - i,
    {
        assert(views(buildings@)[i as int] == buildings@[i as int]@);
        if building_covers(&buildings[i], x, y) {
            return Some(i);
        }
        i = i + 1;
    }
    None
}

/// Stockpile `id` designated for `resource`; a stockpile that held it
/// before gives it up.
pub open spec fn designated(b: PlacementView, id: u32, resource: StockpileResource) -> PlacementView {
    PlacementView {
        id: b.id,
        building_type: b.building_type,
        x: b.x,
        y: b.y,
        goods_yard_group_id: b.goods_yard_group_id,
        stockpile_resource: if b.id == id {
            Some(resource)
        } else if b.stockpile_resource == Some(resource) {
            None
        } else {
            b.stockpile_resource
        },
        entry_point: b.entry_point,
        footprint: b.footprint,
        components: b.components,
    }
}

pub open spec fn designated_all(bs: Seq<PlacementView>, id: u32, resource: StockpileResource) -> Seq<PlacementView> {
    bs.map_values(|b: PlacementView| designated(b, id, resource))
}

/// Designating a stockpile for a resource makes it the only building marked
/// for that resource; every other building keeps the marks it had for other
/// resources.
pub proof fn lemma_designation_is_exclusive(bs: Seq<PlacementView>, id: u32, resource: StockpileResource)
    ensures
        designated_all(bs, id, resource).len() == bs.len(),
        forall|i: int|
            0 <= i < bs.len() ==> ((#[trigger] designated_all(bs, id, resource)[i]).stockpile_resource == Some(resource)
                <==> bs[i].id == id),
        forall|i: int|
            0 <= i < bs.len() && bs[i].id != id && bs[i].stockpile_resource != Some(resource) ==> (
            #[trigger] designated_all(bs, id, resource)[i]).stockpile_resource == bs[i].stockpile_resource,
{
}

/// Position of the route from `s` to `f` in the list.
fn route_position(route_usage: &Vec<ProductionRouteUsage>, s: u32, f: u32) -> (r: Option<usize>)
    ensures
        match r {
            Some(i) => i < route_usage@.len() && is_route(route_usage@[i as int], s, f),
            None => forall|i: int| 0 <= i < route_usage@.len() ==> !is_route(#[trigger] route_usage@[i], s, f),
        },
{
    let mut i: usize = 0;
    while i < route_usage.len()
        invariant
            i <= route_usage@.len(),
            forall|t: int| 0 <= t < i ==> !is_route(#[trigger] route_usage@[t], s, f),
        decreases route_usage@.len() - i,
    {
        if route_usage[i].start_building_id == s && route_usage[i].finish_building_id == f {
            return Some(i);
        }
        i = i + 1;
    }
    None
}

/// Whether `id` is in the list.
fn contains_id(ids: &Vec<u32>, id: u32) -> (r: bool)
    ensures
        r == ids@.contains(id),
{
    let mut k: usize = 0;
    while k < ids.len()
        invariant
            k <= ids@.len(),
            forall|t: int| 0 <= t < k ==> ids@[t] != id,
        decreases ids@.len() - k,
    {
        if ids[k] == id {
            return true;
        }
        k = k + 1;
    }
    false
}

/// Whether a building reserves cell `(x, y)`.
fn building_covers(b: &BuildingPlacement, x: i32, y: i32) -> (r: bool)
    requires
        b@.fits(),
    ensures
        r == b@.covers(x, y),
{
    let cells = b.occupied_cells();
    let mut k: usize = 0;
    while k < cells.len()
        invariant
            cells@ == b@.occupied_cells_spec(),
            k <= cells@.len(),
            forall|t: int| 0 <= t < k ==> cells@[t] != (x, y),
        decreases cells@.len() - k,
    {
        if cells[k].0 == x && cells[k].1 == y {
            assert(cells@[k as int] == (x, y));
            return true;
        }
        k = k + 1;
    }
    false
}

/// A map of `bounds` holding the given buildings and walls, or `None` when
/// no map of these bounds can be made.
fn rebuild_map(bounds: MapBounds, buildings: &Vec<BuildingPlacement>, walls: &Vec<WallSegment>) -> (r: Option<CellMap>)
    requires
        forall|i: int| 0 <= i < buildings@.len() ==> placement_ok(#[trigger] views(buildings@)[i]),
        objects_inside(bounds, views(buildings@), walls@),
        objects_disjoint(views(buildings@), walls@),
    ensures
        r is Some <==> bounds_allocatable(bounds),
        r matches Some(m) ==> m.wf() && m.bounds_spec() == bounds && map_matches(m, views(buildings@), walls@),
{
    let ghost bs = views(buildings@);
    let ghost ws = walls@;
    let mut map = match CellMap::with_bounds(bounds) {
        Some(m) => m,
        None => return None,
    };
    proof {
        assert(bs.subrange(0, 0) =~= Seq::<PlacementView>::empty());
    }
    let mut i: usize = 0;
    while i < buildings.len()
        invariant
            bs == views(buildings@),
            ws == walls@,
            forall|t: int| 0 <= t < bs.len() ==> placement_ok(#[trigger] bs[t]),
            objects_inside(bounds, bs, ws),
            objects_disjoint(bs, ws),
            i <= bs.len(),
            map.wf(),
            map.bounds_spec() == bounds,
            map_matches(map, bs.subrange(0, i as int), Seq::<WallSegment>::empty()),
        decreases bs.len() - i,
    {
        let ghost sub = bs.subrange(0, i as int);
        let ghost b = bs[i as int];
        proof {
            lemma_placement_ok_facts(b);
            assert(cells_inside(bounds, b.occupied_cells_spec()));
            assert forall|k: int| 0 <= k < b.occupied_cells_spec().len() implies map.in_bounds(
                (#[trigger] b.occupied_cells_spec()[k]).0 as int,
                b.occupied_cells_spec()[k].1 as int,
            ) && !map.occupied_at(b.occupied_cells_spec()[k].0 as int, b.occupied_cells_spec()[k].1 as int) by {
                let c = b.occupied_cells_spec()[k];
                assert(b.covers(c.0, c.1));
                if map.occupied_at(c.0 as int, c.1 as int) {
                    assert(building_at(sub, c.0, c.1));
                    let t = choose|t: int| 0 <= t < sub.len() && (#[trigger] sub[t]).covers(c.0, c.1);
                    assert(sub[t] == bs[t]);
                    assert(bs[t].covers(c.0, c.1));
                }
            }
        }
        assert(views(buildings@)[i as int] == buildings@[i as int]@);
        let ghost before = map;
        match map.place(&buildings[i]) {
            Ok(()) => {},
            Err(_) => {
                assert(false);
                return None;
            },
        }
        proof {
            assert(bs.subrange(0, i + 1) =~= sub.push(b));
            assert forall|x: i32, y: i32| #[trigger] map.occupied_at(x as int, y as int) == (building_at(bs.subrange(0, i + 1), x, y)
                || wall_at(Seq::<WallSegment>::empty(), x, y)) by {
                lemma_building_at_push(sub, b, x, y);
                assert(before.occupied_at(x as int, y as int) == (building_at(sub, x, y) || wall_at(Seq::<WallSegment>::empty(), x, y)));
                if b.covers(x, y) {
                    let k = choose|k: int| 0 <= k < b.occupied_cells_spec().len() && b.occupied_cells_spec()[k] == (x, y);
                    assert(bounds.has(b.occupied_cells_spec()[k].0 as int, b.occupied_cells_spec()[k].1 as int));
                }
            }
            assert forall|x: i32, y: i32| #[trigger] map.blocked_at(x as int, y as int) == (building_blocks_at(
                bs.subrange(0, i + 1),
                x,
                y,
            ) || wall_at(Seq::<WallSegment>::empty(), x, y)) by {
                lemma_building_at_push(sub, b, x, y);
                if b.blocks(x, y) {
                    assert(b.covers(x, y));
                    let k = choose|k: int| 0 <= k < b.occupied_cells_spec().len() && b.occupied_cells_spec()[k] == (x, y);
                    assert(bounds.has(b.occupied_cells_spec()[k].0 as int, b.occupied_cells_spec()[k].1 as int));
                }
            }
        }
        i = i + 1;
    }
    proof {
        assert(bs.subrange(0, i as int) =~= bs);
        assert(ws.subrange(0, 0) =~= Seq::<WallSegment>::empty());
    }
    let mut j: usize = 0;
    while j < walls.len()
        invariant
            bs == views(buildings@),
            ws == walls@,
            objects_inside(bounds, bs, ws),
            objects_disjoint(bs, ws),
            j <= ws.len(),
            map.wf(),
            map.bounds_spec() == bounds,
            map_matches(map, bs, ws.subrange(0, j as int)),
        decreases ws.len() - j,
    {
        let ghost sub = ws.subrange(0, j as int);
        let ghost w = ws[j as int];
        let cells = walls[j].cells();
        proof {
            assert(cells_inside(bounds, w.cells_spec()));
            assert forall|k: int| 0 <= k < cells@.len() implies map.in_bounds((#[trigger] cells@[k]).0 as int, cells@[k].1 as int)
                && !map.occupied_at(cells@[k].0 as int, cells@[k].1 as int) by {
                let c = cells@[k];
                assert(w.cells_spec().contains(c));
                if map.occupied_at(c.0 as int, c.1 as int) {
                    if building_at(bs, c.0, c.1) {
                        let t = choose|t: int| 0 <= t < bs.len() && (#[trigger] bs[t]).covers(c.0, c.1);
                        assert(!ws[j as int].cells_spec().contains((c.0, c.1)));
                    } else {
                        let t = choose|t: int| 0 <= t < sub.len() && (#[trigger] sub[t]).cells_spec().contains((c.0, c.1));
                        assert(sub[t] == ws[t]);
                        assert(ws[t].cells_spec().contains((c.0, c.1)));
                    }
                }
            }
        }
        let ghost before = map;
        match map.place_cells(walls[j].id, &cells) {
            Ok(()) => {},
            Err(_) => {
                assert(false);
                return None;
            },
        }
        proof {
            assert(ws.subrange(0, j + 1) =~= sub.push(w));
            assert forall|x: i32, y: i32| #[trigger] map.occupied_at(x as int, y as int) == (building_at(bs, x, y) || wall_at(
                ws.subrange(0, j + 1),
                x,
                y,
            )) by {
                lemma_wall_at_push(sub, w, x, y);
                assert(before.occupied_at(x as int, y as int) == (building_at(bs, x, y) || wall_at(sub, x, y)));
                if w.cells_spec().contains((x, y)) {
                    let k = choose|k: int| 0 <= k < w.cells_spec().len() && w.cells_spec()[k] == (x, y);
                    assert(bounds.has(w.cells_spec()[k].0 as int, w.cells_spec()[k].1 as int));
                }
            }
            assert forall|x: i32, y: i32| #[trigger] map.blocked_at(x as int, y as int) == (building_blocks_at(bs, x, y)
                || wall_at(ws.subrange(0, j + 1), x, y)) by {
                lemma_wall_at_push(sub, w, x, y);
                if w.cells_spec().contains((x, y)) {
                    let k = choose|k: int| 0 <= k < w.cells_spec().len() && w.cells_spec()[k] == (x, y);
                    assert(bounds.has(w.cells_spec()[k].0 as int, w.cells_spec()[k].1 as int));
                }
            }
        }
        j = j + 1;
    }
    proof {
        assert(ws.subrange(0, j as int) =~= ws);
    }
    Some(map)
}

/// The layout of a canvas: buildings, walls, their occupancy map, and the
/// walking routes between building entries.
#[derive(Debug, Clone)]
pub struct Simulator {
    map: CellMap,
    factory: BuildingFactory,
    time: GameTime,
    buildings: Vec<BuildingPlacement>,
    walls: Vec<WallSegment>,
    next_wall_id: u32,
    distances: DistanceTable,
    worker_distances: DistanceTable,
    defer_path_calculation: bool,
}

/// The `i`-th step of a run of simulator states is an edit.
pub open spec fn edit_step(states: Seq<Simulator>, i: int) -> bool {
    states[i + 1].edited_from(&states[i])
}

/// A canvas inside a canvas inside a third lies inside the third.
pub proof fn lemma_bounds_within_trans(a: MapBounds, b: MapBounds, c: MapBounds)
    requires
        bounds_within(a, b),
        bounds_within(b, c),
    ensures
        bounds_within(a, c),
{
}

/// Along any run of edits the canvas never shrinks and route calculation
/// stays deferred or not. Routes that were current at the start stay
/// current: while deferred both route tables stay empty, otherwise every
/// building route is the shortest walk between the current entries and
/// the worker routes are those of the current stockpiles and workshops.
pub proof fn lemma_edits_keep_canvas_and_routes(states: Seq<Simulator>)
    requires
        states.len() >= 1,
        forall|i: int| 0 <= i < states.len() - 1 ==> #[trigger] edit_step(states, i),
    ensures
        bounds_within(states[0].bounds_spec(), states.last().bounds_spec()),
        states.last().defers_paths() == states[0].defers_paths(),
        states[0].routes_after_edit() ==> states.last().routes_after_edit(),
        states[0].defers_paths() && states[0].routes_after_edit() ==> {
            &&& states.last().distance_table()@ == Map::<DistanceKey, BuildingDistance>::empty()
            &&& states.last().worker_table()@ == Map::<DistanceKey, BuildingDistance>::empty()
        },
        !states[0].defers_paths() && states[0].routes_fresh() ==> states.last().routes_fresh(),
    decreases states.len(),
{
    if states.len() > 1 {
        let prefix = states.drop_last();
        assert forall|i: int| 0 <= i < prefix.len() - 1 implies #[trigger] edit_step(prefix, i) by {
            assert(edit_step(states, i));
            assert(prefix[i] == states[i] && prefix[i + 1] == states[i + 1]);
        }
        lemma_edits_keep_canvas_and_routes(prefix);
        let n = states.len() - 1;
        assert(edit_step(states, n - 1));
        assert(prefix.last() == states[n - 1]);
        lemma_bounds_within_trans(states[0].bounds_spec(), states[n - 1].bounds_spec(), states[n].bounds_spec());
    }
}

/// Route records depend on the buildings only through their identifiers
/// and entry points.
proof fn lemma_fresh_same_entries(map: CellMap, bs: Seq<PlacementView>, bs2: Seq<PlacementView>, t: Map<DistanceKey, BuildingDistance>)
    requires
        distances_fresh(map, bs, t),
        bs2.len() == bs.len(),
        forall|i: int| 0 <= i < bs.len() ==> (#[trigger] bs2[i]).id == bs[i].id && bs2[i].entry_point == bs[i].entry_point,
    ensures
        distances_fresh(map, bs2, t),
{
    assert forall|id: u32| #[trigger] has_id(bs2, id, bs2.len() as int) == has_id(bs, id, bs.len() as int) by {
        if has_id(bs, id, bs.len() as int) {
            let t0 = choose|t0: int| 0 <= t0 < bs.len() && t0 < bs.len() && (#[trigger] bs[t0]).id == id;
            assert(bs2[t0].id == id);
        }
        if has_id(bs2, id, bs2.len() as int) {
            let t0 = choose|t0: int| 0 <= t0 < bs2.len() && t0 < bs2.len() && (#[trigger] bs2[t0]).id == id;
            assert(bs[t0].id == id);
        }
    }
    assert forall|k: DistanceKey| #[trigger] t.contains_key(k) implies recorded_from_pair(map, bs2, k, t[k]) by {
        let (a, b) = choose|a: int, b: int|
            0 <= a < bs.len() && 0 <= b < bs.len() && (#[trigger] bs[a]).id == k.start_building_id && (#[trigger] bs[b]).id
                == k.finish_building_id && distance_record_ok(map, bs[a], bs[b], t[k]);
        assert(bs2[a].id == k.start_building_id && bs2[b].id == k.finish_building_id);
        assert(distance_record_ok(map, bs2[a], bs2[b], t[k]));
    }
}

/// Routes are directional: when the routes are those of the current layout,
/// every two buildings have one record from the first to the second and
/// another from the second to the first, each measured from its own start
/// entry to its own finish entry.
pub proof fn lemma_routes_both_directions(s: Simulator, i: int, j: int)
    requires
        s.wf(),
        s.routes_fresh(),
        0 <= i < s.buildings_view().len(),
        0 <= j < s.buildings_view().len(),
        i != j,
    ensures
        ({
            let a = s.buildings_view()[i];
            let b = s.buildings_view()[j];
            let t = s.distance_table()@;
            &&& t.contains_key(pair_key(a.id, b.id))
            &&& t.contains_key(pair_key(b.id, a.id))
            &&& distance_record_ok(s.cell_map(), a, b, t[pair_key(a.id, b.id)])
            &&& distance_record_ok(s.cell_map(), b, a, t[pair_key(b.id, a.id)])
        }),
{
    let bs = s.buildings_view();
    let t = s.distance_table()@;
    let a = bs[i];
    let b = bs[j];
    assert(ids_distinct(bs)) by {
        assert(layout_ok(s.bounds_spec(), bs, s.walls_spec()));
    }
    assert(a.id != b.id);
    assert(has_id(bs, a.id, bs.len() as int));
    assert(has_id(bs, b.id, bs.len() as int));
    assert(t.contains_key(pair_key(a.id, b.id)));
    assert(t.contains_key(pair_key(b.id, a.id)));
    assert(recorded_from_pair(s.cell_map(), bs, pair_key(a.id, b.id), t[pair_key(a.id, b.id)]));
    let (p, q) = choose|p: int, q: int|
        0 <= p < bs.len() && 0 <= q < bs.len() && (#[trigger] bs[p]).id == a.id && (#[trigger] bs[q]).id == b.id
            && distance_record_ok(s.cell_map(), bs[p], bs[q], t[pair_key(a.id, b.id)]);
    assert(p == i && q == j);
    assert(recorded_from_pair(s.cell_map(), bs, pair_key(b.id, a.id), t[pair_key(b.id, a.id)]));
    let (p2, q2) = choose|p: int, q: int|
        0 <= p < bs.len() && 0 <= q < bs.len() && (#[trigger] bs[p]).id == b.id && (#[trigger] bs[q]).id == a.id
            && distance_record_ok(s.cell_map(), bs[p], bs[q], t[pair_key(b.id, a.id)]);
    assert(p2 == j && q2 == i);
}

impl Simulator {
    pub closed spec fn cell_map(&self) -> CellMap {
        self.map
    }

    pub open spec fn bounds_spec(&self) -> MapBounds {
        self.cell_map().bounds_spec()
    }

    pub closed spec fn buildings_view(&self) -> Seq<PlacementView> {
        views(self.buildings@)
    }

    pub closed spec fn walls_spec(&self) -> Seq<WallSegment> {
        self.walls@
    }

    pub closed spec fn next_building_id(&self) -> u32 {
        self.factory.next_building_id()
    }

    pub closed spec fn next_group_id(&self) -> u32 {
        self.factory.next_group_id()
    }

    pub closed spec fn next_wall_id(&self) -> u32 {
        self.next_wall_id
    }

    pub closed spec fn ticks_spec(&self) -> u64 {
        self.time.ticks_spec()
    }

    pub closed spec fn defers_paths(&self) -> bool {
        self.defer_path_calculation
    }

    pub closed spec fn distance_table(&self) -> DistanceTable {
        self.distances
    }

    pub closed spec fn worker_table(&self) -> DistanceTable {
        self.worker_distances
    }

    /// The invariant every simulator keeps: the map holds exactly the
    /// objects, objects never overlap and lie on the canvas, identifiers are
    /// distinct and below the next ones handed out, and recorded routes are
    /// no longer than a map can be large.
    pub open spec fn wf(&self) -> bool {
        &&& self.cell_map().wf()
        &&& map_matches(self.cell_map(), self.buildings_view(), self.walls_spec())
        &&& layout_ok(self.bounds_spec(), self.buildings_view(), self.walls_spec())
        &&& entries_inside(self.bounds_spec(), self.buildings_view())
        &&& forall|i: int|
            0 <= i < self.buildings_view().len() ==> (#[trigger] self.buildings_view()[i]).id < self.next_building_id()
                && (self.buildings_view()[i].goods_yard_group_id matches Some(g) ==> g < self.next_group_id())
        &&& forall|j: int| 0 <= j < self.walls_spec().len() ==> (#[trigger] self.walls_spec()[j]).id < self.next_wall_id()
        &&& self.distance_table().keys_distinct()
        &&& self.worker_table().keys_distinct()
        &&& distances_bounded(self.distance_table()@, MAX_CELL_COUNT as nat)
        &&& distances_bounded(self.worker_table()@, MAX_CELL_COUNT as nat)
    }

    /// The routes are those of the current layout.
    pub open spec fn routes_fresh(&self) -> bool {
        &&& distances_fresh(self.cell_map(), self.buildings_view(), self.distance_table()@)
        &&& worker_fresh(self.buildings_view(), self.distance_table()@, self.worker_table()@)
    }

    /// After an edit the routes are recomputed, or dropped while route
    /// calculation is deferred.
    pub open spec fn routes_after_edit(&self) -> bool {
        if self.defers_paths() {
            &&& self.distance_table()@ == Map::<DistanceKey, BuildingDistance>::empty()
            &&& self.worker_table()@ == Map::<DistanceKey, BuildingDistance>::empty()
        } else {
            self.routes_fresh()
        }
    }

    /// What every edit keeps: the canvas keeps every cell it had, route
    /// calculation stays deferred or not, and routes that were current
    /// (recomputed, or dropped while deferred) stay current.
    pub open spec fn edited_from(&self, old: &Simulator) -> bool {
        &&& bounds_within(old.bounds_spec(), self.bounds_spec())
        &&& self.defers_paths() == old.defers_paths()
        &&& (old.routes_after_edit() ==> self.routes_after_edit())
    }

    /// Everything but the buildings and the routes is as in `other`.
    pub open spec fn same_canvas(&self, other: &Simulator) -> bool {
        &&& self.cell_map() == other.cell_map()
        &&& self.walls_spec() == other.walls_spec()
        &&& self.next_building_id() == other.next_building_id()
        &&& self.next_group_id() == other.next_group_id()
        &&& self.next_wall_id() == other.next_wall_id()
        &&& self.ticks_spec() == other.ticks_spec()
        &&& self.defers_paths() == other.defers_paths()
    }

    /// Recomputes entry points that are off the map or blocked.
    fn refresh_unavailable_entry_points(&mut self)
        requires
            old(self).wf(),
        ensures
            final(self).wf(),
            final(self).buildings_view() == refreshed_all(old(self).cell_map(), old(self).walls_spec(), old(self).buildings_view()),
            final(self).same_canvas(&*old(self)),
            final(self).distance_table() == old(self).distance_table(),
            final(self).worker_table() == old(self).worker_table(),
    {
        proof {
            assert forall|i: int| 0 <= i < self.buildings@.len() implies placement_ok(#[trigger] views(self.buildings@)[i]) by {
                assert(placement_ok(self.buildings_view()[i]));
            }
        }
        refresh_entries(&mut self.buildings, &self.map, &self.walls);
        proof {
            lemma_refreshed_inside(old(self).map, old(self).walls@, old(self).buildings_view());
            lemma_refreshed_shapes(old(self).map, old(self).walls@, old(self).buildings_view());
            lemma_same_shapes(self.map, self.bounds_spec(), old(self).buildings_view(), self.buildings_view(), self.walls@);
            assert forall|i: int| 0 <= i < self.buildings_view().len() implies (#[trigger] self.buildings_view()[i]).id < self.next_building_id()
                && (self.buildings_view()[i].goods_yard_group_id matches Some(g) ==> g < self.next_group_id()) by {
                assert(same_shape(old(self).buildings_view()[i], self.buildings_view()[i]));
            }
        }
    }

    /// Rebuilds the worker routes from the building routes.
    fn recompute_worker_distances(&mut self)
        requires
            old(self).wf(),
        ensures
            final(self).wf(),
            final(self).buildings_view() == old(self).buildings_view(),
            final(self).same_canvas(&*old(self)),
            final(self).distance_table() == old(self).distance_table(),
            worker_fresh(final(self).buildings_view(), final(self).distance_table()@, final(self).worker_table()@),
    {
        self.worker_distances = build_worker_distances(&self.buildings, &self.distances);
        proof {
            assert forall|k: DistanceKey| #[trigger] self.worker_distances@.contains_key(k) implies (self.worker_distances@[k].distance_cells matches Some(d)
                ==> d <= MAX_CELL_COUNT) by {
                assert(self.distances@.contains_key(k));
            }
        }
    }

    /// Rebuilds every route, or drops them while calculation is deferred.
    fn recompute_distances(&mut self)
        requires
            old(self).wf(),
        ensures
            final(self).wf(),
            final(self).buildings_view() == old(self).buildings_view(),
            final(self).same_canvas(&*old(self)),
            final(self).routes_after_edit(),
    {
        if self.defer_path_calculation {
            self.distances.clear();
            self.worker_distances.clear();
            proof {
                assert(distances_bounded(self.distances@, MAX_CELL_COUNT as nat));
                assert(distances_bounded(self.worker_distances@, MAX_CELL_COUNT as nat));
            }
            return;
        }
        self.distances = recompute_building_distances(&self.buildings, &self.map);
        proof {
            self.map.lemma_wf_facts();
        }
        self.recompute_worker_distances();
    }

    /// Computes the entry points of a new building on the current map.
    fn assign_entry_points(&self, placement: &mut BuildingPlacement)
        requires
            self.cell_map().wf(),
            placement_ok(old(placement)@),
        ensures
            final(placement)@ == assigned(self.cell_map(), self.walls_spec(), old(placement)@),
    {
        proof {
            lemma_placement_ok_facts(placement@);
        }
        placement.entry_point = calculate_building_entry(
            &self.map,
            &self.walls,
            placement.building_type,
            placement.x,
            placement.y,
            placement.width() as i32,
        );
        let ghost comps = placement.components@;
        let mut components: Vec<BuildingComponent> = Vec::new();
        let mut k: usize = 0;
        while k < placement.components.len()
            invariant
                self.cell_map().wf(),
                comps == placement.components@,
                comps.len() == 0,
                k <= comps.len(),
                components@.len() == k,
            decreases comps.len() - k,
        {
            let c = placement.components[k];
            let e = resolve_entry_point_for_square(&self.map, c.x, c.y, c.size as i32, 0);
            components.push(BuildingComponent { entry_point: e, ..c });
            k = k + 1;
        }
        placement.components = components;
        assert(placement.components@ =~= comps.map_values(
            |c: BuildingComponent|
                BuildingComponent {
                    id: c.id,
                    component_type: c.component_type,
                    x: c.x,
                    y: c.y,
                    size: c.size,
                    entry_point: square_entry(self.map, c.x as int, c.y as int, c.size as int, 0),
                },
        ));
    }

    /// Adds buildings whose cells are known to be free: claims their cells,
    /// computes their entry points on the resulting map and appends them.
    fn commit_placements(&mut self, news: &Vec<BuildingPlacement>)
        requires
            old(self).wf(),
            additions_ok(old(self).bounds_spec(), old(self).buildings_view(), old(self).walls_spec(), views(news@)),
            forall|k: int|
                0 <= k < news@.len() ==> (#[trigger] news@[k]).id < old(self).next_building_id() && (news@[k].goods_yard_group_id matches Some(
                    g,
                ) ==> g < old(self).next_group_id()),
        ensures
            final(self).wf(),
            final(self).buildings_view() == old(self).buildings_view() + views(news@).map_values(
                |b: PlacementView| assigned(final(self).cell_map(), old(self).walls_spec(), b),
            ),
            final(self).bounds_spec() == old(self).bounds_spec(),
            final(self).walls_spec() == old(self).walls_spec(),
            final(self).next_building_id() == old(self).next_building_id(),
            final(self).next_group_id() == old(self).next_group_id(),
            final(self).next_wall_id() == old(self).next_wall_id(),
            final(self).ticks_spec() == old(self).ticks_spec(),
            final(self).defers_paths() == old(self).defers_paths(),
            final(self).distance_table() == old(self).distance_table(),
            final(self).worker_table() == old(self).worker_table(),
    {
        let ghost bs0 = self.buildings_view();
        let ghost ws = self.walls@;
        let ghost nv = views(news@);
        let ghost bounds = self.bounds_spec();
        let n = news.len();
        proof {
            assert(nv.subrange(0, 0) =~= Seq::<PlacementView>::empty());
            assert(bs0 + nv.subrange(0, 0) =~= bs0);
        }
        let mut k: usize = 0;
        while k < n
            invariant
                old(self).wf(),
                bs0 == old(self).buildings_view(),
                ws == old(self).walls_spec(),
                nv == views(news@),
                n == nv.len(),
                bounds == old(self).bounds_spec(),
                additions_ok(bounds, bs0, ws, nv),
                k <= n,
                self.map.wf(),
                self.map.bounds_spec() == bounds,
                map_matches(self.map, bs0 + nv.subrange(0, k as int), ws),
                self.buildings == old(self).buildings,
                self.walls == old(self).walls,
                self.factory == old(self).factory,
                self.time == old(self).time,
                self.next_wall_id == old(self).next_wall_id,
                self.distances == old(self).distances,
                self.worker_distances == old(self).worker_distances,
                self.defer_path_calculation == old(self).defer_path_calculation,
            decreases n - k,
        {
            let ghost before = self.map;
            let ghost sub = bs0 + nv.subrange(0, k as int);
            let ghost b = nv[k as int];
            assert(b == news@[k as int]@);
            proof {
                lemma_placement_ok_facts(b);
                assert(cells_inside(bounds, b.occupied_cells_spec()));
                assert forall|t: int| 0 <= t < b.occupied_cells_spec().len() implies before.in_bounds(
                    (#[trigger] b.occupied_cells_spec()[t]).0 as int,
                    b.occupied_cells_spec()[t].1 as int,
                ) && !before.occupied_at(b.occupied_cells_spec()[t].0 as int, b.occupied_cells_spec()[t].1 as int) by {
                    let c = b.occupied_cells_spec()[t];
                    assert(b.covers(c.0, c.1));
                    if before.occupied_at(c.0 as int, c.1 as int) {
                        assert(!building_at(bs0, c.0, c.1) && !wall_at(ws, c.0, c.1));
                        assert(building_at(sub, c.0, c.1));
                        let i = choose|i: int| 0 <= i < sub.len() && (#[trigger] sub[i]).covers(c.0, c.1);
                        if i < bs0.len() {
                            assert(sub[i] == bs0[i]);
                        } else {
                            assert(sub[i] == nv[i - bs0.len()]);
                            assert(nv[i - bs0.len()].covers(c.0, c.1));
                        }
                    }
                }
            }
            match self.map.place(&news[k]) {
                Ok(()) => {},
                Err(_) => {
                    assert(false);
                },
            }
            proof {
                assert(bs0 + nv.subrange(0, k + 1) =~= sub.push(b));
                assert forall|x: i32, y: i32| #[trigger] self.map.occupied_at(x as int, y as int) == (building_at(
                    bs0 + nv.subrange(0, k + 1),
                    x,
                    y,
                ) || wall_at(ws, x, y)) by {
                    lemma_building_at_push(sub, b, x, y);
                    assert(before.occupied_at(x as int, y as int) == (building_at(sub, x, y) || wall_at(ws, x, y)));
                    if b.covers(x, y) {
                        let t = choose|t: int| 0 <= t < b.occupied_cells_spec().len() && b.occupied_cells_spec()[t] == (x, y);
                        assert(bounds.has(b.occupied_cells_spec()[t].0 as int, b.occupied_cells_spec()[t].1 as int));
                    }
                }
                assert forall|x: i32, y: i32| #[trigger] self.map.blocked_at(x as int, y as int) == (building_blocks_at(
                    bs0 + nv.subrange(0, k + 1),
                    x,
                    y,
                ) || wall_at(ws, x, y)) by {
                    lemma_building_at_push(sub, b, x, y);
                    assert(before.blocked_at(x as int, y as int) == (building_blocks_at(sub, x, y) || wall_at(ws, x, y)));
                    if b.blocks(x, y) {
                        assert(b.covers(x, y));
                        let t = choose|t: int| 0 <= t < b.occupied_cells_spec().len() && b.occupied_cells_spec()[t] == (x, y);
                        assert(bounds.has(b.occupied_cells_spec()[t].0 as int, b.occupied_cells_spec()[t].1 as int));
                    }
                }
            }
            k = k + 1;
        }
        proof {
            assert(nv.subrange(0, n as int) =~= nv);
            lemma_layout_append(bounds, bs0, ws, nv);
        }
        let ghost placed = self.map;
        let ghost target = bs0 + nv.map_values(|b: PlacementView| assigned(placed, ws, b));
        let mut k: usize = 0;
        while k < n
            invariant
                bs0 == old(self).buildings_view(),
                ws == old(self).walls_spec(),
                nv == views(news@),
                n == nv.len(),
                placed == self.map,
                placed.wf(),
                forall|t: int| 0 <= t < n ==> placement_ok(#[trigger] nv[t]),
                target == bs0 + nv.map_values(|b: PlacementView| assigned(placed, ws, b)),
                k <= n,
                views(self.buildings@) == target.subrange(0, bs0.len() + k),
                self.walls == old(self).walls,
                self.factory == old(self).factory,
                self.time == old(self).time,
                self.next_wall_id == old(self).next_wall_id,
                self.distances == old(self).distances,
                self.worker_distances == old(self).worker_distances,
                self.defer_path_calculation == old(self).defer_path_calculation,
                old(self).wf(),
                forall|t: int|
                    0 <= t < n ==> (#[trigger] news@[t]).id < old(self).next_building_id() && (news@[t].goods_yard_group_id matches Some(
                        g,
                    ) ==> g < old(self).next_group_id()),
            decreases n - k,
        {
            let mut p = news[k].duplicate();
            assert(p@ == nv[k as int]);
            self.assign_entry_points(&mut p);
            let ghost before = self.buildings@;
            self.buildings.push(p);
            proof {
                assert(views(self.buildings@) =~= views(before).push(p@));
                assert(target.subrange(0, bs0.len() + k + 1) =~= target.subrange(0, bs0.len() + k).push(target[bs0.len() + k]));
            }
            k = k + 1;
        }
        proof {
            assert(target.subrange(0, bs0.len() + n) =~= target);
            let all = bs0 + nv;
            assert(same_shapes(all, target)) by {
                assert forall|i: int| 0 <= i < all.len() implies same_shape(#[trigger] all[i], target[i]) by {
                    if i >= bs0.len() {
                        assert(all[i] == nv[i - bs0.len()]);
                    }
                }
            }
            lemma_same_shapes(self.map, bounds, all, target, ws);
            assert forall|i: int| 0 <= i < target.len() implies ((#[trigger] target[i]).entry_point matches Some(e) ==> bounds.has(
                e.x as int,
                e.y as int,
            )) by {
                if i < bs0.len() {
                    assert(target[i] == bs0[i]);
                } else {
                    let b = nv[i - bs0.len()];
                    lemma_building_entry_inside(placed, ws, b.building_type, b.x as int, b.y as int, b.footprint.width as int);
                }
            }
            assert forall|i: int| 0 <= i < target.len() implies (#[trigger] target[i]).id < self.next_building_id()
                && (target[i].goods_yard_group_id matches Some(g) ==> g < self.next_group_id()) by {
                if i < bs0.len() {
                    assert(target[i] == bs0[i]);
                } else {
                    assert(target[i].id == news@[i - bs0.len()].id);
                }
            }
        }
    }

    /// The layout after new buildings joined it on bounds `nb`: the
    /// buildings appended, every unavailable entry computed anew on the new
    /// map, and the routes recomputed.
    pub open spec fn placed_outcome(&self, old: &Simulator, nb: MapBounds, news: Seq<PlacementView>, groups_used: int) -> bool {
        &&& self.bounds_spec() == nb
        &&& self.buildings_view() == refreshed_all(self.cell_map(), old.walls_spec(), old.buildings_view() + news)
        &&& self.walls_spec() == old.walls_spec()
        &&& self.next_building_id() == old.next_building_id() + news.len()
        &&& self.next_group_id() == old.next_group_id() + groups_used
        &&& self.next_wall_id() == old.next_wall_id()
        &&& self.ticks_spec() == old.ticks_spec()
        &&& self.defers_paths() == old.defers_paths()
        &&& self.routes_after_edit()
    }

    /// What placing a building of `building_type` at `(x, y)` does: the
    /// canvas must be able to grow around it and its cells must be free;
    /// then it joins the layout on the grown canvas, else nothing changes.
    pub open spec fn building_placed(
        &self,
        old: &Simulator,
        building_type: BuildingType,
        x: i32,
        y: i32,
        r: Result<u32, SimulatorError>,
    ) -> bool {
        &&& (r is Err ==> *self == *old)
        &&& ({
            let news = new_placements(old.next_building_id(), old.next_group_id(), building_type, x, y);
            match canvas_for(
                old.bounds_spec(),
                x as int,
                y as int,
                x + shape_size(building_type),
                y + shape_size(building_type),
            ) {
                None => r == Err::<u32, SimulatorError>(SimulatorError::InvalidMapSize),
                Some(nb) => if placement_conflicts(news, old.buildings_view(), old.walls_spec()) {
                    r == Err::<u32, SimulatorError>(SimulatorError::MapConflict(MapError::Occupied))
                } else {
                    &&& r == Ok::<u32, SimulatorError>(old.next_building_id())
                    &&& self.placed_outcome(
                        old,
                        nb,
                        news,
                        if building_type == BuildingType::GoodsYard {
                            1int
                        } else {
                            0int
                        },
                    )
                },
            }
        })
    }

    /// Places a building of `building_type` with its bottom-left cell at
    /// `(x, y)`; a goods yard places its four stockpiles. The canvas grows
    /// first so that a margin of free cells stays around the building.
    #[verifier::rlimit(50)]
    pub fn place_building(&mut self, building_type: BuildingType, x: i32, y: i32) -> (r: Result<u32, SimulatorError>)
        requires
            old(self).wf(),
            x + shape_size(building_type) <= i32::MAX,
            y + shape_size(building_type) <= i32::MAX,
            old(self).next_building_id() + ids_taken(building_type) <= u32::MAX,
            building_type == BuildingType::GoodsYard ==> old(self).next_group_id() < u32::MAX,
        ensures
            final(self).wf(),
            final(self).edited_from(&*old(self)),
            final(self).building_placed(&*old(self), building_type, x, y, r),
    {
        let ghost news = new_placements(self.next_building_id(), self.next_group_id(), building_type, x, y);
        let size = Footprint::for_type(building_type).width() as i32;
        let current = self.map.bounds();
        let target = match grow_bounds(current, x, y, x + size, y + size) {
            Some(b) => b,
            None => return Err(SimulatorError::InvalidMapSize),
        };
        proof {
            lemma_margin(current.min_x as int, x as int);
            lemma_margin(current.min_y as int, y as int);
            lemma_margin(current.max_x as int, x + size);
            lemma_margin(current.max_y as int, y + size);
            assert(bounds_within(current, target));
            lemma_layout_grow(current, target, self.buildings_view(), self.walls@);
        }
        let expanded = if target == current {
            None
        } else {
            match rebuild_map(target, &self.buildings, &self.walls) {
                Some(m) => Some(m),
                None => return Err(SimulatorError::InvalidMapSize),
            }
        };
        let mut factory = self.factory;
        let mut placements: Vec<BuildingPlacement> = Vec::new();
        if building_type == BuildingType::GoodsYard {
            let (_, stacks) = factory.create_goods_yard_stacks(x, y);
            placements = stacks;
        } else {
            let placement = factory.create(building_type, x, y);
            placements.push(placement);
        }
        assert(views(placements@) =~= news);
        let ghost candidate = if expanded is Some {
            expanded->0
        } else {
            self.map
        };
        proof {
            lemma_new_placements(
                candidate,
                target,
                self.buildings_view(),
                self.walls@,
                building_type,
                x,
                y,
                self.next_building_id(),
                self.next_group_id(),
            );
            assert forall|k: int| 0 <= k < placements@.len() implies (#[trigger] placements@[k])@.fits() by {
                assert(placements@[k]@ == news[k]);
            }
        }
        let checked = match &expanded {
            Some(m) => check_placements(m, &placements),
            None => check_placements(&self.map, &placements),
        };
        match checked {
            Ok(()) => {},
            Err(e) => {
                proof {
                    let k = choose|k: int| 0 <= k < placements@.len() && candidate.first_conflict((#[trigger] placements@[k])@.occupied_cells_spec()) == Some(e);
                    assert(placements@[k]@ == news[k]);
                    lemma_conflict_in_bounds(candidate, news[k].occupied_cells_spec(), 0);
                    assert(!(forall|k: int| 0 <= k < news.len() ==> candidate.all_free((#[trigger] news[k]).occupied_cells_spec())))
                        by {
                        if candidate.all_free(news[k].occupied_cells_spec()) {
                            let cells = news[k].occupied_cells_spec();
                            assert forall|j: int| 0 <= j < cells.len() implies !candidate.occupied_at((#[trigger] cells[j]).0 as int, cells[j].1 as int) by {
                            }
                        }
                    }
                }
                return Err(SimulatorError::MapConflict(e));
            },
        }
        proof {
            assert forall|k: int| 0 <= k < news.len() implies candidate.all_free((#[trigger] news[k]).occupied_cells_spec()) by {
                assert(placements@[k]@ == news[k]);
            }
        }
        let first_id = placements[0].id;
        match expanded {
            Some(m) => {
                self.map = m;
            },
            None => {},
        }
        self.factory = factory;
        proof {
            assert forall|k: int|
                0 <= k < placements@.len() implies (#[trigger] placements@[k]).id < self.next_building_id() && (
            placements@[k].goods_yard_group_id matches Some(g) ==> g < self.next_group_id()) by {
                assert(placements@[k]@ == news[k]);
            }
        }
        self.commit_placements(&placements);
        let ghost committed = self.buildings_view();
        self.refresh_unavailable_entry_points();
        proof {
            let ws = self.walls@;
            let all = old(self).buildings_view() + news;
            assert(self.buildings_view() =~= refreshed_all(self.map, ws, all)) by {
                assert forall|i: int| 0 <= i < all.len() implies #[trigger] refreshed(self.map, ws, committed[i]) == refreshed(self.map, ws, all[i]) by {
                    if i >= old(self).buildings_view().len() {
                        let j = i - old(self).buildings_view().len();
                        assert(all[i] == news[j]);
                        assert(committed[i] == assigned(self.map, ws, views(placements@)[j]));
                        assert(news[j].components =~= Seq::<BuildingComponent>::empty());
                        assert(refreshed(self.map, ws, committed[i]).components =~= refreshed(self.map, ws, all[i]).components);
                    } else {
                        assert(all[i] == committed[i]);
                    }
                }
            }
        }
        self.recompute_distances();
        Ok(first_id)
    }

    /// The layout after wall `w` joined it on bounds `nb`.
    pub open spec fn wall_outcome(&self, old: &Simulator, nb: MapBounds, w: WallSegment) -> bool {
        &&& self.bounds_spec() == nb
        &&& self.walls_spec() == old.walls_spec().push(w)
        &&& self.buildings_view() == refreshed_all(self.cell_map(), self.walls_spec(), old.buildings_view())
        &&& self.next_building_id() == old.next_building_id()
        &&& self.next_group_id() == old.next_group_id()
        &&& self.next_wall_id() == old.next_wall_id() + 1
        &&& self.ticks_spec() == old.ticks_spec()
        &&& self.defers_paths() == old.defers_paths()
        &&& self.routes_after_edit()
    }

    /// What placing a wall from `(start_x, start_y)` to `(end_x, end_y)`
    /// does: the canvas must be able to grow around it, it must be straight
    /// and its cells free; then it joins the layout, else nothing changes.
    pub open spec fn wall_placed(
        &self,
        old: &Simulator,
        start_x: i32,
        start_y: i32,
        end_x: i32,
        end_y: i32,
        r: Result<u32, SimulatorError>,
    ) -> bool {
        &&& (r is Err ==> *self == *old)
        &&& ({
            let w = WallSegment { id: old.next_wall_id(), start_x, start_y, end_x, end_y };
            match canvas_for(
                old.bounds_spec(),
                min_i32(start_x, end_x) as int,
                min_i32(start_y, end_y) as int,
                max_i32(start_x, end_x) + 1,
                max_i32(start_y, end_y) + 1,
            ) {
                None => r == Err::<u32, SimulatorError>(SimulatorError::InvalidMapSize),
                Some(nb) => if !w.axis_aligned() {
                    r == Err::<u32, SimulatorError>(SimulatorError::InvalidWallDirection)
                } else if exists|x: i32, y: i32|
                    #[trigger] w.cells_spec().contains((x, y)) && (building_at(old.buildings_view(), x, y) || wall_at(
                        old.walls_spec(),
                        x,
                        y,
                    )) {
                    r == Err::<u32, SimulatorError>(SimulatorError::MapConflict(MapError::Occupied))
                } else {
                    &&& r == Ok::<u32, SimulatorError>(old.next_wall_id())
                    &&& self.wall_outcome(old, nb, w)
                },
            }
        })
    }

    /// Whether a wall from `(start_x, start_y)` to `(end_x, end_y)` would be
    /// placed: the canvas can grow around it, it runs along a row or column,
    /// and none of its cells is taken.
    pub open spec fn wall_accepted(&self, start_x: i32, start_y: i32, end_x: i32, end_y: i32) -> bool {
        let w = WallSegment { id: self.next_wall_id(), start_x, start_y, end_x, end_y };
        &&& canvas_for(
            self.bounds_spec(),
            min_i32(start_x, end_x) as int,
            min_i32(start_y, end_y) as int,
            max_i32(start_x, end_x) + 1,
            max_i32(start_y, end_y) + 1,
        ) is Some
        &&& w.axis_aligned()
        &&& !exists|x: i32, y: i32|
            #[trigger] w.cells_spec().contains((x, y)) && (building_at(self.buildings_view(), x, y) || wall_at(
                self.walls_spec(),
                x,
                y,
            ))
    }

    /// Places a horizontal or vertical wall from `(start_x, start_y)` to
    /// `(end_x, end_y)`, both cells included. The canvas grows first so that
    /// a margin of free cells stays around the wall.
    #[verifier::rlimit(50)]
    pub fn place_wall(&mut self, start_x: i32, start_y: i32, end_x: i32, end_y: i32) -> (r: Result<u32, SimulatorError>)
        requires
            old(self).wf(),
            max_i32(start_x, end_x) < i32::MAX,
            max_i32(start_y, end_y) < i32::MAX,
            old(self).wall_accepted(start_x, start_y, end_x, end_y) ==> old(self).next_wall_id() < u32::MAX,
        ensures
            final(self).wf(),
            final(self).edited_from(&*old(self)),
            final(self).wall_placed(&*old(self), start_x, start_y, end_x, end_y, r),
    {
        let min_x = if start_x <= end_x { start_x } else { end_x };
        let min_y = if start_y <= end_y { start_y } else { end_y };
        let max_x = if start_x <= end_x { end_x } else { start_x };
        let max_y = if start_y <= end_y { end_y } else { start_y };
        let current = self.map.bounds();
        let target = match grow_bounds(current, min_x, min_y, max_x + 1, max_y + 1) {
            Some(b) => b,
            None => return Err(SimulatorError::InvalidMapSize),
        };
        proof {
            lemma_margin(current.min_x as int, min_x as int);
            lemma_margin(current.min_y as int, min_y as int);
            lemma_margin(current.max_x as int, max_x + 1);
            lemma_margin(current.max_y as int, max_y + 1);
            assert(bounds_within(current, target));
            lemma_layout_grow(current, target, self.buildings_view(), self.walls@);
        }
        let expanded = if target == current {
            None
        } else {
            match rebuild_map(target, &self.buildings, &self.walls) {
                Some(m) => Some(m),
                None => return Err(SimulatorError::InvalidMapSize),
            }
        };
        let wall = WallSegment::new(self.next_wall_id, start_x, start_y, end_x, end_y);
        if !wall.is_axis_aligned() {
            return Err(SimulatorError::InvalidWallDirection);
        }
        let cells = line_cells(start_x, start_y, end_x, end_y);
        let ghost candidate = if expanded is Some {
            expanded->0
        } else {
            self.map
        };
        let ghost bs = self.buildings_view();
        let ghost ws = self.walls@;
        proof {
            lemma_wall_cells_in_box(wall);
            assert forall|k: int| 0 <= k < cells@.len() implies candidate.in_bounds((#[trigger] cells@[k]).0 as int, cells@[k].1 as int) by {
                assert(wall.cells_spec().contains(cells@[k]));
            }
        }
        let checked = match &expanded {
            Some(m) => m.can_place_cells(&cells),
            None => self.map.can_place_cells(&cells),
        };
        match checked {
            Ok(()) => {},
            Err(e) => {
                proof {
                    lemma_conflict_in_bounds(candidate, cells@, 0);
                    assert(!candidate.all_free(cells@));
                    let k = choose|k: int| 0 <= k < cells@.len() && !(candidate.in_bounds((#[trigger] cells@[k]).0 as int, cells@[k].1 as int)
                        && !candidate.occupied_at(cells@[k].0 as int, cells@[k].1 as int));
                    assert(wall.cells_spec().contains(cells@[k]));
                }
                return Err(SimulatorError::MapConflict(e));
            },
        }
        proof {
            assert forall|x: i32, y: i32| #[trigger] wall.cells_spec().contains((x, y)) implies !building_at(bs, x, y) && !wall_at(ws, x, y) by {
                let k = choose|k: int| 0 <= k < cells@.len() && cells@[k] == (x, y);
                assert(!candidate.occupied_at(cells@[k].0 as int, cells@[k].1 as int));
            }
            assert forall|j: int| 0 <= j < ws.len() implies (#[trigger] ws[j]).id != wall.id by {}
            assert(cells_inside(target, wall.cells_spec()));
            lemma_layout_add_wall(target, bs, ws, wall);
        }
        match expanded {
            Some(m) => {
                self.map = m;
            },
            None => {},
        }
        let ghost before = self.map;
        match self.map.place_cells(wall.id, &cells) {
            Ok(()) => {},
            Err(_) => {
                assert(false);
            },
        }
        self.walls.push(wall);
        self.next_wall_id = self.next_wall_id + 1;
        proof {
            assert forall|x: i32, y: i32| #[trigger] self.map.occupied_at(x as int, y as int) == (building_at(bs, x, y) || wall_at(
                self.walls@,
                x,
                y,
            )) by {
                lemma_wall_at_push(ws, wall, x, y);
                assert(before.occupied_at(x as int, y as int) == (building_at(bs, x, y) || wall_at(ws, x, y)));
                if wall.cells_spec().contains((x, y)) {
                    let k = choose|k: int| 0 <= k < cells@.len() && cells@[k] == (x, y);
                    assert(target.has(cells@[k].0 as int, cells@[k].1 as int));
                }
            }
            assert forall|x: i32, y: i32| #[trigger] self.map.blocked_at(x as int, y as int) == (building_blocks_at(bs, x, y)
                || wall_at(self.walls@, x, y)) by {
                lemma_wall_at_push(ws, wall, x, y);
                assert(before.blocked_at(x as int, y as int) == (building_blocks_at(bs, x, y) || wall_at(ws, x, y)));
                if wall.cells_spec().contains((x, y)) {
                    let k = choose|k: int| 0 <= k < cells@.len() && cells@[k] == (x, y);
                    assert(target.has(cells@[k].0 as int, cells@[k].1 as int));
                }
            }
            assert forall|j: int| 0 <= j < self.walls@.len() implies (#[trigger] self.walls@[j]).id < self.next_wall_id by {
                if j < ws.len() {
                    assert(self.walls@[j] == ws[j]);
                }
            }
        }
        self.refresh_unavailable_entry_points();
        self.recompute_distances();
        Ok(wall.id)
    }

    /// Removes the buildings with a listed identifier and frees their cells;
    /// returns the removed identifiers in building order. After a removal
    /// the entry points and routes are brought up to date.
    #[verifier::rlimit(50)]
    fn remove_buildings_by_ids(&mut self, ids: &Vec<u32>) -> (r: Vec<u32>)
        requires
            old(self).wf(),
        ensures
            final(self).wf(),
            r@ == ids_of(old(self).buildings_view().filter(listed(ids@))),
            final(self).bounds_spec() == old(self).bounds_spec(),
            final(self).walls_spec() == old(self).walls_spec(),
            final(self).next_building_id() == old(self).next_building_id(),
            final(self).next_group_id() == old(self).next_group_id(),
            final(self).next_wall_id() == old(self).next_wall_id(),
            final(self).ticks_spec() == old(self).ticks_spec(),
            final(self).defers_paths() == old(self).defers_paths(),
            r@.len() == 0 ==> {
                &&& final(self).buildings_view() == old(self).buildings_view()
                &&& final(self).cell_map() == old(self).cell_map()
                &&& final(self).distance_table() == old(self).distance_table()
                &&& final(self).worker_table() == old(self).worker_table()
            },
            r@.len() > 0 ==> {
                &&& final(self).buildings_view() == refreshed_all(
                    final(self).cell_map(),
                    old(self).walls_spec(),
                    old(self).buildings_view().filter(unlisted(ids@)),
                )
                &&& final(self).routes_after_edit()
            },
    {
        let ghost bs = self.buildings_view();
        let ghost ws = self.walls@;
        let ghost bounds = self.bounds_spec();
        if ids.len() == 0 {
            proof {
                assert forall|i: int| 0 <= i < bs.len() implies !(#[trigger] listed(ids@)(bs[i])) by {}
                bs.lemma_all_neg_filter_empty(listed(ids@));
                assert(ids_of(bs.filter(listed(ids@))) =~= Seq::<u32>::empty());
            }
            return Vec::new();
        }
        let n = self.buildings.len();
        let mut kept: Vec<BuildingPlacement> = Vec::new();
        let mut removed: Vec<u32> = Vec::new();
        let ghost mut idx: Seq<int> = Seq::empty();
        proof {
            assert(bs.subrange(0, 0) =~= Seq::<PlacementView>::empty());
            assert(bs.subrange(0, n as int) =~= bs);
            assert(views(kept@) + bs.subrange(0, n as int) =~= bs);
            reveal(Seq::filter);
            assert(bs.subrange(0, 0).filter(unlisted(ids@)) =~= Seq::<PlacementView>::empty());
            assert(bs.subrange(0, 0).filter(listed(ids@)) =~= Seq::<PlacementView>::empty());
            assert(ids_of(Seq::<PlacementView>::empty()) =~= Seq::<u32>::empty());
        }
        let mut i: usize = 0;
        while i < n
            invariant
                old(self).wf(),
                bs == old(self).buildings_view(),
                ws == old(self).walls_spec(),
                bounds == old(self).bounds_spec(),
                self.buildings == old(self).buildings,
                self.walls == old(self).walls,
                self.factory == old(self).factory,
                self.time == old(self).time,
                self.next_wall_id == old(self).next_wall_id,
                self.distances == old(self).distances,
                self.worker_distances == old(self).worker_distances,
                self.defer_path_calculation == old(self).defer_path_calculation,
                n == bs.len(),
                i <= n,
                self.map.wf(),
                self.map.bounds_spec() == bounds,
                map_matches(self.map, views(kept@) + bs.subrange(i as int, n as int), ws),
                views(kept@) == bs.subrange(0, i as int).filter(unlisted(ids@)),
                removed@ == ids_of(bs.subrange(0, i as int).filter(listed(ids@))),
                removed@.len() == 0 ==> views(kept@) == bs.subrange(0, i as int) && self.map == old(self).map,
                picks(bs, views(kept@), idx),
                forall|a: int| 0 <= a < idx.len() ==> #[trigger] idx[a] < i,
            decreases n - i,
        {
            let ghost cur = bs[i as int];
            let ghost kv = views(kept@);
            let ghost rest = bs.subrange(i + 1, n as int);
            proof {
                assert(bs.subrange(0, i + 1) =~= bs.subrange(0, i as int).push(cur));
                bs.subrange(0, i as int).lemma_filter_push(cur, unlisted(ids@));
                bs.subrange(0, i as int).lemma_filter_push(cur, listed(ids@));
                lemma_placement_ok_facts(cur);
                assert(self.buildings@[i as int]@ == cur);
            }
            let id = self.buildings[i].id;
            if contains_id(ids, id) {
                let cells = self.buildings[i].occupied_cells();
                let ghost before = self.map;
                self.map.clear_cells(&cells);
                removed.push(id);
                proof {
                    assert(ids_of(bs.subrange(0, i as int).filter(listed(ids@)).push(cur)) =~= ids_of(
                        bs.subrange(0, i as int).filter(listed(ids@)),
                    ).push(cur.id));
                    assert forall|x: i32, y: i32| #[trigger] self.map.occupied_at(x as int, y as int) == (building_at(kv + rest, x, y)
                        || wall_at(ws, x, y)) by {
                        lemma_remove_one(bounds, bs, ws, kv, idx, i as int, x, y);
                        assert(before.occupied_at(x as int, y as int) == (building_at(kv + bs.subrange(i as int, n as int), x, y)
                            || wall_at(ws, x, y)));
                    }
                    assert forall|x: i32, y: i32| #[trigger] self.map.blocked_at(x as int, y as int) == (building_blocks_at(
                        kv + rest,
                        x,
                        y,
                    ) || wall_at(ws, x, y)) by {
                        lemma_remove_one(bounds, bs, ws, kv, idx, i as int, x, y);
                        assert(before.blocked_at(x as int, y as int) == (building_blocks_at(kv + bs.subrange(i as int, n as int), x, y)
                            || wall_at(ws, x, y)));
                        if cur.blocks(x, y) {
                            assert(cur.covers(x, y));
                        }
                    }
                }
            } else {
                let b = self.buildings[i].duplicate();
                let ghost before_kept = kept@;
                kept.push(b);
                proof {
                    idx = idx.push(i as int);
                    assert(views(kept@) =~= kv.push(cur));
                    assert(views(kept@) + rest =~= kv + bs.subrange(i as int, n as int));
                }
            }
            i = i + 1;
        }
        proof {
            assert(bs.subrange(0, n as int) =~= bs);
            assert(bs.subrange(n as int, n as int) =~= Seq::<PlacementView>::empty());
            assert(views(kept@) + bs.subrange(n as int, n as int) =~= views(kept@));
            lemma_layout_sublist(bounds, bs, ws, views(kept@), idx);
        }
        self.buildings = kept;
        proof {
            assert forall|a: int| 0 <= a < self.buildings_view().len() implies (#[trigger] self.buildings_view()[a]).id < self.next_building_id()
                && (self.buildings_view()[a].goods_yard_group_id matches Some(g) ==> g < self.next_group_id()) && (self.buildings_view()[a].entry_point matches Some(e) ==> bounds.has(
                e.x as int,
                e.y as int,
            )) by {
                assert(self.buildings_view()[a] == bs[idx[a]]);
            }
        }
        if removed.len() > 0 {
            self.refresh_unavailable_entry_points();
            self.recompute_distances();
        }
        removed
    }

    /// Removes every stockpile of goods yard group `group_id`.
    fn remove_buildings_by_group(&mut self, group_id: u32) -> (r: Vec<u32>)
        requires
            old(self).wf(),
        ensures
            final(self).wf(),
            r@ == ids_of(old(self).buildings_view().filter(in_group(group_id))),
            final(self).bounds_spec() == old(self).bounds_spec(),
            final(self).walls_spec() == old(self).walls_spec(),
            final(self).next_building_id() == old(self).next_building_id(),
            final(self).next_group_id() == old(self).next_group_id(),
            final(self).next_wall_id() == old(self).next_wall_id(),
            final(self).ticks_spec() == old(self).ticks_spec(),
            final(self).defers_paths() == old(self).defers_paths(),
            r@.len() == 0 ==> {
                &&& final(self).buildings_view() == old(self).buildings_view()
                &&& final(self).cell_map() == old(self).cell_map()
                &&& final(self).distance_table() == old(self).distance_table()
                &&& final(self).worker_table() == old(self).worker_table()
            },
            r@.len() > 0 ==> {
                &&& final(self).buildings_view() == refreshed_all(
                    final(self).cell_map(),
                    old(self).walls_spec(),
                    old(self).buildings_view().filter(|b: PlacementView| !in_group(group_id)(b)),
                )
                &&& final(self).routes_after_edit()
            },
    {
        let ghost bs = self.buildings_view();
        let mut ids: Vec<u32> = Vec::new();
        let mut i: usize = 0;
        proof {
            reveal(Seq::filter);
            assert(bs.subrange(0, 0).filter(in_group(group_id)) =~= Seq::<PlacementView>::empty());
            assert(ids_of(Seq::<PlacementView>::empty()) =~= Seq::<u32>::empty());
        }
        while i < self.buildings.len()
            invariant
                bs == views(self.buildings@),
                i <= bs.len(),
                ids@ == ids_of(bs.subrange(0, i as int).filter(in_group(group_id))),
            decreases bs.len() - i,
        {
            proof {
                assert(bs.subrange(0, i + 1) =~= bs.subrange(0, i as int).push(bs[i as int]));
                bs.subrange(0, i as int).lemma_filter_push(bs[i as int], in_group(group_id));
                assert(self.buildings@[i as int]@ == bs[i as int]);
            }
            if self.buildings[i].goods_yard_group_id == Some(group_id) {
                ids.push(self.buildings[i].id);
                assert(ids_of(bs.subrange(0, i as int).filter(in_group(group_id)).push(bs[i as int])) =~= ids_of(
                    bs.subrange(0, i as int).filter(in_group(group_id)),
                ).push(bs[i as int].id));
            }
            i = i + 1;
        }
        proof {
            assert(bs.subrange(0, i as int) =~= bs);
            lemma_ids_of_filter(bs, in_group(group_id));
            lemma_filter_equiv(bs, listed(ids@), in_group(group_id));
            lemma_filter_equiv(bs, unlisted(ids@), |b: PlacementView| !in_group(group_id)(b));
        }
        self.remove_buildings_by_ids(&ids)
    }

    /// Removes the building with identifier `building_id`, and with a goods
    /// yard stockpile its whole goods yard; `false` when no building has the
    /// identifier.
    pub fn remove_building(&mut self, building_id: u32) -> (r: bool)
        requires
            old(self).wf(),
        ensures
            final(self).wf(),
            final(self).edited_from(&*old(self)),
            r == exists|i: int| 0 <= i < old(self).buildings_view().len() && (#[trigger] old(self).buildings_view()[i]).id == building_id,
            !r ==> *final(self) == *old(self),
            r ==> {
                let t = choose|t: PlacementView| old(self).buildings_view().contains(t) && t.id == building_id;
                &&& final(self).buildings_view() == refreshed_all(
                    final(self).cell_map(),
                    old(self).walls_spec(),
                    old(self).buildings_view().filter(kept_without(t)),
                )
                &&& final(self).routes_after_edit()
                &&& final(self).bounds_spec() == old(self).bounds_spec()
                &&& final(self).walls_spec() == old(self).walls_spec()
                &&& final(self).next_building_id() == old(self).next_building_id()
                &&& final(self).next_wall_id() == old(self).next_wall_id()
                &&& final(self).ticks_spec() == old(self).ticks_spec()
                &&& final(self).defers_paths() == old(self).defers_paths()
            },
    {
        let ghost bs = self.buildings_view();
        let i = match position_of_id(&self.buildings, building_id) {
            Some(i) => i,
            None => return false,
        };
        let ghost target = bs[i as int];
        assert(self.buildings@[i as int]@ == target);
        proof {
            assert(bs.contains(target));
            let t = choose|t: PlacementView| bs.contains(t) && t.id == building_id;
            let j = choose|j: int| 0 <= j < bs.len() && bs[j] == t;
            assert(bs[j].id == bs[i as int].id);
            assert(t == target);
        }
        let removed = match self.buildings[i].goods_yard_group_id {
            Some(group_id) => {
                proof {
                    lemma_filter_equiv(bs, |b: PlacementView| !in_group(group_id)(b), kept_without(target));
                    bs.lemma_filter_contains(in_group(group_id), i as int);
                }
                self.remove_buildings_by_group(group_id)
            },
            None => {
                let mut ids: Vec<u32> = Vec::new();
                ids.push(building_id);
                proof {
                    assert forall|k: int| 0 <= k < bs.len() implies #[trigger] unlisted(ids@)(bs[k]) == kept_without(target)(bs[k]) by {
                        assert(ids@[0] == building_id);
                        if ids@.contains(bs[k].id) {
                            let t = choose|t: int| 0 <= t < ids@.len() && ids@[t] == bs[k].id;
                        }
                    }
                    lemma_filter_equiv(bs, unlisted(ids@), kept_without(target));
                    assert(listed(ids@)(bs[i as int])) by {
                        assert(ids@[0] == building_id);
                    }
                    bs.lemma_filter_contains(listed(ids@), i as int);
                }
                self.remove_buildings_by_ids(&ids)
            },
        };
        true
    }

    /// Removes the wall at position `index` and frees its cells.
    fn remove_wall_by_index(&mut self, index: usize) -> (r: u32)
        requires
            old(self).wf(),
            index < old(self).walls_spec().len(),
        ensures
            final(self).wf(),
            r == old(self).walls_spec()[index as int].id,
            final(self).walls_spec() == old(self).walls_spec().remove(index as int),
            final(self).buildings_view() == refreshed_all(final(self).cell_map(), final(self).walls_spec(), old(self).buildings_view()),
            final(self).routes_after_edit(),
            final(self).bounds_spec() == old(self).bounds_spec(),
            final(self).next_building_id() == old(self).next_building_id(),
            final(self).next_group_id() == old(self).next_group_id(),
            final(self).next_wall_id() == old(self).next_wall_id(),
            final(self).ticks_spec() == old(self).ticks_spec(),
            final(self).defers_paths() == old(self).defers_paths(),
    {
        let ghost bs = self.buildings_view();
        let ghost ws = self.walls@;
        let ghost bounds = self.bounds_spec();
        let wall = self.walls.remove(index);
        let cells = wall.cells();
        let ghost before = self.map;
        self.map.clear_cells(&cells);
        proof {
            assert forall|x: i32, y: i32| #[trigger] self.map.occupied_at(x as int, y as int) == (building_at(bs, x, y) || wall_at(
                self.walls@,
                x,
                y,
            )) by {
                lemma_remove_wall(bounds, bs, ws, index as int, x, y);
                assert(before.occupied_at(x as int, y as int) == (building_at(bs, x, y) || wall_at(ws, x, y)));
            }
            assert forall|x: i32, y: i32| #[trigger] self.map.blocked_at(x as int, y as int) == (building_blocks_at(bs, x, y)
                || wall_at(self.walls@, x, y)) by {
                lemma_remove_wall(bounds, bs, ws, index as int, x, y);
                assert(before.blocked_at(x as int, y as int) == (building_blocks_at(bs, x, y) || wall_at(ws, x, y)));
            }
            lemma_remove_wall(bounds, bs, ws, index as int, 0, 0);
            assert forall|j: int| 0 <= j < self.walls@.len() implies (#[trigger] self.walls@[j]).id < self.next_wall_id by {
                assert(self.walls@[j] == ws[if j < index { j } else { j + 1 }]);
            }
        }
        self.refresh_unavailable_entry_points();
        self.recompute_distances();
        wall.id
    }

    /// What removing at `(x, y)` does: a building there goes with its whole
    /// goods yard, else a wall there goes, else nothing changes.
    pub open spec fn removed_at(
        &self,
        old: &Simulator,
        x: i32,
        y: i32,
        r: RemoveOutcome,
    ) -> bool {
        &&& (self.bounds_spec() == old.bounds_spec())
        &&& (self.next_building_id() == old.next_building_id())
        &&& (self.next_group_id() == old.next_group_id())
        &&& (self.next_wall_id() == old.next_wall_id())
        &&& (self.ticks_spec() == old.ticks_spec())
        &&& (self.defers_paths() == old.defers_paths())
        &&& (if building_at(old.buildings_view(), x, y) {
            let t = choose|t: PlacementView| old.buildings_view().contains(t) && t.covers(x, y);
            &&& r matches RemoveOutcome::Buildings { removed_ids, goods_yard_group_id }
            &&& removed_ids@ == ids_of(old.buildings_view().filter(removed_with(t)))
            &&& goods_yard_group_id == t.goods_yard_group_id
            &&& self.walls_spec() == old.walls_spec()
            &&& self.buildings_view() == refreshed_all(
                self.cell_map(),
                old.walls_spec(),
                old.buildings_view().filter(kept_without(t)),
            )
            &&& self.routes_after_edit()
        } else if wall_at(old.walls_spec(), x, y) {
            let j = choose|j: int|
                0 <= j < old.walls_spec().len() && (#[trigger] old.walls_spec()[j]).cells_spec().contains((x, y));
            &&& r == RemoveOutcome::Wall { id: old.walls_spec()[j].id }
            &&& self.walls_spec() == old.walls_spec().remove(j)
            &&& self.buildings_view() == refreshed_all(
                self.cell_map(),
                self.walls_spec(),
                old.buildings_view(),
            )
            &&& self.routes_after_edit()
        } else {
            &&& r == RemoveOutcome::Nothing
            &&& *self == *old
        })
    }

    /// Removes what occupies cell `(x, y)`: the building there, with its
    /// whole goods yard when it is a stockpile of one, or else the wall there.
    #[verifier::rlimit(50)]
    pub fn remove_at(&mut self, x: i32, y: i32) -> (r: RemoveOutcome)
        requires
            old(self).wf(),
        ensures
            final(self).wf(),
            final(self).edited_from(&*old(self)),
            final(self).removed_at(&*old(self), x, y, r),
    {
        let ghost bs = self.buildings_view();
        let ghost ws = self.walls@;
        proof {
            assert forall|t: int| 0 <= t < self.buildings@.len() implies (#[trigger] self.buildings@[t])@.fits() by {
                assert(placement_ok(bs[t]));
                lemma_placement_ok_facts(bs[t]);
                assert(self.buildings@[t]@ == bs[t]);
            }
        }
        let position = position_covering(&self.buildings, x, y);
        let found = position.is_some();
        let i: usize = match position {
            Some(i) => i,
            None => 0,
        };
        if found {
            let ghost target = bs[i as int];
            proof {
                assert(bs.contains(target));
                assert(building_at(bs, x, y));
                let t = choose|t: PlacementView| bs.contains(t) && t.covers(x, y);
                let j = choose|j: int| 0 <= j < bs.len() && bs[j] == t;
                if j != i {
                    assert(bs[j].covers(x, y));
                    assert(!bs[i as int].covers(x, y));
                }
                assert(t == target);
                assert(self.buildings@[i as int]@ == target);
            }
            let group = self.buildings[i].goods_yard_group_id;
            let removed_ids = match group {
                Some(group_id) => {
                    proof {
                        lemma_filter_equiv(bs, |b: PlacementView| !in_group(group_id)(b), kept_without(target));
                        lemma_filter_equiv(bs, in_group(group_id), removed_with(target));
                        bs.lemma_filter_contains(in_group(group_id), i as int);
                    }
                    self.remove_buildings_by_group(group_id)
                },
                None => {
                    let id = self.buildings[i].id;
                    let mut ids: Vec<u32> = Vec::new();
                    ids.push(id);
                    proof {
                        assert forall|k: int| 0 <= k < bs.len() implies #[trigger] unlisted(ids@)(bs[k]) == kept_without(target)(bs[k])
                            && listed(ids@)(bs[k]) == removed_with(target)(bs[k]) by {
                            assert(ids@[0] == id);
                            if ids@.contains(bs[k].id) {
                                let t = choose|t: int| 0 <= t < ids@.len() && ids@[t] == bs[k].id;
                            }
                        }
                        lemma_filter_equiv(bs, unlisted(ids@), kept_without(target));
                        lemma_filter_equiv(bs, listed(ids@), removed_with(target));
                        assert(listed(ids@)(bs[i as int])) by {
                            assert(ids@[0] == id);
                        }
                        bs.lemma_filter_contains(listed(ids@), i as int);
                    }
                    self.remove_buildings_by_ids(&ids)
                },
            };
            return RemoveOutcome::Buildings { removed_ids, goods_yard_group_id: group };
        }
        proof {
            assert(!building_at(bs, x, y));
        }
        let mut j: usize = 0;
        while j < self.walls.len()
            invariant
                ws == self.walls@,
                bs == self.buildings_view(),
                self.wf(),
                *self == *old(self),
                !building_at(bs, x, y),
                j <= ws.len(),
                forall|t: int| 0 <= t < j ==> !(#[trigger] ws[t]).cells_spec().contains((x, y)),
            decreases ws.len() - j,
        {
            proof {
                crate::walls::lemma_line_cells_cover(ws[j as int].start_x, ws[j as int].start_y, ws[j as int].end_x, ws[j as int].end_y, x, y);
            }
            if self.walls[j].contains_cell(x, y) {
                proof {
                    assert(wall_at(ws, x, y));
                    let c = choose|c: int| 0 <= c < ws.len() && (#[trigger] ws[c]).cells_spec().contains((x, y));
                    if c != j {
                        assert(!ws[c].cells_spec().contains((x, y)) || !ws[j as int].cells_spec().contains((x, y)));
                    }
                }
                let id = self.remove_wall_by_index(j);
                return RemoveOutcome::Wall { id };
            }
            j = j + 1;
        }
        proof {
            assert(!wall_at(ws, x, y));
        }
        RemoveOutcome::Nothing
    }

    /// What removing every wall does: the walls are gone, unavailable
    /// entries are computed anew, and the count removed is `r`.
    pub open spec fn walls_cleared(
        &self,
        old: &Simulator,
        r: usize,
    ) -> bool {
        &&& (r == old.walls_spec().len())
        &&& (r == 0 ==> *self == *old)
        &&& (r > 0 ==> {
            &&& self.walls_spec() == Seq::<WallSegment>::empty()
            &&& self.buildings_view() == refreshed_all(
                self.cell_map(),
                Seq::<WallSegment>::empty(),
                old.buildings_view(),
            )
            &&& self.routes_after_edit()
            &&& self.bounds_spec() == old.bounds_spec()
            &&& self.next_building_id() == old.next_building_id()
            &&& self.next_group_id() == old.next_group_id()
            &&& self.next_wall_id() == old.next_wall_id()
            &&& self.ticks_spec() == old.ticks_spec()
            &&& self.defers_paths() == old.defers_paths()
        })
    }

    /// Removes every wall and frees its cells; returns how many there were.
    pub fn remove_all_walls(&mut self) -> (r: usize)
        requires
            old(self).wf(),
        ensures
            final(self).wf(),
            final(self).edited_from(&*old(self)),
            final(self).walls_cleared(&*old(self), r),
    {
        let count = self.walls.len();
        if count == 0 {
            return 0;
        }
        let ghost bs = self.buildings_view();
        let ghost ws = self.walls@;
        let ghost bounds = self.bounds_spec();
        let mut k: usize = 0;
        proof {
            assert(ws.subrange(0, count as int) =~= ws);
        }
        while k < count
            invariant
                old(self).wf(),
                bs == old(self).buildings_view(),
                ws == old(self).walls_spec(),
                bounds == old(self).bounds_spec(),
                count == ws.len(),
                k <= count,
                self.map.wf(),
                self.map.bounds_spec() == bounds,
                layout_ok(bounds, bs, ws.subrange(k as int, count as int)),
                map_matches(self.map, bs, ws.subrange(k as int, count as int)),
                self.buildings == old(self).buildings,
                self.walls == old(self).walls,
                self.factory == old(self).factory,
                self.time == old(self).time,
                self.next_wall_id == old(self).next_wall_id,
                self.distances == old(self).distances,
                self.worker_distances == old(self).worker_distances,
                self.defer_path_calculation == old(self).defer_path_calculation,
            decreases count - k,
        {
            let ghost rest = ws.subrange(k as int, count as int);
            let cells = self.walls[k].cells();
            let ghost before = self.map;
            self.map.clear_cells(&cells);
            proof {
                assert(rest[0] == ws[k as int]);
                assert(rest.remove(0) =~= ws.subrange(k + 1, count as int));
                assert forall|x: i32, y: i32| #[trigger] self.map.occupied_at(x as int, y as int) == (building_at(bs, x, y)
                    || wall_at(ws.subrange(k + 1, count as int), x, y)) by {
                    lemma_remove_wall(bounds, bs, rest, 0, x, y);
                    assert(before.occupied_at(x as int, y as int) == (building_at(bs, x, y) || wall_at(rest, x, y)));
                }
                assert forall|x: i32, y: i32| #[trigger] self.map.blocked_at(x as int, y as int) == (building_blocks_at(bs, x, y)
                    || wall_at(ws.subrange(k + 1, count as int), x, y)) by {
                    lemma_remove_wall(bounds, bs, rest, 0, x, y);
                    assert(before.blocked_at(x as int, y as int) == (building_blocks_at(bs, x, y) || wall_at(rest, x, y)));
                }
                lemma_remove_wall(bounds, bs, rest, 0, 0, 0);
            }
            k = k + 1;
        }
        self.walls.clear();
        proof {
            assert(ws.subrange(count as int, count as int) =~= Seq::<WallSegment>::empty());
            assert(self.walls@ =~= Seq::<WallSegment>::empty());
        }
        self.refresh_unavailable_entry_points();
        self.recompute_distances();
        count
    }

    /// Clears the canvas of every building and wall and drops all routes;
    /// returns how many buildings and walls there were.
    pub fn remove_all(&mut self) -> (r: (usize, usize))
        requires
            old(self).wf(),
        ensures
            final(self).wf(),
            final(self).edited_from(&*old(self)),
            r == (old(self).buildings_view().len() as usize, old(self).walls_spec().len() as usize),
            final(self).buildings_view() == Seq::<PlacementView>::empty(),
            final(self).walls_spec() == Seq::<WallSegment>::empty(),
            forall|x: int, y: int| !#[trigger] final(self).cell_map().occupied_at(x, y),
            final(self).distance_table()@ == Map::<DistanceKey, BuildingDistance>::empty(),
            final(self).worker_table()@ == Map::<DistanceKey, BuildingDistance>::empty(),
            final(self).bounds_spec() == old(self).bounds_spec(),
            final(self).next_building_id() == old(self).next_building_id(),
            final(self).next_group_id() == old(self).next_group_id(),
            final(self).next_wall_id() == old(self).next_wall_id(),
            final(self).ticks_spec() == old(self).ticks_spec(),
            final(self).defers_paths() == old(self).defers_paths(),
    {
        let ghost bs = self.buildings_view();
        let ghost ws = self.walls@;
        let building_count = self.buildings.len();
        let wall_count = self.walls.len();
        proof {
            assert(bs.subrange(0, building_count as int) =~= bs);
            assert(ws.subrange(0, wall_count as int) =~= ws);
        }
        proof {
            assert forall|x: i32, y: i32| #[trigger] self.map.blocked_at(x as int, y as int) implies building_at(bs, x, y)
                || wall_at(ws, x, y) by {
                if building_blocks_at(bs, x, y) {
                    let i = choose|i: int| 0 <= i < bs.len() && (#[trigger] bs[i]).blocks(x, y);
                    assert(placement_ok(bs[i]));
                    lemma_placement_ok_facts(bs[i]);
                    assert(bs[i].covers(x, y));
                }
            }
        }
        let mut k: usize = 0;
        while k < building_count
            invariant
                old(self).wf(),
                bs == old(self).buildings_view(),
                ws == old(self).walls_spec(),
                building_count == bs.len(),
                bs == views(self.buildings@),
                self.walls == old(self).walls,
                self.factory == old(self).factory,
                self.time == old(self).time,
                self.next_wall_id == old(self).next_wall_id,
                self.defer_path_calculation == old(self).defer_path_calculation,
                k <= building_count,
                self.map.wf(),
                self.map.bounds_spec() == old(self).bounds_spec(),
                forall|x: i32, y: i32| #[trigger] self.map.occupied_at(x as int, y as int) ==> building_at(
                    bs.subrange(k as int, building_count as int),
                    x,
                    y,
                ) || wall_at(ws, x, y),
                forall|x: i32, y: i32| #[trigger] self.map.blocked_at(x as int, y as int) ==> building_at(
                    bs.subrange(k as int, building_count as int),
                    x,
                    y,
                ) || wall_at(ws, x, y),
            decreases building_count - k,
        {
            proof {
                assert(placement_ok(bs[k as int]));
                lemma_placement_ok_facts(bs[k as int]);
                assert(self.buildings@[k as int]@ == bs[k as int]);
            }
            let cells = self.buildings[k].occupied_cells();
            let ghost before = self.map;
            self.map.clear_cells(&cells);
            proof {
                let rest = bs.subrange(k as int, building_count as int);
                assert forall|x: i32, y: i32| building_at(rest, x, y) implies bs[k as int].covers(x, y) || building_at(
                    bs.subrange(k + 1, building_count as int),
                    x,
                    y,
                ) by {
                    let t = choose|t: int| 0 <= t < rest.len() && (#[trigger] rest[t]).covers(x, y);
                    if t > 0 {
                        assert(bs.subrange(k + 1, building_count as int)[t - 1] == rest[t]);
                    }
                }
                assert forall|x: i32, y: i32| #[trigger] self.map.occupied_at(x as int, y as int) implies building_at(
                    bs.subrange(k + 1, building_count as int),
                    x,
                    y,
                ) || wall_at(ws, x, y) by {
                    assert(before.occupied_at(x as int, y as int));
                }
                assert forall|x: i32, y: i32| #[trigger] self.map.blocked_at(x as int, y as int) implies building_at(
                    bs.subrange(k + 1, building_count as int),
                    x,
                    y,
                ) || wall_at(ws, x, y) by {
                    assert(before.blocked_at(x as int, y as int));
                }
            }
            k = k + 1;
        }
        let mut j: usize = 0;
        while j < wall_count
            invariant
                ws == old(self).walls_spec(),
                ws == self.walls@,
                wall_count == ws.len(),
                self.factory == old(self).factory,
                self.time == old(self).time,
                self.next_wall_id == old(self).next_wall_id,
                self.defer_path_calculation == old(self).defer_path_calculation,
                j <= wall_count,
                self.map.wf(),
                self.map.bounds_spec() == old(self).bounds_spec(),
                forall|x: i32, y: i32| #[trigger] self.map.occupied_at(x as int, y as int) ==> wall_at(
                    ws.subrange(j as int, wall_count as int),
                    x,
                    y,
                ),
                forall|x: i32, y: i32| #[trigger] self.map.blocked_at(x as int, y as int) ==> wall_at(
                    ws.subrange(j as int, wall_count as int),
                    x,
                    y,
                ),
            decreases wall_count - j,
        {
            let cells = self.walls[j].cells();
            let ghost before = self.map;
            self.map.clear_cells(&cells);
            proof {
                let rest = ws.subrange(j as int, wall_count as int);
                assert forall|x: i32, y: i32| wall_at(rest, x, y) implies ws[j as int].cells_spec().contains((x, y)) || wall_at(
                    ws.subrange(j + 1, wall_count as int),
                    x,
                    y,
                ) by {
                    let t = choose|t: int| 0 <= t < rest.len() && (#[trigger] rest[t]).cells_spec().contains((x, y));
                    if t > 0 {
                        assert(ws.subrange(j + 1, wall_count as int)[t - 1] == rest[t]);
                    }
                }
                assert forall|x: i32, y: i32| #[trigger] self.map.occupied_at(x as int, y as int) implies wall_at(
                    ws.subrange(j + 1, wall_count as int),
                    x,
                    y,
                ) by {
                    assert(before.occupied_at(x as int, y as int));
                }
                assert forall|x: i32, y: i32| #[trigger] self.map.blocked_at(x as int, y as int) implies wall_at(
                    ws.subrange(j + 1, wall_count as int),
                    x,
                    y,
                ) by {
                    assert(before.blocked_at(x as int, y as int));
                }
            }
            j = j + 1;
        }
        self.buildings.clear();
        self.walls.clear();
        self.distances.clear();
        self.worker_distances.clear();
        proof {
            assert(self.buildings_view() =~= Seq::<PlacementView>::empty());
            assert(self.walls@ =~= Seq::<WallSegment>::empty());
            assert forall|x: i32, y: i32| !#[trigger] self.map.occupied_at(x as int, y as int) by {
                if self.map.occupied_at(x as int, y as int) {
                    let t = choose|t: int| 0 <= t < 0 && (#[trigger] ws.subrange(wall_count as int, wall_count as int)[t]).cells_spec().contains((x, y));
                }
            }
            assert forall|x: i32, y: i32| !#[trigger] self.map.blocked_at(x as int, y as int) by {
                if self.map.blocked_at(x as int, y as int) {
                    let t = choose|t: int| 0 <= t < 0 && (#[trigger] ws.subrange(wall_count as int, wall_count as int)[t]).cells_spec().contains((x, y));
                }
            }
            assert forall|x: int, y: int| !#[trigger] self.map.occupied_at(x, y) by {
                self.map.lemma_outside_free(x, y);
                if self.map.in_bounds(x, y) {
                    let xi = x as i32;
                    let yi = y as i32;
                    assert(xi as int == x && yi as int == y);
                    assert(!self.map.occupied_at(xi as int, yi as int));
                }
            }
            assert(distances_bounded(self.distances@, MAX_CELL_COUNT as nat));
            assert(distances_bounded(self.worker_distances@, MAX_CELL_COUNT as nat));
        }
        (building_count, wall_count)
    }

    /// What designating the stockpile at `(x, y)` for `resource` does: that
    /// stockpile alone holds the resource, or, without a stockpile there,
    /// nothing changes.
    pub open spec fn stockpile_designated(
        &self,
        old: &Simulator,
        x: i32,
        y: i32,
        resource: StockpileResource,
        r: Result<u32, SimulatorError>,
    ) -> bool {
        &&& ((exists|i: int|
            0 <= i < old.buildings_view().len() && (#[trigger] old.buildings_view()[i]).building_type
                == BuildingType::Stockpile && old.buildings_view()[i].covers(x, y)) ==> {
            let t = choose|t: PlacementView|
                old.buildings_view().contains(t) && t.building_type == BuildingType::Stockpile && t.covers(x, y);
            &&& r == Ok::<u32, SimulatorError>(t.id)
            &&& self.buildings_view() == designated_all(old.buildings_view(), t.id, resource)
            &&& self.same_canvas(old)
            &&& self.distance_table() == old.distance_table()
            &&& worker_fresh(self.buildings_view(), self.distance_table()@, self.worker_table()@)
        })
        &&& (!(exists|i: int|
            0 <= i < old.buildings_view().len() && (#[trigger] old.buildings_view()[i]).building_type
                == BuildingType::Stockpile && old.buildings_view()[i].covers(x, y)) ==> {
            &&& r == Err::<u32, SimulatorError>(SimulatorError::StockpileDesignationRequiresStockpile)
            &&& *self == *old
        })
    }

    /// Designates the stockpile on cell `(x, y)` for `resource`; the
    /// stockpile that held the resource before gives it up. The worker
    /// routes are rebuilt.
    pub fn set_stockpile_resource_at(&mut self, x: i32, y: i32, resource: StockpileResource) -> (r: Result<
        u32,
        SimulatorError,
    >)
        requires
            old(self).wf(),
        ensures
            final(self).wf(),
            final(self).edited_from(&*old(self)),
            final(self).stockpile_designated(&*old(self), x, y, resource, r),
    {
        let ghost bs = self.buildings_view();
        let n = self.buildings.len();
        proof {
            assert forall|t: int| 0 <= t < self.buildings@.len() implies (#[trigger] self.buildings@[t])@.fits() by {
                assert(placement_ok(bs[t]));
                lemma_placement_ok_facts(bs[t]);
                assert(self.buildings@[t]@ == bs[t]);
            }
        }
        let i = match position_covering(&self.buildings, x, y) {
            Some(i) => i,
            None => {
                return Err(SimulatorError::StockpileDesignationRequiresStockpile);
            },
        };
        proof {
            assert(self.buildings@[i as int]@ == bs[i as int]);
        }
        if self.buildings[i].building_type != BuildingType::Stockpile {
            proof {
                assert forall|t: int| 0 <= t < bs.len() implies !((#[trigger] bs[t]).building_type == BuildingType::Stockpile
                    && bs[t].covers(x, y)) by {
                    if t != i && bs[t].covers(x, y) {
                        assert(bs[i as int].covers(x, y));
                    }
                }
            }
            return Err(SimulatorError::StockpileDesignationRequiresStockpile);
        }
        let target_id = self.buildings[i].id;
        let ghost target = bs[i as int];
        proof {
            assert(bs.contains(target));
            let t = choose|t: PlacementView| bs.contains(t) && t.building_type == BuildingType::Stockpile && t.covers(x, y);
            let j = choose|j: int| 0 <= j < bs.len() && bs[j] == t;
            if j != i {
                assert(bs[j].covers(x, y));
                assert(!bs[i as int].covers(x, y));
            }
            assert(t == target);
        }
        let mut updated: Vec<BuildingPlacement> = Vec::new();
        let mut k: usize = 0;
        while k < n
            invariant
                bs == self.buildings_view(),
                n == bs.len(),
                k <= n,
                views(updated@) == designated_all(bs, target_id, resource).subrange(0, k as int),
            decreases n - k,
        {
            let mut b = self.buildings[k].duplicate();
            if b.id == target_id {
                b.stockpile_resource = Some(resource);
            } else if b.stockpile_resource == Some(resource) {
                b.stockpile_resource = None;
            }
            let ghost before = updated@;
            updated.push(b);
            proof {
                assert(self.buildings@[k as int]@ == bs[k as int]);
                assert(views(updated@) =~= views(before).push(b@));
                assert(designated_all(bs, target_id, resource).subrange(0, k + 1) =~= designated_all(bs, target_id, resource).subrange(
                    0,
                    k as int,
                ).push(designated(bs[k as int], target_id, resource)));
            }
            k = k + 1;
        }
        self.buildings = updated;
        proof {
            let d = designated_all(bs, target_id, resource);
            assert(d.subrange(0, n as int) =~= d);
            assert(same_shapes(bs, d));
            lemma_same_shapes(self.map, self.bounds_spec(), bs, d, self.walls@);
            assert forall|a: int| 0 <= a < d.len() implies (#[trigger] d[a]).id < self.next_building_id()
                && (d[a].goods_yard_group_id matches Some(g) ==> g < self.next_group_id()) by {
                assert(same_shape(bs[a], d[a]));
            }
        }
        self.recompute_worker_distances();
        proof {
            let d = designated_all(bs, target_id, resource);
            if old(self).routes_after_edit() {
                if self.defers_paths() {
                    assert(self.worker_table()@ =~= Map::<DistanceKey, BuildingDistance>::empty());
                } else {
                    assert forall|i: int| 0 <= i < bs.len() implies (#[trigger] d[i]).id == bs[i].id && d[i].entry_point
                        == bs[i].entry_point by {}
                    lemma_fresh_same_entries(self.cell_map(), bs, d, self.distance_table()@);
                }
            }
        }
        Ok(target_id)
    }

    /// Rebuilds every route now, also while route calculation is deferred;
    /// returns the number of worker routes.
    pub fn calculate_worker_distances(&mut self) -> (r: usize)
        requires
            old(self).wf(),
        ensures
            final(self).wf(),
            final(self).routes_fresh(),
            r == final(self).worker_table().entries_spec().len(),
            final(self).buildings_view() == old(self).buildings_view(),
            final(self).same_canvas(&*old(self)),
    {
        self.distances = recompute_building_distances(&self.buildings, &self.map);
        proof {
            self.map.lemma_wf_facts();
        }
        self.recompute_worker_distances();
        self.worker_distances.len()
    }

    /// Turns deferred route calculation on or off; turning it on drops the
    /// current routes.
    pub fn set_defer_path_calculation(&mut self, defer: bool)
        requires
            old(self).wf(),
        ensures
            final(self).wf(),
            final(self).defers_paths() == defer,
            final(self).buildings_view() == old(self).buildings_view(),
            final(self).cell_map() == old(self).cell_map(),
            final(self).walls_spec() == old(self).walls_spec(),
            final(self).next_building_id() == old(self).next_building_id(),
            final(self).next_group_id() == old(self).next_group_id(),
            final(self).next_wall_id() == old(self).next_wall_id(),
            final(self).ticks_spec() == old(self).ticks_spec(),
            defer ==> final(self).distance_table()@ == Map::<DistanceKey, BuildingDistance>::empty()
                && final(self).worker_table()@ == Map::<DistanceKey, BuildingDistance>::empty(),
            !defer ==> final(self).distance_table() == old(self).distance_table() && final(self).worker_table()
                == old(self).worker_table(),
    {
        self.defer_path_calculation = defer;
        if defer {
            self.distances.clear();
            self.worker_distances.clear();
            proof {
                assert(distances_bounded(self.distances@, MAX_CELL_COUNT as nat));
                assert(distances_bounded(self.worker_distances@, MAX_CELL_COUNT as nat));
            }
        }
    }

    /// Adds `trips` walks from `start` to `finish` to the route list.
    fn push_route_usage(
        &self,
        route_usage: &mut Vec<ProductionRouteUsage>,
        workshop_type: BuildingType,
        start_building_id: u32,
        finish_building_id: u32,
        trips: u32,
    ) -> (r: Result<(), ProductionCycleError>)
        requires
            self.wf(),
            usage_ok(old(route_usage)@, self.worker_table()@, workshop_type),
            trips_sum(old(route_usage)@) + trips <= 8,
        ensures
            match push_leg(Ok(old(route_usage)@), start_building_id, finish_building_id, trips, self.worker_table()@, workshop_type) {
                Ok(u) => r is Ok && final(route_usage)@ == u,
                Err(e) => r == Err::<(), ProductionCycleError>(e),
            },
            r is Ok ==> usage_ok(final(route_usage)@, self.worker_table()@, workshop_type) && trips_sum(final(route_usage)@)
                == trips_sum(old(route_usage)@) + trips,
    {
        let ghost u = route_usage@;
        let ghost wt = self.worker_table()@;
        proof {
            lemma_sums_prefix(u, 0);
        }
        if trips == 0 {
            return Ok(());
        }
        let d = match distance_cells(&self.worker_distances, start_building_id, finish_building_id) {
            Ok(d) => d,
            Err(e) => return Err(e),
        };
        proof {
            assert(wt.contains_key(pair_key(start_building_id, finish_building_id)));
            assert(d <= MAX_CELL_COUNT);
            assert(d * trips <= MAX_CELL_COUNT * 8) by (nonlinear_arith)
                requires
                    d <= MAX_CELL_COUNT,
                    trips <= 8,
            ;
        }
        let total_distance_cells = (d as u64) * (trips as u64);
        let per_trip_ticks = travel_ticks_for_distance(workshop_type, d);
        proof {
            let factor: int = 8 * ((if workshop_type.is_weapon_workshop() { 2u32 } else { 0u32 }) + 1);
            assert(per_trip_ticks == d * factor);
            assert(d * factor * trips <= MAX_CELL_COUNT * 24 * 8) by (nonlinear_arith)
                requires
                    d <= MAX_CELL_COUNT,
                    trips <= 8,
                    0 <= factor <= 24,
            ;
        }
        let total_ticks = per_trip_ticks * (trips as u64);
        match route_position(route_usage, start_building_id, finish_building_id) {
            Some(i) => {
                let ghost x = u[i as int];
                proof {
                    lemma_route_le_sum(u, i as int);
                    assert(x.distance_cells_per_trip == d);
                    assert(d * (x.trips + trips) <= MAX_CELL_COUNT * 8) by (nonlinear_arith)
                        requires
                            d <= MAX_CELL_COUNT,
                            x.trips + trips <= 8,
                    ;
                    assert(d * (x.trips + trips) == d * x.trips + d * trips) by (nonlinear_arith);
                    let factor: int = 8 * ((if workshop_type.is_weapon_workshop() { 2u32 } else { 0u32 }) + 1);
                    assert(d * factor * (x.trips + trips) <= MAX_CELL_COUNT * 24 * 8) by (nonlinear_arith)
                        requires
                            d <= MAX_CELL_COUNT,
                            x.trips + trips <= 8,
                            0 <= factor <= 24,
                    ;
                    assert(d * factor * (x.trips + trips) == d * factor * x.trips + d * factor * trips) by (nonlinear_arith);
                }
                let mut updated = route_usage[i];
                updated.trips = updated.trips + trips;
                updated.total_distance_cells = updated.total_distance_cells + total_distance_cells;
                updated.total_ticks = updated.total_ticks + total_ticks;
                route_usage.set(i, updated);
                proof {
                    assert(updated == merged_route(x, trips, d, workshop_type));
                    assert(route_usage@ =~= merge_usage(u, start_building_id, finish_building_id, trips, d, workshop_type)) by {
                        assert forall|j: int| 0 <= j < u.len() && j != i implies !is_route(#[trigger] u[j], start_building_id, finish_building_id) by {
                            assert(!is_route(u[j], u[i as int].start_building_id, u[i as int].finish_building_id));
                        }
                    }
                    lemma_sums_update(u, i as int, updated);
                    assert forall|j: int| 0 <= j < route_usage@.len() implies #[trigger] route_usage@[j] == (if j == i { updated } else { u[j] }) by {}
                }
            },
            None => {
                let route = ProductionRouteUsage {
                    start_building_id,
                    finish_building_id,
                    trips,
                    distance_cells_per_trip: d,
                    total_distance_cells,
                    total_ticks,
                };
                route_usage.push(route);
                proof {
                    assert(route == new_route(start_building_id, finish_building_id, trips, d, workshop_type));
                    assert(route_usage@.drop_last() =~= u);
                    assert forall|j: int| 0 <= j < route_usage@.len() implies #[trigger] route_usage@[j] == (if j == u.len() { route } else { u[j] }) by {}
                }
            },
        }
        Ok(())
    }

    /// Adds the walks that bring the `required_units` of `resource` from
    /// its stockpile to the workshop.
    fn append_resource_phase_routes(
        &self,
        route_usage: &mut Vec<ProductionRouteUsage>,
        workshop_id: u32,
        armoury_id: u32,
        settings: SimulationSettings,
        resource: StockpileResource,
        required_units: u32,
        workshop_type: BuildingType,
    ) -> (r: Result<(), ProductionCycleError>)
        requires
            self.wf(),
            usage_ok(old(route_usage)@, self.worker_table()@, workshop_type),
            trips_sum(old(route_usage)@) + 2 * required_units + 1 <= 8,
        ensures
            match phase_result(
                Ok(old(route_usage)@),
                required_units,
                resource,
                self.buildings_view(),
                self.worker_table()@,
                workshop_type,
                workshop_id,
                armoury_id,
                settings.optimized_fletcher_routing,
            ) {
                Ok(u) => r is Ok && final(route_usage)@ == u,
                Err(e) => r == Err::<(), ProductionCycleError>(e),
            },
            r is Ok ==> usage_ok(final(route_usage)@, self.worker_table()@, workshop_type) && trips_sum(final(route_usage)@)
                <= trips_sum(old(route_usage)@) + 2 * required_units + 1,
    {
        if required_units == 0 {
            return Ok(());
        }
        let stockpile = match find_stockpile_for_resource(&self.buildings, resource) {
            Some(b) => b,
            None => return Err(ProductionCycleError::MissingStockpile { resource }),
        };
        let stockpile_id = stockpile.id;
        let starts_from_workshop = workshop_type == BuildingType::FletchersWorkshop && !settings.optimized_fletcher_routing;
        if starts_from_workshop {
            match self.push_route_usage(route_usage, workshop_type, armoury_id, workshop_id, 1) {
                Ok(()) => {},
                Err(e) => return Err(e),
            }
            match self.push_route_usage(route_usage, workshop_type, workshop_id, stockpile_id, required_units) {
                Ok(()) => {},
                Err(e) => return Err(e),
            }
        } else {
            match self.push_route_usage(route_usage, workshop_type, armoury_id, stockpile_id, 1) {
                Ok(()) => {},
                Err(e) => return Err(e),
            }
            if required_units > 1 {
                match self.push_route_usage(route_usage, workshop_type, workshop_id, stockpile_id, required_units - 1) {
                    Ok(()) => {},
                    Err(e) => return Err(e),
                }
            }
        }
        match self.push_route_usage(route_usage, workshop_type, stockpile_id, workshop_id, required_units) {
            Ok(()) => {},
            Err(e) => return Err(e),
        }
        Ok(())
    }

    /// One production cycle of `weapon_type` in workshop `workshop_id`
    /// delivering to armoury `armoury_id`: the routes its worker walks and
    /// how long the cycle takes.
    pub fn calculate_production_cycle(
        &self,
        weapon_type: WeaponType,
        workshop_id: u32,
        armoury_id: u32,
        settings: SimulationSettings,
    ) -> (r: Result<ProductionCycle, ProductionCycleError>)
        requires
            self.wf(),
        ensures
            match production_routes(
                self.buildings_view(),
                self.worker_table()@,
                weapon_type,
                workshop_id,
                armoury_id,
                settings.optimized_fletcher_routing,
            ) {
                Ok(u) => r matches Ok(c) && {
                    &&& c.route_usage@ == u
                    &&& c.recipe == weapon_type.recipe_spec()
                    &&& c.workshop_id == workshop_id
                    &&& c.armoury_id == armoury_id
                    &&& c.travel_distance_cells == distance_sum(u)
                    &&& c.travel_ticks == ticks_sum(u)
                    &&& c.make_ticks == weapon_type.recipe_spec().make_time_ticks
                    &&& c.total_ticks == ticks_sum(u) + weapon_type.recipe_spec().make_time_ticks
                },
                Err(e) => r matches Err(e2) && e2 == e,
            },
    {
        let recipe = weapon_type.recipe();
        proof {
            super::production_cycle::lemma_recipe_shape(weapon_type);
        }
        let workshop = match find_building(&self.buildings, workshop_id) {
            Some(b) => b,
            None => return Err(ProductionCycleError::WorkshopNotFound { workshop_id }),
        };
        let armoury = match find_building(&self.buildings, armoury_id) {
            Some(b) => b,
            None => return Err(ProductionCycleError::ArmouryNotFound { armoury_id }),
        };
        if workshop.building_type != recipe.workshop_type {
            return Err(
                ProductionCycleError::ExpectedWorkshop {
                    workshop_id,
                    actual_type: workshop.building_type,
                    expected_type: recipe.workshop_type,
                },
            );
        }
        if armoury.building_type != BuildingType::Armoury {
            return Err(ProductionCycleError::ExpectedArmoury { armoury_id, actual_type: armoury.building_type });
        }
        let mut route_usage: Vec<ProductionRouteUsage> = Vec::new();
        proof {
            assert(trips_sum(route_usage@) == 0);
        }
        match self.append_resource_phase_routes(
            &mut route_usage,
            workshop_id,
            armoury_id,
            settings,
            StockpileResource::Wood,
            recipe.wood_required,
            recipe.workshop_type,
        ) {
            Ok(()) => {},
            Err(e) => return Err(e),
        }
        match self.append_resource_phase_routes(
            &mut route_usage,
            workshop_id,
            armoury_id,
            settings,
            StockpileResource::Iron,
            recipe.iron_required,
            recipe.workshop_type,
        ) {
            Ok(()) => {},
            Err(e) => return Err(e),
        }
        match self.push_route_usage(&mut route_usage, recipe.workshop_type, workshop_id, armoury_id, 1) {
            Ok(()) => {},
            Err(e) => return Err(e),
        }
        proof {
            lemma_sums_bounded(route_usage@, self.worker_table()@, recipe.workshop_type);
            let n = trips_sum(route_usage@);
            assert(n <= 8);
            assert(24 * MAX_CELL_COUNT * n <= 24 * MAX_CELL_COUNT * 8) by (nonlinear_arith)
                requires
                    n <= 8,
            ;
            assert(MAX_CELL_COUNT * n <= MAX_CELL_COUNT * 8) by (nonlinear_arith)
                requires
                    n <= 8,
            ;
        }
        Ok(ProductionCycle::from_route_usage(recipe, workshop_id, armoury_id, route_usage))
    }

    /// The walking times of the bread chain on the current routes: farm
    /// cycles to the wheat stockpile, mill rounds between the stockpiles and
    /// bakery rounds through the best granary, and what keeps parts of the
    /// chain from running.
    pub fn bread_routes(&self) -> (r: BreadRoutes)
        requires
            self.wf(),
        ensures
            r.farm_count == count_of(self.buildings_view(), BuildingType::WheatFarm),
            r.mill_count == count_of(self.buildings_view(), BuildingType::Windmill),
            r.bakery_count == count_of(self.buildings_view(), BuildingType::Bakery),
            r.granary_count == count_of(self.buildings_view(), BuildingType::Granary),
            r.farm_cycle_ticks@ == match first_stockpile(self.buildings_view(), StockpileResource::Wheat) {
                Some(w) => farm_cycles(self.buildings_view(), self.distance_table()@, w),
                None => Seq::empty(),
            },
            r.mill_travel_ticks@ == match (
                first_stockpile(self.buildings_view(), StockpileResource::Wheat),
                first_stockpile(self.buildings_view(), StockpileResource::Flour),
            ) {
                (Some(w), Some(f)) => mill_travels(self.buildings_view(), self.distance_table()@, f, w),
                _ => Seq::empty(),
            },
            r.bakery_cycle_ticks@ == match first_stockpile(self.buildings_view(), StockpileResource::Flour) {
                Some(f) => bakery_cycles(self.buildings_view(), self.buildings_view(), self.distance_table()@, f),
                None => Seq::empty(),
            },
            r.issues@ == bread_issues(self.buildings_view(), self.distance_table()@),
    {
        bread_routes(&self.buildings, &self.distances)
    }

    /// A simulator holding a saved layout: the canvas of `bounds`, the saved
    /// buildings with their saved entry points, and the walls; identifiers
    /// continue after the largest saved ones and the routes are computed.
    #[verifier::rlimit(100)]
    pub fn from_saved_layout(bounds: MapBounds, saved_buildings: Vec<SavedBuilding>, walls: Vec<WallSegment>) -> (r: Result<
        Simulator,
        SimulatorError,
    >)
        requires
            loadable_anchors(bounds, saved_buildings@),
        ensures
            load_error(bounds, saved_buildings@, walls@) matches Some(e) ==> r == Err::<Simulator, SimulatorError>(e),
            load_error(bounds, saved_buildings@, walls@) is None ==> (r matches Ok(s) && {
                &&& s.wf()
                &&& s.bounds_spec() == bounds
                &&& s.buildings_view() == saved_views(saved_buildings@)
                &&& s.walls_spec() == walls@
                &&& s.next_building_id() == max_saved_id(saved_buildings@) + 1
                &&& s.next_group_id() == max_saved_group(saved_buildings@) + 1
                &&& s.next_wall_id() == max_wall_id(walls@) + 1
                &&& s.ticks_spec() == 0
                &&& !s.defers_paths()
                &&& s.routes_fresh()
            }),
    {
        let ghost bsv = saved_views(saved_buildings@);
        let ghost ws = walls@;
        if !bounds.is_valid() {
            return Err(SimulatorError::InvalidMapSize);
        }
        match validate_unique_ids(&saved_buildings, &walls) {
            Ok(()) => {},
            Err(e) => return Err(e),
        }
        let max_id = max_building_id(&saved_buildings);
        if max_id == u32::MAX {
            return Err(SimulatorError::InvalidProject("building ID is too large"));
        }
        let max_group = max_group_id(&saved_buildings);
        if max_group == u32::MAX {
            return Err(SimulatorError::InvalidProject("goods yard group ID is too large"));
        }
        let max_wall = max_wall_id_of(&walls);
        if max_wall == u32::MAX {
            return Err(SimulatorError::InvalidProject("wall ID is too large"));
        }
        let mut map = match CellMap::with_bounds(bounds) {
            Some(m) => m,
            None => return Err(SimulatorError::InvalidMapSize),
        };
        let n = saved_buildings.len();
        let mut buildings: Vec<BuildingPlacement> = Vec::new();
        proof {
            assert(bsv.subrange(0, 0) =~= Seq::<PlacementView>::empty());
            assert(views(buildings@) =~= Seq::<PlacementView>::empty());
        }
        let mut k: usize = 0;
        while k < n
            invariant
                bsv == saved_views(saved_buildings@),
                ws == walls@,
                n == bsv.len(),
                k <= n,
                load_error(bounds, saved_buildings@, walls@) == match building_load_error(bounds, bsv, k as int) {
                    Some(e) => Some(e),
                    None => wall_load_error(bounds, bsv, ws, 0),
                },
                loadable_anchors(bounds, saved_buildings@),
                map.wf(),
                map.bounds_spec() == bounds,
                map_matches(map, bsv.subrange(0, k as int), Seq::<WallSegment>::empty()),
                views(buildings@) == bsv.subrange(0, k as int),
                forall|t: int| 0 <= t < k ==> cells_inside(bounds, (#[trigger] bsv[t]).occupied_cells_spec()),
                forall|t: int| 0 <= t < k ==> ((#[trigger] bsv[t]).entry_point matches Some(e) ==> bounds.has(e.x as int, e.y as int)),
                forall|t1: int, t2: int, x: i32, y: i32|
                    0 <= t1 < k && 0 <= t2 < k && t1 != t2 && #[trigger] bsv[t1].covers(x, y) ==> !#[trigger] bsv[t2].covers(
                        x,
                        y,
                    ),
            decreases n - k,
        {
            let ghost prev = bsv.subrange(0, k as int);
            let ghost b = bsv[k as int];
            let p = saved_buildings[k].into_placement();
            assert(p@ == b);
            proof {
                crate::buildings::lemma_type_footprint_wf(b.building_type);
                assert(b.fits());
            }
            match p.entry_point {
                Some(e) => {
                    if !map.is_in_bounds(e.x, e.y) {
                        return Err(SimulatorError::InvalidProject("building entry point is outside the map"));
                    }
                },
                None => {},
            }
            let ghost before = map;
            match map.place(&p) {
                Ok(()) => {},
                Err(e) => {
                    proof {
                        lemma_conflict_matches(before, prev, Seq::<WallSegment>::empty(), b.occupied_cells_spec(), 0);
                    }
                    return Err(SimulatorError::MapConflict(e));
                },
            }
            proof {
                let cells = b.occupied_cells_spec();
                lemma_conflict_matches(before, prev, Seq::<WallSegment>::empty(), cells, 0);
                assert(before.first_conflict(cells) is None);
                lemma_no_first_taken(bounds, prev, Seq::<WallSegment>::empty(), cells, 0);
                assert(bsv.subrange(0, k + 1) =~= prev.push(b));
                assert forall|x: i32, y: i32| #[trigger] map.occupied_at(x as int, y as int) == (building_at(bsv.subrange(0, k + 1), x, y)
                    || wall_at(Seq::<WallSegment>::empty(), x, y)) by {
                    lemma_building_at_push(prev, b, x, y);
                    assert(before.occupied_at(x as int, y as int) == (building_at(prev, x, y) || wall_at(Seq::<WallSegment>::empty(), x, y)));
                    if b.covers(x, y) {
                        let c = choose|c: int| 0 <= c < cells.len() && cells[c] == (x, y);
                        assert(bounds.has(cells[c].0 as int, cells[c].1 as int));
                    }
                }
                assert forall|x: i32, y: i32| #[trigger] map.blocked_at(x as int, y as int) == (building_blocks_at(
                    bsv.subrange(0, k + 1),
                    x,
                    y,
                ) || wall_at(Seq::<WallSegment>::empty(), x, y)) by {
                    lemma_building_at_push(prev, b, x, y);
                    assert(before.blocked_at(x as int, y as int) == (building_blocks_at(prev, x, y) || wall_at(Seq::<WallSegment>::empty(), x, y)));
                    if b.blocks(x, y) {
                        crate::buildings::lemma_blocking_within_occupied(b);
                        let c = choose|c: int| 0 <= c < b.blocking_cells_spec().len() && b.blocking_cells_spec()[c] == (x, y);
                        assert(cells.contains(b.blocking_cells_spec()[c]));
                        let c2 = choose|c2: int| 0 <= c2 < cells.len() && cells[c2] == (x, y);
                        assert(bounds.has(cells[c2].0 as int, cells[c2].1 as int));
                    }
                }
                assert forall|t: int| 0 <= t < k + 1 implies cells_inside(bounds, (#[trigger] bsv[t]).occupied_cells_spec()) by {
                }
                assert forall|t: int| 0 <= t < k + 1 implies ((#[trigger] bsv[t]).entry_point matches Some(e) ==> bounds.has(
                    e.x as int,
                    e.y as int,
                )) by {
                }
                assert forall|t1: int, t2: int, x: i32, y: i32|
                    0 <= t1 < k + 1 && 0 <= t2 < k + 1 && t1 != t2 && #[trigger] bsv[t1].covers(x, y) implies !#[trigger] bsv[t2].covers(
                    x,
                    y,
                ) by {
                    if t1 == k && bsv[t2].covers(x, y) {
                        let c = choose|c: int| 0 <= c < cells.len() && cells[c] == (x, y);
                        assert(!building_at(prev, x, y));
                        assert(prev[t2] == bsv[t2]);
                    }
                    if t2 == k && bsv[t2].covers(x, y) {
                        let c = choose|c: int| 0 <= c < cells.len() && cells[c] == (x, y);
                        assert(!building_at(prev, x, y));
                        assert(prev[t1] == bsv[t1]);
                    }
                }
            }
            let ghost before_buildings = buildings@;
            buildings.push(p);
            proof {
                assert(views(buildings@) =~= views(before_buildings).push(b));
            }
            k = k + 1;
        }
        proof {
            assert(bsv.subrange(0, n as int) =~= bsv);
            assert(ws.subrange(0, 0) =~= Seq::<WallSegment>::empty());
        }
        let m = walls.len();
        let mut j: usize = 0;
        while j < m
            invariant
                bsv == saved_views(saved_buildings@),
                ws == walls@,
                m == ws.len(),
                j <= m,
                load_error(bounds, saved_buildings@, walls@) == wall_load_error(bounds, bsv, ws, j as int),
                map.wf(),
                map.bounds_spec() == bounds,
                map_matches(map, bsv, ws.subrange(0, j as int)),
                forall|t: int| 0 <= t < j ==> (#[trigger] ws[t]).axis_aligned(),
                forall|t: int| 0 <= t < j ==> cells_inside(bounds, (#[trigger] ws[t]).cells_spec()),
                forall|i: int, t: int, x: i32, y: i32|
                    0 <= i < bsv.len() && 0 <= t < j && #[trigger] bsv[i].covers(x, y) ==> !#[trigger] ws[t].cells_spec().contains(
                        (x, y),
                    ),
                forall|t1: int, t2: int, x: i32, y: i32|
                    0 <= t1 < j && 0 <= t2 < j && t1 != t2 && #[trigger] ws[t1].cells_spec().contains((x, y)) ==> !#[trigger] ws[t2].cells_spec().contains(
                        (x, y),
                    ),
            decreases m - j,
        {
            let ghost prev = ws.subrange(0, j as int);
            let ghost w = ws[j as int];
            if !walls[j].is_axis_aligned() {
                return Err(SimulatorError::InvalidWallDirection);
            }
            let cells = walls[j].cells();
            let ghost before = map;
            match map.place_cells(walls[j].id, &cells) {
                Ok(()) => {},
                Err(e) => {
                    proof {
                        lemma_conflict_matches(before, bsv, prev, cells@, 0);
                    }
                    return Err(SimulatorError::MapConflict(e));
                },
            }
            proof {
                lemma_conflict_matches(before, bsv, prev, cells@, 0);
                lemma_no_first_taken(bounds, bsv, prev, cells@, 0);
                assert(ws.subrange(0, j + 1) =~= prev.push(w));
                assert forall|x: i32, y: i32| #[trigger] map.occupied_at(x as int, y as int) == (building_at(bsv, x, y) || wall_at(
                    ws.subrange(0, j + 1),
                    x,
                    y,
                )) by {
                    lemma_wall_at_push(prev, w, x, y);
                    assert(before.occupied_at(x as int, y as int) == (building_at(bsv, x, y) || wall_at(prev, x, y)));
                    if w.cells_spec().contains((x, y)) {
                        let c = choose|c: int| 0 <= c < cells@.len() && cells@[c] == (x, y);
                        assert(bounds.has(cells@[c].0 as int, cells@[c].1 as int));
                    }
                }
                assert forall|x: i32, y: i32| #[trigger] map.blocked_at(x as int, y as int) == (building_blocks_at(bsv, x, y)
                    || wall_at(ws.subrange(0, j + 1), x, y)) by {
                    lemma_wall_at_push(prev, w, x, y);
                    assert(before.blocked_at(x as int, y as int) == (building_blocks_at(bsv, x, y) || wall_at(prev, x, y)));
                    if w.cells_spec().contains((x, y)) {
                        let c = choose|c: int| 0 <= c < cells@.len() && cells@[c] == (x, y);
                        assert(bounds.has(cells@[c].0 as int, cells@[c].1 as int));
                    }
                }
                assert forall|i: int, t: int, x: i32, y: i32|
                    0 <= i < bsv.len() && 0 <= t < j + 1 && #[trigger] bsv[i].covers(x, y) implies !#[trigger] ws[t].cells_spec().contains(
                    (x, y),
                ) by {
                    if t == j && ws[t].cells_spec().contains((x, y)) {
                        let c = choose|c: int| 0 <= c < cells@.len() && cells@[c] == (x, y);
                        assert(!building_at(bsv, x, y));
                    }
                }
                assert forall|t1: int, t2: int, x: i32, y: i32|
                    0 <= t1 < j + 1 && 0 <= t2 < j + 1 && t1 != t2 && #[trigger] ws[t1].cells_spec().contains((x, y)) implies !#[trigger] ws[t2].cells_spec().contains(
                    (x, y),
                ) by {
                    if t1 == j && ws[t2].cells_spec().contains((x, y)) {
                        let c = choose|c: int| 0 <= c < cells@.len() && cells@[c] == (x, y);
                        assert(!wall_at(prev, x, y));
                        assert(prev[t2] == ws[t2]);
                    }
                    if t2 == j && ws[t2].cells_spec().contains((x, y)) {
                        let c = choose|c: int| 0 <= c < cells@.len() && cells@[c] == (x, y);
                        assert(!wall_at(prev, x, y));
                        assert(prev[t1] == ws[t1]);
                    }
                }
            }
            j = j + 1;
        }
        proof {
            assert(ws.subrange(0, m as int) =~= ws);
            lemma_max_ids(saved_buildings@, ws);
            assert forall|t: int| 0 <= t < bsv.len() implies placement_ok(#[trigger] bsv[t]) by {
                let sb = saved_buildings@[t];
                assert(bsv[t] == sb.placement_view());
                assert(bsv[t].components =~= Seq::<BuildingComponent>::empty());
                crate::buildings::lemma_type_footprint_wf(sb.building_type);
                lemma_anchor_from_cells(bsv[t], bounds);
                assert(sb == saved_buildings@[t]);
            }
            assert forall|a: int, b: int| 0 <= a < bsv.len() && 0 <= b < bsv.len() && a != b implies (#[trigger] bsv[a]).id
                != (#[trigger] bsv[b]).id by {
                assert(saved_buildings@[a].id != saved_buildings@[b].id);
            }
        }
        let mut simulator = Simulator {
            map,
            factory: BuildingFactory::with_next_ids(max_id + 1, max_group + 1),
            time: GameTime::new(),
            buildings,
            walls,
            next_wall_id: max_wall + 1,
            distances: DistanceTable::new(),
            worker_distances: DistanceTable::new(),
            defer_path_calculation: false,
        };
        proof {
            assert forall|t: int| 0 <= t < bsv.len() implies (#[trigger] bsv[t]).id < simulator.next_building_id() && (
            bsv[t].goods_yard_group_id matches Some(g) ==> g < simulator.next_group_id()) by {
                assert(bsv[t].id == saved_buildings@[t].id);
            }
            assert(distances_bounded(simulator.distances@, MAX_CELL_COUNT as nat));
            assert(distances_bounded(simulator.worker_distances@, MAX_CELL_COUNT as nat));
        }
        simulator.recompute_distances();
        Ok(simulator)
    }

    /// A simulator with an empty canvas of `bounds`, or `InvalidMapSize`
    /// when the bounds are empty or hold more cells than route lengths can
    /// count (`MAX_CELL_COUNT`).
    pub fn with_bounds(bounds: MapBounds) -> (r: Result<Simulator, SimulatorError>)
        ensures
            r is Ok <==> bounds_allocatable(bounds),
            r is Err ==> r == Err::<Simulator, SimulatorError>(SimulatorError::InvalidMapSize),
            r matches Ok(s) ==> {
                &&& s.wf()
                &&& s.bounds_spec() == bounds
                &&& s.buildings_view().len() == 0
                &&& s.walls_spec().len() == 0
                &&& forall|x: int, y: int| !#[trigger] s.cell_map().occupied_at(x, y)
                &&& s.next_building_id() == 1
                &&& s.next_group_id() == 1
                &&& s.next_wall_id() == 1
                &&& s.ticks_spec() == 0
                &&& !s.defers_paths()
                &&& s.distance_table()@ == Map::<DistanceKey, BuildingDistance>::empty()
                &&& s.worker_table()@ == Map::<DistanceKey, BuildingDistance>::empty()
                &&& s.routes_fresh()
            },
    {
        let map = match CellMap::with_bounds(bounds) {
            Some(m) => m,
            None => return Err(SimulatorError::InvalidMapSize),
        };
        let s = Simulator {
            map,
            factory: BuildingFactory::new(),
            time: GameTime::new(),
            buildings: Vec::new(),
            walls: Vec::new(),
            next_wall_id: 1,
            distances: DistanceTable::new(),
            worker_distances: DistanceTable::new(),
            defer_path_calculation: false,
        };
        proof {
            assert(s.buildings_view() =~= Seq::<PlacementView>::empty());
            assert forall|x: int, y: int| !#[trigger] s.cell_map().occupied_at(x, y) by {}
            assert(distances_bounded(s.distance_table()@, MAX_CELL_COUNT as nat));
            assert(distances_bounded(s.worker_table()@, MAX_CELL_COUNT as nat));
        }
        Ok(s)
    }

    /// A simulator with an empty square canvas of `map_size` cells per side.
    pub fn new(map_size: usize) -> (r: Result<Simulator, SimulatorError>)
        ensures
            r is Ok <==> (MapBounds::square_spec(map_size) matches Some(b) && bounds_allocatable(b)),
            r is Err ==> r == Err::<Simulator, SimulatorError>(SimulatorError::InvalidMapSize),
            r matches Ok(s) ==> {
                &&& s.wf()
                &&& Some(s.bounds_spec()) == MapBounds::square_spec(map_size)
                &&& s.buildings_view().len() == 0
                &&& s.walls_spec().len() == 0
                &&& s.next_building_id() == 1
                &&& s.next_group_id() == 1
                &&& s.next_wall_id() == 1
                &&& s.ticks_spec() == 0
                &&& !s.defers_paths()
                &&& s.distance_table()@ == Map::<DistanceKey, BuildingDistance>::empty()
                &&& s.worker_table()@ == Map::<DistanceKey, BuildingDistance>::empty()
                &&& s.routes_fresh()
            },
    {
        let bounds = match MapBounds::square(map_size) {
            Some(b) => b,
            None => return Err(SimulatorError::InvalidMapSize),
        };
        Simulator::with_bounds(bounds)
    }

    /// The identifiers the next building, goods yard group and wall get.
    pub fn next_ids(&self) -> (r: (u32, u32, u32))
        ensures
            r == (self.next_building_id(), self.next_group_id(), self.next_wall_id()),
    {
        let (b, g) = self.factory.next_ids();
        (b, g, self.next_wall_id)
    }

    /// The first building that reserves cell `(x, y)`, if any.
    pub fn building_covering(&self, x: i32, y: i32) -> (r: Option<&BuildingPlacement>)
        requires
            self.wf(),
        ensures
            match r {
                Some(b) => exists|i: int|
                    0 <= i < self.buildings_view().len() && #[trigger] self.buildings_view()[i] == b@ && b@.covers(x, y)
                        && forall|t: int| 0 <= t < i ==> !(#[trigger] self.buildings_view()[t]).covers(x, y),
                None => forall|t: int|
                    0 <= t < self.buildings_view().len() ==> !(#[trigger] self.buildings_view()[t]).covers(x, y),
            },
    {
        let ghost bs = self.buildings_view();
        proof {
            assert forall|t: int| 0 <= t < self.buildings@.len() implies (#[trigger] self.buildings@[t])@.fits() by {
                assert(placement_ok(bs[t]));
                lemma_placement_ok_facts(bs[t]);
                assert(self.buildings@[t]@ == bs[t]);
            }
        }
        match position_covering(&self.buildings, x, y) {
            Some(i) => {
                assert(bs[i as int] == self.buildings@[i as int]@);
                Some(&self.buildings[i])
            },
            None => None,
        }
    }

    /// Width of the canvas.
    pub fn map_size(&self) -> (r: usize)
        ensures
            r == self.bounds_spec().width_spec(),
    {
        self.map.width()
    }

    pub fn map_bounds(&self) -> (r: MapBounds)
        ensures
            r == self.bounds_spec(),
    {
        self.map.bounds()
    }

    pub fn map_width(&self) -> (r: usize)
        ensures
            r == self.bounds_spec().width_spec(),
    {
        self.map.width()
    }

    pub fn map_height(&self) -> (r: usize)
        ensures
            r == self.bounds_spec().height_spec(),
    {
        self.map.height()
    }

    pub fn time(&self) -> (r: GameTime)
        ensures
            r.ticks_spec() == self.ticks_spec(),
    {
        self.time
    }

    pub fn buildings(&self) -> (r: &[BuildingPlacement])
        ensures
            views(r@) == self.buildings_view(),
    {
        self.buildings.as_slice()
    }

    pub fn walls(&self) -> (r: &[WallSegment])
        ensures
            r@ == self.walls_spec(),
    {
        self.walls.as_slice()
    }

    pub fn distances(&self) -> (r: &DistanceTable)
        ensures
            r@ == self.distance_table()@,
    {
        &self.distances
    }

    pub fn worker_distances(&self) -> (r: &DistanceTable)
        ensures
            r@ == self.worker_table()@,
    {
        &self.worker_distances
    }

    /// The route from one building's entry to another's.
    pub fn distance_between(&self, start_building_id: u32, finish_building_id: u32) -> (r: Option<&BuildingDistance>)
        ensures
            r == (if self.distance_table()@.contains_key(pair_key(start_building_id, finish_building_id)) {
                Some(&self.distance_table()@[pair_key(start_building_id, finish_building_id)])
            } else {
                None::<&BuildingDistance>
            }),
    {
        self.distances.get(&DistanceKey::new(start_building_id, finish_building_id))
    }

    /// A route walked by production workers.
    pub fn worker_distance_between(&self, start_building_id: u32, finish_building_id: u32) -> (r: Option<
        &BuildingDistance,
    >)
        ensures
            r == (if self.worker_table()@.contains_key(pair_key(start_building_id, finish_building_id)) {
                Some(&self.worker_table()@[pair_key(start_building_id, finish_building_id)])
            } else {
                None::<&BuildingDistance>
            }),
    {
        self.worker_distances.get(&DistanceKey::new(start_building_id, finish_building_id))
    }

    pub fn is_cell_occupied(&self, x: i32, y: i32) -> (r: bool)
        requires
            self.wf(),
        ensures
            r == self.cell_map().occupied_at(x as int, y as int),
            r == (building_at(self.buildings_view(), x, y) || wall_at(self.walls_spec(), x, y)),
    {
        self.map.is_occupied(x, y)
    }

    /// Moves game time forward.
    pub fn tick(&mut self, delta_ticks: u64)
        ensures
            final(self).ticks_spec() == (if old(self).ticks_spec() + delta_ticks > u64::MAX {
                u64::MAX as int
            } else {
                old(self).ticks_spec() + delta_ticks
            }),
            final(self).cell_map() == old(self).cell_map(),
            final(self).buildings_view() == old(self).buildings_view(),
            final(self).walls_spec() == old(self).walls_spec(),
            final(self).wf() == old(self).wf(),
    {
        self.time.advance(delta_ticks);
    }
}

} // verus!
