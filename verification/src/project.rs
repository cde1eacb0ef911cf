use vstd::prelude::*;

use crate::buildings::{
    BuildingComponent, BuildingPlacement, BuildingType, EntryPoint, Footprint, PlacementView, StockpileResource,
    type_footprint,
};
use crate::map::MapBounds;
use crate::buildings::{shape_size, views};
use crate::simulation::{
    PopulationEconomySettings, SimulationSettings, Simulator, SimulatorError, entries_inside, layout_ok,
    lemma_buildings_load, lemma_max_attained, lemma_walls_load, load_error, max_saved_group, max_saved_id, max_wall_id,
    placement_ok, wall_ids_distinct,
};
use crate::walls::WallSegment;

verus! {

/// The project format version written today; version 1 files store a
/// square canvas size instead of bounds and are read as well.
pub const PROJECT_FORMAT_VERSION: u32 = 2;

/// A building as a project file stores it.
#[derive(Debug, Clone, Copy, PartialEq, Eq, Structural)]
pub struct SavedBuilding {
    pub id: u32,
    pub building_type: BuildingType,
    pub x: i32,
    pub y: i32,
    pub goods_yard_group_id: Option<u32>,
    pub stockpile_resource: Option<StockpileResource>,
    pub entry_point: Option<EntryPoint>,
}

impl SavedBuilding {
    /// The placement a saved building becomes.
    pub open spec fn placement_view(self) -> PlacementView {
        PlacementView {
            id: self.id,
            building_type: self.building_type,
            x: self.x,
            y: self.y,
            goods_yard_group_id: self.goods_yard_group_id,
            stockpile_resource: self.stockpile_resource,
            entry_point: self.entry_point,
            footprint: type_footprint(self.building_type),
            components: Seq::empty(),
        }
    }

    /// The saved form of a placement.
    pub open spec fn saved_spec(b: PlacementView) -> SavedBuilding {
        SavedBuilding {
            id: b.id,
            building_type: b.building_type,
            x: b.x,
            y: b.y,
            goods_yard_group_id: b.goods_yard_group_id,
            stockpile_resource: b.stockpile_resource,
            entry_point: b.entry_point,
        }
    }

    pub fn from_placement(building: &BuildingPlacement) -> (r: SavedBuilding)
        ensures
            r == SavedBuilding::saved_spec(building@),
    {
        SavedBuilding {
            id: building.id,
            building_type: building.building_type,
            x: building.x,
            y: building.y,
            goods_yard_group_id: building.goods_yard_group_id,
            stockpile_resource: building.stockpile_resource,
            entry_point: building.entry_point,
        }
    }

    pub fn into_placement(self) -> (r: BuildingPlacement)
        ensures
            r@ == self.placement_view(),
    {
        let components: Vec<BuildingComponent> = Vec::new();
        let r = BuildingPlacement {
            id: self.id,
            building_type: self.building_type,
            x: self.x,
            y: self.y,
            goods_yard_group_id: self.goods_yard_group_id,
            stockpile_resource: self.stockpile_resource,
            entry_point: self.entry_point,
            footprint: Footprint::for_type(self.building_type),
            components,
        };
        assert(r.components@ =~= Seq::<BuildingComponent>::empty());
        r
    }
}

/// The placements saved buildings become.
pub open spec fn saved_views(s: Seq<SavedBuilding>) -> Seq<PlacementView> {
    s.map_values(|b: SavedBuilding| b.placement_view())
}

/// No two saved buildings share an identifier.
pub open spec fn saved_ids_distinct(s: Seq<SavedBuilding>) -> bool {
    forall|a: int, b: int| 0 <= a < s.len() && 0 <= b < s.len() && a != b ==> (#[trigger] s[a]).id != (#[trigger] s[b]).id
}

/// Checks that building identifiers and wall identifiers are unique.
pub fn validate_unique_ids(buildings: &Vec<SavedBuilding>, walls: &Vec<WallSegment>) -> (r: Result<(), SimulatorError>)
    ensures
        !saved_ids_distinct(buildings@) ==> r == Err::<(), SimulatorError>(
            SimulatorError::InvalidProject("building IDs must be unique"),
        ),
        saved_ids_distinct(buildings@) && !wall_ids_distinct(walls@) ==> r == Err::<(), SimulatorError>(
            SimulatorError::InvalidProject("wall IDs must be unique"),
        ),
        saved_ids_distinct(buildings@) && wall_ids_distinct(walls@) ==> r is Ok,
{
    let mut a: usize = 0;
    while a < buildings.len()
        invariant
            a <= buildings@.len(),
            forall|i: int, j: int| 0 <= i < a && 0 <= j < buildings@.len() && i != j ==> (#[trigger] buildings@[i]).id != (#[trigger] buildings@[j]).id,
        decreases buildings@.len() - a,
    {
        let mut b: usize = 0;
        while b < buildings.len()
            invariant
                a < buildings@.len(),
                b <= buildings@.len(),
                forall|i: int, j: int| 0 <= i < a && 0 <= j < buildings@.len() && i != j ==> (#[trigger] buildings@[i]).id != (#[trigger] buildings@[j]).id,
                forall|j: int| 0 <= j < b && j != a ==> (#[trigger] buildings@[j]).id != buildings@[a as int].id,
            decreases buildings@.len() - b,
        {
            if a != b && buildings[a].id == buildings[b].id {
                return Err(SimulatorError::InvalidProject("building IDs must be unique"));
            }
            b = b + 1;
        }
        a = a + 1;
    }
    let mut a: usize = 0;
    while a < walls.len()
        invariant
            saved_ids_distinct(buildings@),
            a <= walls@.len(),
            forall|i: int, j: int| 0 <= i < a && 0 <= j < walls@.len() && i != j ==> (#[trigger] walls@[i]).id != (#[trigger] walls@[j]).id,
        decreases walls@.len() - a,
    {
        let mut b: usize = 0;
        while b < walls.len()
            invariant
                saved_ids_distinct(buildings@),
                a < walls@.len(),
                b <= walls@.len(),
                forall|i: int, j: int| 0 <= i < a && 0 <= j < walls@.len() && i != j ==> (#[trigger] walls@[i]).id != (#[trigger] walls@[j]).id,
                forall|j: int| 0 <= j < b && j != a ==> (#[trigger] walls@[j]).id != walls@[a as int].id,
            decreases walls@.len() - b,
        {
            if a != b && walls[a].id == walls[b].id {
                return Err(SimulatorError::InvalidProject("wall IDs must be unique"));
            }
            b = b + 1;
        }
        a = a + 1;
    }
    Ok(())
}

/// The saved form of a list of buildings.
pub open spec fn saved_layout(bs: Seq<PlacementView>) -> Seq<SavedBuilding> {
    bs.map_values(|b: PlacementView| SavedBuilding::saved_spec(b))
}

/// Saved anchors from which cells and entry candidates can be computed: the
/// cells of each building fit the `i32` range, and a building on the
/// least `i32` column or row lies outside a canvas that stops short of it.
pub open spec fn loadable_anchors(bounds: MapBounds, s: Seq<SavedBuilding>) -> bool {
    forall|k: int|
        0 <= k < s.len() ==> {
            let b = #[trigger] s[k];
            &&& (b.x == i32::MIN ==> i32::MIN < bounds.min_x)
            &&& (b.y == i32::MIN ==> i32::MIN < bounds.min_y)
            &&& b.x + shape_size(b.building_type) <= i32::MAX + 1
            &&& b.y + shape_size(b.building_type) <= i32::MAX + 1
        }
}

/// The canvas a project file describes: its bounds in version 2, otherwise
/// a square of `map_size` cells per side.
pub open spec fn project_bounds(version: u32, map_size: usize, bounds: Option<MapBounds>) -> Option<MapBounds> {
    if version == 2 && bounds is Some {
        bounds
    } else {
        MapBounds::square_spec(map_size)
    }
}

/// Side length of the square a building of type `t` covers.
fn side_length(t: BuildingType) -> (r: i64)
    ensures
        r == shape_size(t),
{
    match t {
        BuildingType::GoodsYard => 5,
        BuildingType::Stockpile => 2,
        BuildingType::Windmill => 3,
        BuildingType::WheatFarm => 9,
        _ => 4,
    }
}

/// Whether the layout loader can work with the saved building positions of
/// `project` on the canvas it describes: what loading it asks of them.
pub fn positions_in_range(project: &ProjectFile) -> (r: bool)
    ensures
        r == (project_bounds(project.version, project.map_size, project.bounds) matches Some(b) ==> loadable_anchors(
            b,
            project.buildings@,
        )),
{
    let bounds = if project.version == 2 && project.bounds.is_some() {
        project.bounds
    } else {
        MapBounds::square(project.map_size)
    };
    let bounds = match bounds {
        Some(b) => b,
        None => return true,
    };
    let buildings = &project.buildings;
    let mut k: usize = 0;
    while k < buildings.len()
        invariant
            k <= buildings@.len(),
            buildings@ == project.buildings@,
            project_bounds(project.version, project.map_size, project.bounds) == Some(bounds),
            loadable_anchors(bounds, buildings@.subrange(0, k as int)),
        decreases buildings@.len() - k,
    {
        let b = &buildings[k];
        let size = side_length(b.building_type);
        let fits = (b.x != i32::MIN || bounds.min_x > i32::MIN) && (b.y != i32::MIN || bounds.min_y > i32::MIN) && b.x as i64
            + size <= i32::MAX as i64 + 1 && b.y as i64 + size <= i32::MAX as i64 + 1;
        if !fits {
            proof {
                let sb = buildings@[k as int];
                assert(sb == *b);
                assert(!({
                    &&& (sb.x == i32::MIN ==> i32::MIN < bounds.min_x)
                    &&& (sb.y == i32::MIN ==> i32::MIN < bounds.min_y)
                    &&& sb.x + shape_size(sb.building_type) <= i32::MAX + 1
                    &&& sb.y + shape_size(sb.building_type) <= i32::MAX + 1
                }));
                assert(!loadable_anchors(bounds, buildings@));
            }
            return false;
        }
        proof {
            let prefix = buildings@.subrange(0, k + 1);
            assert forall|j: int| 0 <= j < prefix.len() implies {
                let sb = #[trigger] prefix[j];
                &&& (sb.x == i32::MIN ==> i32::MIN < bounds.min_x)
                &&& (sb.y == i32::MIN ==> i32::MIN < bounds.min_y)
                &&& sb.x + shape_size(sb.building_type) <= i32::MAX + 1
                &&& sb.y + shape_size(sb.building_type) <= i32::MAX + 1
            } by {
                if j < k {
                    assert(prefix[j] == buildings@.subrange(0, k as int)[j]);
                }
            }
        }
        k = k + 1;
    }
    assert(buildings@.subrange(0, k as int) =~= buildings@);
    true
}

/// A saved project: canvas, buildings, walls and calculator settings.
#[derive(Debug, Clone)]
pub struct ProjectFile {
    pub version: u32,
    pub map_size: usize,
    pub bounds: Option<MapBounds>,
    pub buildings: Vec<SavedBuilding>,
    pub walls: Vec<WallSegment>,
    pub simulation: SimulationSettings,
    pub population_economy: PopulationEconomySettings,
}

impl ProjectFile {
    /// The project of the current layout and settings.
    pub fn capture(simulator: &Simulator, simulation: SimulationSettings) -> (r: ProjectFile)
        ensures
            r.version == PROJECT_FORMAT_VERSION,
            r.map_size == simulator.bounds_spec().width_spec(),
            r.bounds == Some(simulator.bounds_spec()),
            r.buildings@ == saved_layout(simulator.buildings_view()),
            r.walls@ == simulator.walls_spec(),
            r.simulation == simulation,
            r.population_economy == PopulationEconomySettings::default_spec(),
    {
        let placed = simulator.buildings();
        let mut buildings: Vec<SavedBuilding> = Vec::new();
        let mut i: usize = 0;
        while i < placed.len()
            invariant
                views(placed@) == simulator.buildings_view(),
                i <= placed@.len(),
                buildings@ == saved_layout(views(placed@)).subrange(0, i as int),
            decreases placed@.len() - i,
        {
            buildings.push(SavedBuilding::from_placement(&placed[i]));
            assert(buildings@ =~= saved_layout(views(placed@)).subrange(0, i + 1));
            i = i + 1;
        }
        assert(saved_layout(views(placed@)).subrange(0, i as int) =~= saved_layout(views(placed@)));
        let mut walls: Vec<WallSegment> = Vec::new();
        let source = simulator.walls();
        let mut j: usize = 0;
        while j < source.len()
            invariant
                source@ == simulator.walls_spec(),
                j <= source@.len(),
                walls@ == source@.subrange(0, j as int),
            decreases source@.len() - j,
        {
            walls.push(source[j]);
            assert(walls@ =~= source@.subrange(0, j + 1));
            j = j + 1;
        }
        assert(source@.subrange(0, j as int) =~= source@);
        ProjectFile {
            version: PROJECT_FORMAT_VERSION,
            map_size: simulator.map_size(),
            bounds: Some(simulator.map_bounds()),
            buildings,
            walls,
            simulation,
            population_economy: PopulationEconomySettings::default(),
        }
    }

    /// The layout and simulation settings a project holds.
    pub fn into_simulator(self) -> (r: Result<(Simulator, SimulationSettings), SimulatorError>)
        requires
            project_bounds(self.version, self.map_size, self.bounds) matches Some(b) ==> loadable_anchors(b, self.buildings@),
        ensures
            self.version != 1 && self.version != 2 ==> r == Err::<(Simulator, SimulationSettings), SimulatorError>(
                SimulatorError::UnsupportedProjectVersion { version: self.version },
            ),
            (self.version == 1 || self.version == 2) ==> match project_bounds(self.version, self.map_size, self.bounds) {
                None => r == Err::<(Simulator, SimulationSettings), SimulatorError>(SimulatorError::InvalidMapSize),
                Some(b) => match load_error(b, self.buildings@, self.walls@) {
                    Some(e) => r == Err::<(Simulator, SimulationSettings), SimulatorError>(e),
                    None => r matches Ok((s, settings)) && {
                        &&& settings == self.simulation
                        &&& s.wf()
                        &&& s.bounds_spec() == b
                        &&& s.buildings_view() == saved_views(self.buildings@)
                        &&& s.walls_spec() == self.walls@
                        &&& s.next_building_id() == max_saved_id(self.buildings@) + 1
                        &&& s.next_group_id() == max_saved_group(self.buildings@) + 1
                        &&& s.next_wall_id() == max_wall_id(self.walls@) + 1
                        &&& !s.defers_paths()
                        &&& s.routes_fresh()
                    },
                },
            },
    {
        if self.version != 1 && self.version != PROJECT_FORMAT_VERSION {
            return Err(SimulatorError::UnsupportedProjectVersion { version: self.version });
        }
        let bounds = if self.version == PROJECT_FORMAT_VERSION && self.bounds.is_some() {
            self.bounds
        } else {
            MapBounds::square(self.map_size)
        };
        let bounds = match bounds {
            Some(b) => b,
            None => return Err(SimulatorError::InvalidMapSize),
        };
        let simulation = self.simulation;
        match Simulator::from_saved_layout(bounds, self.buildings, self.walls) {
            Ok(s) => Ok((s, simulation)),
            Err(e) => Err(e),
        }
    }
}

/// Saving a layout and loading it again gives back the same canvas,
/// buildings (identifiers, positions, groups, resources and entry points)
/// and walls: the saved layout always loads.
pub proof fn lemma_saved_layout_reloads(s: Simulator)
    requires
        s.wf(),
    ensures
        loadable_anchors(s.bounds_spec(), saved_layout(s.buildings_view())),
        project_bounds(PROJECT_FORMAT_VERSION, s.bounds_spec().width_spec() as usize, Some(s.bounds_spec())) == Some(
            s.bounds_spec(),
        ),
        load_error(s.bounds_spec(), saved_layout(s.buildings_view()), s.walls_spec()) is None,
        saved_views(saved_layout(s.buildings_view())) == s.buildings_view(),
{
    let bs = s.buildings_view();
    let ws = s.walls_spec();
    let b = s.bounds_spec();
    let saved = saved_layout(bs);
    s.cell_map().lemma_wf_facts();
    assert forall|k: int| 0 <= k < bs.len() implies #[trigger] saved_views(saved)[k] == bs[k] by {
        assert(placement_ok(bs[k]));
        assert(bs[k].components =~= Seq::<BuildingComponent>::empty());
    }
    assert(saved_views(saved) =~= bs);
    assert forall|k: int| 0 <= k < saved.len() implies {
        let sb = #[trigger] saved[k];
        &&& (sb.x == i32::MIN ==> i32::MIN < b.min_x)
        &&& (sb.y == i32::MIN ==> i32::MIN < b.min_y)
        &&& sb.x + shape_size(sb.building_type) <= i32::MAX + 1
        &&& sb.y + shape_size(sb.building_type) <= i32::MAX + 1
    } by {
        assert(placement_ok(bs[k]));
    }
    assert forall|x: int, y: int| 0 <= x < saved.len() && 0 <= y < saved.len() && x != y implies (#[trigger] saved[x]).id
        != (#[trigger] saved[y]).id by {
        assert(bs[x].id != bs[y].id);
    }
    lemma_max_attained(saved, ws);
    if max_saved_id(saved) == u32::MAX {
        let t = choose|t: int| 0 <= t < saved.len() && (#[trigger] saved[t]).id == max_saved_id(saved);
        assert(bs[t].id < s.next_building_id());
    }
    if max_saved_group(saved) == u32::MAX {
        let t = choose|t: int| 0 <= t < saved.len() && (#[trigger] saved[t]).goods_yard_group_id == Some(max_saved_group(saved));
        assert(bs[t].id < s.next_building_id());
    }
    if max_wall_id(ws) == u32::MAX {
        let t = choose|t: int| 0 <= t < ws.len() && (#[trigger] ws[t]).id == max_wall_id(ws);
    }
    lemma_buildings_load(b, bs, ws, 0);
    lemma_walls_load(b, bs, ws, 0);
}

} // verus!
