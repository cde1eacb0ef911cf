use vstd::prelude::*;

use crate::buildings::{BuildingPlacement, BuildingType, Footprint, StockpileResource, type_footprint};
use crate::map::MapBounds;
use crate::simulation::{
    BackendCommand, PopulationEconomySettings, SimulationSettings, Simulator, SimulatorError, WeaponType,
    WorkshopCycle, clamp_fear, clamped_fear_factor,
};
use crate::text::{decimal_text, push_decimal, same_text};
use crate::walls::{line_cells, line_cells_spec};
use crate::DEFAULT_MAP_SIZE;

verus! {

/// The tool the map editor applies to a clicked cell.
#[derive(Debug, Clone, Copy, PartialEq, Eq, Structural)]
pub enum SelectedTool {
    Building(BuildingType),
    Wall,
    Remove,
    SetWoodStock,
    SetIronStock,
    SetWheatStock,
    SetFlourStock,
}

/// What a click on the map asks for: a command for the simulation, or a
/// status line while a wall is being drawn.
#[derive(Debug)]
pub enum PlacementOutcome {
    BackendCommand(BackendCommand),
    Status(String),
}

/// The tool a tool identifier names; stockpiles are never placed alone.
pub open spec fn tool_from_text(s: Seq<char>) -> Option<SelectedTool> {
    if s == "wall"@ {
        Some(SelectedTool::Wall)
    } else if s == "remove"@ {
        Some(SelectedTool::Remove)
    } else if s == "set_wood_stock"@ {
        Some(SelectedTool::SetWoodStock)
    } else if s == "set_iron_stock"@ {
        Some(SelectedTool::SetIronStock)
    } else if s == "set_wheat_stock"@ {
        Some(SelectedTool::SetWheatStock)
    } else if s == "set_flour_stock"@ {
        Some(SelectedTool::SetFlourStock)
    } else {
        match BuildingType::from_id_text(s) {
            Some(b) => Some(SelectedTool::Building(b)),
            None => None,
        }
    }
}

/// The identifier of a tool.
pub open spec fn tool_id_text(t: SelectedTool) -> Seq<char> {
    match t {
        SelectedTool::Building(b) => b.id_text(),
        SelectedTool::Wall => "wall"@,
        SelectedTool::Remove => "remove"@,
        SelectedTool::SetWoodStock => "set_wood_stock"@,
        SelectedTool::SetIronStock => "set_iron_stock"@,
        SelectedTool::SetWheatStock => "set_wheat_stock"@,
        SelectedTool::SetFlourStock => "set_flour_stock"@,
    }
}

/// The label shown for the selected tool.
pub open spec fn tool_label_text(t: Option<SelectedTool>) -> Seq<char> {
    match t {
        Some(SelectedTool::Building(b)) => b.name_text(),
        Some(SelectedTool::Wall) => "Wall"@,
        Some(SelectedTool::Remove) => "Remove"@,
        Some(SelectedTool::SetWoodStock) => "Set Wood Stock"@,
        Some(SelectedTool::SetIronStock) => "Set Iron Stock"@,
        Some(SelectedTool::SetWheatStock) => "Set Wheat Stock"@,
        Some(SelectedTool::SetFlourStock) => "Set Flour Stock"@,
        None => "None"@,
    }
}

/// The resource a stockpile tool designates.
pub open spec fn tool_resource(t: SelectedTool) -> Option<StockpileResource> {
    match t {
        SelectedTool::SetWoodStock => Some(StockpileResource::Wood),
        SelectedTool::SetIronStock => Some(StockpileResource::Iron),
        SelectedTool::SetWheatStock => Some(StockpileResource::Wheat),
        SelectedTool::SetFlourStock => Some(StockpileResource::Flour),
        _ => None,
    }
}

/// The cells of a building template anchored at `(x, y)` that lie on the
/// canvas `b`.
pub open spec fn cells_on_canvas(x: i32, y: i32, offsets: Seq<(usize, usize)>, b: MapBounds) -> Seq<(i32, i32)>
    decreases offsets.len(),
{
    if offsets.len() == 0 {
        Seq::empty()
    } else {
        let rest = cells_on_canvas(x, y, offsets.drop_last(), b);
        let o = offsets.last();
        if b.has(x + o.0, y + o.1) {
            rest.push(((x + o.0) as i32, (y + o.1) as i32))
        } else {
            rest
        }
    }
}

/// The status line shown when a wall's first cell is picked.
pub open spec fn wall_start_text(x: i32, y: i32) -> Seq<char> {
    "Wall start set at ("@ + decimal_text(x as int) + ", "@ + decimal_text(y as int) + ")"@
}

fn wall_start_status(x: i32, y: i32) -> (r: String)
    ensures
        r@ == wall_start_text(x, y),
{
    let mut s = "Wall start set at (".to_owned();
    push_decimal(&mut s, x);
    s.append(", ");
    push_decimal(&mut s, y);
    s.append(")");
    s
}

/// The game speed a requested value gives: the nearest multiple of five,
/// limited to 20..=90 ticks per second.
pub open spec fn snapped_game_speed(value: int) -> int {
    let multiple = 5 * ((value + 2) / 5);
    if multiple < 20 {
        20
    } else if multiple > 90 {
        90
    } else {
        multiple
    }
}

/// The map editor: the layout being edited, the selected tool, the cell
/// under the pointer, a wall's pending first cell, the calculator settings
/// and the last workshop cycle results.
pub struct EditorState {
    simulator: Simulator,
    selected: Option<SelectedTool>,
    hover_cell: Option<(i32, i32)>,
    wall_start: Option<(i32, i32)>,
    simulation_tooltips_enabled: bool,
    simulation_settings: SimulationSettings,
    population_economy_settings: PopulationEconomySettings,
    cycle_rows: Vec<WorkshopCycle>,
    simulation_results_stale: bool,
}

impl EditorState {
    #[verifier::type_invariant]
    spec fn layout_valid(self) -> bool {
        self.simulator.wf()
    }

    pub closed spec fn sim(&self) -> Simulator {
        self.simulator
    }

    pub closed spec fn tool(&self) -> Option<SelectedTool> {
        self.selected
    }

    pub closed spec fn hover(&self) -> Option<(i32, i32)> {
        self.hover_cell
    }

    pub closed spec fn wall_anchor(&self) -> Option<(i32, i32)> {
        self.wall_start
    }

    pub closed spec fn tooltips(&self) -> bool {
        self.simulation_tooltips_enabled
    }

    pub closed spec fn settings(&self) -> SimulationSettings {
        self.simulation_settings
    }

    pub closed spec fn population(&self) -> PopulationEconomySettings {
        self.population_economy_settings
    }

    pub closed spec fn rows(&self) -> Seq<WorkshopCycle> {
        self.cycle_rows@
    }

    pub closed spec fn stale(&self) -> bool {
        self.simulation_results_stale
    }

    /// Everything but the tool, the pointer cell and the pending wall is
    /// as in `old`.
    pub open spec fn same_model(&self, old: &EditorState) -> bool {
        &&& self.sim() == old.sim()
        &&& self.tooltips() == old.tooltips()
        &&& self.settings() == old.settings()
        &&& self.population() == old.population()
        &&& self.rows() == old.rows()
        &&& self.stale() == old.stale()
    }

    /// Everything but the pending wall is as in `old`.
    pub open spec fn same_but_wall(&self, old: &EditorState) -> bool {
        &&& self.same_model(old)
        &&& self.tool() == old.tool()
        &&& self.hover() == old.hover()
    }

    /// Everything but the simulation settings and results is as in `old`.
    pub open spec fn same_but_settings(&self, old: &EditorState) -> bool {
        &&& self.sim() == old.sim()
        &&& self.tool() == old.tool()
        &&& self.hover() == old.hover()
        &&& self.wall_anchor() == old.wall_anchor()
        &&& self.tooltips() == old.tooltips()
        &&& self.population() == old.population()
        &&& self.rows() == old.rows()
        &&& self.stale() == old.stale()
    }

    /// Everything but the population calculator inputs is as in `old`.
    pub open spec fn same_but_population(&self, old: &EditorState) -> bool {
        &&& self.sim() == old.sim()
        &&& self.tool() == old.tool()
        &&& self.hover() == old.hover()
        &&& self.wall_anchor() == old.wall_anchor()
        &&& self.tooltips() == old.tooltips()
        &&& self.settings() == old.settings()
        &&& self.rows() == old.rows()
        &&& self.stale() == old.stale()
    }

    /// An editor on a new default-size canvas with no tool selected,
    /// default settings, tooltips on and no results yet.
    pub fn new() -> (r: Result<EditorState, SimulatorError>)
        ensures
            match r {
                Ok(s) => {
                    &&& Some(s.sim().bounds_spec()) == MapBounds::square_spec(DEFAULT_MAP_SIZE)
                    &&& s.sim().buildings_view().len() == 0
                    &&& s.sim().walls_spec().len() == 0
                    &&& s.tool() is None
                    &&& s.hover() is None
                    &&& s.wall_anchor() is None
                    &&& s.tooltips()
                    &&& s.settings() == SimulationSettings::default_spec()
                    &&& s.population() == PopulationEconomySettings::default_spec()
                    &&& s.rows().len() == 0
                    &&& s.stale()
                },
                Err(e) => e == SimulatorError::InvalidMapSize,
            },
    {
        let simulator = match Simulator::new(DEFAULT_MAP_SIZE) {
            Ok(s) => s,
            Err(e) => return Err(e),
        };
        Ok(
            EditorState {
                simulator,
                selected: None,
                hover_cell: None,
                wall_start: None,
                simulation_tooltips_enabled: true,
                simulation_settings: SimulationSettings::default(),
                population_economy_settings: PopulationEconomySettings::default(),
                cycle_rows: Vec::new(),
                simulation_results_stale: true,
            },
        )
    }

    pub fn map_size(&self) -> (r: usize)
        ensures
            r == self.sim().bounds_spec().width_spec(),
    {
        self.simulator.map_size()
    }

    pub fn map_bounds(&self) -> (r: MapBounds)
        ensures
            r == self.sim().bounds_spec(),
    {
        self.simulator.map_bounds()
    }

    /// The layout being edited.
    pub fn simulator(&self) -> (r: &Simulator)
        ensures
            *r == self.sim(),
            r.wf(),
    {
        proof {
            use_type_invariant(self);
        }
        &self.simulator
    }

    /// Replaces the layout being edited.
    pub fn set_simulator(&mut self, simulator: Simulator)
        requires
            simulator.wf(),
        ensures
            final(self).sim() == simulator,
            final(self).tool() == old(self).tool(),
            final(self).hover() == old(self).hover(),
            final(self).wall_anchor() == old(self).wall_anchor(),
            final(self).tooltips() == old(self).tooltips(),
            final(self).settings() == old(self).settings(),
            final(self).population() == old(self).population(),
            final(self).rows() == old(self).rows(),
            final(self).stale() == old(self).stale(),
    {
        proof {
            use_type_invariant(&*self);
        }
        self.simulator = simulator;
    }

    /// Stores fresh workshop cycle results.
    pub fn set_cycle_rows(&mut self, cycle_rows: Vec<WorkshopCycle>)
        ensures
            final(self).rows() == cycle_rows@,
            !final(self).stale(),
            final(self).sim() == old(self).sim(),
            final(self).tool() == old(self).tool(),
            final(self).hover() == old(self).hover(),
            final(self).wall_anchor() == old(self).wall_anchor(),
            final(self).tooltips() == old(self).tooltips(),
            final(self).settings() == old(self).settings(),
            final(self).population() == old(self).population(),
    {
        proof {
            use_type_invariant(&*self);
        }
        self.cycle_rows = cycle_rows;
        self.simulation_results_stale = false;
    }

    /// Drops the cycle results after the layout changed.
    pub fn mark_simulation_results_stale(&mut self)
        ensures
            final(self).rows() == Seq::<WorkshopCycle>::empty(),
            final(self).stale(),
            final(self).sim() == old(self).sim(),
            final(self).tool() == old(self).tool(),
            final(self).hover() == old(self).hover(),
            final(self).wall_anchor() == old(self).wall_anchor(),
            final(self).tooltips() == old(self).tooltips(),
            final(self).settings() == old(self).settings(),
            final(self).population() == old(self).population(),
    {
        proof {
            use_type_invariant(&*self);
        }
        self.cycle_rows = Vec::new();
        self.simulation_results_stale = true;
    }

    pub fn simulation_results_stale(&self) -> (r: bool)
        ensures
            r == self.stale(),
    {
        self.simulation_results_stale
    }

    /// The last workshop cycle results.
    pub fn cycle_rows(&self) -> (r: &[WorkshopCycle])
        ensures
            r@ == self.rows(),
    {
        self.cycle_rows.as_slice()
    }

    /// The identifier of the selected tool.
    pub fn selected_id(&self) -> (r: Option<&'static str>)
        ensures
            match self.tool() {
                Some(t) => r matches Some(s) && s@ == tool_id_text(t),
                None => r is None,
            },
    {
        match self.selected {
            Some(SelectedTool::Building(building_type)) => Some(building_type.id()),
            Some(SelectedTool::Wall) => Some("wall"),
            Some(SelectedTool::Remove) => Some("remove"),
            Some(SelectedTool::SetWoodStock) => Some("set_wood_stock"),
            Some(SelectedTool::SetIronStock) => Some("set_iron_stock"),
            Some(SelectedTool::SetWheatStock) => Some("set_wheat_stock"),
            Some(SelectedTool::SetFlourStock) => Some("set_flour_stock"),
            None => None,
        }
    }

    /// Selects the tool named `value`; an unknown name keeps the current
    /// tool. A pending wall is dropped either way.
    pub fn set_selected_from_id(&mut self, value: &str) -> (r: bool)
        ensures
            final(self).wall_anchor() is None,
            final(self).same_model(&*old(self)),
            final(self).hover() == old(self).hover(),
            match tool_from_text(value@) {
                Some(t) => r && final(self).tool() == Some(t),
                None => !r && final(self).tool() == old(self).tool(),
            },
    {
        proof {
            use_type_invariant(&*self);
        }
        self.wall_start = None;
        if same_text(value, "wall") {
            self.selected = Some(SelectedTool::Wall);
            return true;
        }
        if same_text(value, "remove") {
            self.selected = Some(SelectedTool::Remove);
            return true;
        }
        if same_text(value, "set_wood_stock") {
            self.selected = Some(SelectedTool::SetWoodStock);
            return true;
        }
        if same_text(value, "set_iron_stock") {
            self.selected = Some(SelectedTool::SetIronStock);
            return true;
        }
        if same_text(value, "set_wheat_stock") {
            self.selected = Some(SelectedTool::SetWheatStock);
            return true;
        }
        if same_text(value, "set_flour_stock") {
            self.selected = Some(SelectedTool::SetFlourStock);
            return true;
        }
        if let Some(building) = BuildingType::from_id(value) {
            self.selected = Some(SelectedTool::Building(building));
            return true;
        }
        false
    }

    /// The label shown for the selected tool.
    pub fn selected_label(&self) -> (r: &'static str)
        ensures
            r@ == tool_label_text(self.tool()),
    {
        match self.selected {
            Some(SelectedTool::Building(building_type)) => building_type.display_name(),
            Some(SelectedTool::Wall) => "Wall",
            Some(SelectedTool::Remove) => "Remove",
            Some(SelectedTool::SetWoodStock) => "Set Wood Stock",
            Some(SelectedTool::SetIronStock) => "Set Iron Stock",
            Some(SelectedTool::SetWheatStock) => "Set Wheat Stock",
            Some(SelectedTool::SetFlourStock) => "Set Flour Stock",
            None => "None",
        }
    }

    /// Deselects the tool and drops a pending wall.
    pub fn clear_selection(&mut self)
        ensures
            final(self).tool() is None,
            final(self).wall_anchor() is None,
            final(self).hover() == old(self).hover(),
            final(self).same_model(&*old(self)),
    {
        proof {
            use_type_invariant(&*self);
        }
        self.selected = None;
        self.wall_start = None;
    }

    /// Drops a pending wall.
    pub fn clear_pending_wall(&mut self)
        ensures
            final(self).wall_anchor() is None,
            final(self).same_but_wall(&*old(self)),
    {
        proof {
            use_type_invariant(&*self);
        }
        self.wall_start = None;
    }

    /// Records the cell under the pointer, or none when it is off the
    /// canvas.
    pub fn set_hover_cell(&mut self, x: i32, y: i32)
        ensures
            final(self).hover() == (if old(self).sim().bounds_spec().has(x as int, y as int) {
                Some((x, y))
            } else {
                None::<(i32, i32)>
            }),
            final(self).tool() == old(self).tool(),
            final(self).wall_anchor() == old(self).wall_anchor(),
            final(self).same_model(&*old(self)),
    {
        proof {
            use_type_invariant(&*self);
        }
        if !self.simulator.map_bounds().contains(x, y) {
            self.hover_cell = None;
            return;
        }
        self.hover_cell = Some((x, y));
    }

    /// The cell under the pointer.
    pub fn hover_cell(&self) -> (r: Option<(i32, i32)>)
        ensures
            r == self.hover(),
    {
        self.hover_cell
    }

    /// The building under the pointer: the first one that reserves the
    /// cell.
    pub fn hovered_building(&self) -> (r: Option<&BuildingPlacement>)
        ensures
            match self.hover() {
                None => r is None,
                Some((x, y)) => match r {
                    Some(b) => exists|i: int|
                        0 <= i < self.sim().buildings_view().len() && #[trigger] self.sim().buildings_view()[i] == b@
                            && b@.covers(x, y) && forall|t: int|
                            0 <= t < i ==> !(#[trigger] self.sim().buildings_view()[t]).covers(x, y),
                    None => forall|t: int|
                        0 <= t < self.sim().buildings_view().len() ==> !(#[trigger] self.sim().buildings_view()[t]).covers(
                            x,
                            y,
                        ),
                },
            },
    {
        proof {
            use_type_invariant(self);
        }
        match self.hover_cell {
            Some((x, y)) => {
                let r = self.simulator.building_covering(x, y);
                proof {
                    if let Some(b) = r {
                        let bs = self.simulator.buildings_view();
                        let i = choose|i: int|
                            0 <= i < bs.len() && #[trigger] bs[i] == b@ && b@.covers(x, y) && forall|t: int|
                                0 <= t < i ==> !(#[trigger] bs[t]).covers(x, y);
                        assert(self.sim().buildings_view()[i] == b@);
                    }
                }
                r
            },
            None => None,
        }
    }

    /// Applies the selected tool to cell `(x, y)`: a building, removal or
    /// stockpile tool asks the simulation to act; the wall tool takes two
    /// clicks, the first marking the start cell and the second, in the same
    /// row or column, asking for the wall.
    pub fn place_selected(&mut self, x: i32, y: i32) -> (r: Result<PlacementOutcome, String>)
        ensures
            final(self).same_model(&*old(self)),
            final(self).tool() == old(self).tool(),
            final(self).hover() == old(self).hover(),
            !old(self).sim().bounds_spec().has(x as int, y as int) ==> {
                &&& r matches Err(m) && m@ == "cell is outside map"@
                &&& final(self).wall_anchor() == old(self).wall_anchor()
            },
            old(self).sim().bounds_spec().has(x as int, y as int) ==> match old(self).tool() {
                None => r matches Err(m) && m@ == "no tool selected"@ && final(self).wall_anchor() == old(self).wall_anchor(),
                Some(SelectedTool::Building(t)) => r matches Ok(PlacementOutcome::BackendCommand(c)) && c
                    == (BackendCommand::PlaceBuilding { building_type: t, x, y }) && final(self).wall_anchor() == old(self).wall_anchor(),
                Some(SelectedTool::Remove) => r matches Ok(PlacementOutcome::BackendCommand(c)) && c
                    == (BackendCommand::RemoveAt { x, y }) && final(self).wall_anchor() == old(self).wall_anchor(),
                Some(SelectedTool::Wall) => match old(self).wall_anchor() {
                    None => r matches Ok(PlacementOutcome::Status(m)) && m@ == wall_start_text(x, y) && final(self).wall_anchor() == Some((x, y)),
                    Some((sx, sy)) => if sx != x && sy != y {
                        &&& r matches Err(m) && m@ == "wall end cell must be horizontal or vertical from start"@
                        &&& final(self).wall_anchor() == old(self).wall_anchor()
                    } else {
                        &&& r matches Ok(PlacementOutcome::BackendCommand(c)) && c == (BackendCommand::PlaceWall {
                            start: (sx, sy),
                            end: (x, y),
                        })
                        &&& final(self).wall_anchor() is None
                    },
                },
                Some(tool) => r matches Ok(PlacementOutcome::BackendCommand(c)) && c
                    == (BackendCommand::SetStockpileResource { x, y, resource: tool_resource(tool)->0 }) && final(self).wall_anchor() is None,
            },
    {
        proof {
            use_type_invariant(&*self);
        }
        if !self.simulator.map_bounds().contains(x, y) {
            return Err("cell is outside map".to_owned());
        }
        match self.selected {
            Some(SelectedTool::Building(building_type)) => Ok(
                PlacementOutcome::BackendCommand(BackendCommand::PlaceBuilding { building_type, x, y }),
            ),
            Some(SelectedTool::Wall) => self.place_wall_click(x, y),
            Some(SelectedTool::Remove) => Ok(PlacementOutcome::BackendCommand(BackendCommand::RemoveAt { x, y })),
            Some(SelectedTool::SetWoodStock) => self.mark_stockpile(x, y, StockpileResource::Wood),
            Some(SelectedTool::SetIronStock) => self.mark_stockpile(x, y, StockpileResource::Iron),
            Some(SelectedTool::SetWheatStock) => self.mark_stockpile(x, y, StockpileResource::Wheat),
            Some(SelectedTool::SetFlourStock) => self.mark_stockpile(x, y, StockpileResource::Flour),
            None => Err("no tool selected".to_owned()),
        }
    }

    fn place_wall_click(&mut self, x: i32, y: i32) -> (r: Result<PlacementOutcome, String>)
        ensures
            final(self).same_but_wall(&*old(self)),
            match old(self).wall_anchor() {
                None => r matches Ok(PlacementOutcome::Status(m)) && m@ == wall_start_text(x, y) && final(self).wall_anchor() == Some((x, y)),
                Some((sx, sy)) => if sx != x && sy != y {
                    &&& r matches Err(m) && m@ == "wall end cell must be horizontal or vertical from start"@
                    &&& final(self).wall_anchor() == old(self).wall_anchor()
                } else {
                    &&& r matches Ok(PlacementOutcome::BackendCommand(c)) && c == (BackendCommand::PlaceWall {
                        start: (sx, sy),
                        end: (x, y),
                    })
                    &&& final(self).wall_anchor() is None
                },
            },
    {
        proof {
            use_type_invariant(&*self);
        }
        match self.wall_start {
            None => {
                self.wall_start = Some((x, y));
                Ok(PlacementOutcome::Status(wall_start_status(x, y)))
            },
            Some((sx, sy)) => {
                if sx != x && sy != y {
                    return Err("wall end cell must be horizontal or vertical from start".to_owned());
                }
                self.wall_start = None;
                Ok(PlacementOutcome::BackendCommand(BackendCommand::PlaceWall { start: (sx, sy), end: (x, y) }))
            },
        }
    }

    fn mark_stockpile(&mut self, x: i32, y: i32, resource: StockpileResource) -> (r: Result<PlacementOutcome, String>)
        ensures
            final(self).same_but_wall(&*old(self)),
            final(self).wall_anchor() is None,
            r matches Ok(PlacementOutcome::BackendCommand(c)) && c == (BackendCommand::SetStockpileResource {
                x,
                y,
                resource,
            }),
    {
        proof {
            use_type_invariant(&*self);
        }
        self.wall_start = None;
        Ok(PlacementOutcome::BackendCommand(BackendCommand::SetStockpileResource { x, y, resource }))
    }

    /// The cells the selected tool would affect at the pointer: a
    /// building's cells on the canvas, a wall's cells from its pending start
    /// (none when not in line), or the pointer cell itself.
    pub fn preview_cells(&self) -> (r: Vec<(i32, i32)>)
        ensures
            match self.hover() {
                None => r@ == Seq::<(i32, i32)>::empty(),
                Some((ax, ay)) => match self.tool() {
                    None => r@ == Seq::<(i32, i32)>::empty(),
                    Some(SelectedTool::Building(t)) => r@ == cells_on_canvas(
                        ax,
                        ay,
                        type_footprint(t).occupied_offsets_spec(),
                        self.sim().bounds_spec(),
                    ),
                    Some(SelectedTool::Wall) => match self.wall_anchor() {
                        Some((sx, sy)) => r@ == (if sx == ax || sy == ay {
                            line_cells_spec(sx, sy, ax, ay)
                        } else {
                            Seq::<(i32, i32)>::empty()
                        }),
                        None => r@ == seq![(ax, ay)],
                    },
                    Some(_) => r@ == seq![(ax, ay)],
                },
            },
    {
        let (anchor_x, anchor_y) = match self.hover_cell {
            Some(c) => c,
            None => return Vec::new(),
        };
        match self.selected {
            Some(SelectedTool::Building(selected)) => {
                let bounds = self.simulator.map_bounds();
                let footprint = Footprint::for_type(selected);
                proof {
                    crate::buildings::lemma_type_footprint_wf(selected);
                    crate::buildings::lemma_flagged_offsets_bounded(
                        footprint@.occupied,
                        footprint@.width,
                        footprint@.height,
                    );
                }
                let offsets = footprint.occupied_offsets();
                let ghost offs = offsets@;
                assert(footprint@.width <= 9 && footprint@.height <= 9);
                let mut cells: Vec<(i32, i32)> = Vec::new();
                let mut k: usize = 0;
                while k < offsets.len()
                    invariant
                        offs == offsets@,
                        k <= offs.len(),
                        forall|j: int| 0 <= j < offs.len() ==> (#[trigger] offs[j]).0 < 9 && offs[j].1 < 9,
                        cells@ == cells_on_canvas(anchor_x, anchor_y, offs.subrange(0, k as int), bounds),
                    decreases offs.len() - k,
                {
                    assert(offs.subrange(0, k + 1).drop_last() =~= offs.subrange(0, k as int));
                    let (dx, dy) = offsets[k];
                    let x: i64 = anchor_x as i64 + dx as i64;
                    let y: i64 = anchor_y as i64 + dy as i64;
                    if x >= bounds.min_x as i64 && x < bounds.max_x as i64 && y >= bounds.min_y as i64 && y
                        < bounds.max_y as i64 {
                        cells.push((x as i32, y as i32));
                    }
                    k = k + 1;
                }
                assert(offs.subrange(0, k as int) =~= offs);
                cells
            },
            Some(SelectedTool::Wall) => {
                if let Some((sx, sy)) = self.wall_start {
                    if sx == anchor_x || sy == anchor_y {
                        return line_cells(sx, sy, anchor_x, anchor_y);
                    }
                    return Vec::new();
                }
                vec![(anchor_x, anchor_y)]
            },
            Some(_) => vec![(anchor_x, anchor_y)],
            None => Vec::new(),
        }
    }

    /// Whether building tooltips report simulation results.
    pub fn simulation_tooltips_enabled(&self) -> (r: bool)
        ensures
            r == self.tooltips(),
    {
        self.simulation_tooltips_enabled
    }

    /// Turns the simulation tooltips on or off; tells whether that changed
    /// anything.
    pub fn set_simulation_tooltips_enabled(&mut self, enabled: bool) -> (r: bool)
        ensures
            r == (old(self).tooltips() != enabled),
            final(self).tooltips() == enabled,
            final(self).sim() == old(self).sim(),
            final(self).tool() == old(self).tool(),
            final(self).hover() == old(self).hover(),
            final(self).wall_anchor() == old(self).wall_anchor(),
            final(self).settings() == old(self).settings(),
            final(self).population() == old(self).population(),
            final(self).rows() == old(self).rows(),
            final(self).stale() == old(self).stale(),
    {
        proof {
            use_type_invariant(&*self);
        }
        if self.simulation_tooltips_enabled == enabled {
            return false;
        }
        self.simulation_tooltips_enabled = enabled;
        true
    }

    pub fn simulation_settings(&self) -> (r: SimulationSettings)
        ensures
            r == self.settings(),
    {
        self.simulation_settings
    }

    /// Replaces the calculator settings; the cycle results and a pending
    /// wall are dropped.
    pub fn set_simulation_settings(&mut self, settings: SimulationSettings)
        ensures
            final(self).settings() == settings,
            final(self).rows() == Seq::<WorkshopCycle>::empty(),
            final(self).wall_anchor() is None,
            final(self).sim() == old(self).sim(),
            final(self).tool() == old(self).tool(),
            final(self).hover() == old(self).hover(),
            final(self).tooltips() == old(self).tooltips(),
            final(self).population() == old(self).population(),
            final(self).stale() == old(self).stale(),
    {
        proof {
            use_type_invariant(&*self);
        }
        self.simulation_settings = settings;
        self.cycle_rows = Vec::new();
        self.wall_start = None;
    }

    pub fn game_speed(&self) -> (r: u32)
        ensures
            r == self.settings().game_speed_ticks_per_second,
    {
        self.simulation_settings.game_speed_ticks_per_second
    }

    pub fn fear_factor(&self) -> (r: i32)
        ensures
            r == self.settings().fear_factor,
    {
        self.simulation_settings.fear_factor
    }

    pub fn buy_wood(&self) -> (r: bool)
        ensures
            r == self.settings().buy_wood,
    {
        self.simulation_settings.buy_wood
    }

    pub fn buy_iron(&self) -> (r: bool)
        ensures
            r == self.settings().buy_iron,
    {
        self.simulation_settings.buy_iron
    }

    pub fn buy_wheat(&self) -> (r: bool)
        ensures
            r == self.settings().buy_wheat,
    {
        self.simulation_settings.buy_wheat
    }

    pub fn buy_flour(&self) -> (r: bool)
        ensures
            r == self.settings().buy_flour,
    {
        self.simulation_settings.buy_flour
    }

    pub fn optimized_fletcher_routing(&self) -> (r: bool)
        ensures
            r == self.settings().optimized_fletcher_routing,
    {
        self.simulation_settings.optimized_fletcher_routing
    }

    /// Sets the game speed from a whole number of ticks per second: the
    /// nearest multiple of five, limited to 20..=90; tells whether it
    /// changed.
    pub fn set_game_speed(&mut self, value: i32) -> (r: bool)
        ensures
            final(self).settings() == (SimulationSettings {
                game_speed_ticks_per_second: snapped_game_speed(value as int) as u32,
                ..old(self).settings()
            }),
            r == (old(self).settings().game_speed_ticks_per_second != snapped_game_speed(value as int)),
            final(self).same_but_settings(&*old(self)),
    {
        proof {
            use_type_invariant(&*self);
        }
        let speed: u32 = if value < 18 {
            20
        } else if value > 92 {
            90
        } else {
            let multiple: i32 = (value + 2) / 5 * 5;
            if multiple < 20 {
                20
            } else if multiple > 90 {
                90
            } else {
                multiple as u32
            }
        };
        if self.simulation_settings.game_speed_ticks_per_second == speed {
            return false;
        }
        self.simulation_settings.game_speed_ticks_per_second = speed;
        true
    }

    /// Sets the fear factor, limited to -5..=0; tells whether it changed.
    pub fn set_fear_factor(&mut self, value: i32) -> (r: bool)
        ensures
            final(self).settings() == (SimulationSettings {
                fear_factor: clamp_fear(value as int) as i32,
                ..old(self).settings()
            }),
            r == (old(self).settings().fear_factor != clamp_fear(value as int)),
            final(self).same_but_settings(&*old(self)),
    {
        proof {
            use_type_invariant(&*self);
        }
        let snapped = clamped_fear_factor(value);
        if self.simulation_settings.fear_factor == snapped {
            return false;
        }
        self.simulation_settings.fear_factor = snapped;
        true
    }

    /// Allows or forbids buying wood; tells whether that changed.
    pub fn set_buy_wood(&mut self, enabled: bool) -> (r: bool)
        ensures
            final(self).settings() == (SimulationSettings { buy_wood: enabled, ..old(self).settings() }),
            r == (old(self).settings().buy_wood != enabled),
            final(self).same_but_settings(&*old(self)),
    {
        proof {
            use_type_invariant(&*self);
        }
        if self.simulation_settings.buy_wood == enabled {
            return false;
        }
        self.simulation_settings.buy_wood = enabled;
        true
    }

    /// Allows or forbids buying iron; tells whether that changed.
    pub fn set_buy_iron(&mut self, enabled: bool) -> (r: bool)
        ensures
            final(self).settings() == (SimulationSettings { buy_iron: enabled, ..old(self).settings() }),
            r == (old(self).settings().buy_iron != enabled),
            final(self).same_but_settings(&*old(self)),
    {
        proof {
            use_type_invariant(&*self);
        }
        if self.simulation_settings.buy_iron == enabled {
            return false;
        }
        self.simulation_settings.buy_iron = enabled;
        true
    }

    /// Allows or forbids buying wheat; tells whether that changed.
    pub fn set_buy_wheat(&mut self, enabled: bool) -> (r: bool)
        ensures
            final(self).settings() == (SimulationSettings { buy_wheat: enabled, ..old(self).settings() }),
            r == (old(self).settings().buy_wheat != enabled),
            final(self).same_but_settings(&*old(self)),
    {
        proof {
            use_type_invariant(&*self);
        }
        if self.simulation_settings.buy_wheat == enabled {
            return false;
        }
        self.simulation_settings.buy_wheat = enabled;
        true
    }

    /// Allows or forbids buying flour; tells whether that changed.
    pub fn set_buy_flour(&mut self, enabled: bool) -> (r: bool)
        ensures
            final(self).settings() == (SimulationSettings { buy_flour: enabled, ..old(self).settings() }),
            r == (old(self).settings().buy_flour != enabled),
            final(self).same_but_settings(&*old(self)),
    {
        proof {
            use_type_invariant(&*self);
        }
        if self.simulation_settings.buy_flour == enabled {
            return false;
        }
        self.simulation_settings.buy_flour = enabled;
        true
    }

    /// Turns optimized fletcher routing on or off; tells whether that
    /// changed.
    pub fn set_optimized_fletcher_routing(&mut self, enabled: bool) -> (r: bool)
        ensures
            final(self).settings() == (SimulationSettings {
                optimized_fletcher_routing: enabled,
                ..old(self).settings()
            }),
            r == (old(self).settings().optimized_fletcher_routing != enabled),
            final(self).same_but_settings(&*old(self)),
    {
        proof {
            use_type_invariant(&*self);
        }
        if self.simulation_settings.optimized_fletcher_routing == enabled {
            return false;
        }
        self.simulation_settings.optimized_fletcher_routing = enabled;
        true
    }

    pub fn fletchers_weapon(&self) -> (r: WeaponType)
        ensures
            r == self.settings().fletchers_weapon,
    {
        self.simulation_settings.fletchers_weapon
    }

    pub fn poleturners_weapon(&self) -> (r: WeaponType)
        ensures
            r == self.settings().poleturners_weapon,
    {
        self.simulation_settings.poleturners_weapon
    }

    pub fn blacksmiths_weapon(&self) -> (r: WeaponType)
        ensures
            r == self.settings().blacksmiths_weapon,
    {
        self.simulation_settings.blacksmiths_weapon
    }

    /// Switches the fletcher between bows and crossbows.
    pub fn toggle_fletchers_weapon(&mut self) -> (r: WeaponType)
        ensures
            r == (if old(self).settings().fletchers_weapon == WeaponType::Bow {
                WeaponType::Crossbow
            } else {
                WeaponType::Bow
            }),
            final(self).settings() == (SimulationSettings { fletchers_weapon: r, ..old(self).settings() }),
            final(self).same_but_settings(&*old(self)),
    {
        proof {
            use_type_invariant(&*self);
        }
        self.simulation_settings.fletchers_weapon = match self.simulation_settings.fletchers_weapon {
            WeaponType::Bow => WeaponType::Crossbow,
            _ => WeaponType::Bow,
        };
        self.simulation_settings.fletchers_weapon
    }

    /// Switches the poleturner between spears and pikes.
    pub fn toggle_poleturners_weapon(&mut self) -> (r: WeaponType)
        ensures
            r == (if old(self).settings().poleturners_weapon == WeaponType::Spear {
                WeaponType::Pike
            } else {
                WeaponType::Spear
            }),
            final(self).settings() == (SimulationSettings { poleturners_weapon: r, ..old(self).settings() }),
            final(self).same_but_settings(&*old(self)),
    {
        proof {
            use_type_invariant(&*self);
        }
        self.simulation_settings.poleturners_weapon = match self.simulation_settings.poleturners_weapon {
            WeaponType::Spear => WeaponType::Pike,
            _ => WeaponType::Spear,
        };
        self.simulation_settings.poleturners_weapon
    }

    /// Switches the blacksmith between swords and maces.
    pub fn toggle_blacksmiths_weapon(&mut self) -> (r: WeaponType)
        ensures
            r == (if old(self).settings().blacksmiths_weapon == WeaponType::Sword {
                WeaponType::Mace
            } else {
                WeaponType::Sword
            }),
            final(self).settings() == (SimulationSettings { blacksmiths_weapon: r, ..old(self).settings() }),
            final(self).same_but_settings(&*old(self)),
    {
        proof {
            use_type_invariant(&*self);
        }
        self.simulation_settings.blacksmiths_weapon = match self.simulation_settings.blacksmiths_weapon {
            WeaponType::Sword => WeaponType::Mace,
            _ => WeaponType::Sword,
        };
        self.simulation_settings.blacksmiths_weapon
    }

    pub fn population_economy_settings(&self) -> (r: PopulationEconomySettings)
        ensures
            r == self.population(),
    {
        self.population_economy_settings
    }

    /// Replaces the population calculator inputs, limited to its tables.
    pub fn set_population_economy_settings(&mut self, settings: PopulationEconomySettings)
        ensures
            final(self).population() == settings.normalized_spec(),
            final(self).same_but_population(&*old(self)),
    {
        proof {
            use_type_invariant(&*self);
        }
        self.population_economy_settings = settings.normalized();
    }

    /// Sets the population limit; the inputs are limited again.
    pub fn set_max_population(&mut self, value: u32)
        ensures
            final(self).population() == (PopulationEconomySettings {
                max_population: value,
                ..old(self).population()
            }).normalized_spec(),
            final(self).same_but_population(&*old(self)),
    {
        proof {
            use_type_invariant(&*self);
        }
        let mut s = self.population_economy_settings;
        s.max_population = value;
        self.population_economy_settings = s.normalized();
    }

    /// Sets the population; the inputs are limited again.
    pub fn set_population(&mut self, value: u32)
        ensures
            final(self).population() == (PopulationEconomySettings {
                population: value,
                ..old(self).population()
            }).normalized_spec(),
            final(self).same_but_population(&*old(self)),
    {
        proof {
            use_type_invariant(&*self);
        }
        let mut s = self.population_economy_settings;
        s.population = value;
        self.population_economy_settings = s.normalized();
    }

    /// Sets the number of inns; the inputs are limited again.
    pub fn set_inn_count(&mut self, value: u32)
        ensures
            final(self).population() == (PopulationEconomySettings {
                inn_count: value,
                ..old(self).population()
            }).normalized_spec(),
            final(self).same_but_population(&*old(self)),
    {
        proof {
            use_type_invariant(&*self);
        }
        let mut s = self.population_economy_settings;
        s.inn_count = value;
        self.population_economy_settings = s.normalized();
    }

    /// Sets the number of stone quarries; the inputs are limited again.
    pub fn set_stone_quarry_count(&mut self, value: u32)
        ensures
            final(self).population() == (PopulationEconomySettings {
                stone_quarry_count: value,
                ..old(self).population()
            }).normalized_spec(),
            final(self).same_but_population(&*old(self)),
    {
        proof {
            use_type_invariant(&*self);
        }
        let mut s = self.population_economy_settings;
        s.stone_quarry_count = value;
        self.population_economy_settings = s.normalized();
    }

    /// Sets the number of iron mines; the inputs are limited again.
    pub fn set_iron_mine_count(&mut self, value: u32)
        ensures
            final(self).population() == (PopulationEconomySettings {
                iron_mine_count: value,
                ..old(self).population()
            }).normalized_spec(),
            final(self).same_but_population(&*old(self)),
    {
        proof {
            use_type_invariant(&*self);
        }
        let mut s = self.population_economy_settings;
        s.iron_mine_count = value;
        self.population_economy_settings = s.normalized();
    }

    /// Selects a tax level; the inputs are limited again.
    pub fn set_tax_index(&mut self, value: u8)
        ensures
            final(self).population() == (PopulationEconomySettings {
                tax_index: value,
                ..old(self).population()
            }).normalized_spec(),
            final(self).same_but_population(&*old(self)),
    {
        proof {
            use_type_invariant(&*self);
        }
        let mut s = self.population_economy_settings;
        s.tax_index = value;
        self.population_economy_settings = s.normalized();
    }

    /// Selects a food ration; the inputs are limited again.
    pub fn set_food_ratio_index(&mut self, value: u8)
        ensures
            final(self).population() == (PopulationEconomySettings {
                food_ratio_index: value,
                ..old(self).population()
            }).normalized_spec(),
            final(self).same_but_population(&*old(self)),
    {
        proof {
            use_type_invariant(&*self);
        }
        let mut s = self.population_economy_settings;
        s.food_ratio_index = value;
        self.population_economy_settings = s.normalized();
    }
}

} // verus!
