use vstd::prelude::*;

use crate::buildings::{BuildingType, StockpileResource, shape_size};
use crate::walls::max_i32;

use super::production_cycle::SimulationSettings;
use super::simulator::{RemoveOutcome, Simulator, SimulatorError, ids_taken};
use super::workshop_cycles::{WorkshopCycle, cycle_rows_ok};

verus! {

/// A layout edit or calculation asked of the simulation.
#[derive(Debug, Clone, Copy, PartialEq, Eq)]
pub enum BackendCommand {
    PlaceBuilding { building_type: BuildingType, x: i32, y: i32 },
    PlaceWall { start: (i32, i32), end: (i32, i32) },
    RemoveAt { x: i32, y: i32 },
    RemoveAllWalls,
    SetStockpileResource { x: i32, y: i32, resource: StockpileResource },
    RunCycleSimulation { settings: SimulationSettings },
}

/// What a command did.
#[derive(Debug)]
pub enum BackendOutcome {
    Placed(Result<u32, SimulatorError>),
    WallPlaced(Result<u32, SimulatorError>),
    Removed(RemoveOutcome),
    WallsRemoved(usize),
    Marked(Result<u32, SimulatorError>),
    Cycles(Vec<WorkshopCycle>),
}

/// The command stays within the numeric range of the layout: a building's
/// or wall's far cells have `i32` coordinates with room for the canvas
/// margin test, and identifiers remain for what it adds.
pub open spec fn command_in_range(s: Simulator, command: BackendCommand) -> bool {
    match command {
        BackendCommand::PlaceBuilding { building_type, x, y } => {
            &&& x + shape_size(building_type) <= i32::MAX
            &&& y + shape_size(building_type) <= i32::MAX
            &&& s.next_building_id() + ids_taken(building_type) <= u32::MAX
            &&& (building_type == BuildingType::GoodsYard ==> s.next_group_id() < u32::MAX)
        },
        BackendCommand::PlaceWall { start, end } => {
            &&& max_i32(start.0, end.0) < i32::MAX
            &&& max_i32(start.1, end.1) < i32::MAX
            &&& s.next_wall_id() < u32::MAX
        },
        _ => true,
    }
}

fn side_of(t: BuildingType) -> (r: i64)
    ensures
        r == shape_size(t),
{
    match t {
        BuildingType::GoodsYard => 5,
        BuildingType::Stockpile => 2,
        BuildingType::Windmill => 3,
        BuildingType::WheatFarm => 9,
        _ => 4,
    }
}

impl Simulator {
    /// Whether `command` stays within the numeric range of this layout.
    pub fn accepts(&self, command: &BackendCommand) -> (r: bool)
        ensures
            r == command_in_range(*self, *command),
    {
        let (next_building, next_group, next_wall) = self.next_ids();
        match *command {
            BackendCommand::PlaceBuilding { building_type, x, y } => {
                let size = side_of(building_type);
                let goods_yard = building_type == BuildingType::GoodsYard;
                let ids: u64 = if goods_yard { 4 } else { 1 };
                x as i64 + size <= i32::MAX as i64 && y as i64 + size <= i32::MAX as i64 && next_building as u64 + ids
                    <= u32::MAX as u64 && (!goods_yard || next_group < u32::MAX)
            },
            BackendCommand::PlaceWall { start, end } => {
                let max_x = if start.0 <= end.0 { end.0 } else { start.0 };
                let max_y = if start.1 <= end.1 { end.1 } else { start.1 };
                max_x < i32::MAX && max_y < i32::MAX && next_wall < u32::MAX
            },
            _ => true,
        }
    }

    /// Carries out one command: an edit of the layout, or recomputing the
    /// routes and the quickest cycle of every workshop.
    pub fn apply_command(&mut self, command: BackendCommand) -> (r: BackendOutcome)
        requires
            old(self).wf(),
            command_in_range(*old(self), command),
        ensures
            final(self).wf(),
            !(command is RunCycleSimulation) ==> final(self).edited_from(&*old(self)),
            match command {
                BackendCommand::PlaceBuilding { building_type, x, y } => r matches BackendOutcome::Placed(res)
                    && final(self).building_placed(&*old(self), building_type, x, y, res),
                BackendCommand::PlaceWall { start, end } => r matches BackendOutcome::WallPlaced(res)
                    && final(self).wall_placed(&*old(self), start.0, start.1, end.0, end.1, res),
                BackendCommand::RemoveAt { x, y } => r matches BackendOutcome::Removed(o)
                    && final(self).removed_at(&*old(self), x, y, o),
                BackendCommand::RemoveAllWalls => r matches BackendOutcome::WallsRemoved(n)
                    && final(self).walls_cleared(&*old(self), n),
                BackendCommand::SetStockpileResource { x, y, resource } => r matches BackendOutcome::Marked(res)
                    && final(self).stockpile_designated(&*old(self), x, y, resource, res),
                BackendCommand::RunCycleSimulation { settings } => r matches BackendOutcome::Cycles(rows) && {
                    &&& final(self).routes_fresh()
                    &&& final(self).buildings_view() == old(self).buildings_view()
                    &&& final(self).same_canvas(&*old(self))
                    &&& cycle_rows_ok(*final(self), rows@, settings)
                },
            },
    {
        match command {
            BackendCommand::PlaceBuilding { building_type, x, y } => BackendOutcome::Placed(
                self.place_building(building_type, x, y),
            ),
            BackendCommand::PlaceWall { start, end } => BackendOutcome::WallPlaced(
                self.place_wall(start.0, start.1, end.0, end.1),
            ),
            BackendCommand::RemoveAt { x, y } => BackendOutcome::Removed(self.remove_at(x, y)),
            BackendCommand::RemoveAllWalls => BackendOutcome::WallsRemoved(self.remove_all_walls()),
            BackendCommand::SetStockpileResource { x, y, resource } => BackendOutcome::Marked(
                self.set_stockpile_resource_at(x, y, resource),
            ),
            BackendCommand::RunCycleSimulation { settings } => {
                self.calculate_worker_distances();
                BackendOutcome::Cycles(self.workshop_cycles(settings))
            },
        }
    }
}

} // verus!
