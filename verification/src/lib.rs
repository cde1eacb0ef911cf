//! Layout planning and economy calculations for Stronghold Crusader
//! production chains: building placement on a signed grid, walls,
//! entry points, shortest worker routes, workshop production cycles and
//! the bread chain.

use vstd::prelude::*;

pub mod buildings;
pub mod editor;
pub mod history;
pub mod map;
pub mod outline;
pub mod project;
pub mod session;
pub mod simulation;
pub mod text;
pub mod walls;

pub use buildings::{
    BuildingComponent, BuildingComponentType, BuildingCost, BuildingPlacement, BuildingType, EntryPoint, Footprint,
    StockpileResource, WORKSHOP_SLOWDOWN_BASE,
};
pub use history::MapHistory;
pub use map::{CellMap, MapBounds, MapError};
pub use project::{PROJECT_FORMAT_VERSION, ProjectFile, SavedBuilding};
pub use session::ProjectSession;
pub use simulation::{
    BAKERY_WORK_TICKS, BreadIssue, BreadRoutes, BuildingDistance, DistanceKey, DistanceTable, GameTime, IRON_BUY_GOLD,
    MILL_PROCESS_TICKS, MILL_WORKER_COUNT, PopulationEconomySettings, ProductionCycle, ProductionCycleError,
    ProductionRouteUsage, RemoveOutcome, SimulationSettings, Simulator, SimulatorError, WHEAT_FARM_WALKS_PER_CYCLE,
    WHEAT_FARM_WORK_TICKS, WOOD_BUY_GOLD, WeaponRecipe, WeaponType, clamped_fear_factor, farm_travel_ticks,
    workshop_fear_output_ring,
};
pub use walls::WallSegment;

verus! {

/// Side of the square canvas a new layout starts with.
pub const DEFAULT_MAP_SIZE: usize = 100;

} // verus!
