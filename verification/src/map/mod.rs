mod bounds;
mod cell_map;
mod error;

pub use bounds::MapBounds;
pub use cell_map::{CellMap, MAX_CELL_COUNT, bounds_allocatable, conflict_result};
pub use error::MapError;
