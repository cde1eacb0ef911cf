mod components;
mod factory;
mod footprint;
mod placement;
mod types;

pub use components::{BuildingComponent, BuildingComponentType, EntryPoint, StockpileResource};
pub use footprint::{
    Footprint, FootprintView, flagged_offsets, lemma_flag_offset_in, lemma_type_corners, goods_yard_stack_cell, lemma_flagged_offsets_bounded,
    lemma_flagged_offsets_subset, lemma_type_footprint_wf, shape_blocks, shape_occupies, shape_size,
    type_footprint,
};
pub use placement::{BuildingPlacement, PlacementView, lemma_blocking_within_occupied, shifted_cells, views};
pub use types::{BuildingCost, BuildingType, WORKSHOP_SLOWDOWN_BASE, lemma_building_id_round_trip};
pub use factory::{BuildingFactory, create_step, created, fresh_placement, lemma_create_run, stack_offset};
