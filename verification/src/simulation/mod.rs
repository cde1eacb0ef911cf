mod entry_logic;
mod game_time;
mod layout;
mod pathfinding;

pub use entry_logic::{
    lemma_first_available_ok,
    bottom_gate_offset, building_entry, calculate_building_entry, cell_available, corners_spec,
    covers_above, covers_right_of, entry_candidates, first_available, first_available_from,
    first_available_spec, gate_offset, is_wall_at, resolve_entry_point_for_square, ring_cell,
    ring_spec, rotated, rotates_with_walls, square_entry, square_fits, wall_on_column, wall_on_row,
    wall_rotation, workshop_wall_rotation_steps,
};
pub use pathfinding::{
    cell_of, direction, dist_at, distance_record_ok, distances_bounded, distances_fresh, entry_cell, has_id, has_walk, ids_distinct,
    is_shortest, is_walk, king_step, neighbor, pair_key, passable, recompute_building_distances, recorded_from_pair,
    route_spec_holds, search_inv, shortest_path_len, visited, walk_between, walk_step,
};
mod population_economy;
mod production_cycle;
mod setup;
mod simulator;

pub use production_cycle::{
    ProductionCycle, cycle_routes, distance_cells, distance_sum, find_building, find_stockpile_for_resource,
    first_building, first_stockpile, is_route, merge_usage, merged_route, new_route, phase_result, production_routes,
    push_leg, ticks_sum, trips_sum, usage_ok,
    IRON_BUY_GOLD, MAX_FEAR_FACTOR, MIN_FEAR_FACTOR, ProductionCycleError, ProductionRouteUsage,
    SimulationSettings, TICKS_PER_CELL_FACTOR, WOOD_BUY_GOLD, WORKSHOP_FEAR_RING_LEN, WeaponRecipe,
    WeaponType, clamp_fear, clamped_fear_factor, fear_ring_spec, lemma_recipe_shape, ring_total,
    travel_ticks_for_distance, travel_ticks_spec, workshop_fear_output_ring,
};
mod bread;
mod commands;
mod distance;

pub use distance::{
    BuildingDistance, DistanceKey, DistanceTable, lemma_lookup_first, lemma_lookup_found, lemma_lookup_push,
    lemma_lookup_update, lookup_in,
};
mod worker_distance;
mod workshop_cycles;

pub use worker_distance::{build_worker_distances, worker_fresh, worker_pair, worker_route, workshop_resource};
pub use game_time::GameTime;
pub use layout::{
    lemma_anchor_from_cells,
    lemma_filter_equiv, lemma_remove_wall,
    lemma_building_at_concat, lemma_layout_sublist, picks,
    lemma_layout_add_wall, lemma_wall_cells_in_box,
    additions_ok, bounds_within, lemma_layout_append, lemma_layout_grow,
    CANVAS_MARGIN, canvas_for, fits_i32, grow_bounds, grown_bounds, lemma_margin, margin_high, margin_low,
    anchor_in_range, building_at, building_blocks_at, cells_inside, lemma_building_at_push, lemma_cells_in_box,
    lemma_placement_ok_facts, lemma_wall_at_push, layout_ok, objects_disjoint, objects_inside, placement_ok, wall_at,
    wall_ids_distinct,
};
pub use simulator::{
    RemoveOutcome, Simulator, SimulatorError, assigned, building_load_error, designated, designated_all, entries_inside,
    entry_available, first_taken, ids_of, ids_taken, in_group, kept_without, lemma_buildings_load, lemma_max_attained,
    lemma_walls_load, listed, load_error, map_matches, max_saved_group, max_saved_id, max_wall_id, new_placements,
    placement_conflicts, refreshed, refreshed_all, refreshed_component, removed_with, same_shape, same_shapes, unlisted,
    wall_load_error,
};
pub use population_economy::{
    DEFAULT_MAX_POPULATION, FOOD_RATIO_COUNT, GAME_MONTH_TICKS, INN_BUILD_GOLD, INN_BUILD_WOOD, INN_CAPACITY, INN_WORKERS,
    IRON_MINE_BUILD_WOOD, IRON_MINE_WORKERS, MAX_CALCULATOR_COUNT, PopulationEconomySettings, STONE_QUARRY_BUILD_WOOD,
    STONE_WORKERS, TAX_LEVEL_COUNT, food_name_text, food_popularity_spec, inn_popularity_spec, min_u32, saturating_spec,
    tax_popularity_spec,
};
pub use bread::{
    BAKERY_TICKS_PER_CELL, BAKERY_WORK_TICKS, BreadIssue, BreadRoutes, FARM_EMPTY_TICKS_PER_CELL,
    FARM_LOADED_TICKS_PER_CELL, MILL_PROCESS_TICKS, MILL_TICKS_PER_CELL, MILL_WORKER_COUNT, WHEAT_FARM_WALKS_PER_CYCLE,
    WHEAT_FARM_WORK_TICKS, bakery_cycles, bakery_issues, bakery_round, best_bakery_round, bread_issues, bread_routes,
    count_of, farm_cycles, farm_issues, farm_travel_ticks, farm_travel_ticks_spec, mill_issues, mill_route, mill_travels,
    min_option, route_len,
};
pub use workshop_cycles::{
    WorkshopCycle, armoury_ids_of, choice_ok, cycle_rows_ok, cycle_over, cycle_ticks, first_failure, quickest, workshops_of,
};
pub use commands::{BackendCommand, BackendOutcome, command_in_range};
pub use setup::{
    SetupCost, capped_u64, gold_total, gold_with_bought_wood, type_count, wood_total, worker_total, workers_at,
};
pub use layout::lemma_canvas_keeps_margin;
pub use production_cycle::lemma_fear_ring_total;
pub use simulator::{
    lemma_designation_is_exclusive, lemma_goods_yard_removed_whole, lemma_routes_both_directions,
};
