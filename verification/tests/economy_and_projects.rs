use simulator::simulation::{BreadIssue, PopulationEconomySettings};
use simulator::{
    BAKERY_WORK_TICKS, BuildingType, EntryPoint, MapBounds, MapError, PROJECT_FORMAT_VERSION, ProjectFile,
    SavedBuilding, SimulationSettings, Simulator, SimulatorError, StockpileResource, WHEAT_FARM_WORK_TICKS, WallSegment,
    farm_travel_ticks,
};

fn bread_layout(with_farm: bool) -> Simulator {
    let mut simulator = Simulator::new(60).expect("simulator should be created");
    if with_farm {
        simulator.place_building(BuildingType::WheatFarm, 2, 2).expect("wheat farm should be placed");
    }
    simulator.place_building(BuildingType::Windmill, 14, 3).expect("wind mill should be placed");
    simulator.place_building(BuildingType::GoodsYard, 20, 20).expect("goods yard should be placed");
    simulator.set_stockpile_resource_at(20, 20, StockpileResource::Wheat).expect("wheat stockpile should be assigned");
    simulator.set_stockpile_resource_at(23, 20, StockpileResource::Flour).expect("flour stockpile should be assigned");
    simulator.place_building(BuildingType::Bakery, 30, 10).expect("bakery should be placed");
    simulator.place_building(BuildingType::Granary, 40, 10).expect("granary should be placed");
    simulator
}

#[test]
fn complete_bread_chain_has_routes_for_every_stage() {
    let simulator = bread_layout(true);
    let farm = simulator
        .buildings()
        .iter()
        .find(|building| building.building_type == BuildingType::WheatFarm)
        .expect("wheat farm should exist");
    assert_eq!(farm.entry_point, Some(EntryPoint { x: 6, y: 5 }));

    let routes = simulator.bread_routes();
    assert!(routes.issues.is_empty(), "{:?}", routes.issues);
    assert_eq!((routes.farm_count, routes.mill_count, routes.bakery_count, routes.granary_count), (1, 1, 1, 1));
    assert_eq!(routes.farm_cycle_ticks.len(), 1);
    assert_eq!(routes.mill_travel_ticks.len(), 1);
    assert_eq!(routes.bakery_cycle_ticks.len(), 1);

    let (farm_id, farm_ticks) = routes.farm_cycle_ticks[0];
    assert_eq!(farm_id, farm.id);
    let wheat = simulator
        .buildings()
        .iter()
        .find(|b| b.stockpile_resource == Some(StockpileResource::Wheat))
        .expect("wheat stockpile should exist");
    let cells = simulator
        .distance_between(farm.id, wheat.id)
        .and_then(|d| d.distance_cells)
        .expect("farm route should be reachable");
    assert_eq!(farm_ticks, WHEAT_FARM_WORK_TICKS + farm_travel_ticks(cells));
    assert!(routes.bakery_cycle_ticks[0].1 > BAKERY_WORK_TICKS);
    assert_eq!(routes.mill_travel_ticks[0].1 % 16, 0);
}

#[test]
fn bread_chain_without_farms_still_routes_mills_and_bakeries() {
    let routes = bread_layout(false).bread_routes();
    assert!(routes.issues.is_empty());
    assert_eq!(routes.farm_count, 0);
    assert!(routes.farm_cycle_ticks.is_empty());
    assert_eq!(routes.mill_travel_ticks.len(), 1);
    assert_eq!(routes.bakery_cycle_ticks.len(), 1);
}

#[test]
fn missing_stockpiles_and_granary_are_reported() {
    let mut simulator = Simulator::new(40).expect("simulator should be created");
    simulator.place_building(BuildingType::WheatFarm, 2, 2).expect("wheat farm should be placed");
    simulator.place_building(BuildingType::Bakery, 20, 20).expect("bakery should be placed");
    let routes = simulator.bread_routes();
    assert_eq!(
        routes.issues,
        vec![BreadIssue::MissingWheatStockpile, BreadIssue::MissingFlourStockpile, BreadIssue::NoGranary]
    );
    assert!(routes.farm_cycle_ticks.is_empty());
    assert!(routes.bakery_cycle_ticks.is_empty());
}

#[test]
fn enclosed_bakery_is_reported_unreachable() {
    let mut simulator = bread_layout(false);
    let bakery_id = simulator.place_building(BuildingType::Bakery, 10, 40).expect("bakery should be placed");
    simulator.place_wall(8, 38, 15, 38).expect("wall should be placed");
    simulator.place_wall(8, 45, 15, 45).expect("wall should be placed");
    simulator.place_wall(8, 39, 8, 44).expect("wall should be placed");
    simulator.place_wall(15, 39, 15, 44).expect("wall should be placed");
    let routes = simulator.bread_routes();
    assert_eq!(routes.issues, vec![BreadIssue::BakeryUnreachable { bakery_id }]);
    assert_eq!(routes.bakery_count, 2);
    assert_eq!(routes.bakery_cycle_ticks.len(), 1);
}

#[test]
fn popularity_parts_combine_for_a_hundred_people() {
    let settings = PopulationEconomySettings {
        population: 100,
        inn_count: 4,
        tax_index: 6,
        food_ratio_index: 3,
        ..PopulationEconomySettings::default()
    };
    assert_eq!(settings.tax_popularity(), -6);
    assert_eq!(settings.food_popularity(), 4);
    assert_eq!(settings.inn_popularity(), 8);
    assert_eq!(settings.total_popularity(-2), 4);
    assert_eq!(settings.food_ratio_name(), "Extra rations");
}

#[test]
fn inn_popularity_follows_coverage_thresholds() {
    let one = PopulationEconomySettings { population: 32, inn_count: 1, ..PopulationEconomySettings::default() };
    assert_eq!(one.inn_popularity(), 6);
    let two = PopulationEconomySettings { population: 32, inn_count: 2, ..PopulationEconomySettings::default() };
    assert_eq!(two.inn_popularity(), 8);
    let half = PopulationEconomySettings { population: 100, inn_count: 2, ..PopulationEconomySettings::default() };
    assert_eq!(half.inn_popularity(), 4);
    let nobody = PopulationEconomySettings { population: 0, inn_count: 0, ..PopulationEconomySettings::default() };
    assert_eq!(nobody.inn_popularity(), 0);
}

#[test]
fn mines_and_inns_add_workers_and_build_costs() {
    let settings = PopulationEconomySettings {
        stone_quarry_count: 1,
        iron_mine_count: 1,
        inn_count: 2,
        ..PopulationEconomySettings::default()
    };
    assert_eq!(settings.additional_workers(), 8);
    assert_eq!(settings.additional_build_wood(), 85);
    assert_eq!(settings.additional_build_gold(), 200);
}

#[test]
fn settings_are_limited_to_the_tables() {
    let wild = PopulationEconomySettings {
        max_population: 0,
        population: 7,
        inn_count: 50_000,
        stone_quarry_count: 1,
        iron_mine_count: 1,
        tax_index: 40,
        food_ratio_index: 9,
    };
    let limited = wild.normalized();
    assert_eq!(limited.max_population, 1);
    assert_eq!(limited.population, 1);
    assert_eq!(limited.inn_count, 10_000);
    assert_eq!(limited.tax_index, 11);
    assert_eq!(limited.food_ratio_index, 4);
    assert_eq!(wild.tax_popularity(), -24);
    assert_eq!(wild.food_popularity(), 8);
}

#[test]
fn fear_ring_totals_grow_by_one_per_fear_step() {
    for (fear_factor, total) in [(3, 15), (0, 15), (-1, 16), (-3, 18), (-5, 20), (-12, 20)] {
        let settings = SimulationSettings { fear_factor, ..SimulationSettings::default() };
        assert_eq!(settings.fear_ring_output_total(), total);
    }
}

#[test]
fn saved_project_reloads_the_same_layout() {
    let mut simulator = Simulator::new(30).expect("simulator should be created");
    simulator.place_building(BuildingType::GoodsYard, 2, 2).expect("goods yard should be placed");
    simulator.set_stockpile_resource_at(2, 2, StockpileResource::Wood).expect("wood stockpile should be marked");
    simulator.place_building(BuildingType::FletchersWorkshop, 10, 2).expect("workshop should be placed");
    simulator.place_wall(2, 12, 6, 12).expect("wall should be placed");
    let settings = SimulationSettings { fear_factor: -3, ..SimulationSettings::default() };

    let project = ProjectFile::capture(&simulator, settings);
    assert_eq!(project.version, PROJECT_FORMAT_VERSION);
    assert_eq!(project.bounds, Some(simulator.map_bounds()));
    let (loaded, loaded_settings) = project.into_simulator().expect("saved project should load");

    assert_eq!(loaded_settings, settings);
    assert_eq!(loaded.map_bounds(), simulator.map_bounds());
    assert_eq!(loaded.walls(), simulator.walls());
    assert_eq!(loaded.buildings().len(), simulator.buildings().len());
    for (a, b) in loaded.buildings().iter().zip(simulator.buildings().iter()) {
        assert_eq!(SavedBuilding::from_placement(a), SavedBuilding::from_placement(b));
    }
    assert_eq!(loaded.distances().len(), simulator.distances().len());
}

fn project_with(version: u32, buildings: Vec<SavedBuilding>, walls: Vec<WallSegment>) -> ProjectFile {
    ProjectFile {
        version,
        map_size: 20,
        bounds: None,
        buildings,
        walls,
        simulation: SimulationSettings::default(),
        population_economy: PopulationEconomySettings::default(),
    }
}

fn armoury(id: u32, x: i32, y: i32) -> SavedBuilding {
    SavedBuilding {
        id,
        building_type: BuildingType::Armoury,
        x,
        y,
        goods_yard_group_id: None,
        stockpile_resource: None,
        entry_point: None,
    }
}

#[test]
fn version_one_projects_use_a_square_canvas() {
    let (loaded, _) =
        project_with(1, vec![armoury(7, 3, 3)], Vec::new()).into_simulator().expect("version 1 project should load");
    assert_eq!(loaded.map_bounds(), MapBounds { min_x: 0, min_y: 0, max_x: 20, max_y: 20 });
    assert_eq!(loaded.buildings()[0].id, 7);
}

#[test]
fn project_errors_name_what_is_wrong() {
    assert!(matches!(
        project_with(3, Vec::new(), Vec::new()).into_simulator(),
        Err(SimulatorError::UnsupportedProjectVersion { version: 3 })
    ));
    let mut empty = project_with(1, Vec::new(), Vec::new());
    empty.map_size = 0;
    assert!(matches!(empty.into_simulator(), Err(SimulatorError::InvalidMapSize)));
    assert!(matches!(
        project_with(2, vec![armoury(1, 1, 1), armoury(1, 10, 10)], Vec::new()).into_simulator(),
        Err(SimulatorError::InvalidProject("building IDs must be unique"))
    ));
    assert!(matches!(
        project_with(2, vec![armoury(1, 1, 1), armoury(2, 2, 2)], Vec::new()).into_simulator(),
        Err(SimulatorError::MapConflict(MapError::Occupied))
    ));
    assert!(matches!(
        project_with(2, vec![armoury(1, 18, 18)], Vec::new()).into_simulator(),
        Err(SimulatorError::MapConflict(MapError::OutOfBounds))
    ));
}

#[test]
fn new_simulator_needs_a_positive_size() {
    assert!(matches!(Simulator::new(0), Err(SimulatorError::InvalidMapSize)));
}

#[test]
fn time_advances_with_ticks() {
    let mut simulator = Simulator::new(10).expect("simulator should be created");
    simulator.tick(40);
    simulator.tick(2);
    assert_eq!(simulator.time().ticks(), 42);
}

#[test]
fn overlapping_placement_reports_occupied_cells() {
    let mut simulator = Simulator::new(20).expect("simulator should be created");
    simulator.place_building(BuildingType::Armoury, 5, 5).expect("first placement should succeed");
    assert_eq!(
        simulator.place_building(BuildingType::Granary, 7, 7),
        Err(SimulatorError::MapConflict(MapError::Occupied))
    );
    assert_eq!(simulator.place_wall(5, 4, 5, 6), Err(SimulatorError::MapConflict(MapError::Occupied)));
}

#[test]
fn setup_cost_and_workers_add_up_over_the_layout() {
    let simulator = bread_layout(true);
    let cost = simulator.setup_cost();
    assert_eq!((cost.wood, cost.gold), (15 + 20 + 10 + 5, 0));
    assert_eq!(simulator::simulation::gold_with_bought_wood(cost), 200);
    assert_eq!(simulator.placed_economy_workers(), 1 + 3 + 1);
    assert_eq!(simulator.count_of_type(BuildingType::Stockpile), 4);
    assert_eq!(simulator.count_of_type(BuildingType::Armoury), 0);

    let mut workshops = Simulator::new(40).expect("simulator should be created");
    workshops.place_building(BuildingType::BlacksmithsWorkshop, 2, 2).expect("workshop should be placed");
    workshops.place_building(BuildingType::Armoury, 10, 2).expect("armoury should be placed");
    let cost = workshops.setup_cost();
    assert_eq!((cost.wood, cost.gold), (25, 200));
    assert_eq!(simulator::simulation::gold_with_bought_wood(cost), 300);
}

#[test]
fn map_errors_become_layout_conflicts() {
    assert_eq!(SimulatorError::from(MapError::Occupied), SimulatorError::MapConflict(MapError::Occupied));
    assert_eq!(MapError::OutOfBounds.message(), "placement is out of map bounds");
}

#[test]
fn a_building_on_the_least_coordinate_lies_outside_the_canvas() {
    assert!(matches!(
        project_with(2, vec![armoury(1, i32::MIN, 3)], Vec::new()).into_simulator(),
        Err(SimulatorError::MapConflict(MapError::OutOfBounds))
    ));
    assert!(matches!(
        Simulator::from_saved_layout(
            MapBounds { min_x: 0, min_y: 0, max_x: 20, max_y: 20 },
            vec![armoury(1, 3, i32::MIN)],
            Vec::new()
        ),
        Err(SimulatorError::MapConflict(MapError::OutOfBounds))
    ));
}

#[test]
fn inn_popularity_uses_coverage_thresholds() {
    let report = PopulationEconomySettings { population: 32, inn_count: 1, ..PopulationEconomySettings::default() };
    assert_eq!(report.inn_popularity(), 6);
    let full = PopulationEconomySettings { population: 32, inn_count: 2, ..PopulationEconomySettings::default() };
    assert_eq!(full.inn_popularity(), 8);
}

#[test]
fn tax_food_inn_and_fear_popularity_are_combined() {
    let settings = PopulationEconomySettings {
        population: 100,
        inn_count: 4,
        tax_index: 6,
        food_ratio_index: 3,
        ..PopulationEconomySettings::default()
    };
    assert_eq!(settings.tax_popularity(), -6);
    assert_eq!(settings.food_popularity(), 4);
    assert_eq!(settings.inn_popularity(), 8);
    assert_eq!(simulator::clamped_fear_factor(-2), -2);
    assert_eq!(settings.total_popularity(-2), 4);
}

#[test]
fn json_round_trip_preserves_layout_entry_points_and_settings() {
    let mut simulator = Simulator::new(40).expect("simulator should be created");
    simulator.place_wall(14, 10, 14, 13).expect("wall should be placed");
    simulator.place_building(BuildingType::FletchersWorkshop, 10, 10).expect("workshop should be placed");
    simulator.place_building(BuildingType::GoodsYard, 20, 20).expect("goods yard should be placed");
    simulator.set_stockpile_resource_at(20, 20, StockpileResource::Wood).expect("stockpile should be marked");

    let settings = SimulationSettings {
        buy_wood: false,
        buy_wheat: true,
        optimized_fletcher_routing: true,
        ..SimulationSettings::default()
    };
    let original = ProjectFile::capture(&simulator, settings);
    let (mut restored, restored_settings) = original.into_simulator().expect("saved layout should restore");

    assert_eq!(restored.map_size(), simulator.map_size());
    assert_eq!(restored.walls(), simulator.walls());
    assert_eq!(restored.buildings().len(), simulator.buildings().len());
    for (actual, expected) in restored.buildings().iter().zip(simulator.buildings()) {
        assert_eq!(SavedBuilding::from_placement(actual), SavedBuilding::from_placement(expected));
    }
    assert_eq!(restored_settings, settings);
    assert!(!restored.distances().is_empty());
    assert!(!restored.worker_distances().is_empty());

    let previous_max_id =
        restored.buildings().iter().map(|building| building.id).max().expect("restored layout should contain buildings");
    let new_id = restored.place_building(BuildingType::Armoury, 30, 30).expect("new placement should work after loading");
    assert!(new_id > previous_max_id);
}

#[test]
fn calculates_complete_bread_economy_with_traversable_wheat_field() {
    let simulator = bread_layout(true);
    let farm = simulator
        .buildings()
        .iter()
        .find(|building| building.building_type == BuildingType::WheatFarm)
        .expect("wheat farm should exist");
    assert_eq!(farm.entry_point, Some(EntryPoint { x: 6, y: 5 }));

    let routes = simulator.bread_routes();
    assert!(routes.issues.is_empty(), "{:?}", routes.issues);
    assert_eq!(routes.farm_cycle_ticks.len(), 1);
    assert_eq!(routes.mill_travel_ticks.len(), 1);
    assert_eq!(routes.bakery_cycle_ticks.len(), 1);
    assert_eq!(routes.farm_cycle_ticks[0].0, farm.id);
}

#[test]
fn bought_wheat_or_flour_can_supply_bakeries_without_farms() {
    let simulator = bread_layout(false);
    let routes = simulator.bread_routes();
    assert_eq!(routes.farm_count, 0);
    assert!(routes.farm_cycle_ticks.is_empty());
    assert_eq!(routes.mill_travel_ticks.len(), 1);
    assert_eq!(routes.bakery_cycle_ticks.len(), 1);
    assert!(routes.issues.is_empty(), "{:?}", routes.issues);
}

#[test]
fn positions_in_range_follows_the_project_canvas() {
    assert!(simulator::project::positions_in_range(&project_with(2, vec![armoury(1, 3, 3)], Vec::new())));
    assert!(simulator::project::positions_in_range(&project_with(2, vec![armoury(1, i32::MIN, 3)], Vec::new())));
    assert!(!simulator::project::positions_in_range(&project_with(2, vec![armoury(1, i32::MAX - 2, 3)], Vec::new())));
    let mut edge = project_with(2, vec![armoury(1, i32::MIN, 3)], Vec::new());
    edge.bounds = Some(MapBounds { min_x: i32::MIN, min_y: 0, max_x: 0, max_y: 20 });
    assert!(!simulator::project::positions_in_range(&edge));
}
