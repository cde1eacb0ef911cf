use simulator::{
    BuildingType, DistanceKey, EntryPoint, MapBounds, RemoveOutcome, SimulationSettings, Simulator, SimulatorError,
    StockpileResource, WeaponType,
};

#[test]
fn places_workshop_when_space_is_free() {
    let mut simulator = Simulator::new(20).expect("simulator should be created");
    let result = simulator.place_building(BuildingType::FletchersWorkshop, 2, 3);
    assert!(result.is_ok());
    assert_eq!(simulator.buildings().len(), 1);
    assert_eq!(simulator.buildings()[0].entry_point, Some(EntryPoint { x: 4, y: 2 }));
}

#[test]
fn mill_entry_can_use_a_traversable_wheat_field_cell() {
    let mut simulator = Simulator::new(30).expect("simulator should be created");
    simulator.place_building(BuildingType::WheatFarm, 5, 5).expect("wheat farm should be placed");
    simulator.place_building(BuildingType::Windmill, 9, 14).expect("wind mill should be placed");

    let mill = simulator
        .buildings()
        .iter()
        .find(|building| building.building_type == BuildingType::Windmill)
        .expect("wind mill should exist");
    assert_eq!(mill.entry_point, Some(EntryPoint { x: 10, y: 13 }));
}

#[test]
fn bakery_uses_workshop_wall_orientation_rules() {
    let mut simulator = Simulator::new(30).expect("simulator should be created");
    simulator.place_wall(14, 10, 14, 13).expect("wall should be placed");
    simulator.place_building(BuildingType::Bakery, 10, 10).expect("bakery should be placed");

    assert_eq!(simulator.buildings()[0].entry_point, Some(EntryPoint { x: 9, y: 11 }));
}

#[test]
fn rejects_overlap() {
    let mut simulator = Simulator::new(20).expect("simulator should be created");
    simulator.place_building(BuildingType::Armoury, 5, 5).expect("first placement should succeed");

    let second = simulator.place_building(BuildingType::BlacksmithsWorkshop, 6, 6);
    assert!(second.is_err());
}

#[test]
fn keeps_at_least_fifty_cells_between_a_building_and_every_boundary() {
    let mut simulator = Simulator::new(10).expect("simulator should be created");
    simulator.place_building(BuildingType::ArmourersWorkshop, 8, 8).expect("placement should expand the canvas");

    assert_eq!(simulator.map_bounds(), MapBounds { min_x: -50, min_y: -50, max_x: 110, max_y: 110 });
    let building = &simulator.buildings()[0];
    let bounds = simulator.map_bounds();
    assert!(building.x - bounds.min_x >= 50);
    assert!(building.y - bounds.min_y >= 50);
    assert!(bounds.max_x - (building.x + building.width() as i32) >= 50);
    assert!(bounds.max_y - (building.y + building.height() as i32) >= 50);
}

#[test]
fn expands_when_a_building_is_close_to_but_not_touching_a_boundary() {
    let mut simulator = Simulator::new(100).expect("simulator should be created");
    simulator.place_building(BuildingType::Armoury, 40, 40).expect("placement should succeed");

    assert_eq!(simulator.map_bounds(), MapBounds { min_x: -50, min_y: -50, max_x: 100, max_y: 100 });
}

#[test]
fn expands_left_and_bottom_and_accepts_negative_coordinates() {
    let mut simulator = Simulator::new(20).expect("simulator should be created");
    simulator.place_building(BuildingType::Armoury, 0, 0).expect("edge placement should expand the canvas");
    simulator
        .place_building(BuildingType::Bakery, -50, -50)
        .expect("negative placement should expand the canvas again");

    assert_eq!(simulator.map_bounds().min_x, -100);
    assert_eq!(simulator.map_bounds().min_y, -100);
    assert!(simulator.is_cell_occupied(-50, -50));
}

#[test]
fn failed_placement_does_not_commit_canvas_expansion() {
    let mut simulator = Simulator::new(20).expect("simulator should be created");
    let before = simulator.map_bounds();

    let result = simulator.place_wall(-100, -100, 100, 100);

    assert!(result.is_err());
    assert_eq!(simulator.map_bounds(), before);
}

#[test]
fn goods_yard_has_cross_gap() {
    let mut simulator = Simulator::new(12).expect("simulator should be created");
    simulator.place_building(BuildingType::GoodsYard, 1, 1).expect("goods yard should be placed");

    assert!(!simulator.is_cell_occupied(3, 3));
    assert!(simulator.is_cell_occupied(1, 1));
    assert!(simulator.is_cell_occupied(5, 5));
}

#[test]
fn goods_yard_has_four_internal_stacks() {
    let mut simulator = Simulator::new(20).expect("simulator should be created");
    simulator.place_building(BuildingType::GoodsYard, 10, 10).expect("goods yard should be placed");

    let stockpiles: Vec<_> =
        simulator.buildings().iter().filter(|entry| entry.building_type == BuildingType::Stockpile).collect();
    assert_eq!(stockpiles.len(), 4);

    let positions: Vec<(i32, i32)> = stockpiles.iter().map(|s| (s.x, s.y)).collect();
    assert!(positions.contains(&(10, 10)));
    assert!(positions.contains(&(13, 10)));
    assert!(positions.contains(&(10, 13)));
    assert!(positions.contains(&(13, 13)));

    let group_id = stockpiles[0].goods_yard_group_id.expect("goods yard stockpile should have group id");
    assert!(stockpiles.iter().all(|stack| stack.goods_yard_group_id == Some(group_id)));
}

#[test]
fn places_horizontal_wall() {
    let mut simulator = Simulator::new(20).expect("simulator should be created");
    let wall_id = simulator.place_wall(2, 4, 6, 4).expect("wall placement should succeed");
    assert_eq!(wall_id, 1);
    assert_eq!(simulator.walls().len(), 1);
    assert!(simulator.is_cell_occupied(2, 4));
    assert!(simulator.is_cell_occupied(6, 4));
}

#[test]
fn rejects_diagonal_wall() {
    let mut simulator = Simulator::new(20).expect("simulator should be created");
    let result = simulator.place_wall(1, 1, 3, 2);
    assert!(matches!(result, Err(SimulatorError::InvalidWallDirection)));
}

#[test]
fn assigns_default_entry_point_for_square_building() {
    let mut simulator = Simulator::new(20).expect("simulator should be created");
    simulator.place_building(BuildingType::Armoury, 6, 6).expect("building should be placed");

    let placed = &simulator.buildings()[0];
    assert_eq!(placed.entry_point, Some(EntryPoint { x: 8, y: 5 }));
}

#[test]
fn rotates_clockwise_when_default_entry_is_blocked() {
    let mut simulator = Simulator::new(20).expect("simulator should be created");
    simulator.place_building(BuildingType::Armoury, 8, 2).expect("blocking building should be placed");
    simulator.place_building(BuildingType::Armoury, 6, 6).expect("target building should be placed");

    let target =
        simulator.buildings().iter().find(|b| b.x == 6 && b.y == 6).expect("target building should exist");
    assert_eq!(target.entry_point, Some(EntryPoint { x: 7, y: 5 }));
}

#[test]
fn goods_yard_stacks_receive_individual_entry_points() {
    let mut simulator = Simulator::new(30).expect("simulator should be created");
    simulator.place_building(BuildingType::GoodsYard, 10, 10).expect("goods yard should be placed");
    let stockpiles: Vec<_> =
        simulator.buildings().iter().filter(|entry| entry.building_type == BuildingType::Stockpile).collect();
    assert_eq!(stockpiles.len(), 4);
    assert!(stockpiles.iter().all(|stack| stack.entry_point.is_some()));
}

#[test]
fn recalculates_existing_entry_point_when_new_building_blocks_it() {
    let mut simulator = Simulator::new(30).expect("simulator should be created");
    simulator.place_building(BuildingType::Armoury, 6, 6).expect("first building should be placed");
    let initial_entry = simulator.buildings()[0].entry_point.expect("entry point should exist");
    assert_eq!(initial_entry, EntryPoint { x: 8, y: 5 });

    simulator.place_building(BuildingType::Armoury, 8, 2).expect("second building should be placed");

    let updated_entry = simulator
        .buildings()
        .iter()
        .find(|b| b.x == 6 && b.y == 6)
        .expect("first building should still exist")
        .entry_point
        .expect("entry point should still exist after recalculation");
    assert_eq!(updated_entry, EntryPoint { x: 7, y: 5 });
}

#[test]
fn workshop_entry_rotates_with_wall_orientation() {
    let cases = [
        ((10, 14, 13, 14), EntryPoint { x: 12, y: 9 }),
        ((14, 10, 14, 13), EntryPoint { x: 9, y: 11 }),
        ((10, 9, 13, 9), EntryPoint { x: 11, y: 14 }),
        ((9, 10, 9, 13), EntryPoint { x: 14, y: 12 }),
    ];

    for ((start_x, start_y, end_x, end_y), expected_entry) in cases {
        let mut simulator = Simulator::new(40).expect("simulator should be created");
        simulator.place_wall(start_x, start_y, end_x, end_y).expect("wall should be placed");
        simulator.place_building(BuildingType::FletchersWorkshop, 10, 10).expect("workshop should be placed");

        let workshop = simulator.buildings().iter().find(|b| b.x == 10 && b.y == 10).expect("workshop should exist");

        assert_eq!(workshop.entry_point, Some(expected_entry));
    }
}

#[test]
fn stores_directional_distance_objects_for_both_directions() {
    let mut simulator = Simulator::new(30).expect("simulator should be created");
    let a = simulator.place_building(BuildingType::FletchersWorkshop, 2, 3).expect("building A should be placed");
    let b = simulator.place_building(BuildingType::Armoury, 10, 3).expect("building B should be placed");

    assert!(simulator.distances().contains_key(&DistanceKey::new(a, b)));
    assert!(simulator.distances().contains_key(&DistanceKey::new(b, a)));
}

#[test]
fn walls_can_enclose_a_building_and_make_distance_unreachable() {
    let mut simulator = Simulator::new(20).expect("simulator should be created");
    let start_id =
        simulator.place_building(BuildingType::FletchersWorkshop, 5, 5).expect("start building should be placed");
    let finish_id = simulator.place_building(BuildingType::Armoury, 12, 5).expect("finish building should be placed");

    simulator.place_wall(4, 4, 9, 4).expect("bottom wall should be placed");
    simulator.place_wall(4, 9, 9, 9).expect("top wall should be placed");
    simulator.place_wall(4, 5, 4, 8).expect("left wall should be placed");
    simulator.place_wall(9, 5, 9, 8).expect("right wall should be placed");

    let distance = simulator.distance_between(start_id, finish_id).expect("distance object should exist");
    assert_eq!(distance.distance_cells, None);
}

#[test]
fn removing_one_stockpile_removes_whole_goods_yard_group() {
    let mut simulator = Simulator::new(30).expect("simulator should be created");
    simulator.place_building(BuildingType::GoodsYard, 10, 10).expect("goods yard should be placed");

    let outcome = simulator.remove_at(10, 10);
    match outcome {
        RemoveOutcome::Buildings { removed_ids, goods_yard_group_id } => {
            assert_eq!(removed_ids.len(), 4);
            assert!(goods_yard_group_id.is_some());
        },
        _ => panic!("expected building removal"),
    }

    assert!(simulator.buildings().iter().all(|building| building.building_type != BuildingType::Stockpile));
    assert!(!simulator.is_cell_occupied(10, 10));
    assert!(!simulator.is_cell_occupied(13, 10));
    assert!(!simulator.is_cell_occupied(10, 13));
    assert!(!simulator.is_cell_occupied(13, 13));
}

#[test]
fn remove_all_walls_clears_wall_cells() {
    let mut simulator = Simulator::new(20).expect("simulator should be created");
    simulator.place_wall(2, 4, 6, 4).expect("wall placement should succeed");
    simulator.place_wall(8, 2, 8, 5).expect("wall placement should succeed");

    let removed = simulator.remove_all_walls();
    assert_eq!(removed, 2);
    assert_eq!(simulator.walls().len(), 0);
    assert!(!simulator.is_cell_occupied(2, 4));
    assert!(!simulator.is_cell_occupied(8, 5));
}

#[test]
fn remove_all_clears_buildings_walls_and_distances() {
    let mut simulator = Simulator::new(30).expect("simulator should be created");
    simulator.place_building(BuildingType::Armoury, 2, 2).expect("armoury should be placed");
    simulator.place_building(BuildingType::FletchersWorkshop, 10, 2).expect("workshop should be placed");
    simulator.place_wall(2, 10, 6, 10).expect("wall should be placed");

    let removed = simulator.remove_all();

    assert_eq!(removed, (2, 1));
    assert!(simulator.buildings().is_empty());
    assert!(simulator.walls().is_empty());
    assert!(simulator.distances().is_empty());
    assert!(simulator.worker_distances().is_empty());
    assert!(!simulator.is_cell_occupied(2, 2));
    assert!(!simulator.is_cell_occupied(2, 10));
}

#[test]
fn removing_wall_does_not_recalculate_workshop_entry_point() {
    let mut simulator = Simulator::new(40).expect("simulator should be created");
    simulator.place_wall(14, 10, 14, 13).expect("wall should be placed");
    let workshop_id =
        simulator.place_building(BuildingType::FletchersWorkshop, 10, 10).expect("workshop should be placed");

    let before =
        simulator.buildings().iter().find(|b| b.id == workshop_id).expect("workshop should exist").entry_point;
    assert_eq!(before, Some(EntryPoint { x: 9, y: 11 }));

    let removed = simulator.remove_all_walls();
    assert_eq!(removed, 1);

    let after = simulator.buildings().iter().find(|b| b.id == workshop_id).expect("workshop should exist").entry_point;
    assert_eq!(after, Some(EntryPoint { x: 9, y: 11 }));
}

#[test]
fn removing_wall_assigns_entry_only_when_building_had_none() {
    let mut simulator = Simulator::new(30).expect("simulator should be created");
    simulator.place_wall(5, 5, 10, 5).expect("bottom wall should be placed");
    simulator.place_wall(5, 10, 10, 10).expect("top wall should be placed");
    simulator.place_wall(5, 6, 5, 9).expect("left wall should be placed");
    simulator.place_wall(10, 6, 10, 9).expect("right wall should be placed");

    let armoury_id =
        simulator.place_building(BuildingType::Armoury, 6, 6).expect("armoury should be placed inside blocked perimeter");
    let before = simulator.buildings().iter().find(|b| b.id == armoury_id).expect("armoury should exist").entry_point;
    assert_eq!(before, None);

    let outcome = simulator.remove_at(8, 5);
    assert!(matches!(outcome, RemoveOutcome::Wall { .. }));

    let after = simulator.buildings().iter().find(|b| b.id == armoury_id).expect("armoury should exist").entry_point;
    assert_eq!(after, Some(EntryPoint { x: 8, y: 5 }));
}

#[test]
fn removing_building_does_not_recalculate_other_entry_points() {
    let mut simulator = Simulator::new(30).expect("simulator should be created");
    let target_id = simulator.place_building(BuildingType::Armoury, 6, 6).expect("target building should be placed");
    let blocker_id =
        simulator.place_building(BuildingType::Armoury, 8, 2).expect("blocking building should be placed");

    let before = simulator.buildings().iter().find(|b| b.id == target_id).expect("target should exist").entry_point;
    assert_eq!(before, Some(EntryPoint { x: 7, y: 5 }));

    assert!(simulator.remove_building(blocker_id));

    let after = simulator.buildings().iter().find(|b| b.id == target_id).expect("target should exist").entry_point;
    assert_eq!(after, Some(EntryPoint { x: 7, y: 5 }));
}

#[test]
fn stockpile_resource_moves_between_stockpiles() {
    let mut simulator = Simulator::new(30).expect("simulator should be created");
    simulator.place_building(BuildingType::GoodsYard, 10, 10).expect("goods yard should be placed");

    let first_id =
        simulator.set_stockpile_resource_at(10, 10, StockpileResource::Wood).expect("first stockpile should accept wood");
    let second_id =
        simulator.set_stockpile_resource_at(13, 10, StockpileResource::Wood).expect("second stockpile should accept wood");

    assert_ne!(first_id, second_id);
    assert_eq!(
        simulator.buildings().iter().find(|b| b.id == first_id).expect("first stockpile should exist").stockpile_resource,
        None
    );
    assert_eq!(
        simulator
            .buildings()
            .iter()
            .find(|b| b.id == second_id)
            .expect("second stockpile should exist")
            .stockpile_resource,
        Some(StockpileResource::Wood)
    );
}

#[test]
fn stockpile_cannot_hold_wood_and_iron_together() {
    let mut simulator = Simulator::new(30).expect("simulator should be created");
    simulator.place_building(BuildingType::GoodsYard, 10, 10).expect("goods yard should be placed");

    let stockpile_id =
        simulator.set_stockpile_resource_at(10, 10, StockpileResource::Wood).expect("stockpile should accept wood");
    simulator.set_stockpile_resource_at(10, 10, StockpileResource::Iron).expect("stockpile should switch to iron");

    assert_eq!(
        simulator.buildings().iter().find(|b| b.id == stockpile_id).expect("stockpile should exist").stockpile_resource,
        Some(StockpileResource::Iron)
    );
}

#[test]
fn stockpile_designation_rejects_non_stockpile_cells() {
    let mut simulator = Simulator::new(30).expect("simulator should be created");
    simulator.place_building(BuildingType::Armoury, 5, 5).expect("armoury should be placed");

    let result = simulator.set_stockpile_resource_at(5, 5, StockpileResource::Wood);
    assert!(matches!(result, Err(SimulatorError::StockpileDesignationRequiresStockpile)));
}

#[test]
fn calculates_worker_distances_for_wood_workshop_and_armoury_routes() {
    let mut simulator = Simulator::new(40).expect("simulator should be created");
    simulator.place_building(BuildingType::GoodsYard, 2, 2).expect("goods yard should be placed");
    simulator.set_stockpile_resource_at(2, 2, StockpileResource::Wood).expect("wood stockpile should be marked");
    let workshop_id =
        simulator.place_building(BuildingType::FletchersWorkshop, 10, 2).expect("fletchers workshop should be placed");
    let armoury_id = simulator.place_building(BuildingType::Armoury, 18, 2).expect("armoury should be placed");
    let wood_stockpile_id = simulator
        .buildings()
        .iter()
        .find(|building| building.stockpile_resource == Some(StockpileResource::Wood))
        .expect("wood stockpile should exist")
        .id;

    let count = simulator.calculate_worker_distances();
    assert_eq!(count, 5);
    assert!(simulator.worker_distance_between(workshop_id, wood_stockpile_id).is_some());
    assert!(simulator.worker_distance_between(wood_stockpile_id, workshop_id).is_some());
    assert!(simulator.worker_distance_between(workshop_id, armoury_id).is_some());
    assert!(simulator.worker_distance_between(armoury_id, workshop_id).is_some());
    assert!(simulator.worker_distance_between(armoury_id, wood_stockpile_id).is_some());
}

#[test]
fn calculates_worker_distances_for_iron_routes() {
    let mut simulator = Simulator::new(40).expect("simulator should be created");
    simulator.place_building(BuildingType::GoodsYard, 2, 2).expect("goods yard should be placed");
    simulator.set_stockpile_resource_at(2, 2, StockpileResource::Iron).expect("iron stockpile should be marked");
    let workshop_id = simulator
        .place_building(BuildingType::BlacksmithsWorkshop, 10, 2)
        .expect("blacksmiths workshop should be placed");
    let armoury_id = simulator.place_building(BuildingType::Armoury, 18, 2).expect("armoury should be placed");
    let iron_stockpile_id = simulator
        .buildings()
        .iter()
        .find(|building| building.stockpile_resource == Some(StockpileResource::Iron))
        .expect("iron stockpile should exist")
        .id;

    simulator.calculate_worker_distances();

    assert!(simulator.worker_distance_between(workshop_id, iron_stockpile_id).is_some());
    assert!(simulator.worker_distance_between(iron_stockpile_id, workshop_id).is_some());
    assert!(simulator.worker_distance_between(armoury_id, iron_stockpile_id).is_some());
}

#[test]
fn deferred_path_calculation_waits_for_explicit_calculate() {
    let mut simulator = Simulator::new(40).expect("simulator should be created");
    simulator.set_defer_path_calculation(true);
    simulator.place_building(BuildingType::GoodsYard, 2, 2).expect("goods yard should be placed");
    simulator.place_building(BuildingType::FletchersWorkshop, 10, 2).expect("workshop should be placed");
    simulator.place_building(BuildingType::Armoury, 18, 2).expect("armoury should be placed");

    assert!(simulator.distances().is_empty());
    assert!(simulator.worker_distances().is_empty());

    assert!(simulator.calculate_worker_distances() > 0);
    assert!(!simulator.distances().is_empty());
    assert!(!simulator.worker_distances().is_empty());
}

#[test]
fn deferred_mode_keeps_large_layout_edits_free_of_path_recalculation() {
    let mut simulator = Simulator::new(200).expect("simulator should be created");
    simulator.set_defer_path_calculation(true);

    for index in 0..120 {
        let x = 5 + (index % 20) * 7;
        let y = 5 + (index / 20) * 7;
        simulator.place_building(BuildingType::Armoury, x, y).expect("spaced armoury should be placed");
    }

    assert_eq!(simulator.buildings().len(), 120);
    assert!(simulator.distances().is_empty());
    assert!(simulator.worker_distances().is_empty());
}

#[test]
fn bow_cycle_starts_from_armoury_and_returns_to_armoury() {
    let mut simulator = Simulator::new(40).expect("simulator should be created");
    simulator.place_building(BuildingType::GoodsYard, 2, 2).expect("goods yard should be placed");
    simulator.set_stockpile_resource_at(2, 2, StockpileResource::Wood).expect("wood stockpile should be marked");
    let workshop_id =
        simulator.place_building(BuildingType::FletchersWorkshop, 10, 2).expect("fletchers workshop should be placed");
    let armoury_id = simulator.place_building(BuildingType::Armoury, 18, 2).expect("armoury should be placed");
    let wood_stockpile_id = simulator
        .buildings()
        .iter()
        .find(|building| building.stockpile_resource == Some(StockpileResource::Wood))
        .expect("wood stockpile should exist")
        .id;

    let cycle = simulator
        .calculate_production_cycle(WeaponType::Bow, workshop_id, armoury_id, SimulationSettings::default())
        .expect("bow cycle should be calculated");

    assert_eq!(cycle.recipe.wood_required, 2);
    assert_eq!(cycle.route_usage.len(), 4);
    assert_eq!(cycle.route_usage[0].start_building_id, armoury_id);
    assert_eq!(cycle.route_usage[0].finish_building_id, workshop_id);
    assert_eq!(cycle.route_usage[0].trips, 1);
    assert_eq!(cycle.route_usage[1].start_building_id, workshop_id);
    assert_eq!(cycle.route_usage[1].finish_building_id, wood_stockpile_id);
    assert_eq!(cycle.route_usage[1].trips, 2);
    assert_eq!(cycle.route_usage[2].start_building_id, wood_stockpile_id);
    assert_eq!(cycle.route_usage[2].finish_building_id, workshop_id);
    assert_eq!(cycle.route_usage[2].trips, 2);
    assert_eq!(cycle.route_usage[3].start_building_id, workshop_id);
    assert_eq!(cycle.route_usage[3].finish_building_id, armoury_id);
    assert_eq!(cycle.route_usage[3].trips, 1);
    assert_eq!(cycle.total_ticks, cycle.travel_ticks + cycle.make_ticks);
}

#[test]
fn optimized_fletcher_cycle_goes_directly_from_armoury_to_stockpile() {
    let mut simulator = Simulator::new(40).expect("simulator should be created");
    simulator.place_building(BuildingType::GoodsYard, 2, 2).expect("goods yard should be placed");
    simulator.set_stockpile_resource_at(2, 2, StockpileResource::Wood).expect("wood stockpile should be marked");
    let workshop_id =
        simulator.place_building(BuildingType::FletchersWorkshop, 10, 2).expect("fletchers workshop should be placed");
    let armoury_id = simulator.place_building(BuildingType::Armoury, 18, 2).expect("armoury should be placed");
    let wood_stockpile_id = simulator
        .buildings()
        .iter()
        .find(|building| building.stockpile_resource == Some(StockpileResource::Wood))
        .expect("wood stockpile should exist")
        .id;

    let cycle = simulator
        .calculate_production_cycle(
            WeaponType::Bow,
            workshop_id,
            armoury_id,
            SimulationSettings { optimized_fletcher_routing: true, ..SimulationSettings::default() },
        )
        .expect("optimized bow cycle should be calculated");

    assert_eq!(cycle.route_usage.len(), 4);
    assert_eq!(cycle.route_usage[0].start_building_id, armoury_id);
    assert_eq!(cycle.route_usage[0].finish_building_id, wood_stockpile_id);
    assert_eq!(cycle.route_usage[0].trips, 1);
    assert_eq!(cycle.route_usage[1].start_building_id, workshop_id);
    assert_eq!(cycle.route_usage[1].finish_building_id, wood_stockpile_id);
    assert_eq!(cycle.route_usage[1].trips, 1);
    assert_eq!(cycle.route_usage[2].start_building_id, wood_stockpile_id);
    assert_eq!(cycle.route_usage[2].finish_building_id, workshop_id);
    assert_eq!(cycle.route_usage[2].trips, 2);
    assert_eq!(cycle.route_usage[3].start_building_id, workshop_id);
    assert_eq!(cycle.route_usage[3].finish_building_id, armoury_id);
    assert_eq!(cycle.route_usage[3].trips, 1);
}

#[test]
fn spear_cycle_uses_armoury_to_stockpile_to_workshop_pattern() {
    let mut simulator = Simulator::new(40).expect("simulator should be created");
    simulator.place_building(BuildingType::GoodsYard, 2, 2).expect("goods yard should be placed");
    simulator.set_stockpile_resource_at(2, 2, StockpileResource::Wood).expect("wood stockpile should be marked");
    let workshop_id = simulator
        .place_building(BuildingType::PoleturnersWorkshop, 10, 2)
        .expect("poleturners workshop should be placed");
    let armoury_id = simulator.place_building(BuildingType::Armoury, 18, 2).expect("armoury should be placed");
    let wood_stockpile_id = simulator
        .buildings()
        .iter()
        .find(|building| building.stockpile_resource == Some(StockpileResource::Wood))
        .expect("wood stockpile should exist")
        .id;

    let cycle = simulator
        .calculate_production_cycle(WeaponType::Spear, workshop_id, armoury_id, SimulationSettings::default())
        .expect("spear cycle should be calculated");

    assert_eq!(cycle.route_usage.len(), 3);
    assert_eq!(cycle.route_usage[0].start_building_id, armoury_id);
    assert_eq!(cycle.route_usage[0].finish_building_id, wood_stockpile_id);
    assert_eq!(cycle.route_usage[0].trips, 1);
    assert_eq!(cycle.route_usage[1].start_building_id, wood_stockpile_id);
    assert_eq!(cycle.route_usage[1].finish_building_id, workshop_id);
    assert_eq!(cycle.route_usage[1].trips, 1);
    assert_eq!(cycle.route_usage[2].start_building_id, workshop_id);
    assert_eq!(cycle.route_usage[2].finish_building_id, armoury_id);
    assert_eq!(cycle.route_usage[2].trips, 1);
}
