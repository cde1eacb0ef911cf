use simulator::buildings::{BuildingFactory, Footprint};
use simulator::simulation::WeaponRecipe;
use simulator::{BuildingPlacement, BuildingType, CellMap, MapBounds, SimulationSettings, Simulator, WeaponType};

#[test]
fn clearing_placed_cells_restores_the_map() {
    let mut map = CellMap::new(10);
    let farm = BuildingPlacement {
        id: 7,
        building_type: BuildingType::Armoury,
        x: 0,
        y: 0,
        goods_yard_group_id: None,
        stockpile_resource: None,
        entry_point: None,
        footprint: Footprint::for_type(BuildingType::Armoury),
        components: Vec::new(),
    };
    map.place(&farm).expect("armoury should fit");
    let cells = vec![(5, 5), (6, 5), (7, 5), (12, 12)];
    let before: Vec<(bool, bool)> =
        (0..10).flat_map(|y| (0..10).map(move |x| (x, y))).map(|(x, y)| (map.is_occupied(x, y), map.is_blocked(x, y))).collect();
    assert!(map.place_cells(9, &vec![(5, 5), (6, 5), (7, 5)]).is_ok());
    assert!(map.is_occupied(6, 5) && map.is_blocked(6, 5));
    map.clear_cells(&cells);
    let after: Vec<(bool, bool)> =
        (0..10).flat_map(|y| (0..10).map(move |x| (x, y))).map(|(x, y)| (map.is_occupied(x, y), map.is_blocked(x, y))).collect();
    assert_eq!(before, after);
}

#[test]
fn blocked_cells_are_reserved_cells_on_the_map() {
    let mut map = CellMap::new(12);
    let farm = BuildingPlacement {
        id: 3,
        building_type: BuildingType::WheatFarm,
        x: 1,
        y: 1,
        goods_yard_group_id: None,
        stockpile_resource: None,
        entry_point: None,
        footprint: Footprint::wheat_farm(),
        components: Vec::new(),
    };
    map.place(&farm).expect("farm should fit");
    for y in -2..14 {
        for x in -2..14 {
            if map.is_blocked(x, y) {
                assert!(map.is_in_bounds(x, y) && map.is_occupied(x, y));
            }
            if !map.is_in_bounds(x, y) {
                assert!(!map.is_blocked(x, y) && !map.is_occupied(x, y));
            }
        }
    }
    assert!(map.is_occupied(5, 4) && !map.is_blocked(5, 4));
}

#[test]
fn successive_creations_take_successive_identifiers() {
    let mut factory = BuildingFactory::new();
    let a = factory.create(BuildingType::Armoury, 1, 2);
    let b = factory.create(BuildingType::Bakery, 3, 4);
    let c = factory.create(BuildingType::Windmill, 5, 6);
    assert_eq!((a.id, b.id, c.id), (1, 2, 3));
    assert_eq!((b.building_type, b.x, b.y), (BuildingType::Bakery, 3, 4));
    assert_eq!(factory.next_ids(), (4, 1));
    let (group, stacks) = factory.create_goods_yard_stacks(10, 10);
    assert_eq!(group, 1);
    assert_eq!(stacks.iter().map(|s| s.id).collect::<Vec<_>>(), vec![4, 5, 6, 7]);
    assert_eq!(factory.next_ids(), (8, 2));
}

#[test]
fn edits_never_shrink_the_canvas() {
    let mut simulator = Simulator::new(10).expect("simulator should be created");
    let start = simulator.map_bounds();
    simulator.place_building(BuildingType::ArmourersWorkshop, 8, 8).expect("placement should grow the canvas");
    let grown = simulator.map_bounds();
    assert_eq!(grown, MapBounds { min_x: -50, min_y: -50, max_x: 110, max_y: 110 });
    assert!(grown.min_x <= start.min_x && grown.max_x >= start.max_x);
    simulator.remove_all();
    assert_eq!(simulator.map_bounds(), grown);
    simulator.place_wall(0, 0, 3, 0).expect("wall should fit");
    assert_eq!(simulator.map_bounds(), grown);
}

#[test]
fn deferred_edits_keep_both_route_tables_empty() {
    let mut simulator = Simulator::new(40).expect("simulator should be created");
    simulator.place_building(BuildingType::Armoury, 2, 2).expect("armoury should fit");
    simulator.place_building(BuildingType::FletchersWorkshop, 10, 2).expect("workshop should fit");
    assert!(!simulator.distances().is_empty());
    simulator.set_defer_path_calculation(true);
    assert!(simulator.distances().is_empty() && simulator.worker_distances().is_empty());
    simulator.place_building(BuildingType::GoodsYard, 20, 20).expect("goods yard should fit");
    simulator.place_wall(2, 12, 8, 12).expect("wall should fit");
    assert!(simulator.distances().is_empty() && simulator.worker_distances().is_empty());
    simulator.calculate_worker_distances();
    assert_eq!(simulator.distances().len(), 6 * 5);
}

#[test]
fn buying_inputs_of_large_recipes_does_not_overflow() {
    let recipe = WeaponRecipe {
        weapon_type: WeaponType::Bow,
        workshop_type: BuildingType::FletchersWorkshop,
        wood_required: 2_000_000_000,
        iron_required: 100_000_000,
        make_time_ticks: 1,
        sell_gold: 1,
    };
    let settings = SimulationSettings { buy_wood: true, buy_iron: true, ..SimulationSettings::default() };
    assert_eq!(settings.resource_buy_gold_per_cycle(recipe), 8_000_000_000 + 4_500_000_000);
    let none = SimulationSettings { buy_wood: false, buy_iron: false, ..SimulationSettings::default() };
    assert_eq!(none.resource_buy_gold_per_cycle(recipe), 0);
}
