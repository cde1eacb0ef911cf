use simulator::editor::{EditorState, PlacementOutcome};
use simulator::simulation::BackendCommand;
use simulator::{BuildingType, SimulationSettings, Simulator, StockpileResource, WeaponType};

#[test]
fn negative_canvas_coordinates_reach_the_backend_unchanged() {
    let mut simulator = Simulator::new(20).expect("simulator should be created");
    simulator.place_building(BuildingType::Armoury, 0, 0).expect("edge placement should create negative canvas space");
    let mut state = EditorState::new().expect("editor state should be created");
    state.set_simulator(simulator);
    assert!(state.set_selected_from_id("bakery"));

    let (x, y) = ((-25.2f32).floor() as i32, (-10.1f32).floor() as i32);
    state.set_hover_cell(x, y);
    assert_eq!(state.hover_cell(), Some((-26, -11)));
    let outcome = state.place_selected(x, y).expect("negative coordinate should be accepted");

    match outcome {
        PlacementOutcome::BackendCommand(BackendCommand::PlaceBuilding { building_type, x, y }) => {
            assert_eq!(building_type, BuildingType::Bakery);
            assert_eq!((x, y), (-26, -11));
        },
        _ => panic!("expected a building placement command"),
    }
}

#[test]
fn geometry_changes_mark_simulation_results_stale_until_rows_are_replaced() {
    let mut state = EditorState::new().expect("editor state should be created");
    assert!(state.simulation_results_stale());

    state.set_cycle_rows(Vec::new());
    assert!(!state.simulation_results_stale());

    state.mark_simulation_results_stale();
    assert!(state.simulation_results_stale());
    assert!(state.cycle_rows().is_empty());
}

#[test]
fn walls_take_a_start_click_and_an_aligned_end_click() {
    let mut state = EditorState::new().expect("editor state should be created");
    assert!(state.set_selected_from_id("wall"));
    assert_eq!(state.selected_id(), Some("wall"));
    assert_eq!(state.selected_label(), "Wall");

    match state.place_selected(2, 3) {
        Ok(PlacementOutcome::Status(message)) => assert_eq!(message, "Wall start set at (2, 3)"),
        _ => panic!("expected a status line"),
    }
    state.set_hover_cell(6, 3);
    assert_eq!(state.preview_cells(), vec![(2, 3), (3, 3), (4, 3), (5, 3), (6, 3)]);
    state.set_hover_cell(6, 4);
    assert!(state.preview_cells().is_empty());

    assert_eq!(
        state.place_selected(6, 4).err(),
        Some("wall end cell must be horizontal or vertical from start".to_string())
    );
    match state.place_selected(6, 3) {
        Ok(PlacementOutcome::BackendCommand(command)) => {
            assert_eq!(command, BackendCommand::PlaceWall { start: (2, 3), end: (6, 3) })
        },
        _ => panic!("expected a wall command"),
    }
    state.set_hover_cell(7, 7);
    assert_eq!(state.preview_cells(), vec![(7, 7)]);
}

#[test]
fn tools_turn_clicks_into_commands() {
    let mut state = EditorState::new().expect("editor state should be created");
    assert_eq!(state.place_selected(1, 1).err(), Some("no tool selected".to_string()));
    assert!(!state.set_selected_from_id("stockpile"));
    assert_eq!(state.selected_id(), None);
    assert_eq!(state.selected_label(), "None");

    assert!(state.set_selected_from_id("set_flour_stock"));
    assert!(matches!(
        state.place_selected(4, 5),
        Ok(PlacementOutcome::BackendCommand(BackendCommand::SetStockpileResource {
            x: 4,
            y: 5,
            resource: StockpileResource::Flour
        }))
    ));
    assert!(state.set_selected_from_id("remove"));
    assert!(matches!(
        state.place_selected(4, 5),
        Ok(PlacementOutcome::BackendCommand(BackendCommand::RemoveAt { x: 4, y: 5 }))
    ));
    assert_eq!(state.place_selected(500, 5).err(), Some("cell is outside map".to_string()));
    state.clear_selection();
    assert_eq!(state.selected_id(), None);
}

#[test]
fn building_preview_keeps_cells_on_the_canvas() {
    let mut state = EditorState::new().expect("editor state should be created");
    assert!(state.set_selected_from_id("armoury"));
    assert_eq!(state.selected_label(), "Armoury");
    state.set_hover_cell(98, 98);
    assert_eq!(state.preview_cells(), vec![(98, 98), (99, 98), (98, 99), (99, 99)]);
    state.set_hover_cell(100, 98);
    assert_eq!(state.hover_cell(), None);
    assert!(state.preview_cells().is_empty());
}

#[test]
fn hovered_building_is_the_one_under_the_pointer() {
    let mut simulator = Simulator::new(30).expect("simulator should be created");
    let id = simulator.place_building(BuildingType::Granary, 5, 5).expect("granary should be placed");
    let mut state = EditorState::new().expect("editor state should be created");
    state.set_simulator(simulator);
    state.set_hover_cell(6, 7);
    assert_eq!(state.hovered_building().map(|b| b.id), Some(id));
    state.set_hover_cell(20, 20);
    assert!(state.hovered_building().is_none());
}

#[test]
fn settings_setters_report_changes_and_limit_values() {
    let mut state = EditorState::new().expect("editor state should be created");
    assert!(!state.set_game_speed(50));
    assert!(state.set_game_speed(200));
    assert_eq!(state.game_speed(), 90);
    assert!(state.set_game_speed(5));
    assert_eq!(state.game_speed(), 20);
    assert!(state.set_game_speed(52));
    assert_eq!(state.game_speed(), 50);
    assert!(state.set_game_speed(53));
    assert_eq!(state.game_speed(), 55);
    assert!(!state.set_game_speed(57));
    assert!(state.set_game_speed(-40));
    assert_eq!(state.game_speed(), 20);
    assert!(state.set_fear_factor(-9));
    assert_eq!(state.fear_factor(), -5);
    assert!(!state.set_fear_factor(-7));
    assert!(state.set_buy_wheat(true) && state.buy_wheat());
    assert!(!state.set_buy_wood(true));
    assert!(state.set_buy_iron(false) && !state.buy_iron());
    assert!(state.set_buy_flour(true) && state.buy_flour());
    assert!(state.set_optimized_fletcher_routing(true) && state.optimized_fletcher_routing());
    assert_eq!(state.toggle_fletchers_weapon(), WeaponType::Crossbow);
    assert_eq!(state.toggle_fletchers_weapon(), WeaponType::Bow);
    assert_eq!(state.toggle_poleturners_weapon(), WeaponType::Pike);
    assert_eq!(state.toggle_blacksmiths_weapon(), WeaponType::Mace);
    assert_eq!(state.blacksmiths_weapon(), WeaponType::Mace);
    assert!(state.simulation_tooltips_enabled());
    assert!(state.set_simulation_tooltips_enabled(false));
    assert!(!state.set_simulation_tooltips_enabled(false));

    state.set_simulation_settings(SimulationSettings::default());
    assert_eq!(state.simulation_settings(), SimulationSettings::default());

    state.set_max_population(40);
    state.set_population(100);
    assert_eq!(state.population_economy_settings().population, 40);
    state.set_tax_index(30);
    state.set_food_ratio_index(1);
    state.set_inn_count(2);
    state.set_stone_quarry_count(3);
    state.set_iron_mine_count(20_000);
    let settings = state.population_economy_settings();
    assert_eq!((settings.tax_index, settings.food_ratio_index, settings.inn_count), (11, 1, 2));
    assert_eq!((settings.stone_quarry_count, settings.iron_mine_count), (3, 10_000));
    assert_eq!(state.map_size(), 100);
}

#[test]
fn wall_start_status_writes_signed_multi_digit_coordinates() {
    let mut simulator = Simulator::new(20).expect("simulator should be created");
    simulator.place_building(BuildingType::Armoury, 0, 0).expect("edge placement should create negative canvas space");
    let mut state = EditorState::new().expect("editor state should be created");
    state.set_simulator(simulator);
    assert!(state.set_selected_from_id("wall"));
    match state.place_selected(-26, -11) {
        Ok(PlacementOutcome::Status(message)) => assert_eq!(message, "Wall start set at (-26, -11)"),
        _ => panic!("expected a status line"),
    }
    state.clear_pending_wall();
    match state.place_selected(0, 19) {
        Ok(PlacementOutcome::Status(message)) => assert_eq!(message, "Wall start set at (0, 19)"),
        _ => panic!("expected a status line"),
    }
}
