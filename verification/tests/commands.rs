use simulator::simulation::{BackendCommand, BackendOutcome};
use simulator::{BuildingType, RemoveOutcome, SimulationSettings, Simulator, SimulatorError, StockpileResource};

#[test]
fn commands_edit_the_layout_like_the_methods() {
    let mut simulator = Simulator::new(40).expect("simulator should be created");
    let place = BackendCommand::PlaceBuilding { building_type: BuildingType::GoodsYard, x: 2, y: 2 };
    assert!(simulator.accepts(&place));
    assert!(matches!(simulator.apply_command(place), BackendOutcome::Placed(Ok(1))));

    let mark = BackendCommand::SetStockpileResource { x: 2, y: 2, resource: StockpileResource::Wood };
    assert!(matches!(simulator.apply_command(mark), BackendOutcome::Marked(Ok(_))));

    let workshop = BackendCommand::PlaceBuilding { building_type: BuildingType::FletchersWorkshop, x: 10, y: 2 };
    let armoury = BackendCommand::PlaceBuilding { building_type: BuildingType::Armoury, x: 18, y: 2 };
    assert!(matches!(simulator.apply_command(workshop), BackendOutcome::Placed(Ok(5))));
    assert!(matches!(simulator.apply_command(armoury), BackendOutcome::Placed(Ok(6))));

    let wall = BackendCommand::PlaceWall { start: (2, 12), end: (6, 12) };
    assert!(matches!(simulator.apply_command(wall), BackendOutcome::WallPlaced(Ok(1))));
    let diagonal = BackendCommand::PlaceWall { start: (2, 14), end: (6, 16) };
    assert!(matches!(
        simulator.apply_command(diagonal),
        BackendOutcome::WallPlaced(Err(SimulatorError::InvalidWallDirection))
    ));

    match simulator.apply_command(BackendCommand::RunCycleSimulation { settings: SimulationSettings::default() }) {
        BackendOutcome::Cycles(rows) => {
            assert_eq!(rows.len(), 1);
            assert!(matches!(rows[0].outcome, Some(Ok(_))));
        },
        other => panic!("expected cycles, got {other:?}"),
    }

    assert!(matches!(
        simulator.apply_command(BackendCommand::RemoveAt { x: 4, y: 12 }),
        BackendOutcome::Removed(RemoveOutcome::Wall { id: 1 })
    ));
    assert!(matches!(simulator.apply_command(BackendCommand::RemoveAllWalls), BackendOutcome::WallsRemoved(0)));
}

#[test]
fn commands_out_of_range_are_refused_before_they_run() {
    let simulator = Simulator::new(10).expect("simulator should be created");
    assert!(!simulator.accepts(&BackendCommand::PlaceBuilding {
        building_type: BuildingType::Armoury,
        x: i32::MAX - 2,
        y: 0
    }));
    assert!(!simulator.accepts(&BackendCommand::PlaceWall { start: (0, 0), end: (0, i32::MAX) }));
    assert!(simulator.accepts(&BackendCommand::RemoveAllWalls));
    assert_eq!(simulator.next_ids(), (1, 1, 1));
}

#[test]
fn identifier_room_depends_on_what_is_placed() {
    let saved = simulator::SavedBuilding {
        id: u32::MAX - 2,
        building_type: BuildingType::Armoury,
        x: 2,
        y: 2,
        goods_yard_group_id: None,
        stockpile_resource: None,
        entry_point: None,
    };
    let mut simulator = Simulator::from_saved_layout(
        simulator::MapBounds { min_x: 0, min_y: 0, max_x: 40, max_y: 40 },
        vec![saved],
        Vec::new(),
    )
    .expect("layout should load");
    let goods_yard = BackendCommand::PlaceBuilding { building_type: BuildingType::GoodsYard, x: 10, y: 10 };
    let armoury = BackendCommand::PlaceBuilding { building_type: BuildingType::Armoury, x: 20, y: 20 };
    assert!(!simulator.accepts(&goods_yard));
    assert!(simulator.accepts(&armoury));
    assert!(matches!(simulator.apply_command(armoury), BackendOutcome::Placed(Ok(id)) if id == u32::MAX - 1));
}
