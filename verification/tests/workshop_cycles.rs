use simulator::{BuildingType, ProductionCycleError, SimulationSettings, Simulator, StockpileResource, WeaponType};

fn wood_layout() -> (Simulator, u32) {
    let mut simulator = Simulator::new(60).expect("simulator should be created");
    simulator.place_building(BuildingType::GoodsYard, 2, 2).expect("goods yard should be placed");
    simulator.set_stockpile_resource_at(2, 2, StockpileResource::Wood).expect("wood stockpile should be marked");
    let workshop_id =
        simulator.place_building(BuildingType::FletchersWorkshop, 10, 2).expect("fletchers workshop should be placed");
    (simulator, workshop_id)
}

#[test]
fn workshop_without_armoury_has_no_cycle() {
    let (simulator, workshop_id) = wood_layout();
    let rows = simulator.workshop_cycles(SimulationSettings::default());
    assert_eq!(rows.len(), 1);
    assert_eq!(rows[0].workshop_id, workshop_id);
    assert_eq!(rows[0].weapon_type, WeaponType::Bow);
    assert!(rows[0].outcome.is_none());
}

#[test]
fn nearest_armoury_gives_the_quickest_cycle() {
    let (mut simulator, workshop_id) = wood_layout();
    let far = simulator.place_building(BuildingType::Armoury, 40, 2).expect("far armoury should be placed");
    let near = simulator.place_building(BuildingType::Armoury, 16, 2).expect("near armoury should be placed");
    assert_eq!(simulator.armoury_ids(), vec![far, near]);

    let settings = SimulationSettings::default();
    let best = simulator
        .best_production_cycle(WeaponType::Bow, workshop_id, &simulator.armoury_ids(), settings)
        .expect("armouries exist")
        .expect("a cycle exists");
    assert_eq!(best.armoury_id, near);
    let far_cycle = simulator
        .calculate_production_cycle(WeaponType::Bow, workshop_id, far, settings)
        .expect("far cycle exists");
    assert!(best.total_ticks < far_cycle.total_ticks);

    let rows = simulator.workshop_cycles(settings);
    assert_eq!(rows.len(), 1);
    match &rows[0].outcome {
        Some(Ok(cycle)) => assert_eq!(cycle.armoury_id, near),
        other => panic!("expected a cycle, got {other:?}"),
    }
}

#[test]
fn first_failure_is_reported_when_no_armoury_works() {
    let (simulator, workshop_id) = wood_layout();
    let outcome = simulator.best_production_cycle(WeaponType::Bow, workshop_id, &vec![77, 78], SimulationSettings::default());
    assert_eq!(outcome, Some(Err(ProductionCycleError::ArmouryNotFound { armoury_id: 77 })));
    assert_eq!(simulator.best_production_cycle(WeaponType::Bow, workshop_id, &Vec::new(), SimulationSettings::default()), None);
}
