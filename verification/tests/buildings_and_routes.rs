use simulator::buildings::Footprint;
use simulator::simulation::{shortest_path_len, travel_ticks_for_distance};
use simulator::{
    BuildingCost, BuildingType, CellMap, EntryPoint, SimulationSettings, WORKSHOP_SLOWDOWN_BASE, WeaponType,
    clamped_fear_factor, farm_travel_ticks, workshop_fear_output_ring, WHEAT_FARM_WORK_TICKS,
};

#[test]
fn wheat_farm_reserves_full_area_but_only_cabin_blocks_paths() {
    let footprint = Footprint::wheat_farm();
    let occupied = footprint.occupied_offsets();
    let blocking = footprint.blocking_offsets();

    assert_eq!(occupied.len(), 81);
    assert_eq!(blocking.len(), 9);
    assert!(blocking.contains(&(0, 8)));
    assert!(!blocking.contains(&(4, 3)));
}

#[test]
fn workshops_have_slowdown_base_two() {
    for workshop in [
        BuildingType::FletchersWorkshop,
        BuildingType::BlacksmithsWorkshop,
        BuildingType::PoleturnersWorkshop,
        BuildingType::ArmourersWorkshop,
    ] {
        assert_eq!(workshop.worker_slowdown_base(), Some(WORKSHOP_SLOWDOWN_BASE));
    }
}

#[test]
fn build_costs_match_domain_table() {
    assert_eq!(BuildingType::Armoury.build_cost(), BuildingCost { wood: 5, gold: 0 });
    assert_eq!(BuildingType::FletchersWorkshop.build_cost(), BuildingCost { wood: 20, gold: 100 });
    assert_eq!(BuildingType::BlacksmithsWorkshop.build_cost(), BuildingCost { wood: 20, gold: 200 });
    assert_eq!(BuildingType::PoleturnersWorkshop.build_cost(), BuildingCost { wood: 10, gold: 100 });
    assert_eq!(BuildingType::ArmourersWorkshop.build_cost(), BuildingCost { wood: 20, gold: 100 });
}

#[test]
fn same_start_and_finish_cell_has_zero_distance() {
    let map = CellMap::new(10);
    let point = EntryPoint { x: 1, y: 1 };
    assert_eq!(shortest_path_len(&map, point, point), Some(0));
}

#[test]
fn travel_ticks_match_workshop_speed_formula() {
    let ticks = travel_ticks_for_distance(BuildingType::FletchersWorkshop, 50);
    assert_eq!(ticks, 50_u64 * 8 * u64::from(WORKSHOP_SLOWDOWN_BASE + 1));
}

#[test]
fn default_settings_keep_fletcher_fix_disabled() {
    let settings = SimulationSettings::default();
    assert_eq!(settings.game_speed_ticks_per_second, 50);
    assert_eq!(settings.fear_factor, 0);
    assert!(!settings.optimized_fletcher_routing);
    assert_eq!(settings.fletchers_weapon, WeaponType::Bow);
    assert_eq!(settings.poleturners_weapon, WeaponType::Spear);
    assert_eq!(settings.blacksmiths_weapon, WeaponType::Sword);
}

#[test]
fn weapon_recipe_total_units_matches_resource_counts() {
    assert_eq!(WeaponType::Bow.recipe().total_required_units(), 2);
    assert_eq!(WeaponType::Sword.recipe().total_required_units(), 1);
}

#[test]
fn fear_factor_is_clamped_to_supported_range() {
    assert_eq!(clamped_fear_factor(2), 0);
    assert_eq!(clamped_fear_factor(-3), -3);
    assert_eq!(clamped_fear_factor(-9), -5);
}

#[test]
fn workshop_fear_output_ring_improves_one_entries_from_front() {
    assert_eq!(workshop_fear_output_ring(0), [1, 2, 1, 2, 1, 2, 1, 2, 1, 2]);
    assert_eq!(workshop_fear_output_ring(-2), [2, 2, 2, 2, 1, 2, 1, 2, 1, 2]);
    assert_eq!(workshop_fear_output_ring(-5), [2, 2, 2, 2, 2, 2, 2, 2, 2, 2]);
}

#[test]
fn wheat_farmer_returns_faster_when_empty() {
    assert_eq!(farm_travel_ticks(1), 12 * (16 + 12));
}

#[test]
fn calibrated_three_farm_layout_produces_about_twenty_two_wheat_per_minute() {
    let wheat_per_minute = [16, 4, 8]
        .into_iter()
        .map(|distance| 24.0 / (WHEAT_FARM_WORK_TICKS + farm_travel_ticks(distance)) as f64 * 3_000.0)
        .sum::<f64>();

    assert!((wheat_per_minute - 22.0).abs() < 0.05);
}

#[test]
fn every_placeable_building_is_selected_by_its_identifier() {
    for building in BuildingType::all() {
        assert_eq!(BuildingType::from_id(building.id()), Some(building));
    }
    assert_eq!(BuildingType::from_id(BuildingType::Stockpile.id()), None);
    assert_eq!(BuildingType::from_id("castle"), None);
    assert_eq!(BuildingType::Windmill.display_name(), "Wind Mill");
}

#[test]
fn an_empty_square_footprint_has_no_offsets() {
    let footprint = Footprint::square(0);
    assert!(footprint.occupied_offsets().is_empty());
    assert!(footprint.blocking_offsets().is_empty());
    assert_eq!(Footprint::square(2).occupied_offsets(), vec![(0, 0), (1, 0), (0, 1), (1, 1)]);
}

#[test]
fn non_workshops_have_no_worker_speed() {
    assert_eq!(BuildingType::GoodsYard.worker_slowdown_base(), None);
    assert_eq!(BuildingType::Stockpile.worker_slowdown_base(), None);
    assert_eq!(BuildingType::Armoury.worker_slowdown_base(), None);
}
