use simulator::outline::{BuildingBoundary, build_building_boundaries};
use simulator::{BuildingType, Simulator};

fn sorted_unique(edges: &[BuildingBoundary]) -> bool {
    edges.windows(2).all(|pair| (pair[0].x, pair[0].y, pair[0].horizontal) < (pair[1].x, pair[1].y, pair[1].horizontal))
}

#[test]
fn a_building_is_outlined_by_its_cell_sides() {
    let mut simulator = Simulator::new(20).expect("simulator should be created");
    simulator.place_building(BuildingType::Armoury, 2, 3).expect("armoury should be placed");
    let edges = build_building_boundaries(&simulator);
    assert_eq!(edges.len(), 16);
    assert!(sorted_unique(&edges));
    assert!(edges.contains(&BuildingBoundary { x: 2, y: 3, horizontal: true }));
    assert!(edges.contains(&BuildingBoundary { x: 5, y: 7, horizontal: true }));
    assert!(edges.contains(&BuildingBoundary { x: 6, y: 6, horizontal: false }));
    assert!(!edges.contains(&BuildingBoundary { x: 3, y: 5, horizontal: true }));
    assert_eq!(edges[0], BuildingBoundary { x: 2, y: 3, horizontal: false });
}

#[test]
fn a_goods_yard_is_outlined_as_one_area() {
    let mut simulator = Simulator::new(20).expect("simulator should be created");
    simulator.place_building(BuildingType::GoodsYard, 4, 4).expect("goods yard should be placed");
    let edges = build_building_boundaries(&simulator);
    assert_eq!(edges.len(), 20);
    assert!(sorted_unique(&edges));
    assert!(edges.contains(&BuildingBoundary { x: 9, y: 8, horizontal: false }));
    assert!(!edges.contains(&BuildingBoundary { x: 6, y: 6, horizontal: true }));
}

#[test]
fn touching_buildings_share_their_common_sides() {
    let mut simulator = Simulator::new(20).expect("simulator should be created");
    simulator.place_building(BuildingType::Armoury, 2, 2).expect("armoury should be placed");
    simulator.place_building(BuildingType::Granary, 6, 2).expect("granary should be placed");
    let edges = build_building_boundaries(&simulator);
    assert_eq!(edges.len(), 28);
    assert!(sorted_unique(&edges));
}
