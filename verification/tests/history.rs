use simulator::{BuildingType, MapHistory, Simulator};

#[test]
fn undo_and_redo_swap_layout_snapshots() {
    let mut history: MapHistory<Simulator> = MapHistory::new();
    let before = Simulator::new(20).expect("simulator should be created");
    let mut after = Simulator::new(20).expect("simulator should be created");
    after.place_building(BuildingType::Armoury, 5, 5).expect("armoury should be placed");

    history.record(before);
    assert!(history.can_undo());
    assert!(!history.can_redo());

    let restored = history.undo(after).ok().expect("an edit can be undone");
    assert!(restored.buildings().is_empty());
    assert!(!history.can_undo());
    assert!(history.can_redo());

    let redone = history.redo(restored).ok().expect("the undone edit can be redone");
    assert_eq!(redone.buildings().len(), 1);
    assert!(history.can_undo());
    assert!(!history.can_redo());
}

#[test]
fn a_new_edit_clears_the_redo_chain() {
    let mut history: MapHistory<u32> = MapHistory::new();
    history.record(1);
    history.record(2);
    assert_eq!(history.undo(3), Ok(2));
    assert!(history.can_redo());
    history.record(4);
    assert!(!history.can_redo());
    assert_eq!(history.redo(5), Err(5));
    assert_eq!(history.undo(6), Ok(4));
    assert_eq!(history.undo(7), Ok(1));
    assert_eq!(history.undo(8), Err(8));
    history.clear();
    assert!(!history.can_undo() && !history.can_redo());
}
