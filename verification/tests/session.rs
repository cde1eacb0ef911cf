use simulator::ProjectSession;
use simulator::session::{MAX_RECENT_FILES, name_or_empty, name_or_untitled};

#[test]
fn new_session_has_a_safe_display_name() {
    assert_eq!(ProjectSession::new().current_name(), "Untitled");
}

#[test]
fn opened_project_is_named_by_its_file() {
    let mut session = ProjectSession::new();
    session.mark_opened("projects/eco.json".to_string());
    assert_eq!(session.current_name(), "eco.json");
    assert_eq!(session.current_path(), Some("projects/eco.json".to_string()));
}

#[test]
fn reopening_a_project_moves_it_to_the_front_once() {
    let mut session =
        ProjectSession::restore("data".to_string(), vec!["a.json".to_string(), "b.json".to_string(), "c.json".to_string()]);
    session.mark_opened("b.json".to_string());
    assert_eq!(session.recent_paths(), &vec!["b.json".to_string(), "a.json".to_string(), "c.json".to_string()]);
    assert_eq!(session.app_data_dir(), "data");
}

#[test]
fn recent_list_keeps_only_the_newest_files() {
    let mut session = ProjectSession::new();
    for index in 0..15 {
        session.mark_opened(format!("p{index}.json"));
    }
    assert_eq!(session.recent_paths().len(), MAX_RECENT_FILES);
    assert_eq!(session.recent_paths()[0], "p14.json");
    assert_eq!(session.recent_paths()[9], "p5.json");
}

#[test]
fn latest_recent_skips_files_that_are_gone() {
    let session = ProjectSession::restore(
        String::new(),
        vec!["gone.json".to_string(), "dir/kept.json".to_string(), "other.json".to_string()],
    );
    assert_eq!(session.latest_recent_path(&vec![false, true, true]), Some("dir/kept.json".to_string()));
    assert_eq!(session.latest_recent_name(&vec![false, true, true]), "kept.json");
    assert_eq!(session.latest_recent_path(&vec![false, false, false]), None);
    assert_eq!(session.latest_recent_name(&vec![false, false, false]), "");
}

#[test]
fn display_names_fall_back_when_there_is_no_file_name() {
    assert_eq!(name_or_untitled(None), "Untitled");
    assert_eq!(name_or_untitled(Some("x.json".to_string())), "x.json");
    assert_eq!(name_or_empty(None), "");
    assert_eq!(name_or_empty(Some("y.json".to_string())), "y.json");
}

#[test]
fn latest_recent_name_takes_the_last_component_of_a_relative_path() {
    let session = ProjectSession::restore(
        String::new(),
        vec!["projects/../up".to_string(), "a/b/c/deep.json".to_string(), "tmp/..".to_string()],
    );
    assert_eq!(session.latest_recent_name(&vec![true, true, true]), "up");
    assert_eq!(session.latest_recent_name(&vec![false, true, true]), "deep.json");
    assert_eq!(session.latest_recent_name(&vec![false, false, true]), "");
}

#[test]
fn absolute_project_paths_are_named_by_their_file() {
    let mut session = ProjectSession::new();
    session.mark_opened("/home/u/castle.json".to_string());
    assert_eq!(session.current_name(), "castle.json");
    let session = ProjectSession::restore(
        String::new(),
        vec!["/gone/a.json".to_string(), "/srv/maps/b.json".to_string()],
    );
    assert_eq!(session.latest_recent_name(&vec![false, true]), "b.json");
}
