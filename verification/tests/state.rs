use crowd2x::state::{trim, AppState};

#[test]
fn a_screen_is_found_by_any_of_its_names() {
    assert_eq!(AppState::from_name("menu"), Some(AppState::MainMenu));
    assert_eq!(AppState::from_name("main_menu"), Some(AppState::MainMenu));
    assert_eq!(AppState::from_name("browser"), Some(AppState::Maps));
    assert_eq!(AppState::from_name("edit"), Some(AppState::Editor));
    assert_eq!(AppState::from_name("play"), Some(AppState::Game));
}

#[test]
fn a_screen_name_ignores_case_and_surrounding_white_space() {
    assert_eq!(AppState::from_name("  Game\n"), Some(AppState::Game));
    assert_eq!(AppState::from_name("\tMAPS "), Some(AppState::Maps));
    assert_eq!(AppState::from_name("\u{3000}Editor\u{a0}"), Some(AppState::Editor));
}

#[test]
fn an_unknown_screen_name_is_none() {
    assert_eq!(AppState::from_name("credits"), None);
    assert_eq!(AppState::from_name(""), None);
    assert_eq!(AppState::from_name("ga me"), None, "white space inside a name is kept");
}

#[test]
fn the_listed_names_are_all_found() {
    for name in AppState::names().split(", ") {
        assert!(AppState::from_name(name).is_some(), "{name} is listed but not found");
    }
    assert_eq!(AppState::default(), AppState::MainMenu);
}

#[test]
fn trimming_takes_white_space_off_both_ends_only() {
    assert_eq!(trim("  a b \n"), "a b");
    assert_eq!(trim("   "), "");
    assert_eq!(trim("x"), "x");
    for text in ["  a b \n", "\u{2003}z\u{85}", "", " \t "] {
        assert_eq!(trim(text), text.trim());
    }
}
