use crowd2x::keyboard::{key_rows, KeyCap, TextEntry};
use crowd2x::map::MAX_NAME;
use crowd2x::nav::{step, Dir, Focusable};

#[test]
fn only_characters_a_map_name_may_contain_are_accepted() {
    let mut entry = TextEntry::default();
    for c in "of/fi..ce 2".chars() {
        entry.push(c);
    }
    assert_eq!(entry.text(), "office 2");
}

#[test]
fn the_field_cannot_be_typed_past_the_name_limit() {
    let mut entry = TextEntry::default();
    for _ in 0..MAX_NAME * 2 {
        entry.push('x');
    }
    assert_eq!(entry.text().chars().count(), MAX_NAME);
}

#[test]
fn the_field_says_what_it_is_for_when_it_is_empty() {
    let mut entry = TextEntry::default();
    assert_eq!(entry.display(), "new map...");

    entry.open();
    assert_eq!(entry.display(), "_", "an open field shows its caret");
    entry.push('a');
    assert_eq!(entry.display(), "a_");

    entry.close();
    assert_eq!(entry.display(), "a");
}

#[test]
fn backspacing_an_empty_field_is_harmless() {
    let mut entry = TextEntry::default();
    entry.backspace();
    assert_eq!(entry.text(), "");
}

#[test]
fn the_key_rows_are_a_full_rectangle_of_reachable_keys() {
    let rows = key_rows();
    let mut slots: Vec<Focusable> = rows
        .iter()
        .enumerate()
        .flat_map(|(row, keys)| {
            (0..keys.chars().count()).map(move |col| Focusable::new(row as i32, col as i32))
        })
        .collect();
    slots.push(Focusable::new(rows.len() as i32, 0));
    slots.push(Focusable::new(rows.len() as i32, 1));

    let last_letter = slots.len() - 3;
    let down = step(&slots, last_letter, Dir::Down).expect("down leaves the letters");
    assert_eq!(slots[down].row, rows.len() as i32);
    let wrapped = step(&slots, down, Dir::Down).expect("down wraps");
    assert_eq!(slots[wrapped].row, 0);
}

#[test]
fn a_physical_keyboard_types_through_the_same_rules() {
    let mut entry = TextEntry::default();
    entry.type_text("Lab #3!");
    assert_eq!(entry.text(), "Lab 3");
}

#[test]
fn a_name_set_whole_is_cut_to_the_limit() {
    let mut entry = TextEntry::default();
    let long: String = std::iter::repeat('y').take(MAX_NAME + 5).collect();
    entry.set(&long);
    assert_eq!(entry.text().chars().count(), MAX_NAME);
    entry.set("lobby");
    assert_eq!(entry.text(), "lobby");
}

#[test]
fn the_on_screen_keys_type_delete_and_finish() {
    let mut entry = TextEntry::default();
    entry.open();
    assert!(!entry.press(KeyCap::Char('h')));
    assert!(!entry.press(KeyCap::Char('i')));
    assert!(!entry.press(KeyCap::Backspace));
    assert_eq!(entry.text(), "h");
    assert!(entry.press(KeyCap::Done));
    assert!(!entry.is_open());
    assert_eq!(entry.display(), "h");
}

#[test]
fn clearing_forgets_the_name_but_not_whether_typing_is_open() {
    let mut entry = TextEntry::default();
    entry.open();
    entry.push('q');
    entry.clear();
    assert_eq!(entry.text(), "");
    assert!(entry.is_open());
}
