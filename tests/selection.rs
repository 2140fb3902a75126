use midiswitch::message::Message;
use midiswitch::selection::{find_char, SelectionController};

fn strings(items: &[&str]) -> Vec<String> {
    items.iter().map(|s| s.to_string()).collect()
}

#[test]
fn empty_mappings_are_left_out() {
    let sel = SelectionController::new(&strings(&["", "ab", ""]), &strings(&["xyz", ""]));
    assert_eq!(sel.mapping_count(), 2);
    assert_eq!(sel.split_count(), 1);
    assert_eq!(sel.split_ports(), vec![2]);
    assert_eq!(sel.merge_ports(), vec![3]);
}

#[test]
fn key_in_several_mappings_updates_all() {
    let mut sel = SelectionController::new(&strings(&["qwerty", "asdf"]), &strings(&["fgh"]));
    let msgs = sel.press('f');
    assert_eq!(msgs, vec![Message::Split(1, 3), Message::Merge(0, 0)]);
    assert_eq!(sel.selected(0), 0);
    assert_eq!(sel.selected(1), 3);
    assert_eq!(sel.selected(2), 0);
    let msgs = sel.press('h');
    assert_eq!(msgs, vec![Message::Merge(0, 2)]);
    assert_eq!(sel.selected(2), 2);
}

#[test]
fn unmapped_key_changes_nothing() {
    let mut sel = SelectionController::new(&strings(&["qwerty"]), &strings(&["jkl"]));
    sel.press('e');
    assert!(sel.press('z').is_empty());
    assert_eq!(sel.selected(0), 2);
    assert_eq!(sel.selected(1), 0);
}

#[test]
fn repeated_character_selects_first_position() {
    assert_eq!(find_char(&vec!['a', 'b', 'a'], 'a'), Some(0));
    assert_eq!(find_char(&vec!['a', 'b', 'c'], 'c'), Some(2));
    assert_eq!(find_char(&vec![], 'c'), None);
    let mut sel = SelectionController::new(&strings(&["abcb"]), &vec![]);
    assert_eq!(sel.press('b'), vec![Message::Split(0, 1)]);
}

#[test]
fn render_brackets_selected_characters() {
    let mut sel = SelectionController::new(&strings(&["qwe"]), &strings(&["jk"]));
    assert_eq!(sel.render(), "[q]  w   e   |  [j]  k   |  ");
    sel.press('e');
    sel.press('k');
    assert_eq!(sel.render(), " q   w  [e]  |   j  [k]  |  ");
}

#[test]
fn render_of_no_mappings_is_empty() {
    let sel = SelectionController::new(&vec![], &vec![]);
    assert_eq!(sel.render(), "");
}
