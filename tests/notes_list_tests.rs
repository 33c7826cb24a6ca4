use note_squirrel::editor::Editor;
use note_squirrel::notes_list::{contains_text, matches_search, NotesList};

fn loaded() -> NotesList {
    let mut n = NotesList::new();
    n.load_notes(vec!["A".to_string(), "B".to_string()], vec!["a".to_string(), "b".to_string()]);
    n
}

#[test]
fn empty_list_has_no_current_note() {
    let n = NotesList::new();
    assert_eq!(n.get_current_note_name(), "No Note");
    assert_eq!(n.get_current_content(), "");
    assert!(!n.is_current_note_dirty());
}

#[test]
fn edits_make_the_note_dirty_until_saved() {
    let mut n = loaded();
    assert_eq!(n.get_current_note_name(), "A");
    n.save_current_content("a2");
    assert!(n.is_current_note_dirty());
    assert!(n.has_any_dirty_notes());
    assert_eq!(n.dirty_notes(), vec![0]);
    n.save_current_content("a");
    assert!(!n.is_current_note_dirty());
    n.save_current_content("a3");
    n.mark_saved(0);
    assert!(!n.has_any_dirty_notes());
    n.save_current_content("a");
    assert!(n.is_current_note_dirty());
    n.save_current_note("a");
    n.mark_current_clean();
    assert!(!n.is_current_note_dirty());
}

#[test]
fn new_note_is_numbered_and_current() {
    let mut n = loaded();
    let name = n.new_note_name();
    assert_eq!(name, "Note 3");
    n.create_new_note(name);
    assert_eq!(n.get_current_note_name(), "Note 3");
    assert_eq!(n.get_current_content(), "");
}

#[test]
fn deleting_last_note_moves_to_new_last() {
    let mut n = loaded();
    assert!(n.switch_to_note(1));
    assert!(n.delete_current_note());
    assert_eq!(n.get_current_note_name(), "A");
    assert!(n.delete_current_note());
    assert_eq!(n.get_current_note_name(), "No Note");
    assert!(!n.delete_current_note());
}

#[test]
fn switching_and_renaming() {
    let mut n = loaded();
    assert!(!n.switch_to_note(2));
    assert!(n.switch_to_note(1));
    assert_eq!(n.get_current_content(), "b");
    assert!(n.rename_note("B", "Bee"));
    assert_eq!(n.get_current_note_name(), "Bee");
    assert!(!n.rename_note("Z", "Y"));
}

#[test]
fn editor_loads_current_note_with_fresh_history() {
    let n = loaded();
    let mut e = Editor::new();
    e.set_text_with_undo("x");
    e.load_notes(&n);
    assert_eq!(e.get_text(), "a");
    assert!(!e.undo());
}

#[test]
fn switching_notes_starts_a_fresh_history() {
    let mut n = loaded();
    let mut e = Editor::new();
    e.load_notes(&n);
    e.set_text_with_undo("a edited");
    n.save_current_content(e.get_text());
    assert!(n.switch_to_note(1));
    e.load_notes(&n);
    assert_eq!(e.get_text(), "b");
    assert!(!e.undo());
    assert!(n.switch_to_note(0));
    e.load_notes(&n);
    assert_eq!(e.get_text(), "a edited");
}

#[test]
fn sidebar_search_ignores_case() {
    assert!(matches_search("Shopping List", ""));
    assert!(matches_search("Shopping List", "LIST"));
    assert!(matches_search("Shopping List", "ping l"));
    assert!(!matches_search("Shopping List", "lists"));
}

#[test]
fn plain_containment() {
    assert!(contains_text("abc", "bc"));
    assert!(contains_text("abc", ""));
    assert!(!contains_text("abc", "B"));
}
