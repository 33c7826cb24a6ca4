use note_squirrel::editor::Editor;

#[test]
fn undo_then_redo_restores_every_state_in_order() {
    let mut e = Editor::new();
    e.set_text_with_undo("a");
    e.set_text_with_undo("b");
    e.set_text_with_undo("c");
    assert!(e.undo());
    assert_eq!(e.get_text(), "b");
    assert!(e.undo());
    assert_eq!(e.get_text(), "a");
    assert!(e.undo());
    assert_eq!(e.get_text(), "");
    assert!(e.redo());
    assert_eq!(e.get_text(), "a");
    assert!(e.redo());
    assert_eq!(e.get_text(), "b");
    assert!(e.redo());
    assert_eq!(e.get_text(), "c");
    assert!(!e.redo());
}

#[test]
fn new_edit_drops_the_redo_side() {
    let mut e = Editor::new();
    e.set_text_with_undo("a");
    e.set_text_with_undo("b");
    assert!(e.undo());
    e.set_text_with_undo("z");
    assert!(!e.redo());
    assert_eq!(e.get_text(), "z");
    assert!(e.undo());
    assert_eq!(e.get_text(), "a");
}

#[test]
fn undo_and_redo_on_empty_history_change_nothing() {
    let mut e = Editor::new();
    e.set_text("kept");
    assert!(!e.undo());
    assert_eq!(e.get_text(), "kept");
    assert!(!e.redo());
    assert_eq!(e.get_text(), "kept");
}

#[test]
fn unchanged_text_records_no_history() {
    let mut e = Editor::new();
    e.set_text("same");
    e.set_text_with_undo("same");
    assert!(!e.undo());
}

#[test]
fn set_text_keeps_history_untouched() {
    let mut e = Editor::new();
    e.set_text_with_undo("one");
    e.set_text("two");
    assert!(e.undo());
    assert_eq!(e.get_text(), "");
}

#[test]
fn checkbox_entry_into_empty_document() {
    let mut e = Editor::new();
    assert!(e.insert_checkbox_entry(Some(0)));
    assert_eq!(e.get_text(), "- [ ] ");
    assert_eq!(e.take_cursor_override(), Some(6));
    assert_eq!(e.take_cursor_override(), None);
}

#[test]
fn list_entry_inherits_indentation_of_list_line() {
    let mut e = Editor::new();
    e.set_text("  - item\nabc");
    assert!(e.insert_list_entry(Some(9)));
    assert_eq!(e.get_text(), "  - item\n\n  - abc");
    assert_eq!(e.take_cursor_override(), Some(14));
    assert!(e.undo());
    assert_eq!(e.get_text(), "  - item\nabc");
}

#[test]
fn list_entry_on_list_line_itself_takes_line_above() {
    let mut e = Editor::new();
    e.set_text("  - item");
    e.insert_list_entry(Some(8));
    assert_eq!(e.get_text(), "  - item\n- ");
}

#[test]
fn list_entry_after_plain_line_has_no_indentation() {
    let mut e = Editor::new();
    e.set_text("  plain\nx");
    e.insert_list_entry(Some(9));
    assert_eq!(e.get_text(), "  plain\nx\n- ");
}

#[test]
fn list_entry_after_numbered_line_inherits_indentation() {
    let mut e = Editor::new();
    e.set_text("   12. x\ny");
    e.insert_checkbox_entry(Some(10));
    assert_eq!(e.get_text(), "   12. x\ny\n   - [ ] ");
    e.set_text("  1. x\ny");
    e.insert_list_entry(Some(8));
    assert_eq!(e.get_text(), "  1. x\ny\n  - ");
}

#[test]
fn list_entry_on_blank_line_is_written_in_place() {
    let mut e = Editor::new();
    e.set_text("  - a\n");
    e.insert_list_entry(Some(6));
    assert_eq!(e.get_text(), "  - a\n  - ");
}

#[test]
fn list_entry_defaults_to_known_cursor_then_end() {
    let mut e = Editor::new();
    e.set_text("ab");
    e.insert_list_entry(None);
    assert_eq!(e.get_text(), "ab\n- ");
    e.set_text("ab");
    e.set_cursor_pos(Some(1));
    e.insert_list_entry(None);
    assert_eq!(e.get_text(), "a\n- b");
}

#[test]
fn list_entry_after_non_ascii_text() {
    let mut e = Editor::new();
    e.set_text("é");
    e.insert_list_entry(None);
    assert_eq!(e.get_text(), "é\n- ");
}

#[test]
fn toggle_checkbox_round_trip() {
    let mut e = Editor::new();
    e.set_text("- [ ] buy milk");
    e.toggle_checkbox_at_line(0);
    assert_eq!(e.get_text(), "- [x] buy milk");
    e.toggle_checkbox_at_line(0);
    assert_eq!(e.get_text(), "- [ ] buy milk");
}

#[test]
fn toggle_checkbox_without_marker_changes_nothing() {
    let mut e = Editor::new();
    e.set_text("buy milk");
    e.toggle_checkbox_at_line(0);
    assert_eq!(e.get_text(), "buy milk");
    assert!(!e.undo());
}

#[test]
fn toggle_checkbox_on_later_line_and_out_of_range() {
    let mut e = Editor::new();
    e.set_text("# list\n- [x] a\n- [ ] b\n");
    e.toggle_checkbox_at_line(2);
    assert_eq!(e.get_text(), "# list\n- [x] a\n- [x] b\n");
    e.toggle_checkbox_at_line(1);
    assert_eq!(e.get_text(), "# list\n- [ ] a\n- [x] b\n");
    e.toggle_checkbox_at_line(3);
    assert_eq!(e.get_text(), "# list\n- [ ] a\n- [x] b\n");
    assert!(e.undo());
    assert_eq!(e.get_text(), "# list\n- [x] a\n- [x] b\n");
}

#[test]
fn toggle_only_first_marker_of_line() {
    let mut e = Editor::new();
    e.set_text("- [ ] a - [ ] b");
    e.toggle_checkbox_at_line(0);
    assert_eq!(e.get_text(), "- [x] a - [ ] b");
}

#[test]
fn focus_is_requested_once() {
    let mut e = Editor::new();
    assert!(e.take_focus_request());
    assert!(!e.take_focus_request());
}

#[test]
fn unicode_blank_line_takes_entry_in_place() {
    let mut e = Editor::new();
    e.set_text("a\n\u{3000}\u{a0}");
    e.insert_list_entry(Some(2));
    assert_eq!(e.get_text(), "a\n- \u{3000}\u{a0}");
}

#[test]
fn unicode_indentation_is_inherited() {
    let mut e = Editor::new();
    e.set_text("\u{a0}\u{3000}- a\nb");
    let end = e.get_text().len();
    e.insert_checkbox_entry(Some(end));
    assert_eq!(e.get_text(), "\u{a0}\u{3000}- a\nb\n\u{a0}\u{3000}- [ ] ");
}
