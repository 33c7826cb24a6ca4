use note_squirrel::find_replace::{matches_of_ranges, FindReplace, FindReplaceAction, Match};

fn searching(find: &str) -> FindReplace {
    let mut fr = FindReplace::new();
    fr.find_text = find.to_string();
    fr
}

#[test]
fn case_insensitive_literal_search_and_cycling() {
    let mut fr = searching("foo");
    fr.update_matches("Foo foo FOO");
    assert_eq!(fr.get_match_ranges(), vec![(0, 3), (4, 7), (8, 11)]);
    assert_eq!(fr.current_match_index, Some(0));
    fr.next_match();
    assert_eq!(fr.current_match_index, Some(1));
    fr.next_match();
    assert_eq!(fr.current_match_index, Some(2));
    fr.next_match();
    assert_eq!(fr.current_match_index, Some(0));
    fr.previous_match();
    assert_eq!(fr.current_match_index, Some(2));
    fr.previous_match();
    assert_eq!(fr.current_match_index, Some(1));
}

#[test]
fn case_sensitive_literal_search() {
    let mut fr = searching("foo");
    fr.case_sensitive = true;
    fr.update_matches("Foo foo FOO");
    assert_eq!(fr.get_match_ranges(), vec![(4, 7)]);
}

#[test]
fn literal_search_reports_overlapping_matches() {
    let mut fr = searching("aa");
    fr.update_matches("aaa");
    assert_eq!(fr.matches, vec![Match { start: 0, end: 2 }, Match { start: 1, end: 3 }]);
    fr.case_sensitive = true;
    fr.update_matches("aaa");
    assert_eq!(fr.matches, vec![Match { start: 0, end: 2 }, Match { start: 1, end: 3 }]);
}

#[test]
fn case_insensitive_overlap_on_multibyte_text() {
    let mut fr = searching("éé");
    fr.update_matches("ÉÉé");
    assert_eq!(fr.get_match_ranges(), vec![(0, 4), (2, 6)]);
}

#[test]
fn accepting_matches_keeps_active_match_in_range() {
    let mut fr = FindReplace::new();
    fr.current_match_index = Some(4);
    let found = matches_of_ranges(&vec![(0, 1), (2, 3)]);
    assert_eq!(found, vec![Match { start: 0, end: 1 }, Match { start: 2, end: 3 }]);
    fr.accept_matches(found);
    assert_eq!(fr.current_match_index, Some(1));
    fr.accept_matches(vec![]);
    assert_eq!(fr.current_match_index, None);
    fr.accept_matches(vec![Match { start: 0, end: 1 }]);
    assert_eq!(fr.current_match_index, Some(0));
}

#[test]
fn case_insensitive_offsets_point_into_the_text() {
    let text = "İx X";
    let mut fr = searching("x");
    fr.update_matches(text);
    assert_eq!(fr.get_match_ranges(), vec![(2, 3), (4, 5)]);
    for (s, e) in fr.get_match_ranges() {
        assert_eq!(text[s..e].to_lowercase(), "x");
    }
}

#[test]
fn literal_search_treats_meta_characters_literally() {
    let mut fr = searching("a.b");
    fr.update_matches("axb A.B");
    assert_eq!(fr.get_match_ranges(), vec![(4, 7)]);
}

#[test]
fn case_sensitive_search_of_non_ascii_text() {
    let mut fr = searching("é");
    fr.case_sensitive = true;
    fr.update_matches("aéé");
    assert_eq!(fr.get_match_ranges(), vec![(1, 3), (3, 5)]);
    fr.find_text = "éé".to_string();
    fr.update_matches("ééé");
    assert_eq!(fr.get_match_ranges(), vec![(0, 4), (2, 6)]);
}

#[test]
fn empty_search_finds_nothing() {
    let mut fr = searching("");
    fr.current_match_index = Some(3);
    fr.update_matches("anything");
    assert!(fr.matches.is_empty());
    assert_eq!(fr.current_match_index, None);
}

#[test]
fn active_match_is_kept_in_range() {
    let mut fr = searching("a");
    fr.current_match_index = Some(5);
    fr.update_matches("a a");
    assert_eq!(fr.current_match_index, Some(1));
    fr.update_matches("bbb");
    assert_eq!(fr.current_match_index, None);
}

#[test]
fn regex_search_is_case_insensitive_by_default() {
    let mut fr = searching("f.o");
    fr.use_regex = true;
    fr.update_matches("Foo fxo FOO");
    assert_eq!(fr.get_match_ranges(), vec![(0, 3), (4, 7), (8, 11)]);
}

#[test]
fn rejected_regex_finds_nothing() {
    let mut fr = searching("(");
    fr.use_regex = true;
    fr.update_matches("(((");
    assert!(fr.matches.is_empty());
    assert_eq!(fr.current_match_index, None);
}

#[test]
fn next_and_previous_without_matches_change_nothing() {
    let mut fr = FindReplace::new();
    fr.next_match();
    assert_eq!(fr.current_match_index, None);
    fr.previous_match();
    assert_eq!(fr.current_match_index, None);
}

#[test]
fn previous_without_active_match_goes_to_last() {
    let mut fr = searching("x");
    fr.update_matches("x x x");
    fr.current_match_index = None;
    fr.previous_match();
    assert_eq!(fr.current_match_index, Some(2));
}

#[test]
fn replace_current_literal() {
    let mut fr = searching("foo");
    fr.replace_text = "baz".to_string();
    let mut text = "foo bar foo".to_string();
    fr.update_matches(&text);
    assert!(fr.replace_current(&mut text));
    assert_eq!(text, "baz bar foo");
    assert!(fr.find_text_changed);
}

#[test]
fn replace_current_regex_expands_groups() {
    let mut fr = searching("([0-9]+)");
    fr.use_regex = true;
    fr.replace_text = "<$1>".to_string();
    let mut text = "ab 123 cd".to_string();
    fr.update_matches(&text);
    assert!(fr.replace_current(&mut text));
    assert_eq!(text, "ab <123> cd");
}

#[test]
fn replace_current_without_fitting_match_is_refused() {
    let mut fr = searching("foo");
    let mut text = "foo".to_string();
    assert!(!fr.replace_current(&mut text));
    fr.update_matches("xx foo");
    assert!(!fr.replace_current(&mut text));
    assert_eq!(text, "foo");
}

#[test]
fn replace_all_literal() {
    let mut fr = searching("foo");
    fr.replace_text = "baz".to_string();
    let mut text = "foo bar FOO".to_string();
    fr.update_matches(&text);
    assert_eq!(fr.replace_all(&mut text), 2);
    assert_eq!(text, "baz bar baz");
}

#[test]
fn replace_all_regex() {
    let mut fr = searching("f(o+)");
    fr.use_regex = true;
    fr.case_sensitive = true;
    fr.replace_text = "$1".to_string();
    let mut text = "foo fooo".to_string();
    fr.update_matches(&text);
    assert_eq!(fr.replace_all(&mut text), 2);
    assert_eq!(text, "oo ooo");
}

#[test]
fn replace_all_without_matches_changes_nothing() {
    let mut fr = searching("zzz");
    let mut text = "abc".to_string();
    fr.update_matches(&text);
    assert_eq!(fr.replace_all(&mut text), 0);
    assert_eq!(text, "abc");
    assert!(!fr.find_text_changed);
}

#[test]
fn dialog_toggle_and_close() {
    let mut fr = searching("a");
    fr.toggle_dialog();
    assert!(fr.show_dialog);
    assert!(fr.find_text_changed && fr.should_focus);
    fr.update_matches("aaa");
    fr.close_dialog();
    assert!(!fr.show_dialog);
    assert!(fr.matches.is_empty());
    assert_eq!(fr.current_match_index, None);
    assert_eq!(FindReplaceAction::NoAction, FindReplaceAction::NoAction);
}

fn quiet() -> note_squirrel::find_replace::DialogInput {
    note_squirrel::find_replace::DialogInput {
        find_changed: false,
        find_has_focus: false,
        find_submitted: false,
        replace_submitted: false,
        options_changed: false,
        replace_all_clicked: false,
        replace_clicked: false,
        previous_clicked: false,
        next_clicked: false,
        escape: false,
        alt_r: false,
        alt_a: false,
    }
}

#[test]
fn hidden_dialog_asks_for_nothing() {
    let mut fr = FindReplace::new();
    let mut input = quiet();
    input.next_clicked = true;
    assert_eq!(fr.dialog_action(input), FindReplaceAction::NoAction);
}

#[test]
fn edited_find_text_asks_for_a_search_once() {
    let mut fr = FindReplace::new();
    fr.show_dialog = true;
    let mut input = quiet();
    input.find_changed = true;
    assert_eq!(fr.dialog_action(input), FindReplaceAction::NoAction);
    assert!(fr.find_text_changed);
    let mut focused = quiet();
    focused.find_has_focus = true;
    assert_eq!(fr.dialog_action(focused), FindReplaceAction::UpdateMatches);
    assert!(!fr.find_text_changed);
    assert_eq!(fr.dialog_action(focused), FindReplaceAction::NoAction);
}

#[test]
fn later_dialog_events_win() {
    let mut fr = FindReplace::new();
    fr.show_dialog = true;
    let mut input = quiet();
    input.options_changed = true;
    input.previous_clicked = true;
    assert_eq!(fr.dialog_action(input), FindReplaceAction::PreviousMatch);
    assert!(fr.find_text_changed);
    let mut keys = quiet();
    keys.replace_clicked = true;
    keys.alt_a = true;
    assert_eq!(fr.dialog_action(keys), FindReplaceAction::ReplaceAll);
}

#[test]
fn escape_closes_the_dialog() {
    let mut fr = searching("a");
    fr.show_dialog = true;
    fr.update_matches("aa");
    let mut input = quiet();
    input.escape = true;
    assert_eq!(fr.dialog_action(input), FindReplaceAction::NoAction);
    assert!(!fr.show_dialog);
    assert!(fr.matches.is_empty());
}
