use note_squirrel::editor::Editor;
use note_squirrel::styling::{build_styled_runs, Highlight, LayoutCache, RunKind, StyledRun};

fn r(start: usize, end: usize, kind: RunKind, highlight: Highlight) -> StyledRun {
    StyledRun { start, end, kind, highlight }
}

fn assert_partition(runs: &[StyledRun], len: usize) {
    let mut at = 0;
    for run in runs {
        assert_eq!(run.start, at);
        assert!(run.start < run.end);
        at = run.end;
    }
    assert_eq!(at, len);
}

#[test]
fn empty_text_has_no_runs() {
    assert!(build_styled_runs("", &[], None).is_empty());
}

#[test]
fn heading_line_splits_marker_space_and_text() {
    let runs = build_styled_runs("## Two", &[], None);
    assert_eq!(
        runs,
        vec![
            r(0, 2, RunKind::Marker, Highlight::Plain),
            r(2, 3, RunKind::Body, Highlight::Plain),
            r(3, 6, RunKind::Heading(2), Highlight::Plain),
        ]
    );
}

#[test]
fn seven_hashes_are_no_heading() {
    let runs = build_styled_runs("####### x", &[], None);
    assert_eq!(runs, vec![r(0, 9, RunKind::Body, Highlight::Plain)]);
}

#[test]
fn heading_marker_must_open_the_line() {
    let runs = build_styled_runs("#x # y", &[], None);
    assert_eq!(runs, vec![r(0, 6, RunKind::Body, Highlight::Plain)]);
}

#[test]
fn indented_heading_keeps_indentation_as_body() {
    let runs = build_styled_runs("  ###### six", &[], None);
    assert_eq!(
        runs,
        vec![
            r(0, 2, RunKind::Body, Highlight::Plain),
            r(2, 8, RunKind::Marker, Highlight::Plain),
            r(8, 9, RunKind::Body, Highlight::Plain),
            r(9, 12, RunKind::Heading(6), Highlight::Plain),
        ]
    );
}

#[test]
fn hash_without_space_is_body_text() {
    let runs = build_styled_runs("#tag", &[], None);
    assert_eq!(runs, vec![r(0, 4, RunKind::Body, Highlight::Plain)]);
}

#[test]
fn line_kinds_from_leading_markup() {
    let text = "```rs\n> q\n- a\n* b\n+ c\n12. d\n1x\nplain";
    let runs = build_styled_runs(text, &[], None);
    let kinds: Vec<RunKind> = runs.iter().filter(|x| x.end - x.start > 1).map(|x| x.kind).collect();
    assert_eq!(
        kinds,
        vec![
            RunKind::Code,
            RunKind::Quote,
            RunKind::ListItem,
            RunKind::ListItem,
            RunKind::ListItem,
            RunKind::ListItem,
            RunKind::Body,
            RunKind::Body,
        ]
    );
    assert_partition(&runs, text.len());
}

#[test]
fn line_feeds_are_runs_of_their_own() {
    let runs = build_styled_runs("ab\ncd\n", &[], None);
    assert_eq!(
        runs,
        vec![
            r(0, 2, RunKind::Body, Highlight::Plain),
            r(2, 3, RunKind::Body, Highlight::Plain),
            r(3, 5, RunKind::Body, Highlight::Plain),
            r(5, 6, RunKind::Body, Highlight::Plain),
        ]
    );
}

#[test]
fn runs_partition_text_without_matches() {
    for text in ["", "x", "\n\n", "# a\n\n- [ ] b\n  > c", "## é ü\n```\ncode\n```"] {
        let runs = build_styled_runs(text, &[], None);
        assert_partition(&runs, text.len());
    }
}

#[test]
fn match_inside_run_splits_it_in_three() {
    let runs = build_styled_runs("hello world", &[(3, 8)], Some(0));
    assert_eq!(
        runs,
        vec![
            r(0, 3, RunKind::Body, Highlight::Plain),
            r(3, 8, RunKind::Body, Highlight::Current),
            r(8, 11, RunKind::Body, Highlight::Plain),
        ]
    );
}

#[test]
fn match_across_run_boundaries_splits_each_run() {
    let runs = build_styled_runs("ab\ncd", &[(1, 4)], None);
    assert_eq!(
        runs,
        vec![
            r(0, 1, RunKind::Body, Highlight::Plain),
            r(1, 2, RunKind::Body, Highlight::Match),
            r(2, 3, RunKind::Body, Highlight::Match),
            r(3, 4, RunKind::Body, Highlight::Match),
            r(4, 5, RunKind::Body, Highlight::Plain),
        ]
    );
    assert_partition(&runs, 5);
}

#[test]
fn unusable_matches_are_skipped() {
    let runs = build_styled_runs("abc", &[(2, 1), (0, 9), (3, 3), (1, 1)], Some(0));
    assert_eq!(runs, vec![r(0, 3, RunKind::Body, Highlight::Plain)]);
}

#[test]
fn only_the_current_match_is_marked_current() {
    let runs = build_styled_runs("aa aa", &[(0, 2), (3, 5)], Some(1));
    assert_eq!(
        runs,
        vec![
            r(0, 2, RunKind::Body, Highlight::Match),
            r(2, 3, RunKind::Body, Highlight::Plain),
            r(3, 5, RunKind::Body, Highlight::Current),
        ]
    );
}

#[test]
fn editor_runs_follow_its_matches() {
    let mut e = Editor::new();
    e.set_text("# Hi");
    e.set_match_ranges(vec![(2, 4)], Some(0));
    let runs = e.styled_runs();
    assert_eq!(
        runs,
        vec![
            r(0, 1, RunKind::Marker, Highlight::Plain),
            r(1, 2, RunKind::Body, Highlight::Plain),
            r(2, 4, RunKind::Heading(1), Highlight::Current),
        ]
    );
    e.clear_matches();
    assert_eq!(e.styled_runs()[2].highlight, Highlight::Plain);
}

#[test]
fn layout_cache_rebuilds_when_any_key_changes() {
    let mut cache = LayoutCache::new();
    let first = cache.runs("ab cd", &[], None);
    assert_eq!(first, build_styled_runs("ab cd", &[], None));
    assert_eq!(cache.runs("ab cd", &[], None), first);
    let matched = cache.runs("ab cd", &[(0, 2)], None);
    assert_eq!(matched[0], r(0, 2, RunKind::Body, Highlight::Match));
    let current = cache.runs("ab cd", &[(0, 2)], Some(0));
    assert_eq!(current[0], r(0, 2, RunKind::Body, Highlight::Current));
    let other = cache.runs("# x", &[(0, 2)], Some(0));
    assert_eq!(other, build_styled_runs("# x", &[(0, 2)], Some(0)));
}

#[test]
fn unicode_indentation_before_markup() {
    let runs = build_styled_runs("\u{3000}## t", &[], None);
    assert_eq!(
        runs,
        vec![
            r(0, 3, RunKind::Body, Highlight::Plain),
            r(3, 5, RunKind::Marker, Highlight::Plain),
            r(5, 6, RunKind::Body, Highlight::Plain),
            r(6, 7, RunKind::Heading(2), Highlight::Plain),
        ]
    );
    let quote = build_styled_runs("\u{a0}> q", &[], None);
    assert_eq!(quote, vec![r(0, 5, RunKind::Quote, Highlight::Plain)]);
}
