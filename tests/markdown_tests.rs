use note_squirrel::markdown::{
    joined_text, markdown_events, render_events, Draw, MdEvent, RenderedView, TextStyle,
};

const PLAIN: TextStyle = TextStyle { strong: false, emphasis: false, struck: false };
const STRUCK: TextStyle = TextStyle { strong: false, emphasis: false, struck: true };

#[test]
fn title_and_task_list_end_to_end() {
    let text = "# Title\n\n- [ ] a\n- [x] b\n";
    let mut view = RenderedView::new();
    let doc = view.render(text);
    assert!(!doc.blank);
    assert_eq!(
        doc.events,
        vec![
            MdEvent::HeadingStart(1),
            MdEvent::Text("Title".to_string()),
            MdEvent::HeadingEnd,
            MdEvent::ListStart(None),
            MdEvent::ItemStart,
            MdEvent::TaskMarker(false),
            MdEvent::Text("a".to_string()),
            MdEvent::ItemEnd,
            MdEvent::ItemStart,
            MdEvent::TaskMarker(true),
            MdEvent::Text("b".to_string()),
            MdEvent::ItemEnd,
            MdEvent::ListEnd,
        ]
    );
    assert_eq!(
        doc.draws,
        vec![
            Draw::Space(8),
            Draw::Heading { level: 1, first: 1, end: 2 },
            Draw::Space(4),
            Draw::Space(4),
            Draw::BeginRow { indent: 0 },
            Draw::Checkbox { checked: false, task: 0 },
            Draw::Text { event: 6, style: PLAIN },
            Draw::EndRow,
            Draw::BeginRow { indent: 0 },
            Draw::Checkbox { checked: true, task: 1 },
            Draw::Text { event: 10, style: STRUCK },
            Draw::EndRow,
            Draw::Space(4),
        ]
    );
    assert_eq!(joined_text(&doc.events, 1, 2), "Title");
    assert_eq!(view.find_task_line_number(0), 2);
    assert_eq!(view.find_task_line_number(1), 3);
    assert_eq!(view.find_task_line_number(2), 0);
}

#[test]
fn blank_text_draws_nothing() {
    let mut view = RenderedView::new();
    let doc = view.render(" \n\t ");
    assert!(doc.blank);
    assert!(view.render("\u{3000}\u{a0}").blank);
    assert_eq!(markdown_events("# a"), vec![
        MdEvent::HeadingStart(1),
        MdEvent::Text("a".to_string()),
        MdEvent::HeadingEnd,
    ]);
    assert!(doc.events.is_empty() && doc.draws.is_empty());
}

#[test]
fn ordered_list_counts_from_its_start() {
    let ev = markdown_events("3. a\n4. b\n");
    let draws = render_events(&ev);
    let markers: Vec<Draw> =
        draws.into_iter().filter(|d| matches!(d, Draw::ListMarker { .. })).collect();
    assert_eq!(
        markers,
        vec![
            Draw::ListMarker { ordered: true, number: 3 },
            Draw::ListMarker { ordered: true, number: 4 },
        ]
    );
}

#[test]
fn inline_styles_links_and_code() {
    let ev = vec![
        MdEvent::ParagraphStart,
        MdEvent::StrongStart,
        MdEvent::Text("b".to_string()),
        MdEvent::EmphasisStart,
        MdEvent::Text("bi".to_string()),
        MdEvent::StrongEnd,
        MdEvent::StrikeStart,
        MdEvent::Text("s".to_string()),
        MdEvent::StrikeEnd,
        MdEvent::EmphasisEnd,
        MdEvent::LinkStart("http://x".to_string()),
        MdEvent::Text("l".to_string()),
        MdEvent::LinkEnd,
        MdEvent::Code("c".to_string()),
        MdEvent::SoftBreak,
        MdEvent::ParagraphEnd,
    ];
    let draws = render_events(&ev);
    assert_eq!(
        draws,
        vec![
            Draw::Space(4),
            Draw::BeginRow { indent: 0 },
            Draw::Text { event: 2, style: TextStyle { strong: true, emphasis: false, struck: false } },
            Draw::Text { event: 4, style: TextStyle { strong: true, emphasis: true, struck: false } },
            Draw::Text { event: 7, style: STRUCK },
            Draw::Link { first: 10, end: 12 },
            Draw::InlineCode { event: 13 },
            Draw::SoftBreak,
            Draw::EndRow,
        ]
    );
    assert_eq!(joined_text(&ev, 10, 12), "l");
}

#[test]
fn code_block_and_quote() {
    let ev = markdown_events("```\ncode\n```\n\n> q\n");
    let draws = render_events(&ev);
    let code = draws.iter().find_map(|d| match d {
        Draw::CodeBlock { first, end } => Some((*first, *end)),
        _ => None,
    });
    let (first, end) = code.unwrap();
    assert_eq!(joined_text(&ev, first, end), "code\n");
    assert!(draws.contains(&Draw::BeginQuote));
    assert!(draws.contains(&Draw::EndQuote));
    let quote_at = draws.iter().position(|d| *d == Draw::BeginQuote).unwrap();
    assert_eq!(draws[quote_at + 1], Draw::Space(4));
    assert_eq!(draws[quote_at + 2], Draw::BeginRow { indent: 0 });
}

#[test]
fn stray_end_events_are_skipped() {
    let ev = vec![MdEvent::ListEnd, MdEvent::ItemEnd, MdEvent::Text("x".to_string())];
    let draws = render_events(&ev);
    assert_eq!(draws, vec![Draw::Space(4)]);
}

#[test]
fn nested_list_items_are_indented() {
    let ev = markdown_events("- a\n  - b\n");
    let draws = render_events(&ev);
    let rows: Vec<Draw> = draws.into_iter().filter(|d| matches!(d, Draw::BeginRow { .. })).collect();
    assert_eq!(rows[0], Draw::BeginRow { indent: 0 });
}
