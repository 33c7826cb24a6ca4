//! The render walk over a flat sequence of markdown events: headings, paragraphs, lists and
//! task items, code blocks, block quotes and inline spans become a sequence of draw commands.

use vstd::prelude::*;
use vstd::utf8::group_utf8_lib;
use pulldown_cmark::{Event, Options, Parser, Tag, TagEnd};
use crate::editor::{checked_box, unchecked_box};
use crate::text::{find_from, find_in, line_end_from, line_end_of, utf8_of};

verus! {

broadcast use group_utf8_lib;

/// One markdown parse event.
#[derive(Debug, PartialEq, Eq)]
pub enum MdEvent {
    HeadingStart(u8),
    HeadingEnd,
    ParagraphStart,
    ParagraphEnd,
    /// A list; ordered lists carry the number of their first item.
    ListStart(Option<u64>),
    ListEnd,
    ItemStart,
    ItemEnd,
    CodeBlockStart,
    CodeBlockEnd,
    QuoteStart,
    QuoteEnd,
    StrongStart,
    StrongEnd,
    EmphasisStart,
    EmphasisEnd,
    StrikeStart,
    StrikeEnd,
    /// A link with its destination.
    LinkStart(String),
    LinkEnd,
    Text(String),
    Code(String),
    SoftBreak,
    /// A task-list checkbox, checked or not.
    TaskMarker(bool),
    /// Anything the walk does not draw.
    Other,
}

/// How a run of inline text is drawn. A struck run is neither bold nor italic.
#[derive(Clone, Copy, Debug, PartialEq, Eq, Structural)]
pub struct TextStyle {
    pub strong: bool,
    pub emphasis: bool,
    pub struck: bool,
}

/// One draw command. Text is referred to by event index: `first..end` stands for the text
/// events in that range, joined (see `joined_text`).
#[derive(Clone, Copy, Debug, PartialEq, Eq, Structural)]
pub enum Draw {
    /// Vertical space, in points.
    Space(u8),
    /// A heading of the given level.
    Heading { level: u8, first: usize, end: usize },
    /// A fixed-width block.
    CodeBlock { first: usize, end: usize },
    /// Opens a row of inline content, indented by `indent` list levels.
    BeginRow { indent: usize },
    EndRow,
    /// A bullet, or the item number of an ordered list.
    ListMarker { ordered: bool, number: u64 },
    /// The checkbox of task item number `task`, counted from the start of the document.
    Checkbox { checked: bool, task: usize },
    /// The text of event `event`.
    Text { event: usize, style: TextStyle },
    /// A hyperlink: the destination of event `first`, the text of `first..end`.
    Link { first: usize, end: usize },
    /// The code of event `event`, in monospace.
    InlineCode { event: usize },
    SoftBreak,
    /// Opens a quoted, indented region, marked by a vertical bar.
    BeginQuote,
    EndQuote,
}

/// The state the walk carries from event to event.
#[derive(Clone, Copy, Debug, PartialEq, Eq, Structural)]
pub struct MarkdownContext {
    pub current_heading: Option<u8>,
    pub in_list: bool,
    pub list_depth: usize,
    pub list_item_number: u64,
    pub is_ordered_list: bool,
    /// Task items met so far.
    pub task_count: usize,
}

/// Which end event an inline walk stops at.
#[derive(Clone, Copy, Debug, PartialEq, Eq, Structural)]
pub enum Block {
    Paragraph,
    Item,
}

/// The end events a forward scan looks for.
#[derive(Clone, Copy, Debug, PartialEq, Eq, Structural)]
pub enum EndKind {
    Heading,
    CodeBlock,
    Link,
}

pub open spec fn fresh_context() -> MarkdownContext {
    MarkdownContext {
        current_heading: None,
        in_list: false,
        list_depth: 0,
        list_item_number: 0,
        is_ordered_list: false,
        task_count: 0,
    }
}

pub open spec fn is_end(e: MdEvent, k: EndKind) -> bool {
    match k {
        EndKind::Heading => e is HeadingEnd,
        EndKind::CodeBlock => e is CodeBlockEnd,
        EndKind::Link => e is LinkEnd,
    }
}

/// First index at or after `i` holding the end event `k`, or the length.
pub open spec fn find_end(ev: Seq<MdEvent>, i: int, k: EndKind) -> int
    decreases ev.len() - i,
{
    if i < 0 || i >= ev.len() {
        ev.len() as int
    } else if is_end(ev[i], k) {
        i
    } else {
        find_end(ev, i + 1, k)
    }
}

/// The text events of `ev[a..b]`, joined.
pub open spec fn joined(ev: Seq<MdEvent>, a: int, b: int) -> Seq<char>
    decreases b - a,
{
    if a >= b || a < 0 || b > ev.len() {
        Seq::empty()
    } else {
        joined(ev, a, b - 1) + match ev[b - 1] {
            MdEvent::Text(s) => s@,
            _ => Seq::empty(),
        }
    }
}

/// An index past the events stands for their end.
pub open spec fn clamp_to(x: int, n: int) -> int {
    if x > n {
        n
    } else {
        x
    }
}

pub open spec fn inc(x: usize) -> usize {
    if x < usize::MAX {
        (x + 1) as usize
    } else {
        x
    }
}

pub open spec fn dec(x: usize) -> usize {
    if x > 0 {
        (x - 1) as usize
    } else {
        0
    }
}

pub open spec fn inc64(x: u64) -> u64 {
    if x < u64::MAX {
        (x + 1) as u64
    } else {
        x
    }
}

/// Style of inline text: striking wins over bold and italics, and the text of a checked
/// task item is struck.
pub open spec fn text_style(strong: bool, emphasis: bool, strike: bool, checked: bool) -> TextStyle {
    if strike || checked {
        TextStyle { strong: false, emphasis: false, struck: true }
    } else {
        TextStyle { strong, emphasis, struck: false }
    }
}

pub open spec fn ends_block(e: MdEvent, b: Block) -> bool {
    match b {
        Block::Paragraph => e is ParagraphEnd,
        Block::Item => e is ItemEnd,
    }
}

/// The inline walk of a paragraph or item body from `i`: returns where it stopped (the end
/// event of the block, or past the events) and what it drew. Bold, italics and striking
/// are plain on/off toggles; a link is drawn once, with the text up to its end event.
pub open spec fn inline_walk(
    ev: Seq<MdEvent>,
    i: int,
    b: Block,
    strong: bool,
    emphasis: bool,
    strike: bool,
    checked: bool,
) -> (int, Seq<Draw>)
    decreases ev.len() - i,
{
    if i < 0 || i >= ev.len() {
        (i, Seq::empty())
    } else if ends_block(ev[i], b) {
        (i, Seq::empty())
    } else {
        match ev[i] {
            MdEvent::StrongStart => inline_walk(ev, i + 1, b, true, emphasis, strike, checked),
            MdEvent::StrongEnd => inline_walk(ev, i + 1, b, false, emphasis, strike, checked),
            MdEvent::EmphasisStart => inline_walk(ev, i + 1, b, strong, true, strike, checked),
            MdEvent::EmphasisEnd => inline_walk(ev, i + 1, b, strong, false, strike, checked),
            MdEvent::StrikeStart => inline_walk(ev, i + 1, b, strong, emphasis, true, checked),
            MdEvent::StrikeEnd => inline_walk(ev, i + 1, b, strong, emphasis, false, checked),
            MdEvent::LinkStart(_) => {
                let t = find_end(ev, i, EndKind::Link);
                let link = seq![Draw::Link { first: i as usize, end: t as usize }];
                if t + 1 >= ev.len() {
                    (t + 1, link)
                } else if t >= i {
                    let rest = inline_walk(ev, t + 1, b, strong, emphasis, strike, checked);
                    (rest.0, link + rest.1)
                } else {
                    (i, Seq::empty())
                }
            },
            MdEvent::Text(_) => {
                let rest = inline_walk(ev, i + 1, b, strong, emphasis, strike, checked);
                (
                    rest.0,
                    seq![
                        Draw::Text {
                            event: i as usize,
                            style: text_style(strong, emphasis, strike, checked),
                        },
                    ] + rest.1,
                )
            },
            MdEvent::Code(_) => {
                let rest = inline_walk(ev, i + 1, b, strong, emphasis, strike, checked);
                (rest.0, seq![Draw::InlineCode { event: i as usize }] + rest.1)
            },
            MdEvent::SoftBreak => {
                let rest = inline_walk(ev, i + 1, b, strong, emphasis, strike, checked);
                (rest.0, seq![Draw::SoftBreak] + rest.1)
            },
            _ => inline_walk(ev, i + 1, b, strong, emphasis, strike, checked),
        }
    }
}

/// The task marker among the first events of an item body, `ev[i..lim]`, if one comes
/// before the item's end.
pub open spec fn task_lookahead(ev: Seq<MdEvent>, i: int, lim: int) -> Option<bool>
    decreases lim - i,
{
    if i < 0 || i >= lim || i >= ev.len() {
        None
    } else {
        match ev[i] {
            MdEvent::TaskMarker(c) => Some(c),
            MdEvent::ItemEnd => None,
            _ => task_lookahead(ev, i + 1, lim),
        }
    }
}

/// A list item whose body starts at `s`: a row with a checkbox (task item) or a bullet or
/// number, then the body's inline content. Ordered lists count their items.
pub open spec fn item_step(ev: Seq<MdEvent>, s: int, c: MarkdownContext) -> (
    int,
    MarkdownContext,
    Seq<Draw>,
) {
    let mk = task_lookahead(ev, s, s + 5);
    let head = match mk {
        Some(chk) => seq![Draw::Checkbox { checked: chk, task: c.task_count }],
        None => seq![Draw::ListMarker { ordered: c.is_ordered_list, number: c.list_item_number }],
    };
    let c1 = if mk is Some {
        MarkdownContext { task_count: inc(c.task_count), ..c }
    } else {
        c
    };
    let body = inline_walk(ev, s, Block::Item, false, false, false, mk == Some(true));
    let c2 = if c.is_ordered_list {
        MarkdownContext { list_item_number: inc64(c.list_item_number), ..c1 }
    } else {
        c1
    };
    (
        clamp_to(body.0 + 1, ev.len() as int),
        c2,
        seq![Draw::BeginRow { indent: dec(c.list_depth) }] + head + body.1 + seq![Draw::EndRow],
    )
}

/// One step of the walk at event `s`: what it draws, the context after it, and the index
/// to resume at (past everything the step consumed).
pub open spec fn walk_step(ev: Seq<MdEvent>, s: int, c: MarkdownContext) -> (
    int,
    MarkdownContext,
    Seq<Draw>,
)
    decreases ev.len() - s, 1int,
{
    if s < 0 || s >= ev.len() {
        (s, c, Seq::empty())
    } else {
        match ev[s] {
            MdEvent::HeadingStart(l) => {
                let e = find_end(ev, s + 1, EndKind::Heading);
                (
                    clamp_to(e + 1, ev.len() as int),
                    MarkdownContext { current_heading: Some(l), ..c },
                    seq![
                        Draw::Space(8),
                        Draw::Heading { level: l, first: (s + 1) as usize, end: e as usize },
                        Draw::Space(4),
                    ],
                )
            },
            MdEvent::ParagraphStart => {
                let body = inline_walk(ev, s + 1, Block::Paragraph, false, false, false, false);
                (
                    clamp_to(body.0 + 1, ev.len() as int),
                    c,
                    (if c.in_list {
                        Seq::empty()
                    } else {
                        seq![Draw::Space(4)]
                    }) + seq![Draw::BeginRow { indent: 0 }] + body.1 + seq![Draw::EndRow],
                )
            },
            MdEvent::ListStart(n) => (
                s + 1,
                MarkdownContext {
                    in_list: true,
                    list_depth: inc(c.list_depth),
                    is_ordered_list: n is Some,
                    list_item_number: match n {
                        Some(k) => k,
                        None => 1,
                    },
                    ..c
                },
                seq![Draw::Space(4)],
            ),
            MdEvent::ListEnd => (
                s + 1,
                MarkdownContext {
                    list_depth: dec(c.list_depth),
                    in_list: if dec(c.list_depth) == 0 {
                        false
                    } else {
                        c.in_list
                    },
                    ..c
                },
                seq![Draw::Space(4)],
            ),
            MdEvent::ItemStart => item_step(ev, s + 1, c),
            MdEvent::CodeBlockStart => {
                let e = find_end(ev, s + 1, EndKind::CodeBlock);
                (
                    clamp_to(e + 1, ev.len() as int),
                    c,
                    seq![
                        Draw::Space(8),
                        Draw::CodeBlock { first: (s + 1) as usize, end: e as usize },
                        Draw::Space(8),
                    ],
                )
            },
            MdEvent::QuoteStart => {
                let q = quote_walk(ev, s + 1, c);
                (
                    clamp_to(q.0 + 1, ev.len() as int),
                    q.1,
                    seq![Draw::Space(4), Draw::BeginQuote] + q.2 + seq![
                        Draw::EndQuote,
                        Draw::Space(4),
                    ],
                )
            },
            _ => (s + 1, c, Seq::empty()),
        }
    }
}

/// The inside of a block quote from `i`: walk steps until its end event or past the events.
pub open spec fn quote_walk(ev: Seq<MdEvent>, i: int, c: MarkdownContext) -> (
    int,
    MarkdownContext,
    Seq<Draw>,
)
    decreases ev.len() - i + 1, 0int,
{
    if i < 0 || i >= ev.len() || ev[i] is QuoteEnd {
        (i, c, Seq::empty())
    } else {
        let st = walk_step(ev, i, c);
        if st.0 <= i {
            (i, c, Seq::empty())
        } else if st.0 >= ev.len() {
            st
        } else {
            let rest = quote_walk(ev, st.0, st.1);
            (rest.0, rest.1, st.2 + rest.2)
        }
    }
}

/// The draw commands of the whole walk from `i`.
pub open spec fn walk_from(ev: Seq<MdEvent>, i: int, c: MarkdownContext) -> Seq<Draw>
    decreases ev.len() - i,
{
    if i < 0 || i >= ev.len() {
        Seq::empty()
    } else {
        let st = walk_step(ev, i, c);
        if i < st.0 < ev.len() {
            st.2 + walk_from(ev, st.0, st.1)
        } else {
            st.2
        }
    }
}

/// A heading holding one text event draws, between spacings, one heading of that level over
/// that text, and the walk resumes after the heading's end event.
pub proof fn lemma_heading_walk(ev: Seq<MdEvent>, s: int, c: MarkdownContext, l: u8)
    requires
        0 <= s,
        s + 3 <= ev.len() <= usize::MAX,
        ev[s] == MdEvent::HeadingStart(l),
        ev[s + 1] is Text,
        ev[s + 2] is HeadingEnd,
    ensures
        walk_step(ev, s, c) == (
            s + 3,
            MarkdownContext { current_heading: Some(l), ..c },
            seq![
                Draw::Space(8),
                Draw::Heading { level: l, first: (s + 1) as usize, end: (s + 2) as usize },
                Draw::Space(4),
            ],
        ),
        joined(ev, s + 1, s + 2) == ev[s + 1]->Text_0@,
{
    assert(find_end(ev, s + 2, EndKind::Heading) == s + 2);
    assert(find_end(ev, s + 1, EndKind::Heading) == s + 2);
    assert(joined(ev, s + 1, s + 1) == Seq::<char>::empty());
    assert(joined(ev, s + 1, s + 2) =~= ev[s + 1]->Text_0@);
}

/// A task item whose body is one text event draws one row: its checkbox, checked or not,
/// with no bullet or number, then the text, struck when checked; the walk resumes after the
/// item's end event and counts the task.
pub proof fn lemma_task_item_walk(ev: Seq<MdEvent>, s: int, c: MarkdownContext, checked: bool)
    requires
        1 <= s,
        s + 3 <= ev.len() <= usize::MAX,
        ev[s - 1] is ItemStart,
        ev[s] == MdEvent::TaskMarker(checked),
        ev[s + 1] is Text,
        ev[s + 2] is ItemEnd,
    ensures
        item_step(ev, s, c).0 == s + 3,
        item_step(ev, s, c).1.task_count == inc(c.task_count),
        item_step(ev, s, c).2 == seq![
            Draw::BeginRow { indent: dec(c.list_depth) },
            Draw::Checkbox { checked, task: c.task_count },
            Draw::Text { event: (s + 1) as usize, style: text_style(false, false, false, checked) },
            Draw::EndRow,
        ],
        walk_step(ev, s - 1, c) == item_step(ev, s, c),
{
    assert(task_lookahead(ev, s, s + 5) == Some(checked));
    assert(inline_walk(ev, s + 2, Block::Item, false, false, false, checked) == (
        s + 2,
        Seq::<Draw>::empty(),
    ));
    let w1 = inline_walk(ev, s + 1, Block::Item, false, false, false, checked);
    assert(w1.0 == s + 2);
    assert(w1.1 =~= seq![
        Draw::Text { event: (s + 1) as usize, style: text_style(false, false, false, checked) },
    ]);
    let w0 = inline_walk(ev, s, Block::Item, false, false, false, checked);
    assert(w0 == w1);
    assert(item_step(ev, s, c).2 =~= seq![
        Draw::BeginRow { indent: dec(c.list_depth) },
        Draw::Checkbox { checked, task: c.task_count },
        Draw::Text { event: (s + 1) as usize, style: text_style(false, false, false, checked) },
        Draw::EndRow,
    ]);
}

/// The draw commands of a document's events.
pub open spec fn render_walk(ev: Seq<MdEvent>) -> Seq<Draw> {
    walk_from(ev, 0, fresh_context())
}

fn find_end_in(ev: &Vec<MdEvent>, i: usize, k: EndKind) -> (r: usize)
    requires
        i <= ev@.len(),
    ensures
        r as int == find_end(ev@, i as int, k),
        i <= r <= ev@.len(),
{
    let mut j: usize = i;
    while j < ev.len()
        invariant
            i <= j <= ev@.len(),
            find_end(ev@, j as int, k) == find_end(ev@, i as int, k),
        decreases ev@.len() - j,
    {
        let hit = match &ev[j] {
            MdEvent::HeadingEnd => k == EndKind::Heading,
            MdEvent::CodeBlockEnd => k == EndKind::CodeBlock,
            MdEvent::LinkEnd => k == EndKind::Link,
            _ => false,
        };
        if hit {
            return j;
        }
        j = j + 1;
    }
    j
}

fn style_of(strong: bool, emphasis: bool, strike: bool, checked: bool) -> (r: TextStyle)
    ensures
        r == text_style(strong, emphasis, strike, checked),
{
    if strike || checked {
        TextStyle { strong: false, emphasis: false, struck: true }
    } else {
        TextStyle { strong, emphasis, struck: false }
    }
}

/// Runs `inline_walk` from `i`, appending what it draws to `out`.
fn inline_walk_in(
    ev: &Vec<MdEvent>,
    i: usize,
    b: Block,
    checked: bool,
    out: &mut Vec<Draw>,
) -> (r: usize)
    requires
        i <= ev@.len(),
        ev@.len() + 2 <= usize::MAX,
    ensures
        r as int == inline_walk(ev@, i as int, b, false, false, false, checked).0,
        final(out)@ == old(out)@ + inline_walk(ev@, i as int, b, false, false, false, checked).1,
        i <= r <= ev@.len() + 1,
{
    let ghost whole = inline_walk(ev@, i as int, b, false, false, false, checked);
    let mut strong = false;
    let mut emphasis = false;
    let mut strike = false;
    let mut j: usize = i;
    while j < ev.len()
        invariant
            i <= j <= ev@.len() + 1,
            ev@.len() + 2 <= usize::MAX,
            whole == inline_walk(ev@, i as int, b, false, false, false, checked),
            inline_walk(ev@, j as int, b, strong, emphasis, strike, checked).0 == whole.0,
            out@ + inline_walk(ev@, j as int, b, strong, emphasis, strike, checked).1 == old(out)@
                + whole.1,
        decreases ev@.len() + 1 - j,
    {
        let ghost before = out@;
        let ghost s0 = strong;
        let ghost e0 = emphasis;
        let ghost k0 = strike;
        let stop = match &ev[j] {
            MdEvent::ParagraphEnd => b == Block::Paragraph,
            MdEvent::ItemEnd => b == Block::Item,
            _ => false,
        };
        assert(stop == ends_block(ev@[j as int], b));
        if stop {
            assert(inline_walk(ev@, j as int, b, strong, emphasis, strike, checked) == (
                j as int,
                Seq::<Draw>::empty(),
            ));
            assert(out@ + inline_walk(ev@, j as int, b, strong, emphasis, strike, checked).1
                =~= out@);
            return j;
        }
        match &ev[j] {
            MdEvent::StrongStart => {
                strong = true;
            },
            MdEvent::StrongEnd => {
                strong = false;
            },
            MdEvent::EmphasisStart => {
                emphasis = true;
            },
            MdEvent::EmphasisEnd => {
                emphasis = false;
            },
            MdEvent::StrikeStart => {
                strike = true;
            },
            MdEvent::StrikeEnd => {
                strike = false;
            },
            MdEvent::LinkStart(_) => {
                let t = find_end_in(ev, j, EndKind::Link);
                out.push(Draw::Link { first: j, end: t });
                if t + 1 >= ev.len() {
                    assert(out@ =~= old(out)@ + whole.1);
                    return t + 1;
                }
                assert(before + inline_walk(ev@, j as int, b, strong, emphasis, strike, checked).1
                    =~= out@ + inline_walk(ev@, t + 1, b, strong, emphasis, strike, checked).1);
                j = t + 1;
                continue;
            },
            MdEvent::Text(_) => {
                out.push(Draw::Text { event: j, style: style_of(strong, emphasis, strike, checked) });
            },
            MdEvent::Code(_) => {
                out.push(Draw::InlineCode { event: j });
            },
            MdEvent::SoftBreak => {
                out.push(Draw::SoftBreak);
            },
            _ => {},
        }
        assert(before + inline_walk(ev@, j as int, b, s0, e0, k0, checked).1 =~= out@ + inline_walk(
            ev@,
            j + 1,
            b,
            strong,
            emphasis,
            strike,
            checked,
        ).1);
        j = j + 1;
    }
    assert(out@ + inline_walk(ev@, j as int, b, strong, emphasis, strike, checked).1 =~= out@);
    j
}

fn clamped(x: usize, n: usize) -> (r: usize)
    ensures
        r as int == clamp_to(x as int, n as int),
{
    if x > n {
        n
    } else {
        x
    }
}

fn task_lookahead_in(ev: &Vec<MdEvent>, i: usize) -> (r: Option<bool>)
    requires
        i <= ev@.len(),
    ensures
        r == task_lookahead(ev@, i as int, i + 5),
{
    let lim: usize = if ev.len() - i < 5 { ev.len() } else { i + 5 };
    let mut j: usize = i;
    while j < lim
        invariant
            i <= j <= lim <= ev@.len(),
            lim == ev@.len() || lim == i + 5,
            lim <= i + 5,
            task_lookahead(ev@, j as int, i + 5) == task_lookahead(ev@, i as int, i + 5),
        decreases lim - j,
    {
        match &ev[j] {
            MdEvent::TaskMarker(c) => {
                return Some(*c);
            },
            MdEvent::ItemEnd => {
                return None;
            },
            _ => {},
        }
        j = j + 1;
    }
    None
}

fn item_in(ev: &Vec<MdEvent>, s: usize, ctx: &mut MarkdownContext, out: &mut Vec<Draw>) -> (r: usize)
    requires
        s <= ev@.len(),
        ev@.len() + 2 <= usize::MAX,
    ensures
        r as int == item_step(ev@, s as int, *old(ctx)).0,
        *final(ctx) == item_step(ev@, s as int, *old(ctx)).1,
        final(out)@ == old(out)@ + item_step(ev@, s as int, *old(ctx)).2,
        s <= r <= ev@.len(),
{
    let mk = task_lookahead_in(ev, s);
    let indent = if ctx.list_depth > 0 { ctx.list_depth - 1 } else { 0 };
    out.push(Draw::BeginRow { indent });
    match mk {
        Some(chk) => {
            out.push(Draw::Checkbox { checked: chk, task: ctx.task_count });
            if ctx.task_count < usize::MAX {
                ctx.task_count = ctx.task_count + 1;
            }
        },
        None => {
            out.push(Draw::ListMarker { ordered: ctx.is_ordered_list, number: ctx.list_item_number });
        },
    }
    let checked = match mk {
        Some(c) => c,
        None => false,
    };
    let e = inline_walk_in(ev, s, Block::Item, checked, out);
    out.push(Draw::EndRow);
    if ctx.is_ordered_list && ctx.list_item_number < u64::MAX {
        ctx.list_item_number = ctx.list_item_number + 1;
    }
    assert(final(out)@ =~= old(out)@ + item_step(ev@, s as int, *old(ctx)).2);
    clamped(e + 1, ev.len())
}

/// Runs `walk_step` at `s`, appending what it draws to `out`.
fn walk_step_in(ev: &Vec<MdEvent>, s: usize, ctx: &mut MarkdownContext, out: &mut Vec<Draw>) -> (r: usize)
    requires
        s < ev@.len(),
        ev@.len() + 2 <= usize::MAX,
    ensures
        r as int == walk_step(ev@, s as int, *old(ctx)).0,
        *final(ctx) == walk_step(ev@, s as int, *old(ctx)).1,
        final(out)@ == old(out)@ + walk_step(ev@, s as int, *old(ctx)).2,
        s < r <= ev@.len(),
    decreases ev@.len() - s, 1int,
{
    match &ev[s] {
        MdEvent::HeadingStart(l) => {
            let e = find_end_in(ev, s + 1, EndKind::Heading);
            ctx.current_heading = Some(*l);
            out.push(Draw::Space(8));
            out.push(Draw::Heading { level: *l, first: s + 1, end: e });
            out.push(Draw::Space(4));
            assert(final(out)@ =~= old(out)@ + walk_step(ev@, s as int, *old(ctx)).2);
            clamped(e + 1, ev.len())
        },
        MdEvent::ParagraphStart => {
            if !ctx.in_list {
                out.push(Draw::Space(4));
            }
            out.push(Draw::BeginRow { indent: 0 });
            let e = inline_walk_in(ev, s + 1, Block::Paragraph, false, out);
            out.push(Draw::EndRow);
            assert(final(out)@ =~= old(out)@ + walk_step(ev@, s as int, *old(ctx)).2);
            clamped(e + 1, ev.len())
        },
        MdEvent::ListStart(n) => {
            ctx.in_list = true;
            if ctx.list_depth < usize::MAX {
                ctx.list_depth = ctx.list_depth + 1;
            }
            match n {
                Some(k) => {
                    ctx.is_ordered_list = true;
                    ctx.list_item_number = *k;
                },
                None => {
                    ctx.is_ordered_list = false;
                    ctx.list_item_number = 1;
                },
            }
            out.push(Draw::Space(4));
            s + 1
        },
        MdEvent::ListEnd => {
            if ctx.list_depth > 0 {
                ctx.list_depth = ctx.list_depth - 1;
            }
            if ctx.list_depth == 0 {
                ctx.in_list = false;
            }
            out.push(Draw::Space(4));
            s + 1
        },
        MdEvent::ItemStart => item_in(ev, s + 1, ctx, out),
        MdEvent::CodeBlockStart => {
            let e = find_end_in(ev, s + 1, EndKind::CodeBlock);
            out.push(Draw::Space(8));
            out.push(Draw::CodeBlock { first: s + 1, end: e });
            out.push(Draw::Space(8));
            assert(final(out)@ =~= old(out)@ + walk_step(ev@, s as int, *old(ctx)).2);
            clamped(e + 1, ev.len())
        },
        MdEvent::QuoteStart => {
            out.push(Draw::Space(4));
            out.push(Draw::BeginQuote);
            let e = quote_in(ev, s + 1, ctx, out);
            out.push(Draw::EndQuote);
            out.push(Draw::Space(4));
            assert(final(out)@ =~= old(out)@ + walk_step(ev@, s as int, *old(ctx)).2);
            clamped(e + 1, ev.len())
        },
        _ => s + 1,
    }
}

/// Runs `quote_walk` from `i`, appending what it draws to `out`.
fn quote_in(ev: &Vec<MdEvent>, i: usize, ctx: &mut MarkdownContext, out: &mut Vec<Draw>) -> (r: usize)
    requires
        i <= ev@.len(),
        ev@.len() + 2 <= usize::MAX,
    ensures
        r as int == quote_walk(ev@, i as int, *old(ctx)).0,
        *final(ctx) == quote_walk(ev@, i as int, *old(ctx)).1,
        final(out)@ == old(out)@ + quote_walk(ev@, i as int, *old(ctx)).2,
        i <= r <= ev@.len(),
    decreases ev@.len() - i + 1, 0int,
{
    let ghost whole = quote_walk(ev@, i as int, *ctx);
    let mut j: usize = i;
    loop
        invariant
            i <= j <= ev@.len(),
            ev@.len() + 2 <= usize::MAX,
            whole == quote_walk(ev@, i as int, *old(ctx)),
            quote_walk(ev@, j as int, *ctx).0 == whole.0,
            quote_walk(ev@, j as int, *ctx).1 == whole.1,
            out@ + quote_walk(ev@, j as int, *ctx).2 == old(out)@ + whole.2,
        decreases ev@.len() - j,
    {
        if j >= ev.len() {
            assert(out@ + quote_walk(ev@, j as int, *ctx).2 =~= out@);
            return j;
        }
        if let MdEvent::QuoteEnd = &ev[j] {
            assert(out@ + quote_walk(ev@, j as int, *ctx).2 =~= out@);
            return j;
        }
        let ghost c0 = *ctx;
        let ghost before = out@;
        let k = walk_step_in(ev, j, ctx, out);
        if k >= ev.len() {
            assert(before + quote_walk(ev@, j as int, c0).2 =~= out@);
            return k;
        }
        assert(before + quote_walk(ev@, j as int, c0).2 =~= out@ + quote_walk(ev@, k as int, *ctx).2);
        j = k;
    }
}

/// The draw commands for a document's events (see `render_walk`).
pub fn render_events(ev: &Vec<MdEvent>) -> (r: Vec<Draw>)
    requires
        ev@.len() + 2 <= usize::MAX,
    ensures
        r@ == render_walk(ev@),
{
    let mut ctx = MarkdownContext {
        current_heading: None,
        in_list: false,
        list_depth: 0,
        list_item_number: 0,
        is_ordered_list: false,
        task_count: 0,
    };
    let mut out: Vec<Draw> = Vec::new();
    let mut i: usize = 0;
    while i < ev.len()
        invariant
            i <= ev@.len() + 2,
            ev@.len() + 2 <= usize::MAX,
            out@ + walk_from(ev@, i as int, ctx) == render_walk(ev@),
        decreases ev@.len() + 2 - i,
    {
        let ghost c0 = ctx;
        let ghost i0 = i;
        let ghost before = out@;
        i = walk_step_in(ev, i, &mut ctx, &mut out);
        assert(before + walk_from(ev@, i0 as int, c0) =~= out@ + walk_from(ev@, i as int, ctx));
    }
    assert(out@ + walk_from(ev@, i as int, ctx) =~= out@);
    out
}

/// The text events of `ev[a..b]`, joined.
pub fn joined_text(ev: &Vec<MdEvent>, a: usize, b: usize) -> (r: String)
    requires
        a <= b <= ev@.len(),
    ensures
        r@ == joined(ev@, a as int, b as int),
{
    let mut r = String::new();
    let mut k: usize = a;
    assert(r@ =~= joined(ev@, a as int, a as int));
    while k < b
        invariant
            a <= k <= b <= ev@.len(),
            r@ == joined(ev@, a as int, k as int),
        decreases b - k,
    {
        if let MdEvent::Text(s) = &ev[k] {
            r.append(s.as_str());
        }
        assert(r@ =~= joined(ev@, a as int, k + 1));
        k = k + 1;
    }
    r
}

/// The text between `s` and `e` holds a task marker, checked or not.
pub open spec fn has_task_marker(t: Seq<u8>, s: int, e: int) -> bool {
    find_from(t, unchecked_box(), s, e) is Some || find_from(t, checked_box(), s, e) is Some
}

/// Number of the line, counting from line `n` that starts at `s`, that holds the marker of
/// task `k` (counted from zero among the lines that hold a task marker); 0 when there is none.
pub open spec fn task_line_from(t: Seq<u8>, s: int, n: nat, k: nat) -> nat
    decreases t.len() - s,
{
    if s < 0 || s >= t.len() {
        0
    } else {
        let e = line_end_of(t, s);
        let hit = has_task_marker(t, s, e);
        if hit && k == 0 {
            n
        } else if s <= e && e + 1 < t.len() {
            task_line_from(t, e + 1, n + 1, if hit { (k - 1) as nat } else { k })
        } else {
            0
        }
    }
}

/// The characters of Unicode's White_Space property.
pub open spec fn is_white_space(c: char) -> bool {
    ('\u{9}' <= c && c <= '\u{d}') || c == ' ' || c == '\u{85}' || c == '\u{a0}' || c == '\u{1680}'
        || ('\u{2000}' <= c && c <= '\u{200a}') || c == '\u{2028}' || c == '\u{2029}' || c
        == '\u{202f}' || c == '\u{205f}' || c == '\u{3000}'
}

/// Number of white-space characters that open `s`.
pub open spec fn leading_space(s: Seq<char>) -> nat
    decreases s.len(),
{
    if s.len() > 0 && is_white_space(s[0]) {
        1 + leading_space(s.drop_first())
    } else {
        0
    }
}

/// Number of white-space characters that close `s`.
pub open spec fn trailing_space(s: Seq<char>) -> nat
    decreases s.len(),
{
    if s.len() > 0 && is_white_space(s.last()) {
        1 + trailing_space(s.drop_last())
    } else {
        0
    }
}

/// `s` without the white space at both ends.
pub open spec fn trimmed_of(s: Seq<char>) -> Seq<char> {
    if leading_space(s) >= s.len() {
        Seq::empty()
    } else {
        s.subrange(leading_space(s) as int, s.len() - trailing_space(s))
    }
}

/// Relies on `str::trim`: the text without leading and trailing white space, as Unicode's
/// White_Space property defines it.
#[verifier::external_body]
fn trimmed(s: &str) -> (r: &str)
    ensures
        r@ == trimmed_of(s@),
{
    s.trim()
}

/// Whether a text holds nothing but white space.
pub open spec fn is_blank(s: Seq<char>) -> bool {
    trimmed_of(s).len() == 0
}

#[verifier::external_type_specification]
#[verifier::external_body]
pub struct ExEvent<'a>(pulldown_cmark::Event<'a>);

/// The events of a markdown text as pulldown-cmark parses it (strikethrough, tables,
/// footnotes and task lists enabled), each read by `convert_event`.
pub uninterp spec fn md_events_of(text: Seq<char>) -> Seq<MdEvent>;

/// Relies on `pulldown_cmark::Parser::new_ext`, with strikethrough, tables, footnotes and
/// task lists enabled: the parse events depend on the text alone.
#[verifier::external_body]
fn parse_markdown(text: &str) -> (r: Vec<MdEvent>)
    ensures
        r@ == md_events_of(text@),
{
    let opts = Options::ENABLE_STRIKETHROUGH | Options::ENABLE_TABLES | Options::ENABLE_FOOTNOTES
        | Options::ENABLE_TASKLISTS;
    Parser::new_ext(text, opts).map(|e| convert_event(&e)).collect()
}

/// Relies on pulldown_cmark's `Event::Start` and its `Tag`s: the start events the walk draws.
#[verifier::external_body]
fn start_event(e: &Event) -> MdEvent {
    let Event::Start(t) = e else { return MdEvent::Other };
    match t {
        Tag::Heading { level, .. } => MdEvent::HeadingStart(*level as u8),
        Tag::Paragraph => MdEvent::ParagraphStart,
        Tag::List(n) => MdEvent::ListStart(*n),
        Tag::Item => MdEvent::ItemStart,
        Tag::CodeBlock(_) => MdEvent::CodeBlockStart,
        Tag::BlockQuote(_) => MdEvent::QuoteStart,
        Tag::Strong => MdEvent::StrongStart,
        Tag::Emphasis => MdEvent::EmphasisStart,
        Tag::Strikethrough => MdEvent::StrikeStart,
        Tag::Link { dest_url, .. } => MdEvent::LinkStart(dest_url.to_string()),
        _ => MdEvent::Other,
    }
}

/// Relies on pulldown_cmark's `Event::End` and its `TagEnd`s: the end events the walk uses.
#[verifier::external_body]
fn end_event(e: &Event) -> MdEvent {
    let Event::End(t) = e else { return MdEvent::Other };
    match t {
        TagEnd::Heading(_) => MdEvent::HeadingEnd,
        TagEnd::Paragraph => MdEvent::ParagraphEnd,
        TagEnd::List(_) => MdEvent::ListEnd,
        TagEnd::Item => MdEvent::ItemEnd,
        TagEnd::CodeBlock => MdEvent::CodeBlockEnd,
        TagEnd::BlockQuote(_) => MdEvent::QuoteEnd,
        TagEnd::Strong => MdEvent::StrongEnd,
        TagEnd::Emphasis => MdEvent::EmphasisEnd,
        TagEnd::Strikethrough => MdEvent::StrikeEnd,
        TagEnd::Link => MdEvent::LinkEnd,
        _ => MdEvent::Other,
    }
}

/// Relies on pulldown_cmark's `Event`: the text, code, soft break and task marker events.
#[verifier::external_body]
fn leaf_event(e: &Event) -> MdEvent {
    match e {
        Event::Text(s) => MdEvent::Text(s.to_string()),
        Event::Code(s) => MdEvent::Code(s.to_string()),
        Event::SoftBreak => MdEvent::SoftBreak,
        Event::TaskListMarker(b) => MdEvent::TaskMarker(*b),
        _ => MdEvent::Other,
    }
}

/// One parse event as the walk reads it.
fn convert_event(e: &Event) -> MdEvent {
    let s = start_event(e);
    if !matches!(s, MdEvent::Other) {
        return s;
    }
    let t = end_event(e);
    if !matches!(t, MdEvent::Other) {
        return t;
    }
    leaf_event(e)
}

/// The parse events of a markdown text, as the walk reads them.
pub fn markdown_events(text: &str) -> (r: Vec<MdEvent>)
    ensures
        r@ == md_events_of(text@),
{
    parse_markdown(text)
}

/// A rendered document: its parse events and the draw commands of the walk over them.
pub struct RenderedDoc {
    /// The text holds nothing but white space; nothing is drawn but a hint.
    pub blank: bool,
    pub events: Vec<MdEvent>,
    pub draws: Vec<Draw>,
}

/// The preview pane's state: the text it last rendered.
pub struct RenderedView {
    current_markdown_text: String,
}

impl RenderedView {
    pub closed spec fn text(&self) -> Seq<char> {
        self.current_markdown_text@
    }

    pub fn new() -> (r: Self)
        ensures
            r.text().len() == 0,
    {
        RenderedView { current_markdown_text: String::new() }
    }

    /// Renders `markdown_text`: a blank text draws nothing; any other is parsed and walked
    /// (see `render_walk`).
    pub fn render(&mut self, markdown_text: &str) -> (r: RenderedDoc)
        ensures
            final(self).text() == markdown_text@,
            r.blank == is_blank(markdown_text@),
            r.blank ==> r.events@.len() == 0 && r.draws@.len() == 0,
            !r.blank ==> r.events@ == md_events_of(markdown_text@),
            !r.blank && r.events@.len() + 2 <= usize::MAX ==> r.draws@ == render_walk(r.events@),
    {
        self.current_markdown_text = markdown_text.to_owned();
        if trimmed(markdown_text).is_empty() {
            return RenderedDoc { blank: true, events: Vec::new(), draws: Vec::new() };
        }
        let events = markdown_events(markdown_text);
        let draws = if events.len() <= usize::MAX - 2 {
            render_events(&events)
        } else {
            Vec::new()
        };
        RenderedDoc { blank: false, events, draws }
    }

    /// The line whose task marker belongs to task item number `task` of the last rendered
    /// text: the line that holds the `task`-th task marker, counting from zero; line 0 when
    /// no line does. Task items and marker lines are paired in order, so each checkbox
    /// toggles its own line as long as every line with a marker is a task item.
    pub fn find_task_line_number(&self, task: usize) -> (r: usize)
        ensures
            r as nat == task_line_from(utf8_of(self.text()), 0, 0, task as nat),
    {
        let t: &[u8] = self.current_markdown_text.as_str().as_bytes();
        let unchecked = vec![45u8, 32u8, 91u8, 32u8, 93u8];
        let checked = vec![45u8, 32u8, 91u8, 120u8, 93u8];
        assert(unchecked@ =~= unchecked_box());
        assert(checked@ =~= checked_box());
        let mut s: usize = 0;
        let mut n: usize = 0;
        let mut k: usize = task;
        while s < t.len()
            invariant
                s <= t@.len(),
                n <= s,
                t@ == utf8_of(self.text()),
                unchecked@ == unchecked_box(),
                checked@ == checked_box(),
                task_line_from(t@, s as int, n as nat, k as nat) == task_line_from(
                    t@,
                    0,
                    0,
                    task as nat,
                ),
            decreases t@.len() - s,
        {
            let e = line_end_from(t, s);
            let u = find_in(t, s, e, unchecked.as_slice());
            let c = find_in(t, s, e, checked.as_slice());
            let hit = match (u, c) {
                (None, None) => false,
                _ => true,
            };
            assert(hit == has_task_marker(t@, s as int, e as int));
            if hit && k == 0 {
                return n;
            }
            if e >= t.len() - 1 {
                return 0;
            }
            if hit {
                k = k - 1;
            }
            s = e + 1;
            n = n + 1;
        }
        0
    }
}

} // verus!
