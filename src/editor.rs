//! The editor's document, its undo/redo history, search highlights and list helpers.

use vstd::prelude::*;
use vstd::utf8::{
    group_utf8_lib, is_char_boundary, is_char_boundary_iff_not_is_continuation_byte,
    is_char_boundary_start_end_of_seq, valid_utf8, valid_utf8_concat,
};
use crate::notes_list::NotesList;
use crate::styling::{build_styled_runs, styled_runs, StyledRun};
use crate::text::{
    find_from, find_in, lemma_find_from_range, lemma_line_end_bounds,
    lemma_replace_ascii_valid, lemma_skip_spaces, lemma_line_start_boundary, lemma_line_start_bounds,
    lemma_skip_spaces_boundary, lemma_sub_valid, lemma_replace_range_valid, lemma_ascii_valid, line_end_from, line_end_of,
    line_start_before, line_start_of, push_range, skip_digits, skip_digits_in, skip_spaces,
    skip_spaces_in, starts_with_at, starts_with_in, string_of_valid, utf8_of, all_ascii,
};

verus! {

broadcast use group_utf8_lib;

/// Mathematical model of the editor's text history.
pub struct History {
    pub text: Seq<char>,
    pub undo: Seq<Seq<char>>,
    pub redo: Seq<Seq<char>>,
}

/// One `undo`: the last saved snapshot becomes the text, the text goes to the redo side.
pub open spec fn undo_step(h: History) -> History {
    if h.undo.len() == 0 {
        h
    } else {
        History { text: h.undo.last(), undo: h.undo.drop_last(), redo: h.redo.push(h.text) }
    }
}

/// One `redo`: the last undone snapshot becomes the text, the text goes back to the undo side.
pub open spec fn redo_step(h: History) -> History {
    if h.redo.len() == 0 {
        h
    } else {
        History { text: h.redo.last(), undo: h.undo.push(h.text), redo: h.redo.drop_last() }
    }
}

/// An edit recorded in the history: a changed text pushes the old one and drops the redo side.
pub open spec fn edit_step(h: History, t: Seq<char>) -> History {
    if h.text == t {
        h
    } else {
        History { text: t, undo: h.undo.push(h.text), redo: Seq::empty() }
    }
}

/// `n` undos in a row.
pub open spec fn undo_n(h: History, n: nat) -> History
    decreases n,
{
    if n == 0 {
        h
    } else {
        undo_step(undo_n(h, (n - 1) as nat))
    }
}

/// `n` redos in a row.
pub open spec fn redo_n(h: History, n: nat) -> History
    decreases n,
{
    if n == 0 {
        h
    } else {
        redo_n(redo_step(h), (n - 1) as nat)
    }
}

/// With no snapshot to go back to, `undo` changes nothing; with none to go forward to,
/// neither does `redo`.
pub proof fn lemma_empty_history_steps(h: History)
    ensures
        h.undo.len() == 0 ==> undo_step(h) == h,
        h.redo.len() == 0 ==> redo_step(h) == h,
{
}

/// The history after recording the texts `ts` in order with `set_text_with_undo`.
pub open spec fn edits(h: History, ts: Seq<Seq<char>>) -> History
    decreases ts.len(),
{
    if ts.len() == 0 {
        h
    } else {
        edit_step(edits(h, ts.drop_last()), ts.last())
    }
}

/// Each text of `ts` differs from the one shown before it.
pub open spec fn each_changes(h: History, ts: Seq<Seq<char>>) -> bool {
    forall|i: int| 0 <= i < ts.len() ==> #[trigger] ts[i] != (if i == 0 { h.text } else { ts[i - 1] })
}

proof fn lemma_edits_shape(h: History, ts: Seq<Seq<char>>)
    requires
        each_changes(h, ts),
        ts.len() > 0,
    ensures
        edits(h, ts).text == ts.last(),
        edits(h, ts).undo == h.undo.push(h.text) + ts.drop_last(),
        edits(h, ts).redo.len() == 0,
    decreases ts.len(),
{
    let pre = ts.drop_last();
    assert(edits(h, ts) == edit_step(edits(h, pre), ts.last()));
    if pre.len() == 0 {
        assert(h.undo.push(h.text) + pre =~= h.undo.push(h.text));
        assert(ts.last() == ts[0]);
        assert(ts[0] != h.text);
        assert(edits(h, pre) == h);
    } else {
        assert(each_changes(h, pre)) by {
            assert forall|i: int| 0 <= i < pre.len() implies #[trigger] pre[i] != (if i == 0 {
                h.text
            } else {
                pre[i - 1]
            }) by {
                assert(pre[i] == ts[i]);
                if i > 0 {
                    assert(pre[i - 1] == ts[i - 1]);
                }
            }
        }
        lemma_edits_shape(h, pre);
        assert(ts[ts.len() - 1] != ts[ts.len() - 2]);
        assert(pre.last() == ts[ts.len() - 2]);
        assert(h.undo.push(h.text) + pre.drop_last() + seq![pre.last()] =~= h.undo.push(h.text) + pre);
        assert((h.undo.push(h.text) + pre.drop_last()).push(pre.last()) =~= h.undo.push(h.text) + pre);
    }
}

proof fn lemma_undo_n_shape(h: History, k: nat)
    requires
        k <= h.undo.len(),
    ensures
        undo_n(h, k).undo == h.undo.subrange(0, h.undo.len() - k),
        k > 0 ==> undo_n(h, k).text == h.undo[h.undo.len() - k],
        k == 0 ==> undo_n(h, k).text == h.text,
    decreases k,
{
    if k > 0 {
        lemma_undo_n_shape(h, (k - 1) as nat);
        let y = undo_n(h, (k - 1) as nat);
        assert(y.undo.drop_last() =~= h.undo.subrange(0, h.undo.len() - k));
    } else {
        assert(h.undo.subrange(0, h.undo.len() as int) =~= h.undo);
    }
}

/// After recording texts `ts`, each a change, successive undos walk back through them in
/// reverse order to the starting text, and as many redos then restore the history.
pub proof fn lemma_edits_undo_redo(h: History, ts: Seq<Seq<char>>, k: nat)
    requires
        each_changes(h, ts),
        k <= ts.len(),
    ensures
        undo_n(edits(h, ts), k).text == (if k == ts.len() {
            h.text
        } else {
            ts[ts.len() - 1 - k]
        }),
        redo_n(undo_n(edits(h, ts), k), k) == edits(h, ts),
{
    if ts.len() == 0 {
        assert(undo_n(edits(h, ts), k) == h);
    } else {
        lemma_edits_shape(h, ts);
        let e = edits(h, ts);
        lemma_undo_n_shape(e, k);
        if k > 0 {
            let i = e.undo.len() - k;
            if k == ts.len() {
                assert(e.undo[i] == h.undo.push(h.text)[h.undo.len() as int]);
            } else {
                assert(e.undo[i] == ts.drop_last()[ts.len() - 1 - k]);
            }
        }
        lemma_undo_redo_round_trip(e, k, k);
    }
}

pub open spec fn texts(v: Seq<String>) -> Seq<Seq<char>> {
    v.map_values(|s: String| s@)
}

proof fn lemma_undo_n_len(h: History, n: nat)
    requires
        n <= h.undo.len(),
    ensures
        undo_n(h, n).undo.len() == h.undo.len() - n,
    decreases n,
{
    if n > 0 {
        lemma_undo_n_len(h, (n - 1) as nat);
    }
}

proof fn lemma_redo_after_undo(h: History, n: nat, m: nat)
    requires
        m <= n <= h.undo.len(),
    ensures
        redo_n(undo_n(h, n), m) == undo_n(h, (n - m) as nat),
    decreases m,
{
    if m > 0 {
        let y = undo_n(h, (n - 1) as nat);
        lemma_undo_n_len(h, (n - 1) as nat);
        assert(y.undo.drop_last().push(y.undo.last()) =~= y.undo);
        assert(y.redo.push(y.text).drop_last() =~= y.redo);
        assert(redo_step(undo_step(y)) == y);
        lemma_redo_after_undo(h, (n - 1) as nat, (m - 1) as nat);
    }
}

/// Undoing `n` steps and then redoing `m <= n` of them gives back the state reached after
/// `n - m` undos: the redos walk back through the same states in reverse order, and with
/// `m == n` the history is restored exactly.
pub proof fn lemma_undo_redo_round_trip(h: History, n: nat, m: nat)
    requires
        m <= n <= h.undo.len(),
    ensures
        redo_n(undo_n(h, n), m) == undo_n(h, (n - m) as nat),
        redo_n(undo_n(h, n), n) == h,
{
    lemma_redo_after_undo(h, n, m);
    lemma_redo_after_undo(h, n, n);
}

/// `"- "`
pub open spec fn bullet_marker() -> Seq<u8> {
    seq![45u8, 32u8]
}

/// `"- [ ] "`
pub open spec fn checkbox_marker() -> Seq<u8> {
    seq![45u8, 32u8, 91u8, 32u8, 93u8, 32u8]
}

/// `"- [ ]"`
pub open spec fn unchecked_box() -> Seq<u8> {
    seq![45u8, 32u8, 91u8, 32u8, 93u8]
}

/// `"- [x]"`
pub open spec fn checked_box() -> Seq<u8> {
    seq![45u8, 32u8, 91u8, 120u8, 93u8]
}

/// The text from `s` to `e` opens a list item: `"- "`, `"* "`, `"+ "`, or one or more
/// digits followed by `". "`.
pub open spec fn opens_list_item(t: Seq<u8>, s: int, e: int) -> bool {
    ||| starts_with_at(t, s, e, seq![45u8, 32u8])
    ||| starts_with_at(t, s, e, seq![42u8, 32u8])
    ||| starts_with_at(t, s, e, seq![43u8, 32u8])
    ||| (skip_digits(t, s, e) > s && starts_with_at(t, skip_digits(t, s, e), e, seq![46u8, 32u8]))
}

/// Where a new entry goes when no position is given: the last known cursor, else the end.
pub open spec fn entry_pos(cursor: Option<usize>, known: Option<usize>, len: int) -> int {
    match cursor {
        Some(p) => p as int,
        None => match known {
            Some(p) => p as int,
            None => len,
        },
    }
}

/// The cursor sits at the start of a line that holds nothing but white space: the entry is
/// written in place, with no line break before it.
pub open spec fn entry_in_place(t: Seq<u8>, pos: int) -> bool {
    let ls = line_start_of(t, pos);
    pos == ls && skip_spaces(t, ls, line_end_of(t, ls)) == line_end_of(t, ls)
}

/// The line before the cursor's line, as `(start, end)`; `(0, 0)` on the first line.
pub open spec fn line_above(t: Seq<u8>, pos: int) -> (int, int) {
    let ls = line_start_of(t, pos);
    if ls > 0 {
        (line_start_of(t, ls - 1), ls - 1)
    } else {
        (0, 0)
    }
}

/// The indentation a new entry takes over: that of the line before the cursor's line, when
/// that line opens a list item after its own indentation, else none.
pub open spec fn inherited_indent(t: Seq<u8>, pos: int) -> Seq<u8> {
    let (a, b) = line_above(t, pos);
    let k = skip_spaces(t, a, b);
    if opens_list_item(t, k, b) {
        t.subrange(a, k)
    } else {
        Seq::empty()
    }
}

/// What a new entry with `marker` inserts at `pos`.
pub open spec fn entry_text(t: Seq<u8>, pos: int, marker: Seq<u8>) -> Seq<u8> {
    (if entry_in_place(t, pos) {
        Seq::empty()
    } else {
        seq![10u8]
    }) + inherited_indent(t, pos) + marker
}

pub open spec fn insert_at(t: Seq<u8>, pos: int, ins: Seq<u8>) -> Seq<u8> {
    t.subrange(0, pos) + ins + t.subrange(pos, t.len() as int)
}

/// Start of line number `k` as `str::lines` counts them: a final line feed ends the last
/// line and opens none.
pub open spec fn nth_line_start(t: Seq<u8>, k: nat) -> Option<int>
    decreases k,
{
    if k == 0 {
        if t.len() == 0 {
            None
        } else {
            Some(0)
        }
    } else {
        match nth_line_start(t, (k - 1) as nat) {
            Some(s) => if line_end_of(t, s) + 1 < t.len() {
                Some(line_end_of(t, s) + 1)
            } else {
                None
            },
            None => None,
        }
    }
}

/// The text after toggling the task marker of line `k`, or `None` when that line does not
/// exist or holds no marker: the first `"- [ ]"` of the line becomes `"- [x]"`, or, when
/// there is none, the first `"- [x]"` becomes `"- [ ]"`.
pub open spec fn toggled_line(t: Seq<u8>, k: nat) -> Option<Seq<u8>> {
    match nth_line_start(t, k) {
        None => None,
        Some(s) => match find_from(t, unchecked_box(), s, line_end_of(t, s)) {
            Some(p) => Some(t.update(p + 3, 120u8)),
            None => match find_from(t, checked_box(), s, line_end_of(t, s)) {
                Some(p) => Some(t.update(p + 3, 32u8)),
                None => None,
            },
        },
    }
}

proof fn lemma_nth_line_none(t: Seq<u8>, j: nat, k: nat)
    requires
        j <= k,
        nth_line_start(t, j) is None,
    ensures
        nth_line_start(t, k) is None,
    decreases k - j,
{
    if j < k {
        lemma_nth_line_none(t, j, (k - 1) as nat);
    }
}

pub(crate) fn opens_list_item_in(t: &[u8], s: usize, e: usize) -> (r: bool)
    requires
        s <= e <= t@.len(),
    ensures
        r == opens_list_item(t@, s as int, e as int),
{
    let dash = vec![45u8, 32u8];
    let star = vec![42u8, 32u8];
    let plus = vec![43u8, 32u8];
    let dot = vec![46u8, 32u8];
    assert(dash@ =~= seq![45u8, 32u8]);
    assert(star@ =~= seq![42u8, 32u8]);
    assert(plus@ =~= seq![43u8, 32u8]);
    assert(dot@ =~= seq![46u8, 32u8]);
    let d = skip_digits_in(t, s, e);
    starts_with_in(t, s, e, dash.as_slice()) || starts_with_in(t, s, e, star.as_slice())
        || starts_with_in(t, s, e, plus.as_slice()) || (d > s && starts_with_in(
        t,
        d,
        e,
        dot.as_slice(),
    ))
}

/// The bytes that an entry with `marker` inserts at `pos`.
fn entry_bytes(t: &[u8], pos: usize, marker: &[u8]) -> (ins: Vec<u8>)
    requires
        pos <= t@.len(),
        valid_utf8(t@),
        all_ascii(marker@),
    ensures
        ins@ == entry_text(t@, pos as int, marker@),
        valid_utf8(ins@),
{
    let ghost doc = t@;
    let ls = line_start_before(t, pos);
    let le = line_end_from(t, ls);
    let in_place = pos == ls && skip_spaces_in(t, ls, le) == le;
    let (a, b) = if ls > 0 {
        (line_start_before(t, ls - 1), ls - 1)
    } else {
        (0, 0)
    };
    assert((a as int, b as int) == line_above(doc, pos as int));
    let k = skip_spaces_in(t, a, b);
    proof {
        lemma_skip_spaces(doc, a as int, b as int);
        lemma_line_start_bounds(doc, pos as int);
        if ls > 0 {
            lemma_line_start_boundary(doc, ls - 1);
            is_char_boundary_iff_not_is_continuation_byte(doc, ls - 1);
        } else {
            is_char_boundary_start_end_of_seq(doc);
        }
        lemma_skip_spaces_boundary(doc, a as int, b as int);
        lemma_sub_valid(doc, a as int, k as int);
    }
    let mut ins: Vec<u8> = Vec::new();
    if !in_place {
        ins.push(10u8);
    }
    let ghost head = ins@;
    if opens_list_item_in(t, k, b) {
        push_range(&mut ins, t, a, k);
    }
    let ghost indent = inherited_indent(doc, pos as int);
    assert(ins@ == head + indent);
    push_range(&mut ins, marker, 0, marker.len());
    assert(marker@.subrange(0, marker@.len() as int) =~= marker@);
    assert(ins@ =~= entry_text(doc, pos as int, marker@));
    proof {
        assert(all_ascii(head));
        lemma_ascii_valid(head);
        lemma_ascii_valid(marker@);
        if indent.len() > 0 {
            assert(indent == doc.subrange(a as int, k as int));
        } else {
            assert(indent =~= Seq::<u8>::empty());
            lemma_ascii_valid(indent);
        }
        valid_utf8_concat(head, indent);
        valid_utf8_concat(head + indent, marker@);
    }
    ins
}

/// The state after a list or task entry with `marker` was inserted.
pub open spec fn entry_inserted(
    old: Editor,
    new: Editor,
    cursor_pos: Option<usize>,
    marker: Seq<u8>,
) -> bool {
    let t = old.doc();
    let p = old.entry_position(cursor_pos);
    let ins = entry_text(t, p, marker);
    &&& new.doc() == insert_at(t, p, ins)
    &&& new.history().undo == old.history().undo.push(old.history().text)
    &&& new.history().redo.len() == 0
    &&& new.cursor_override_view() == Some((p + ins.len()) as usize)
    &&& new.match_ranges_view() == old.match_ranges_view()
    &&& new.current_match_view() == old.current_match_view()
    &&& new.cursor_pos_view() == old.cursor_pos_view()
}

/// The editor's state: the document, its history, the search highlights and the cursor.
pub struct Editor {
    markdown_text: String,
    should_focus: bool,
    match_ranges: Vec<(usize, usize)>,
    current_match: Option<usize>,
    undo_stack: Vec<String>,
    redo_stack: Vec<String>,
    cursor_override: Option<usize>,
    current_cursor_pos: Option<usize>,
}

impl Editor {
    /// The document and its undo and redo snapshots.
    pub closed spec fn history(&self) -> History {
        History {
            text: self.markdown_text@,
            undo: texts(self.undo_stack@),
            redo: texts(self.redo_stack@),
        }
    }

    /// The document's UTF-8 bytes.
    pub open spec fn doc(&self) -> Seq<u8> {
        utf8_of(self.history().text)
    }

    pub closed spec fn match_ranges_view(&self) -> Seq<(usize, usize)> {
        self.match_ranges@
    }

    pub closed spec fn current_match_view(&self) -> Option<usize> {
        self.current_match
    }

    /// Cursor position to hand to the text widget on its next draw.
    pub closed spec fn cursor_override_view(&self) -> Option<usize> {
        self.cursor_override
    }

    /// Last cursor position that the text widget reported.
    pub closed spec fn cursor_pos_view(&self) -> Option<usize> {
        self.current_cursor_pos
    }

    pub closed spec fn focus_requested(&self) -> bool {
        self.should_focus
    }

    pub fn new() -> (r: Self)
        ensures
            r.history() == (History { text: Seq::empty(), undo: Seq::empty(), redo: Seq::empty() }),
            r.match_ranges_view().len() == 0,
            r.current_match_view() is None,
            r.cursor_override_view() is None,
            r.cursor_pos_view() is None,
            r.focus_requested(),
    {
        let r = Editor {
            markdown_text: String::new(),
            should_focus: true,
            match_ranges: Vec::new(),
            current_match: None,
            undo_stack: Vec::new(),
            redo_stack: Vec::new(),
            cursor_override: None,
            current_cursor_pos: None,
        };
        assert(texts(r.undo_stack@) =~= Seq::empty());
        assert(texts(r.redo_stack@) =~= Seq::empty());
        r
    }

    pub fn get_text(&self) -> (r: &str)
        ensures
            r@ == self.history().text,
    {
        self.markdown_text.as_str()
    }

    /// Replaces the document without touching the history.
    pub fn set_text(&mut self, text: &str)
        ensures
            final(self).history() == (History { text: text@, ..old(self).history() }),
            final(self).match_ranges_view() == old(self).match_ranges_view(),
            final(self).current_match_view() == old(self).current_match_view(),
            final(self).cursor_pos_view() == old(self).cursor_pos_view(),
            final(self).cursor_override_view() == old(self).cursor_override_view(),
    {
        self.markdown_text = text.to_owned();
    }

    /// Replaces the document, recording the old one for `undo` when the text changes.
    pub fn set_text_with_undo(&mut self, text: &str)
        ensures
            final(self).history() == edit_step(old(self).history(), text@),
            final(self).match_ranges_view() == old(self).match_ranges_view(),
            final(self).current_match_view() == old(self).current_match_view(),
            final(self).cursor_pos_view() == old(self).cursor_pos_view(),
            final(self).cursor_override_view() == old(self).cursor_override_view(),
    {
        let t = text.to_owned();
        if self.markdown_text != t {
            self.record_edit(t);
        }
    }

    fn record_edit(&mut self, t: String)
        ensures
            final(self).history() == (History {
                text: t@,
                undo: old(self).history().undo.push(old(self).history().text),
                redo: Seq::empty(),
            }),
            final(self).match_ranges_view() == old(self).match_ranges_view(),
            final(self).current_match_view() == old(self).current_match_view(),
            final(self).cursor_pos_view() == old(self).cursor_pos_view(),
            final(self).cursor_override_view() == old(self).cursor_override_view(),
    {
        let prev = self.markdown_text.clone();
        self.undo_stack.push(prev);
        self.redo_stack.clear();
        self.markdown_text = t;
        assert(texts(self.undo_stack@) =~= texts(old(self).undo_stack@).push(old(self).markdown_text@));
        assert(texts(self.redo_stack@) =~= Seq::empty());
    }

    /// Steps back to the last snapshot; `false`, with nothing changed, when there is none.
    pub fn undo(&mut self) -> (r: bool)
        ensures
            r == (old(self).history().undo.len() > 0),
            final(self).history() == undo_step(old(self).history()),
            final(self).match_ranges_view() == old(self).match_ranges_view(),
            final(self).current_match_view() == old(self).current_match_view(),
            final(self).cursor_pos_view() == old(self).cursor_pos_view(),
            final(self).cursor_override_view() == old(self).cursor_override_view(),
    {
        match self.undo_stack.pop() {
            Some(previous_state) => {
                let cur = self.markdown_text.clone();
                self.redo_stack.push(cur);
                self.markdown_text = previous_state;
                assert(texts(self.undo_stack@) =~= texts(old(self).undo_stack@).drop_last());
                assert(texts(self.redo_stack@) =~= texts(old(self).redo_stack@).push(old(self).markdown_text@));
                true
            },
            None => false,
        }
    }

    /// Steps forward to the last undone snapshot; `false`, with nothing changed, when there is none.
    pub fn redo(&mut self) -> (r: bool)
        ensures
            r == (old(self).history().redo.len() > 0),
            final(self).history() == redo_step(old(self).history()),
            final(self).match_ranges_view() == old(self).match_ranges_view(),
            final(self).current_match_view() == old(self).current_match_view(),
            final(self).cursor_pos_view() == old(self).cursor_pos_view(),
            final(self).cursor_override_view() == old(self).cursor_override_view(),
    {
        match self.redo_stack.pop() {
            Some(next_state) => {
                let cur = self.markdown_text.clone();
                self.undo_stack.push(cur);
                self.markdown_text = next_state;
                assert(texts(self.redo_stack@) =~= texts(old(self).redo_stack@).drop_last());
                assert(texts(self.undo_stack@) =~= texts(old(self).undo_stack@).push(old(self).markdown_text@));
                true
            },
            None => false,
        }
    }
    /// Where an entry goes for the given cursor position.
    pub open spec fn entry_position(&self, cursor_pos: Option<usize>) -> int {
        entry_pos(cursor_pos, self.cursor_pos_view(), self.doc().len() as int)
    }

    /// The entry position lies inside the document, on a character boundary.
    pub open spec fn entry_position_ok(&self, cursor_pos: Option<usize>) -> bool {
        let p = self.entry_position(cursor_pos);
        0 <= p <= self.doc().len() && is_char_boundary(self.doc(), p)
    }

    fn insert_entry(&mut self, cursor_pos: Option<usize>, marker: &[u8]) -> (r: bool)
        requires
            old(self).entry_position_ok(cursor_pos),
            all_ascii(marker@),
        ensures
            r,
            entry_inserted(*old(self), *final(self), cursor_pos, marker@),
    {
        let ghost doc = self.doc();
        let t: &[u8] = self.markdown_text.as_str().as_bytes();
        let pos: usize = match cursor_pos {
            Some(p) => p,
            None => match self.current_cursor_pos {
                Some(p) => p,
                None => t.len(),
            },
        };
        let ins = entry_bytes(t, pos, marker);
        let mut out: Vec<u8> = Vec::new();
        push_range(&mut out, t, 0, pos);
        push_range(&mut out, ins.as_slice(), 0, ins.len());
        push_range(&mut out, t, pos, t.len());
        assert(ins@.subrange(0, ins@.len() as int) =~= ins@);
        assert(out@ =~= insert_at(doc, pos as int, ins@));
        proof {
            lemma_replace_range_valid(doc, pos as int, pos as int, ins@);
        }
        let n = out.len();
        let cursor = pos + ins.len();
        let s = string_of_valid(out);
        self.record_edit(s);
        self.cursor_override = Some(cursor);
        true
    }

    /// Opens a bullet entry (`"- "`) at the cursor, on a new line unless the cursor sits at the
    /// start of a blank line, indented like the line above when that line is a list item.
    /// The old text goes to the undo history and the cursor is moved past the marker.
    pub fn insert_list_entry(&mut self, cursor_pos: Option<usize>) -> (r: bool)
        requires
            old(self).entry_position_ok(cursor_pos),
        ensures
            r,
            entry_inserted(*old(self), *final(self), cursor_pos, bullet_marker()),
    {
        let m = vec![45u8, 32u8];
        assert(m@ =~= bullet_marker());
        self.insert_entry(cursor_pos, m.as_slice())
    }

    /// Opens a task entry (`"- [ ] "`) the way `insert_list_entry` opens a bullet entry.
    pub fn insert_checkbox_entry(&mut self, cursor_pos: Option<usize>) -> (r: bool)
        requires
            old(self).entry_position_ok(cursor_pos),
        ensures
            r,
            entry_inserted(*old(self), *final(self), cursor_pos, checkbox_marker()),
    {
        let m = vec![45u8, 32u8, 91u8, 32u8, 93u8, 32u8];
        assert(m@ =~= checkbox_marker());
        self.insert_entry(cursor_pos, m.as_slice())
    }

    /// Toggles the task marker of line `line_index` (see `toggled_line`); the old text goes
    /// to the undo history. Nothing changes when the line does not exist or has no marker.
    pub fn toggle_checkbox_at_line(&mut self, line_index: usize)
        ensures
            match toggled_line(old(self).doc(), line_index as nat) {
                Some(n) => {
                    &&& final(self).doc() == n
                    &&& final(self).history().undo == old(self).history().undo.push(
                        old(self).history().text,
                    )
                    &&& final(self).history().redo.len() == 0
                },
                None => final(self).history() == old(self).history(),
            },
            final(self).match_ranges_view() == old(self).match_ranges_view(),
            final(self).current_match_view() == old(self).current_match_view(),
            final(self).cursor_pos_view() == old(self).cursor_pos_view(),
            final(self).cursor_override_view() == old(self).cursor_override_view(),
    {
        let ghost doc = self.doc();
        let t: &[u8] = self.markdown_text.as_str().as_bytes();
        assert(t@ == doc);
        if t.len() == 0 {
            proof {
                lemma_nth_line_none(doc, 0, line_index as nat);
            }
            return;
        }
        let mut s: usize = 0;
        let mut k: usize = 0;
        while k < line_index
            invariant
                k <= line_index,
                t@ == doc,
                doc == old(self).doc(),
                *self == *old(self),
                nth_line_start(doc, k as nat) == Some(s as int),
                s < t@.len(),
            decreases line_index - k,
        {
            let e = line_end_from(t, s);
            if e >= t.len() - 1 {
                assert(nth_line_start(doc, (k + 1) as nat) is None);
                proof {
                    lemma_nth_line_none(doc, (k + 1) as nat, line_index as nat);
                }
                return;
            }
            s = e + 1;
            k = k + 1;
        }
        let e = line_end_from(t, s);
        let unchecked = vec![45u8, 32u8, 91u8, 32u8, 93u8];
        let checked = vec![45u8, 32u8, 91u8, 120u8, 93u8];
        assert(unchecked@ =~= unchecked_box());
        assert(checked@ =~= checked_box());
        let (i, b): (usize, u8) = match find_in(t, s, e, unchecked.as_slice()) {
            Some(p) => {
                proof {
                    lemma_find_from_range(doc, unchecked_box(), s as int, e as int);
                    assert(doc[p + 3] == doc.subrange(p as int, p + 5)[3]);
                }
                (p + 3, 120u8)
            },
            None => match find_in(t, s, e, checked.as_slice()) {
                Some(p) => {
                    proof {
                        lemma_find_from_range(doc, checked_box(), s as int, e as int);
                        assert(doc[p + 3] == doc.subrange(p as int, p + 5)[3]);
                    }
                    (p + 3, 32u8)
                },
                None => {
                    return;
                },
            },
        };
        let mut out: Vec<u8> = Vec::new();
        push_range(&mut out, t, 0, t.len());
        assert(doc.subrange(0, doc.len() as int) =~= doc);
        out.set(i, b);
        proof {
            lemma_replace_ascii_valid(doc, i as int, b);
        }
        let n = string_of_valid(out);
        self.record_edit(n);
    }
    /// Replaces the search highlights.
    pub fn set_match_ranges(&mut self, ranges: Vec<(usize, usize)>, current: Option<usize>)
        ensures
            final(self).match_ranges_view() == ranges@,
            final(self).current_match_view() == current,
            final(self).history() == old(self).history(),
            final(self).cursor_pos_view() == old(self).cursor_pos_view(),
            final(self).cursor_override_view() == old(self).cursor_override_view(),
    {
        self.match_ranges = ranges;
        self.current_match = current;
    }

    /// Drops the search highlights.
    pub fn clear_matches(&mut self)
        ensures
            final(self).match_ranges_view().len() == 0,
            final(self).current_match_view() is None,
            final(self).history() == old(self).history(),
            final(self).cursor_pos_view() == old(self).cursor_pos_view(),
            final(self).cursor_override_view() == old(self).cursor_override_view(),
    {
        self.match_ranges.clear();
        self.current_match = None;
    }

    /// Loads another note: its text, with an empty history.
    pub fn load_notes(&mut self, notes_list: &NotesList)
        ensures
            final(self).history() == (History {
                text: notes_list.current_content(),
                undo: Seq::empty(),
                redo: Seq::empty(),
            }),
            final(self).match_ranges_view() == old(self).match_ranges_view(),
            final(self).current_match_view() == old(self).current_match_view(),
    {
        self.markdown_text = notes_list.get_current_content().to_owned();
        self.undo_stack.clear();
        self.redo_stack.clear();
        assert(texts(self.undo_stack@) =~= Seq::empty());
        assert(texts(self.redo_stack@) =~= Seq::empty());
    }

    /// The styled runs of the document with its search highlights (see `build_styled_runs`).
    pub fn styled_runs(&self) -> (r: Vec<StyledRun>)
        ensures
            r@ == styled_runs(self.doc(), self.match_ranges_view(), self.current_match_view()),
    {
        build_styled_runs(self.markdown_text.as_str(), self.match_ranges.as_slice(), self.current_match)
    }

    /// Records where the text widget's cursor is.
    pub fn set_cursor_pos(&mut self, pos: Option<usize>)
        ensures
            final(self).cursor_pos_view() == pos,
            final(self).history() == old(self).history(),
            final(self).match_ranges_view() == old(self).match_ranges_view(),
            final(self).current_match_view() == old(self).current_match_view(),
            final(self).cursor_override_view() == old(self).cursor_override_view(),
    {
        self.current_cursor_pos = pos;
    }

    /// Hands over the pending cursor position, once.
    pub fn take_cursor_override(&mut self) -> (r: Option<usize>)
        ensures
            r == old(self).cursor_override_view(),
            final(self).cursor_override_view() is None,
            final(self).history() == old(self).history(),
            final(self).match_ranges_view() == old(self).match_ranges_view(),
            final(self).current_match_view() == old(self).current_match_view(),
            final(self).cursor_pos_view() == old(self).cursor_pos_view(),
    {
        let r = self.cursor_override;
        self.cursor_override = None;
        r
    }

    /// Whether the text widget should take focus; asked once.
    pub fn take_focus_request(&mut self) -> (r: bool)
        ensures
            r == old(self).focus_requested(),
            !final(self).focus_requested(),
            final(self).history() == old(self).history(),
            final(self).match_ranges_view() == old(self).match_ranges_view(),
            final(self).current_match_view() == old(self).current_match_view(),
            final(self).cursor_pos_view() == old(self).cursor_pos_view(),
            final(self).cursor_override_view() == old(self).cursor_override_view(),
    {
        let r = self.should_focus;
        self.should_focus = false;
        r
    }
    /// The last cursor position the text widget reported.
    pub fn cursor_pos(&self) -> (r: Option<usize>)
        ensures
            r == self.cursor_pos_view(),
    {
        self.current_cursor_pos
    }

    /// A copy of the search highlights and the active match.
    pub fn match_state(&self) -> (r: (Vec<(usize, usize)>, Option<usize>))
        ensures
            r.0@ == self.match_ranges_view(),
            r.1 == self.current_match_view(),
    {
        let mut v: Vec<(usize, usize)> = Vec::new();
        let mut i: usize = 0;
        while i < self.match_ranges.len()
            invariant
                i <= self.match_ranges@.len(),
                v@ == self.match_ranges@.subrange(0, i as int),
            decreases self.match_ranges@.len() - i,
        {
            v.push(self.match_ranges[i]);
            assert(v@ =~= self.match_ranges@.subrange(0, i + 1));
            i = i + 1;
        }
        assert(self.match_ranges@.subrange(0, self.match_ranges@.len() as int) =~= self.match_ranges@);
        (v, self.current_match)
    }
}

} // verus!
