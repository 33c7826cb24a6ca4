//! Styled layout of the editor text: a base style for each line from its leading markup,
//! refined by search-match highlights.

use vstd::prelude::*;
use crate::editor::{opens_list_item, opens_list_item_in};
use crate::text::{
    lemma_line_end_bounds, lemma_skip_spaces, line_end_from, line_end_of, skip_byte,
    skip_byte_in, skip_spaces, skip_spaces_in, starts_with_at, starts_with_in, utf8_of,
};

verus! {

/// The base style of a run of text.
#[derive(Clone, Copy, Debug, PartialEq, Eq, Structural)]
pub enum RunKind {
    /// Ordinary text.
    Body,
    /// The `#` signs that open a heading.
    Marker,
    /// Heading text of the given level, 1 to 6.
    Heading(u8),
    /// A code fence line.
    Code,
    /// A block quote line.
    Quote,
    /// A list item line.
    ListItem,
}

/// Background of a run: none, a search match, or the active search match.
#[derive(Clone, Copy, Debug, PartialEq, Eq, Structural)]
pub enum Highlight {
    Plain,
    Match,
    Current,
}

/// The bytes `start..end` of the text, drawn with one style.
#[derive(Clone, Copy, Debug, PartialEq, Eq, Structural)]
pub struct StyledRun {
    pub start: usize,
    pub end: usize,
    pub kind: RunKind,
    pub highlight: Highlight,
}

pub open spec fn run(s: int, e: int, k: RunKind) -> StyledRun {
    StyledRun { start: s as usize, end: e as usize, kind: k, highlight: Highlight::Plain }
}

/// A run from `s` to `e`, left out when empty.
pub open spec fn piece(s: int, e: int, k: RunKind) -> Seq<StyledRun> {
    if s < e {
        seq![run(s, e, k)]
    } else {
        Seq::empty()
    }
}

/// Number of `#` signs that open the text at `k`.
pub open spec fn hash_count(t: Seq<u8>, k: int, le: int) -> int {
    skip_byte(t, k, le, 35u8) - k
}

/// The text at `k` opens a heading: one to six `#` signs and a space.
pub open spec fn opens_heading(t: Seq<u8>, k: int, le: int) -> bool {
    let n = hash_count(t, k, le);
    1 <= n <= 6 && k + n < le && t[k + n] == 32u8
}

/// Style of a line that is not a heading, from its text after the indentation at `k`.
pub open spec fn line_kind(t: Seq<u8>, k: int, le: int) -> RunKind {
    if starts_with_at(t, k, le, seq![96u8, 96u8, 96u8]) {
        RunKind::Code
    } else if starts_with_at(t, k, le, seq![62u8]) {
        RunKind::Quote
    } else if opens_list_item(t, k, le) {
        RunKind::ListItem
    } else {
        RunKind::Body
    }
}

/// The runs of the line `t[ls..le]`. A line whose text, after its indentation, opens
/// with one to six `#` signs and a space is a heading of that level: the indentation is body
/// text, the `#` signs are a marker, the space is body text, and the rest is heading text.
/// Any other line is one run of its `line_kind`.
pub open spec fn line_runs(t: Seq<u8>, ls: int, le: int) -> Seq<StyledRun> {
    let k = skip_spaces(t, ls, le);
    if opens_heading(t, k, le) {
        let n = hash_count(t, k, le);
        piece(ls, k, RunKind::Body) + piece(k, k + n, RunKind::Marker) + piece(
            k + n,
            k + n + 1,
            RunKind::Body,
        ) + piece(k + n + 1, le, RunKind::Heading(n as u8))
    } else {
        piece(ls, le, line_kind(t, k, le))
    }
}

/// Runs of the text from the line that starts at `ls` on; each line feed is a body run of its own.
pub open spec fn runs_from(t: Seq<u8>, ls: int) -> Seq<StyledRun>
    decreases t.len() - ls,
{
    let le = line_end_of(t, ls);
    if ls <= le && le < t.len() {
        line_runs(t, ls, le) + seq![run(le, le + 1, RunKind::Body)] + runs_from(t, le + 1)
    } else {
        line_runs(t, ls, le)
    }
}

/// The base runs of a text, before highlighting.
pub open spec fn base_runs(t: Seq<u8>) -> Seq<StyledRun> {
    runs_from(t, 0)
}

/// `r` split where it meets the byte range `s..e`: the part inside takes highlight `h`, the
/// parts before and after keep their style. A run that does not meet the range is kept whole.
pub open spec fn split_run(r: StyledRun, s: int, e: int, h: Highlight) -> Seq<StyledRun> {
    if r.start < e && r.end > s {
        let os = if s > r.start {
            s
        } else {
            r.start as int
        };
        let oe = if e < r.end {
            e
        } else {
            r.end as int
        };
        (if os > r.start {
            seq![StyledRun { end: os as usize, ..r }]
        } else {
            Seq::empty()
        }) + seq![StyledRun { start: os as usize, end: oe as usize, highlight: h, ..r }] + (if oe
            < r.end {
            seq![StyledRun { start: oe as usize, ..r }]
        } else {
            Seq::empty()
        })
    } else {
        seq![r]
    }
}

/// Every run split by the range `s..e`: the pieces of each run, in the order of the runs.
pub open spec fn highlight_runs(runs: Seq<StyledRun>, s: int, e: int, h: Highlight) -> Seq<
    StyledRun,
>
    decreases runs.len(),
{
    if runs.len() == 0 {
        Seq::empty()
    } else {
        highlight_runs(runs.drop_last(), s, e, h) + split_run(runs.last(), s, e, h)
    }
}

/// A match range that lies inside a text of `len` bytes and is not empty.
pub open spec fn usable_match(m: (usize, usize), len: int) -> bool {
    m.0 < len && m.1 <= len && m.0 < m.1
}

/// The runs after highlighting each usable match in order; match `current` is the active one.
pub open spec fn apply_matches(
    runs: Seq<StyledRun>,
    ms: Seq<(usize, usize)>,
    current: Option<usize>,
    len: int,
) -> Seq<StyledRun>
    decreases ms.len(),
{
    if ms.len() == 0 {
        runs
    } else {
        let prev = apply_matches(runs, ms.drop_last(), current, len);
        let m = ms.last();
        if usable_match(m, len) {
            highlight_runs(
                prev,
                m.0 as int,
                m.1 as int,
                if current == Some((ms.len() - 1) as usize) {
                    Highlight::Current
                } else {
                    Highlight::Match
                },
            )
        } else {
            prev
        }
    }
}

/// The styled runs of a text with the given search matches.
pub open spec fn styled_runs(t: Seq<u8>, ms: Seq<(usize, usize)>, current: Option<usize>) -> Seq<
    StyledRun,
> {
    apply_matches(base_runs(t), ms, current, t.len() as int)
}

/// The runs are non-empty, in order, and together cover `a..b` without gaps or overlaps.
pub open spec fn covers(runs: Seq<StyledRun>, a: int, b: int) -> bool
    decreases runs.len(),
{
    if runs.len() == 0 {
        a == b
    } else {
        let r = runs.last();
        r.start < r.end && r.end == b && covers(runs.drop_last(), a, r.start as int)
    }
}

proof fn lemma_covers_concat(x: Seq<StyledRun>, y: Seq<StyledRun>, a: int, m: int, b: int)
    requires
        covers(x, a, m),
        covers(y, m, b),
    ensures
        covers(x + y, a, b),
    decreases y.len(),
{
    if y.len() == 0 {
        assert(x + y =~= x);
    } else {
        assert((x + y).drop_last() =~= x + y.drop_last());
        assert((x + y).last() == y.last());
        lemma_covers_concat(x, y.drop_last(), a, m, y.last().start as int);
    }
}

proof fn lemma_piece_covers(s: int, e: int, k: RunKind)
    requires
        0 <= s <= e <= usize::MAX,
    ensures
        covers(piece(s, e, k), s, e),
{
    reveal_with_fuel(covers, 2);
    if s < e {
        assert(piece(s, e, k).drop_last() =~= Seq::<StyledRun>::empty());
    }
}

proof fn lemma_line_runs_cover(t: Seq<u8>, ls: int, le: int)
    requires
        0 <= ls <= le <= t.len() <= usize::MAX,
    ensures
        covers(line_runs(t, ls, le), ls, le),
{
    let k = skip_spaces(t, ls, le);
    lemma_skip_spaces(t, ls, le);
    if opens_heading(t, k, le) {
        let n = hash_count(t, k, le);
        lemma_piece_covers(ls, k, RunKind::Body);
        lemma_piece_covers(k, k + n, RunKind::Marker);
        lemma_piece_covers(k + n, k + n + 1, RunKind::Body);
        lemma_piece_covers(k + n + 1, le, RunKind::Heading(n as u8));
        lemma_covers_concat(piece(ls, k, RunKind::Body), piece(k, k + n, RunKind::Marker), ls, k, k + n);
        lemma_covers_concat(
            piece(ls, k, RunKind::Body) + piece(k, k + n, RunKind::Marker),
            piece(k + n, k + n + 1, RunKind::Body),
            ls,
            k + n,
            k + n + 1,
        );
        lemma_covers_concat(
            piece(ls, k, RunKind::Body) + piece(k, k + n, RunKind::Marker) + piece(
                k + n,
                k + n + 1,
                RunKind::Body,
            ),
            piece(k + n + 1, le, RunKind::Heading(n as u8)),
            ls,
            k + n + 1,
            le,
        );
    } else {
        lemma_piece_covers(ls, le, line_kind(t, k, le));
    }
}

proof fn lemma_runs_from_cover(t: Seq<u8>, ls: int)
    requires
        0 <= ls <= t.len() <= usize::MAX,
    ensures
        covers(runs_from(t, ls), ls, t.len() as int),
    decreases t.len() - ls,
{
    let le = line_end_of(t, ls);
    lemma_line_end_bounds(t, ls);
    lemma_line_runs_cover(t, ls, le);
    if le < t.len() {
        let sep = seq![run(le, le + 1, RunKind::Body)];
        lemma_piece_covers(le, le + 1, RunKind::Body);
        assert(piece(le, le + 1, RunKind::Body) == sep);
        lemma_runs_from_cover(t, le + 1);
        lemma_covers_concat(line_runs(t, ls, le), sep, ls, le, le + 1);
        lemma_covers_concat(line_runs(t, ls, le) + sep, runs_from(t, le + 1), ls, le + 1, t.len() as int);
    }
}

/// Highlighting splits a run into pieces that are contiguous, in order, and together cover
/// exactly the run's own range, wherever the match range meets its boundaries.
pub proof fn lemma_split_run_covers(r: StyledRun, s: int, e: int, h: Highlight)
    requires
        r.start < r.end,
        s < e,
    ensures
        covers(split_run(r, s, e, h), r.start as int, r.end as int),
        split_run(r, s, e, h).len() >= 1,
{
    reveal_with_fuel(covers, 2);
    if r.start < e && r.end > s {
        let os = if s > r.start { s } else { r.start as int };
        let oe = if e < r.end { e } else { r.end as int };
        let a: Seq<StyledRun> = if os > r.start { seq![StyledRun { end: os as usize, ..r }] } else { Seq::empty() };
        let m = seq![StyledRun { start: os as usize, end: oe as usize, highlight: h, ..r }];
        let c: Seq<StyledRun> = if oe < r.end { seq![StyledRun { start: oe as usize, ..r }] } else { Seq::empty() };
        if os > r.start {
            assert(a.drop_last() =~= Seq::<StyledRun>::empty());
        }
        assert(m.drop_last() =~= Seq::<StyledRun>::empty());
        if oe < r.end {
            assert(c.drop_last() =~= Seq::<StyledRun>::empty());
        }
        lemma_covers_concat(a, m, r.start as int, os, oe);
        lemma_covers_concat(a + m, c, r.start as int, oe, r.end as int);
    } else {
        assert(seq![r].drop_last() =~= Seq::<StyledRun>::empty());
    }
}

proof fn lemma_highlight_covers(runs: Seq<StyledRun>, a: int, b: int, s: int, e: int, h: Highlight)
    requires
        covers(runs, a, b),
        s < e,
    ensures
        covers(highlight_runs(runs, s, e, h), a, b),
    decreases runs.len(),
{
    if runs.len() > 0 {
        let r = runs.last();
        lemma_highlight_covers(runs.drop_last(), a, r.start as int, s, e, h);
        lemma_split_run_covers(r, s, e, h);
        lemma_covers_concat(
            highlight_runs(runs.drop_last(), s, e, h),
            split_run(r, s, e, h),
            a,
            r.start as int,
            b,
        );
    }
}

proof fn lemma_apply_covers(runs: Seq<StyledRun>, ms: Seq<(usize, usize)>, current: Option<usize>, len: int)
    requires
        covers(runs, 0, len),
    ensures
        covers(apply_matches(runs, ms, current, len), 0, len),
    decreases ms.len(),
{
    if ms.len() > 0 {
        lemma_apply_covers(runs, ms.drop_last(), current, len);
        let m = ms.last();
        if usable_match(m, len) {
            let h = if current == Some((ms.len() - 1) as usize) { Highlight::Current } else { Highlight::Match };
            lemma_highlight_covers(apply_matches(runs, ms.drop_last(), current, len), 0, len, m.0 as int, m.1 as int, h);
        }
    }
}

proof fn lemma_covers_nonempty(runs: Seq<StyledRun>, a: int, b: int)
    requires
        covers(runs, a, b),
    ensures
        forall|i: int| 0 <= i < runs.len() ==> #[trigger] runs[i].start < runs[i].end,
    decreases runs.len(),
{
    if runs.len() > 0 {
        lemma_covers_nonempty(runs.drop_last(), a, runs.last().start as int);
        assert forall|i: int| 0 <= i < runs.len() implies #[trigger] runs[i].start < runs[i].end by {
            if i < runs.len() - 1 {
                assert(runs[i] == runs.drop_last()[i]);
            }
        }
    }
}

/// Highlighting a range over a partition of `a..b` replaces each run, in order, by the
/// pieces of `split_run`, which are contiguous and cover exactly that run's range; the
/// result is again a partition of `a..b`.
pub proof fn lemma_highlight_refines(runs: Seq<StyledRun>, a: int, b: int, s: int, e: int, h: Highlight)
    requires
        covers(runs, a, b),
        s < e,
    ensures
        forall|i: int|
            0 <= i < runs.len() ==> covers(
                #[trigger] split_run(runs[i], s, e, h),
                runs[i].start as int,
                runs[i].end as int,
            ),
        covers(highlight_runs(runs, s, e, h), a, b),
{
    lemma_covers_nonempty(runs, a, b);
    assert forall|i: int| 0 <= i < runs.len() implies covers(
        #[trigger] split_run(runs[i], s, e, h),
        runs[i].start as int,
        runs[i].end as int,
    ) by {
        lemma_split_run_covers(runs[i], s, e, h);
    }
    lemma_highlight_covers(runs, a, b, s, e, h);
}

/// With no matches, the runs of any text partition `0..len` of its bytes: non-empty,
/// in order, with no gaps or overlaps.
pub proof fn lemma_base_runs_partition(t: Seq<u8>)
    requires
        t.len() <= usize::MAX,
    ensures
        covers(base_runs(t), 0, t.len() as int),
        covers(styled_runs(t, Seq::empty(), None), 0, t.len() as int),
{
    lemma_runs_from_cover(t, 0);
}

/// Highlighting any matches keeps the runs a partition of the text.
pub proof fn lemma_styled_runs_partition(t: Seq<u8>, ms: Seq<(usize, usize)>, current: Option<usize>)
    requires
        t.len() <= usize::MAX,
    ensures
        covers(styled_runs(t, ms, current), 0, t.len() as int),
{
    lemma_runs_from_cover(t, 0);
    lemma_apply_covers(base_runs(t), ms, current, t.len() as int);
}

fn make_run(s: usize, e: usize, k: RunKind) -> (r: StyledRun)
    ensures
        r == run(s as int, e as int, k),
{
    StyledRun { start: s, end: e, kind: k, highlight: Highlight::Plain }
}

fn push_piece(out: &mut Vec<StyledRun>, s: usize, e: usize, k: RunKind)
    ensures
        final(out)@ == old(out)@ + piece(s as int, e as int, k),
{
    if s < e {
        out.push(make_run(s, e, k));
        assert(final(out)@ =~= old(out)@ + piece(s as int, e as int, k));
    } else {
        assert(out@ =~= old(out)@ + piece(s as int, e as int, k));
    }
}

fn line_kind_in(t: &[u8], k: usize, le: usize) -> (r: RunKind)
    requires
        k <= le <= t@.len(),
    ensures
        r == line_kind(t@, k as int, le as int),
{
    let fence = vec![96u8, 96u8, 96u8];
    let quote = vec![62u8];
    assert(fence@ =~= seq![96u8, 96u8, 96u8]);
    assert(quote@ =~= seq![62u8]);
    if starts_with_in(t, k, le, fence.as_slice()) {
        RunKind::Code
    } else if starts_with_in(t, k, le, quote.as_slice()) {
        RunKind::Quote
    } else if opens_list_item_in(t, k, le) {
        RunKind::ListItem
    } else {
        RunKind::Body
    }
}

/// Appends the runs of the line `t[ls..le]`.
fn push_line_runs(out: &mut Vec<StyledRun>, t: &[u8], ls: usize, le: usize)
    requires
        ls <= le <= t@.len(),
    ensures
        final(out)@ == old(out)@ + line_runs(t@, ls as int, le as int),
{
    let k = skip_spaces_in(t, ls, le);
    let h = skip_byte_in(t, k, le, 35u8);
    let n = h - k;
    if 1 <= n && n <= 6 && h < le && t[h] == 32u8 {
        push_piece(out, ls, k, RunKind::Body);
        push_piece(out, k, h, RunKind::Marker);
        push_piece(out, h, h + 1, RunKind::Body);
        push_piece(out, h + 1, le, RunKind::Heading(n as u8));
        assert(final(out)@ =~= old(out)@ + line_runs(t@, ls as int, le as int));
    } else {
        let kind = line_kind_in(t, k, le);
        push_piece(out, ls, le, kind);
    }
}

/// The base runs of the bytes `t`.
fn base_runs_of(t: &[u8]) -> (out: Vec<StyledRun>)
    ensures
        out@ == base_runs(t@),
{
    let mut out: Vec<StyledRun> = Vec::new();
    let mut ls: usize = 0;
    loop
        invariant
            ls <= t@.len(),
            out@ + runs_from(t@, ls as int) == base_runs(t@),
        decreases t@.len() - ls,
    {
        let le = line_end_from(t, ls);
        let ghost before = out@;
        push_line_runs(&mut out, t, ls, le);
        if le < t.len() {
            out.push(make_run(le, le + 1, RunKind::Body));
            assert(before + runs_from(t@, ls as int) =~= out@ + runs_from(t@, le + 1));
            ls = le + 1;
        } else {
            assert(out@ =~= before + runs_from(t@, ls as int));
            return out;
        }
    }
}

fn split_into(out: &mut Vec<StyledRun>, r: StyledRun, s: usize, e: usize, h: Highlight)
    ensures
        final(out)@ == old(out)@ + split_run(r, s as int, e as int, h),
{
    if r.start < e && r.end > s {
        let os = if s > r.start { s } else { r.start };
        let oe = if e < r.end { e } else { r.end };
        if os > r.start {
            out.push(StyledRun { end: os, ..r });
        }
        out.push(StyledRun { start: os, end: oe, highlight: h, ..r });
        if oe < r.end {
            out.push(StyledRun { start: oe, ..r });
        }
    } else {
        out.push(r);
    }
    assert(final(out)@ =~= old(out)@ + split_run(r, s as int, e as int, h));
}

fn highlight_pass(runs: &Vec<StyledRun>, s: usize, e: usize, h: Highlight) -> (out: Vec<StyledRun>)
    ensures
        out@ == highlight_runs(runs@, s as int, e as int, h),
{
    let mut out: Vec<StyledRun> = Vec::new();
    let mut i: usize = 0;
    while i < runs.len()
        invariant
            i <= runs@.len(),
            out@ == highlight_runs(runs@.subrange(0, i as int), s as int, e as int, h),
        decreases runs@.len() - i,
    {
        split_into(&mut out, runs[i], s, e, h);
        assert(runs@.subrange(0, i + 1).drop_last() =~= runs@.subrange(0, i as int));
        i = i + 1;
    }
    assert(runs@.subrange(0, runs@.len() as int) =~= runs@);
    out
}

/// The styled runs of `text`: each line's base style (see `line_runs`), then each usable
/// match of `match_ranges`, in order, highlighted over them (see `apply_matches`), with
/// match number `current_match` as the active one. The runs partition the text's bytes.
pub fn build_styled_runs(
    text: &str,
    match_ranges: &[(usize, usize)],
    current_match: Option<usize>,
) -> (r: Vec<StyledRun>)
    ensures
        r@ == styled_runs(utf8_of(text@), match_ranges@, current_match),
        covers(r@, 0, utf8_of(text@).len() as int),
{
    let t: &[u8] = text.as_bytes();
    let mut runs = base_runs_of(t);
    let len = t.len();
    let mut i: usize = 0;
    while i < match_ranges.len()
        invariant
            i <= match_ranges@.len(),
            len == t@.len(),
            runs@ == apply_matches(base_runs(t@), match_ranges@.subrange(0, i as int), current_match, len as int),
        decreases match_ranges@.len() - i,
    {
        let (s, e) = match_ranges[i];
        let ghost ms = match_ranges@.subrange(0, i + 1);
        assert(ms.drop_last() =~= match_ranges@.subrange(0, i as int));
        assert(ms.last() == match_ranges@[i as int]);
        if s < len && e <= len && s < e {
            let h = if current_match == Some(i) { Highlight::Current } else { Highlight::Match };
            runs = highlight_pass(&runs, s, e, h);
        }
        i = i + 1;
    }
    assert(match_ranges@.subrange(0, match_ranges@.len() as int) =~= match_ranges@);
    proof {
        lemma_styled_runs_partition(t@, match_ranges@, current_match);
    }
    runs
}

fn same_bytes(a: &[u8], b: &[u8]) -> (r: bool)
    ensures
        r == (a@ == b@),
{
    if a.len() != b.len() {
        return false;
    }
    let mut i: usize = 0;
    while i < a.len()
        invariant
            a@.len() == b@.len(),
            i <= a@.len(),
            forall|j: int| 0 <= j < i ==> a@[j] == b@[j],
        decreases a@.len() - i,
    {
        if a[i] != b[i] {
            return false;
        }
        i = i + 1;
    }
    assert(a@ =~= b@);
    true
}

fn same_ranges(a: &[(usize, usize)], b: &[(usize, usize)]) -> (r: bool)
    ensures
        r == (a@ == b@),
{
    if a.len() != b.len() {
        return false;
    }
    let mut i: usize = 0;
    while i < a.len()
        invariant
            a@.len() == b@.len(),
            i <= a@.len(),
            forall|j: int| 0 <= j < i ==> a@[j] == b@[j],
        decreases a@.len() - i,
    {
        let (x0, x1) = a[i];
        let (y0, y1) = b[i];
        if x0 != y0 || x1 != y1 {
            return false;
        }
        i = i + 1;
    }
    assert(a@ =~= b@);
    true
}

fn copy_of<T: Copy>(v: &[T]) -> (r: Vec<T>)
    ensures
        r@ == v@,
{
    let mut r: Vec<T> = Vec::new();
    let mut i: usize = 0;
    while i < v.len()
        invariant
            i <= v@.len(),
            r@ == v@.subrange(0, i as int),
        decreases v@.len() - i,
    {
        r.push(v[i]);
        assert(r@ =~= v@.subrange(0, i + 1));
        i = i + 1;
    }
    assert(v@.subrange(0, v@.len() as int) =~= v@);
    r
}

/// Styled runs together with the text bytes, matches and active match they were built for.
struct CachedLayout {
    text: Vec<u8>,
    ranges: Vec<(usize, usize)>,
    current: Option<usize>,
    runs: Vec<StyledRun>,
}

/// The last styled layout, kept while the text, the matches and the active match stay the
/// same; any difference in one of the three forces a rebuild before runs are handed out.
pub struct LayoutCache {
    entry: Option<CachedLayout>,
}

impl LayoutCache {
    /// The cached runs are those of the text, matches and active match cached with them.
    pub closed spec fn valid(&self) -> bool {
        match self.entry {
            Some(c) => c.runs@ == styled_runs(c.text@, c.ranges@, c.current),
            None => true,
        }
    }

    /// Whether runs are cached for this text, these matches and this active match.
    pub closed spec fn holds(&self, t: Seq<u8>, ranges: Seq<(usize, usize)>, current: Option<usize>) -> bool {
        match self.entry {
            Some(c) => c.text@ == t && c.ranges@ == ranges && c.current == current,
            None => false,
        }
    }

    pub fn new() -> (r: Self)
        ensures
            r.valid(),
    {
        LayoutCache { entry: None }
    }

    /// The styled runs of `text` with the given matches (see `build_styled_runs`), from the
    /// cache when it holds them for exactly these three values, else built afresh and cached.
    pub fn runs(&mut self, text: &str, match_ranges: &[(usize, usize)], current_match: Option<usize>) -> (r: Vec<
        StyledRun,
    >)
        requires
            old(self).valid(),
        ensures
            final(self).valid(),
            final(self).holds(utf8_of(text@), match_ranges@, current_match),
            r@ == styled_runs(utf8_of(text@), match_ranges@, current_match),
    {
        let t: &[u8] = text.as_bytes();
        let hit = match &self.entry {
            Some(c) => same_bytes(c.text.as_slice(), t) && same_ranges(c.ranges.as_slice(), match_ranges)
                && c.current == current_match,
            None => false,
        };
        if hit {
            match &self.entry {
                Some(c) => {
                    return copy_of(c.runs.as_slice());
                },
                None => {
                    return Vec::new();
                },
            }
        }
        let runs = build_styled_runs(text, match_ranges, current_match);
        let kept = copy_of(runs.as_slice());
        self.entry = Some(
            CachedLayout {
                text: copy_of(t),
                ranges: copy_of(match_ranges),
                current: current_match,
                runs: kept,
            },
        );
        runs
    }
}

} // verus!
