//! Find and replace over the document: literal or regular-expression search, the active
//! match, and replacing one match or all of them.

use vstd::prelude::*;
use vstd::utf8::{decode_utf8, is_char_boundary, valid_utf8, group_utf8_lib};
use crate::text::{
    find_from, find_in, lemma_find_from_range, lemma_replace_range_valid, lemma_sub_valid, push_range,
    string_of_valid, utf8_of,
};

verus! {

broadcast use group_utf8_lib;

/// A match: the bytes `start..end` of the searched text.
#[derive(Clone, Copy, Debug, PartialEq, Eq, Structural)]
pub struct Match {
    pub start: usize,
    pub end: usize,
}

/// What the find/replace dialog asks the application to do.
#[derive(Clone, Copy, Debug, PartialEq, Eq, Structural)]
pub enum FindReplaceAction {
    NoAction,
    UpdateMatches,
    NextMatch,
    PreviousMatch,
    ReplaceCurrent,
    ReplaceAll,
}

/// Whether the regex crate accepts `pattern`.
pub uninterp spec fn regex_compiles(pattern: Seq<char>) -> bool;

/// The byte ranges of the successive non-overlapping matches of `pattern` in `text`.
pub uninterp spec fn regex_find_ranges(pattern: Seq<char>, text: Seq<char>) -> Seq<(usize, usize)>;

/// `text` with the first match of `pattern` replaced by `rep`.
pub uninterp spec fn regex_replaced_first(pattern: Seq<char>, text: Seq<char>, rep: Seq<char>) -> Seq<char>;

/// `text` with every non-overlapping match of `pattern` replaced by `rep`.
pub uninterp spec fn regex_replaced_all(pattern: Seq<char>, text: Seq<char>, rep: Seq<char>) -> Seq<char>;

/// Relies on `regex::Regex::new`, which fails exactly on patterns the crate rejects, and on
/// `Regex::find_iter`, whose matches are byte ranges of the text with `start <= end`, both
/// on character boundaries, so that the text can be sliced by them.
#[verifier::external_body]
fn regex_find(pattern: &str, text: &str) -> (r: Option<Vec<(usize, usize)>>)
    ensures
        r.is_some() == regex_compiles(pattern@),
        r.is_some() ==> r.unwrap()@ == regex_find_ranges(pattern@, text@),
        r.is_some() ==> forall|i: int|
            0 <= i < r.unwrap()@.len() ==> #[trigger] range_fits(utf8_of(text@), r.unwrap()@[i]),
{
    regex::Regex::new(pattern).ok().map(|re| re.find_iter(text).map(|m| (m.start(), m.end())).collect())
}

/// Relies on `regex::Regex::new` and `Regex::find_at`, which searches from byte `start`
/// (it panics past the end of the text) and reports a match as `find_iter` does: `start <=
/// end`, both on character boundaries.
#[verifier::external_body]
fn regex_find_at(pattern: &str, text: &str, start: usize) -> (r: Option<Option<(usize, usize)>>)
    requires
        start <= utf8_of(text@).len(),
    ensures
        r.is_some() == regex_compiles(pattern@),
        r.is_some() ==> r.unwrap() == regex_match_at(pattern@, text@, start as nat),
        r.is_some() && r.unwrap().is_some() ==> range_fits(utf8_of(text@), r.unwrap().unwrap()),
{
    regex::Regex::new(pattern).ok().map(|re| re.find_at(text, start).map(|m| (m.start(), m.end())))
}

/// The characters the regex crate treats as meta characters.
pub open spec fn is_regex_meta(c: char) -> bool {
    c == '\\' || c == '.' || c == '+' || c == '*' || c == '?' || c == '(' || c == ')' || c == '|'
        || c == '[' || c == ']' || c == '{' || c == '}' || c == '^' || c == '$' || c == '#' || c
        == '&' || c == '-' || c == '~'
}

/// A text with a backslash before each regular-expression meta character.
pub open spec fn regex_escape_of(s: Seq<char>) -> Seq<char>
    decreases s.len(),
{
    if s.len() == 0 {
        Seq::empty()
    } else {
        regex_escape_of(s.drop_last()) + if is_regex_meta(s.last()) {
            seq!['\\', s.last()]
        } else {
            seq![s.last()]
        }
    }
}

/// Relies on `regex::escape`, which puts a backslash before each meta character
/// (`regex_syntax::escape_into` and `is_meta_character`).
#[verifier::external_body]
fn regex_escaped(s: &str) -> (r: String)
    ensures
        r@ == regex_escape_of(s@),
{
    regex::escape(s)
}

/// A byte range that can slice the text with bytes `t`: in order, inside it, on character
/// boundaries.
pub open spec fn range_fits(t: Seq<u8>, r: (usize, usize)) -> bool {
    &&& r.0 <= r.1 <= t.len()
    &&& is_char_boundary(t, r.0 as int)
    &&& is_char_boundary(t, r.1 as int)
}

/// Relies on `regex::Regex::new` and `Regex::replace`, which replaces the first match.
#[verifier::external_body]
fn regex_replace_first(pattern: &str, text: &str, rep: &str) -> (r: Option<String>)
    ensures
        r.is_some() == regex_compiles(pattern@),
        r.is_some() ==> r.unwrap()@ == regex_replaced_first(pattern@, text@, rep@),
{
    regex::Regex::new(pattern).ok().map(|re| re.replace(text, rep).into_owned())
}

/// Relies on `regex::Regex::new` and `Regex::replace_all`, which replaces every match.
#[verifier::external_body]
fn regex_replace_every(pattern: &str, text: &str, rep: &str) -> (r: Option<String>)
    ensures
        r.is_some() == regex_compiles(pattern@),
        r.is_some() ==> r.unwrap()@ == regex_replaced_all(pattern@, text@, rep@),
{
    regex::Regex::new(pattern).ok().map(|re| re.replace_all(text, rep).into_owned())
}

/// The occurrences of `p` in the text with bytes `h` from `from` on that start and end on
/// character boundaries, left to right, overlapping ones included: each search resumes one
/// byte after the start of the occurrence it found.
pub open spec fn literal_matches(h: Seq<u8>, p: Seq<u8>, from: int) -> Seq<Match>
    decreases h.len() - from,
{
    match find_from(h, p, from, h.len() as int) {
        Some(q) => if from <= q < h.len() {
            if q + p.len() <= h.len() && is_char_boundary(h, q) && is_char_boundary(h, q + p.len()) {
                seq![Match { start: q as usize, end: (q + p.len()) as usize }] + literal_matches(
                    h,
                    p,
                    q + 1,
                )
            } else {
                literal_matches(h, p, q + 1)
            }
        } else {
            Seq::empty()
        },
        None => Seq::empty(),
    }
}

/// The first character boundary of the text with bytes `t` at or after `j`, or its end.
pub open spec fn boundary_after(t: Seq<u8>, j: int) -> int
    decreases t.len() - j,
{
    if j >= t.len() {
        t.len() as int
    } else if is_char_boundary(t, j) {
        j
    } else {
        boundary_after(t, j + 1)
    }
}

/// The match of `pattern` in `text` that a search from byte `start` finds, as `Regex::find_at`
/// reports it.
pub uninterp spec fn regex_match_at(pattern: Seq<char>, text: Seq<char>, start: nat) -> Option<(usize, usize)>;

/// The matches of `pattern` in `text` found from byte `from` on, overlapping ones included:
/// after each match the search resumes at the next character boundary after its start.
pub open spec fn matches_from(pattern: Seq<char>, text: Seq<char>, from: int) -> Seq<Match>
    decreases utf8_of(text).len() + 1 - from,
{
    let t = utf8_of(text);
    if from < 0 || from > t.len() {
        Seq::empty()
    } else {
        match regex_match_at(pattern, text, from as nat) {
            None => Seq::empty(),
            Some(r) => {
                let m = Match { start: r.0, end: r.1 };
                let next = boundary_after(t, r.0 + 1);
                if from <= r.0 && r.0 < t.len() && r.0 < next <= t.len() {
                    seq![m] + matches_from(pattern, text, next)
                } else {
                    seq![m]
                }
            },
        }
    }
}

pub open spec fn range_matches(rs: Seq<(usize, usize)>) -> Seq<Match> {
    rs.map_values(|r: (usize, usize)| Match { start: r.0, end: r.1 })
}

pub open spec fn match_ranges(ms: Seq<Match>) -> Seq<(usize, usize)> {
    ms.map_values(|m: Match| (m.start, m.end))
}

/// The pattern handed to the regex crate: case-insensitive unless asked otherwise.
pub open spec fn regex_pattern(find: Seq<char>, case_sensitive: bool) -> Seq<char> {
    if case_sensitive {
        find
    } else {
        "(?i)"@ + find
    }
}

/// The pattern a case-insensitive literal search hands to the regex crate.
pub open spec fn literal_pattern(find: Seq<char>) -> Seq<char> {
    "(?i)"@ + regex_escape_of(find)
}

/// The matches of a search for `find` in `text`, as byte ranges of `text`: a regular
/// expression's matches; a case-sensitive literal's occurrences; a case-insensitive
/// literal's matches as a regular expression with its meta characters escaped. Literal
/// searches report overlapping occurrences too.
pub open spec fn search_matches(
    find: Seq<char>,
    case_sensitive: bool,
    use_regex: bool,
    text: Seq<char>,
) -> Seq<Match> {
    if find.len() == 0 {
        Seq::empty()
    } else if use_regex {
        let p = regex_pattern(find, case_sensitive);
        if regex_compiles(p) {
            range_matches(regex_find_ranges(p, text))
        } else {
            Seq::empty()
        }
    } else if case_sensitive {
        literal_matches(utf8_of(text), utf8_of(find), 0)
    } else if regex_compiles(literal_pattern(find)) {
        matches_from(literal_pattern(find), text, 0)
    } else {
        Seq::empty()
    }
}

/// The active match after a new search found `n` matches: the first one when none was
/// active, none when nothing was found, the last one when the old index is past the end.
pub open spec fn adjusted_index(cur: Option<usize>, n: int) -> Option<usize> {
    match cur {
        None => if n > 0 {
            Some(0usize)
        } else {
            None
        },
        Some(i) => if n == 0 {
            None
        } else if i >= n {
            Some((n - 1) as usize)
        } else {
            Some(i)
        },
    }
}

/// After a search the active match is absent exactly when nothing was found, and otherwise
/// names one of the matches.
pub proof fn lemma_adjusted_index_valid(cur: Option<usize>, n: int)
    requires
        0 <= n <= usize::MAX,
    ensures
        adjusted_index(cur, n) is None <==> n == 0,
        adjusted_index(cur, n) is Some ==> adjusted_index(cur, n)->0 < n,
{
}

/// The match after `cur`, wrapping around.
pub open spec fn next_index(cur: Option<usize>, n: int) -> Option<usize> {
    if n == 0 {
        cur
    } else {
        match cur {
            Some(i) => Some(((i + 1) % n) as usize),
            None => Some(0usize),
        }
    }
}

/// The match before `cur`, wrapping around.
pub open spec fn previous_index(cur: Option<usize>, n: int) -> Option<usize> {
    if n == 0 {
        cur
    } else {
        match cur {
            Some(i) => if i == 0 {
                Some((n - 1) as usize)
            } else {
                Some((i - 1) as usize)
            },
            None => Some((n - 1) as usize),
        }
    }
}

/// A match that can be replaced in the text with bytes `t`: inside it, in order, on
/// character boundaries.
pub open spec fn replaceable(t: Seq<u8>, m: Match) -> bool {
    &&& m.start <= m.end <= t.len()
    &&& is_char_boundary(t, m.start as int)
    &&& is_char_boundary(t, m.end as int)
}

pub open spec fn splice(t: Seq<u8>, m: Match, r: Seq<u8>) -> Seq<u8> {
    t.subrange(0, m.start as int) + r + t.subrange(m.end as int, t.len() as int)
}

/// The text after replacing the given matches by `r`, the last one first; matches that no
/// longer fit the text are skipped.
pub open spec fn replace_each(t: Seq<u8>, ms: Seq<Match>, r: Seq<u8>) -> Seq<u8>
    decreases ms.len(),
{
    if ms.len() == 0 {
        t
    } else {
        let m = ms.last();
        let t2 = if replaceable(t, m) {
            splice(t, m, r)
        } else {
            t
        };
        replace_each(t2, ms.drop_last(), r)
    }
}

/// Moving to the next match and then to the previous one comes back to the same match, and
/// `n` steps forward from any match come back to it.
pub proof fn lemma_match_cycle(i: usize, n: usize)
    requires
        i < n,
    ensures
        previous_index(next_index(Some(i), n as int), n as int) == Some(i),
        next_index(Some(i), n as int) == Some((if i + 1 == n { 0 } else { i + 1 }) as usize),
{
    if i + 1 == n {
        vstd::arithmetic::div_mod::lemma_mod_self_0(n as int);
    } else {
        vstd::arithmetic::div_mod::lemma_small_mod((i + 1) as nat, n as nat);
    }
}

/// State of the find/replace dialog and of the last search.
pub struct FindReplace {
    pub show_dialog: bool,
    pub find_text: String,
    pub replace_text: String,
    pub case_sensitive: bool,
    pub use_regex: bool,
    pub matches: Vec<Match>,
    pub current_match_index: Option<usize>,
    pub find_text_changed: bool,
    pub should_focus: bool,
}

/// Bytes of `s`, copied.
fn bytes_of(s: &str) -> (v: Vec<u8>)
    ensures
        v@ == utf8_of(s@),
{
    let b = s.as_bytes();
    let mut v: Vec<u8> = Vec::new();
    push_range(&mut v, b, 0, b.len());
    assert(b@.subrange(0, b@.len() as int) =~= b@);
    v
}

proof fn lemma_literal_matches_fit(h: Seq<u8>, p: Seq<u8>, from: int)
    requires
        h.len() <= usize::MAX,
    ensures
        forall|i: int|
            0 <= i < literal_matches(h, p, from).len() ==> #[trigger] replaceable(
                h,
                literal_matches(h, p, from)[i],
            ),
    decreases h.len() - from,
{
    lemma_find_from_range(h, p, from, h.len() as int);
    match find_from(h, p, from, h.len() as int) {
        Some(q) => if from <= q < h.len() {
            if q + p.len() <= h.len() && is_char_boundary(h, q) && is_char_boundary(h, q + p.len()) {
                let next = q + 1;
                lemma_literal_matches_fit(h, p, next);
                let m = Match { start: q as usize, end: (q + p.len()) as usize };
                assert forall|i: int| 0 <= i < literal_matches(h, p, from).len() implies #[trigger] replaceable(
                    h,
                    literal_matches(h, p, from)[i],
                ) by {
                    if i > 0 {
                        assert(literal_matches(h, p, from)[i] == literal_matches(h, p, next)[i - 1]);
                    } else {
                        assert(literal_matches(h, p, from)[0] == m);
                    }
                }
            } else {
                lemma_literal_matches_fit(h, p, q + 1);
                assert(literal_matches(h, p, from) == literal_matches(h, p, q + 1));
            }
        } else {
            assert(literal_matches(h, p, from).len() == 0);
        },
        None => {},
    }
}

fn find_literal(text: &str, p: &[u8]) -> (out: Vec<Match>)
    ensures
        out@ == literal_matches(utf8_of(text@), p@, 0),
{
    let h: &[u8] = text.as_bytes();
    let ghost hs = utf8_of(text@);
    let mut out: Vec<Match> = Vec::new();
    let mut start: usize = 0;
    while start <= h.len()
        invariant
            h@ == hs,
            hs == utf8_of(text@),
            start <= h@.len() + 1,
            out@ + literal_matches(hs, p@, start as int) == literal_matches(hs, p@, 0),
        decreases h@.len() + 1 - start,
    {
        match find_in(h, start, h.len(), p) {
            Some(q) => {
                proof {
                    lemma_find_from_range(hs, p@, start as int, hs.len() as int);
                }
                let e = q + p.len();
                let ghost before = out@;
                if text.is_char_boundary(q) && text.is_char_boundary(e) {
                    out.push(Match { start: q, end: e });
                    let next = q + 1;
                    assert(before + literal_matches(hs, p@, start as int) =~= out@
                        + literal_matches(hs, p@, next as int));
                    start = next;
                } else {
                    start = q + 1;
                }
            },
            None => {
                assert(out@ + literal_matches(hs, p@, start as int) =~= out@);
                return out;
            },
        }
    }
    assert(literal_matches(hs, p@, start as int) =~= Seq::<Match>::empty());
    out
}

proof fn lemma_boundary_after(t: Seq<u8>, j: int)
    requires
        0 <= j <= t.len(),
    ensures
        j <= boundary_after(t, j) <= t.len(),
    decreases t.len() - j,
{
    if j < t.len() && !is_char_boundary(t, j) {
        lemma_boundary_after(t, j + 1);
    }
}

/// The first character boundary of `text` at or after byte `j`, or its end.
fn next_boundary(text: &str, j: usize) -> (r: usize)
    requires
        j <= utf8_of(text@).len(),
    ensures
        r as int == boundary_after(utf8_of(text@), j as int),
{
    let n = text.as_bytes().len();
    let mut k: usize = j;
    while k < n && !text.is_char_boundary(k)
        invariant
            j <= k <= n,
            n == utf8_of(text@).len(),
            boundary_after(utf8_of(text@), k as int) == boundary_after(utf8_of(text@), j as int),
        decreases n - k,
    {
        k = k + 1;
    }
    k
}

/// The matches of `pattern` in `text` with overlapping ones (see `matches_from`); none when
/// the regex crate rejects the pattern.
fn regex_search_overlapping(pattern: &str, text: &str) -> (r: Vec<Match>)
    ensures
        r@ == (if regex_compiles(pattern@) {
            matches_from(pattern@, text@, 0)
        } else {
            Seq::empty()
        }),
        forall|i: int| 0 <= i < r@.len() ==> #[trigger] replaceable(utf8_of(text@), r@[i]),
{
    let n = text.as_bytes().len();
    let ghost t = utf8_of(text@);
    let mut out: Vec<Match> = Vec::new();
    let mut from: usize = 0;
    loop
        invariant
            n == t.len(),
            t == utf8_of(text@),
            from <= n,
            (from == 0 && out@.len() == 0) || regex_compiles(pattern@),
            regex_compiles(pattern@) ==> out@ + matches_from(pattern@, text@, from as int)
                == matches_from(pattern@, text@, 0),
            forall|i: int| 0 <= i < out@.len() ==> #[trigger] replaceable(t, out@[i]),
        decreases n + 1 - from,
    {
        let ghost before = out@;
        match regex_find_at(pattern, text, from) {
            None => {
                return out;
            },
            Some(None) => {
                assert(out@ + matches_from(pattern@, text@, from as int) =~= out@);
                return out;
            },
            Some(Some((s, e))) => {
                let m = Match { start: s, end: e };
                out.push(m);
                assert(replaceable(t, m));
                assert forall|i: int| 0 <= i < out@.len() implies #[trigger] replaceable(t, out@[i]) by {
                    if i < before.len() {
                        assert(out@[i] == before[i]);
                    }
                }
                if from <= s && s < n {
                    let next = next_boundary(text, s + 1);
                    proof {
                        lemma_boundary_after(t, s + 1);
                    }
                    if s < next && next <= n {
                        assert(before + matches_from(pattern@, text@, from as int) =~= out@
                            + matches_from(pattern@, text@, next as int));
                        from = next;
                        continue;
                    }
                }
                assert(before + matches_from(pattern@, text@, from as int) =~= out@);
                return out;
            },
        }
    }
}

/// The matches of the byte ranges a regex search reported.
pub fn matches_of_ranges(ranges: &Vec<(usize, usize)>) -> (r: Vec<Match>)
    ensures
        r@ == range_matches(ranges@),
{
    let mut out: Vec<Match> = Vec::new();
    let mut i: usize = 0;
    while i < ranges.len()
        invariant
            i <= ranges@.len(),
            out@ == range_matches(ranges@.subrange(0, i as int)),
        decreases ranges@.len() - i,
    {
        let (s, e) = ranges[i];
        out.push(Match { start: s, end: e });
        assert(range_matches(ranges@.subrange(0, i + 1)) =~= out@);
        i = i + 1;
    }
    assert(ranges@.subrange(0, ranges@.len() as int) =~= ranges@);
    out
}

impl FindReplace {
    /// The pattern the regex crate gets for the current search settings.
    pub open spec fn pattern(&self) -> Seq<char> {
        regex_pattern(self.find_text@, self.case_sensitive)
    }

    pub fn new() -> (r: Self)
        ensures
            !r.show_dialog,
            r.find_text@.len() == 0,
            r.replace_text@.len() == 0,
            !r.case_sensitive,
            !r.use_regex,
            r.matches@.len() == 0,
            r.current_match_index is None,
            !r.find_text_changed,
            !r.should_focus,
    {
        FindReplace {
            show_dialog: false,
            find_text: String::new(),
            replace_text: String::new(),
            case_sensitive: false,
            use_regex: false,
            matches: Vec::new(),
            current_match_index: None,
            find_text_changed: false,
            should_focus: false,
        }
    }

    /// Shows or hides the dialog; on showing, asks for a new search and for focus.
    pub fn toggle_dialog(&mut self)
        ensures
            old(self).show_dialog ==> *final(self) == (FindReplace {
                show_dialog: false,
                ..*old(self)
            }),
            !old(self).show_dialog ==> *final(self) == (FindReplace {
                show_dialog: true,
                find_text_changed: true,
                should_focus: true,
                ..*old(self)
            }),
    {
        self.show_dialog = !self.show_dialog;
        if self.show_dialog {
            self.find_text_changed = true;
            self.should_focus = true;
        }
    }

    /// Hides the dialog and forgets the matches.
    pub fn close_dialog(&mut self)
        ensures
            !final(self).show_dialog,
            final(self).matches@.len() == 0,
            final(self).current_match_index is None,
            final(self).find_text == old(self).find_text,
            final(self).replace_text == old(self).replace_text,
            final(self).case_sensitive == old(self).case_sensitive,
            final(self).use_regex == old(self).use_regex,
            final(self).find_text_changed == old(self).find_text_changed,
            final(self).should_focus == old(self).should_focus,
    {
        self.show_dialog = false;
        self.matches.clear();
        self.current_match_index = None;
    }

    /// Searches `text` with the current settings (see `search_matches`) and keeps the
    /// active match in range (see `adjusted_index`). A regular expression the regex crate
    /// rejects finds nothing. Every match can slice `text` (see `replaceable`).
    pub fn update_matches(&mut self, text: &str)
        ensures
            final(self).matches@ == search_matches(
                old(self).find_text@,
                old(self).case_sensitive,
                old(self).use_regex,
                text@,
            ),
            final(self).current_match_index == (if old(self).find_text@.len() == 0 {
                None
            } else {
                adjusted_index(old(self).current_match_index, final(self).matches@.len() as int)
            }),
            forall|i: int|
                0 <= i < final(self).matches@.len() ==> #[trigger] replaceable(
                    utf8_of(text@),
                    final(self).matches@[i],
                ),
            final(self).find_text == old(self).find_text,
            final(self).show_dialog == old(self).show_dialog,
            final(self).case_sensitive == old(self).case_sensitive,
            final(self).use_regex == old(self).use_regex,
            final(self).replace_text == old(self).replace_text,
    {
        if self.find_text.as_str().is_empty() {
            self.matches = Vec::new();
            self.current_match_index = None;
            return;
        }
        let found: Vec<Match> = if self.use_regex {
            let pattern = self.regex_pattern_string();
            self.regex_search(pattern.as_str(), text)
        } else if self.case_sensitive {
            let p = bytes_of(self.find_text.as_str());
            let n = text.as_bytes().len();
            assert(n == utf8_of(text@).len());
            let r = find_literal(text, p.as_slice());
            proof {
                lemma_literal_matches_fit(utf8_of(text@), p@, 0);
            }
            r
        } else {
            let mut pattern = String::from_str("(?i)");
            let escaped = regex_escaped(self.find_text.as_str());
            pattern.append(escaped.as_str());
            regex_search_overlapping(pattern.as_str(), text)
        };
        self.accept_matches(found);
    }

    /// Takes the matches a search found and keeps the active match in range (see
    /// `adjusted_index`).
    pub fn accept_matches(&mut self, found: Vec<Match>)
        ensures
            final(self).matches@ == found@,
            final(self).current_match_index == adjusted_index(
                old(self).current_match_index,
                found@.len() as int,
            ),
            final(self).find_text == old(self).find_text,
            final(self).show_dialog == old(self).show_dialog,
            final(self).case_sensitive == old(self).case_sensitive,
            final(self).use_regex == old(self).use_regex,
            final(self).replace_text == old(self).replace_text,
    {
        self.matches = found;
        let n = self.matches.len();
        self.current_match_index = match self.current_match_index {
            None => if n > 0 {
                Some(0)
            } else {
                None
            },
            Some(i) => if n == 0 {
                None
            } else if i >= n {
                Some(n - 1)
            } else {
                Some(i)
            },
        };
    }

    /// The matches of `pattern` in `text`; none when the regex crate rejects the pattern.
    fn regex_search(&self, pattern: &str, text: &str) -> (r: Vec<Match>)
        ensures
            r@ == (if regex_compiles(pattern@) {
                range_matches(regex_find_ranges(pattern@, text@))
            } else {
                Seq::empty()
            }),
            forall|i: int| 0 <= i < r@.len() ==> #[trigger] replaceable(utf8_of(text@), r@[i]),
    {
        match regex_find(pattern, text) {
            Some(ranges) => {
                let out = matches_of_ranges(&ranges);
                assert forall|i: int| 0 <= i < out@.len() implies #[trigger] replaceable(utf8_of(text@), out@[i]) by {
                    assert(range_fits(utf8_of(text@), ranges@[i]));
                }
                out
            },
            None => Vec::new(),
        }
    }

    fn regex_pattern_string(&self) -> (r: String)
        ensures
            r@ == self.pattern(),
    {
        if self.case_sensitive {
            self.find_text.clone()
        } else {
            let mut p = String::from_str("(?i)");
            p.append(self.find_text.as_str());
            p
        }
    }

    /// Makes the next match active, wrapping around; nothing changes when there are no matches.
    pub fn next_match(&mut self)
        ensures
            *final(self) == (FindReplace {
                current_match_index: next_index(
                    old(self).current_match_index,
                    old(self).matches@.len() as int,
                ),
                ..*old(self)
            }),
    {
        if self.matches.len() == 0 {
            return;
        }
        self.current_match_index = Some(
            match self.current_match_index {
                Some(idx) => {
                    let n = self.matches.len();
                    proof {
                        vstd::arithmetic::div_mod::lemma_add_mod_noop_right(1, idx as int, n as int);
                    }
                    (1 + idx % n) % n
                },
                None => 0,
            },
        );
    }

    /// Makes the previous match active, wrapping around; nothing changes when there are no matches.
    pub fn previous_match(&mut self)
        ensures
            *final(self) == (FindReplace {
                current_match_index: previous_index(
                    old(self).current_match_index,
                    old(self).matches@.len() as int,
                ),
                ..*old(self)
            }),
    {
        if self.matches.len() == 0 {
            return;
        }
        self.current_match_index = Some(
            match self.current_match_index {
                Some(idx) => if idx == 0 {
                    self.matches.len() - 1
                } else {
                    idx - 1
                },
                None => self.matches.len() - 1,
            },
        );
    }

    /// The byte ranges of the matches.
    pub fn get_match_ranges(&self) -> (r: Vec<(usize, usize)>)
        ensures
            r@ == match_ranges(self.matches@),
    {
        let mut r: Vec<(usize, usize)> = Vec::new();
        let mut i: usize = 0;
        while i < self.matches.len()
            invariant
                i <= self.matches@.len(),
                r@ == match_ranges(self.matches@.subrange(0, i as int)),
            decreases self.matches@.len() - i,
        {
            let m = self.matches[i];
            r.push((m.start, m.end));
            assert(match_ranges(self.matches@.subrange(0, i + 1)) =~= r@);
            i = i + 1;
        }
        assert(self.matches@.subrange(0, self.matches@.len() as int) =~= self.matches@);
        r
    }
    /// The active match, when it exists and can be replaced in the text with bytes `t`.
    pub open spec fn current_replaceable(&self, t: Seq<u8>) -> bool {
        match self.current_match_index {
            Some(i) => i < self.matches@.len() && replaceable(t, self.matches@[i as int]),
            None => false,
        }
    }

    /// What replaces match `m` of the text with bytes `t`: with a regular expression the
    /// regex crate accepts, the matched text after replacing its first match of the pattern;
    /// else the replacement text itself.
    pub open spec fn replacement_for(&self, t: Seq<u8>, m: Match) -> Seq<u8> {
        if self.use_regex && regex_compiles(self.pattern()) {
            utf8_of(
                regex_replaced_first(
                    self.pattern(),
                    decode_utf8(t.subrange(m.start as int, m.end as int)),
                    self.replace_text@,
                ),
            )
        } else {
            utf8_of(self.replace_text@)
        }
    }

    /// Replaces the active match in `text` (see `replacement_for`) and asks for a new search.
    /// Returns `false`, changing nothing, when there is no active match or it no longer
    /// fits the text.
    pub fn replace_current(&mut self, text: &mut String) -> (r: bool)
        ensures
            r == old(self).current_replaceable(utf8_of(old(text)@)),
            r ==> {
                let t = utf8_of(old(text)@);
                let m = old(self).matches@[old(self).current_match_index->0 as int];
                &&& utf8_of(final(text)@) == splice(t, m, old(self).replacement_for(t, m))
                &&& final(self).find_text_changed
            },
            !r ==> final(text)@ == old(text)@ && final(self).find_text_changed
                == old(self).find_text_changed,
            final(self).matches == old(self).matches,
            final(self).current_match_index == old(self).current_match_index,
            final(self).find_text == old(self).find_text,
            final(self).replace_text == old(self).replace_text,
            final(self).use_regex == old(self).use_regex,
            final(self).case_sensitive == old(self).case_sensitive,
            final(self).show_dialog == old(self).show_dialog,
    {
        let ghost t0 = utf8_of(text@);
        let idx = match self.current_match_index {
            Some(i) => i,
            None => {
                return false;
            },
        };
        if idx >= self.matches.len() {
            return false;
        }
        let m = self.matches[idx];
        let t: &[u8] = text.as_str().as_bytes();
        if !(m.start <= m.end && m.end <= t.len() && text.as_str().is_char_boundary(m.start)
            && text.as_str().is_char_boundary(m.end)) {
            return false;
        }
        let rep: String = if self.use_regex {
            let mut mid: Vec<u8> = Vec::new();
            push_range(&mut mid, t, m.start, m.end);
            proof {
                lemma_sub_valid(t0, m.start as int, m.end as int);
            }
            let mid_s = string_of_valid(mid);
            let pattern = self.regex_pattern_string();
            match regex_replace_first(pattern.as_str(), mid_s.as_str(), self.replace_text.as_str()) {
                Some(r) => r,
                None => self.replace_text.clone(),
            }
        } else {
            self.replace_text.clone()
        };
        let rb = bytes_of(rep.as_str());
        assert(rb@ == self.replacement_for(t0, m));
        let mut out: Vec<u8> = Vec::new();
        push_range(&mut out, t, 0, m.start);
        push_range(&mut out, rb.as_slice(), 0, rb.len());
        push_range(&mut out, t, m.end, t.len());
        assert(rb@.subrange(0, rb@.len() as int) =~= rb@);
        assert(out@ =~= splice(t0, m, rb@));
        proof {
            lemma_replace_range_valid(t0, m.start as int, m.end as int, rb@);
        }
        *text = string_of_valid(out);
        self.find_text_changed = true;
        true
    }

    /// Replaces every match and asks for a new search; returns how many matches there were.
    /// With a regular expression the regex crate accepts, every match of the pattern in
    /// `text` is replaced; with literal search the recorded matches are replaced from the
    /// last to the first (see `replace_each`). No matches: nothing changes.
    pub fn replace_all(&mut self, text: &mut String) -> (r: usize)
        ensures
            r == old(self).matches@.len(),
            r == 0 ==> final(text)@ == old(text)@ && final(self).find_text_changed
                == old(self).find_text_changed,
            r > 0 ==> final(self).find_text_changed,
            r > 0 && old(self).use_regex ==> final(text)@ == (if regex_compiles(old(self).pattern()) {
                regex_replaced_all(old(self).pattern(), old(text)@, old(self).replace_text@)
            } else {
                old(text)@
            }),
            r > 0 && !old(self).use_regex ==> utf8_of(final(text)@) == replace_each(
                utf8_of(old(text)@),
                old(self).matches@,
                utf8_of(old(self).replace_text@),
            ),
            final(self).matches == old(self).matches,
            final(self).current_match_index == old(self).current_match_index,
            final(self).find_text == old(self).find_text,
            final(self).replace_text == old(self).replace_text,
            final(self).use_regex == old(self).use_regex,
            final(self).case_sensitive == old(self).case_sensitive,
            final(self).show_dialog == old(self).show_dialog,
    {
        let count = self.matches.len();
        if count == 0 {
            return 0;
        }
        if self.use_regex {
            let pattern = self.regex_pattern_string();
            match regex_replace_every(pattern.as_str(), text.as_str(), self.replace_text.as_str()) {
                Some(r) => {
                    *text = r;
                },
                None => {},
            }
        } else {
            let rb = bytes_of(self.replace_text.as_str());
            let ghost ms = self.matches@;
            let mut i: usize = count;
            assert(ms.subrange(0, i as int) =~= ms);
            while i > 0
                invariant
                    i <= ms.len(),
                    ms == self.matches@,
                    rb@ == utf8_of(self.replace_text@),
                    replace_each(utf8_of(text@), ms.subrange(0, i as int), rb@) == replace_each(
                        utf8_of(old(text)@),
                        ms,
                        rb@,
                    ),
                decreases i,
            {
                let m = self.matches[i - 1];
                let ghost t0 = utf8_of(text@);
                let ghost sub = ms.subrange(0, i as int);
                assert(sub.drop_last() =~= ms.subrange(0, i - 1));
                assert(sub.last() == m);
                let t: &[u8] = text.as_str().as_bytes();
                if m.start <= m.end && m.end <= t.len() && text.as_str().is_char_boundary(m.start)
                    && text.as_str().is_char_boundary(m.end) {
                    let mut out: Vec<u8> = Vec::new();
                    push_range(&mut out, t, 0, m.start);
                    push_range(&mut out, rb.as_slice(), 0, rb.len());
                    push_range(&mut out, t, m.end, t.len());
                    assert(rb@.subrange(0, rb@.len() as int) =~= rb@);
                    assert(out@ =~= splice(t0, m, rb@));
                    proof {
                        lemma_replace_range_valid(t0, m.start as int, m.end as int, rb@);
                    }
                    *text = string_of_valid(out);
                }
                i = i - 1;
            }
            assert(ms.subrange(0, 0) =~= Seq::<Match>::empty());
        }
        self.find_text_changed = true;
        count
    }
}

/// What happened in the find/replace window during one frame.
#[derive(Clone, Copy, Debug, PartialEq, Eq, Structural)]
pub struct DialogInput {
    /// The find text was edited.
    pub find_changed: bool,
    /// The find field has the keyboard focus.
    pub find_has_focus: bool,
    /// Enter was pressed as the find field lost focus.
    pub find_submitted: bool,
    /// Enter was pressed as the replace field lost focus.
    pub replace_submitted: bool,
    /// "Match case" or "Regex" was switched.
    pub options_changed: bool,
    pub replace_all_clicked: bool,
    pub replace_clicked: bool,
    pub previous_clicked: bool,
    pub next_clicked: bool,
    /// Escape was pressed.
    pub escape: bool,
    /// Alt+R was pressed.
    pub alt_r: bool,
    /// Alt+A was pressed.
    pub alt_a: bool,
}

/// The action a frame of the open dialog asks for: each later event in the window's order
/// (the find field, the replace field, the options, the buttons from "Replace All" to
/// "Next", then Alt+R and Alt+A) overrides the earlier ones. A search is asked for when the
/// find text is stale while the find field has focus, or when an option was switched.
pub open spec fn dialog_action_spec(stale: bool, i: DialogInput) -> FindReplaceAction {
    let stale1 = stale || i.find_changed;
    let a1 = if stale1 && i.find_has_focus {
        FindReplaceAction::UpdateMatches
    } else {
        FindReplaceAction::NoAction
    };
    let a2 = if i.find_submitted {
        FindReplaceAction::NextMatch
    } else {
        a1
    };
    let a3 = if i.replace_submitted {
        FindReplaceAction::ReplaceCurrent
    } else {
        a2
    };
    let a4 = if i.options_changed {
        FindReplaceAction::UpdateMatches
    } else {
        a3
    };
    let a5 = if i.replace_all_clicked {
        FindReplaceAction::ReplaceAll
    } else {
        a4
    };
    let a6 = if i.replace_clicked {
        FindReplaceAction::ReplaceCurrent
    } else {
        a5
    };
    let a7 = if i.previous_clicked {
        FindReplaceAction::PreviousMatch
    } else {
        a6
    };
    let a8 = if i.next_clicked {
        FindReplaceAction::NextMatch
    } else {
        a7
    };
    let a9 = if i.alt_r {
        FindReplaceAction::ReplaceCurrent
    } else {
        a8
    };
    if i.alt_a {
        FindReplaceAction::ReplaceAll
    } else {
        a9
    }
}

/// Whether the find text is still stale after a frame that asked for `action`.
pub open spec fn stale_after(stale: bool, i: DialogInput, action: FindReplaceAction) -> bool {
    (stale || i.find_changed || i.options_changed) && action != FindReplaceAction::UpdateMatches
}

impl FindReplace {
    /// Decides one frame of the dialog: nothing while it is hidden; else the action of
    /// `dialog_action_spec`, the find text staying stale until a search is asked for, and
    /// Escape closing the dialog.
    pub fn dialog_action(&mut self, input: DialogInput) -> (r: FindReplaceAction)
        ensures
            !old(self).show_dialog ==> r == FindReplaceAction::NoAction && *final(self) == *old(
                self,
            ),
            old(self).show_dialog ==> {
                &&& r == dialog_action_spec(old(self).find_text_changed, input)
                &&& final(self).find_text_changed == stale_after(
                    old(self).find_text_changed,
                    input,
                    r,
                )
                &&& final(self).show_dialog == !input.escape
                &&& input.escape ==> final(self).matches@.len() == 0
                    && final(self).current_match_index is None
                &&& !input.escape ==> final(self).matches == old(self).matches
                    && final(self).current_match_index == old(self).current_match_index
            },
            final(self).find_text == old(self).find_text,
            final(self).replace_text == old(self).replace_text,
            final(self).case_sensitive == old(self).case_sensitive,
            final(self).use_regex == old(self).use_regex,
    {
        if !self.show_dialog {
            return FindReplaceAction::NoAction;
        }
        let mut action = FindReplaceAction::NoAction;
        if input.find_changed {
            self.find_text_changed = true;
        }
        if self.find_text_changed && input.find_has_focus {
            action = FindReplaceAction::UpdateMatches;
        }
        if input.find_submitted {
            action = FindReplaceAction::NextMatch;
        }
        if input.replace_submitted {
            action = FindReplaceAction::ReplaceCurrent;
        }
        if input.options_changed {
            self.find_text_changed = true;
            action = FindReplaceAction::UpdateMatches;
        }
        if input.replace_all_clicked {
            action = FindReplaceAction::ReplaceAll;
        }
        if input.replace_clicked {
            action = FindReplaceAction::ReplaceCurrent;
        }
        if input.previous_clicked {
            action = FindReplaceAction::PreviousMatch;
        }
        if input.next_clicked {
            action = FindReplaceAction::NextMatch;
        }
        if input.alt_r {
            action = FindReplaceAction::ReplaceCurrent;
        }
        if input.alt_a {
            action = FindReplaceAction::ReplaceAll;
        }
        if input.escape {
            self.close_dialog();
        }
        if self.find_text_changed && action == FindReplaceAction::UpdateMatches {
            self.find_text_changed = false;
        }
        action
    }
}

} // verus!
