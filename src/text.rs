//! Byte-level views of UTF-8 text: lines, runs of white space, substring search, and the
//! facts about UTF-8 validity that edits made of ASCII bytes rely on.

use vstd::prelude::*;
use vstd::utf8::*;

verus! {

broadcast use vstd::utf8::group_utf8_lib;

/// The bytes of a string's UTF-8 encoding.
pub open spec fn utf8_of(s: Seq<char>) -> Seq<u8> {
    encode_utf8(s)
}

/// Length in bytes of the white-space character encoded at `i`, ending no later than `to`,
/// or 0 when there is none there. White space is what `char::is_whitespace` accepts: tab,
/// line feed, vertical tab, form feed, carriage return and space, and U+0085, U+00A0,
/// U+1680, U+2000 to U+200A, U+2028, U+2029, U+202F, U+205F and U+3000.
pub open spec fn space_len(t: Seq<u8>, i: int, to: int) -> int {
    if i < 0 || i >= to || to > t.len() {
        0
    } else if t[i] == 32 || (9 <= t[i] && t[i] <= 13) {
        1
    } else if i + 1 < to && t[i] == 0xC2 && (t[i + 1] == 0x85 || t[i + 1] == 0xA0) {
        2
    } else if i + 2 < to && t[i] == 0xE1 && t[i + 1] == 0x9A && t[i + 2] == 0x80 {
        3
    } else if i + 2 < to && t[i] == 0xE2 && t[i + 1] == 0x80 && ((0x80 <= t[i + 2] && t[i + 2]
        <= 0x8A) || t[i + 2] == 0xA8 || t[i + 2] == 0xA9 || t[i + 2] == 0xAF) {
        3
    } else if i + 2 < to && t[i] == 0xE2 && t[i + 1] == 0x81 && t[i + 2] == 0x9F {
        3
    } else if i + 2 < to && t[i] == 0xE3 && t[i + 1] == 0x80 && t[i + 2] == 0x80 {
        3
    } else {
        0
    }
}

pub open spec fn is_digit(b: u8) -> bool {
    48 <= b && b <= 57
}

pub open spec fn all_ascii(s: Seq<u8>) -> bool {
    forall|i: int| 0 <= i < s.len() ==> #[trigger] s[i] < 128
}

/// Start of the line that holds position `pos`: just after the last line feed before it.
pub open spec fn line_start_of(t: Seq<u8>, pos: int) -> int
    decreases pos,
{
    if pos <= 0 {
        0
    } else if t[pos - 1] == 10 {
        pos
    } else {
        line_start_of(t, pos - 1)
    }
}

/// End of the line that starts at or before `pos`: the first line feed at or after `pos`,
/// or the end of the text.
pub open spec fn line_end_of(t: Seq<u8>, pos: int) -> int
    decreases t.len() - pos,
{
    if pos >= t.len() {
        t.len() as int
    } else if t[pos] == 10 {
        pos
    } else {
        line_end_of(t, pos + 1)
    }
}

/// End of the white space that starts at `from`, before `to`: the first position where no
/// white-space character is encoded, or `to`.
pub open spec fn skip_spaces(t: Seq<u8>, from: int, to: int) -> int
    decreases to - from,
{
    if from >= to {
        to
    } else if space_len(t, from, to) == 0 {
        from
    } else {
        skip_spaces(t, from + space_len(t, from, to), to)
    }
}

/// First position in `[from, to)` that does not hold byte `b`, or `to`.
pub open spec fn skip_byte(t: Seq<u8>, from: int, to: int, b: u8) -> int
    decreases to - from,
{
    if from >= to {
        to
    } else if t[from] != b {
        from
    } else {
        skip_byte(t, from + 1, to, b)
    }
}

pub(crate) fn skip_byte_in(t: &[u8], from: usize, to: usize, b: u8) -> (r: usize)
    requires
        from <= to <= t@.len(),
    ensures
        r as int == skip_byte(t@, from as int, to as int, b),
        from <= r <= to,
{
    let mut i: usize = from;
    while i < to && t[i] == b
        invariant
            from <= i <= to <= t@.len(),
            skip_byte(t@, i as int, to as int, b) == skip_byte(t@, from as int, to as int, b),
        decreases to - i,
    {
        i = i + 1;
    }
    i
}

/// First position in `[from, to)` that does not hold a decimal digit, or `to`.
pub open spec fn skip_digits(t: Seq<u8>, from: int, to: int) -> int
    decreases to - from,
{
    if from >= to {
        to
    } else if !is_digit(t[from]) {
        from
    } else {
        skip_digits(t, from + 1, to)
    }
}

/// `pat` occurs in `t` at `i`.
pub open spec fn occurs_at(t: Seq<u8>, pat: Seq<u8>, i: int) -> bool {
    0 <= i && i + pat.len() <= t.len() && t.subrange(i, i + pat.len()) == pat
}

/// The first position `i` in `[from, to)` at which `pat` occurs inside `t[..to]`.
pub open spec fn find_from(t: Seq<u8>, pat: Seq<u8>, from: int, to: int) -> Option<int>
    decreases to - from,
{
    if from < 0 || from >= to || from + pat.len() > to {
        None
    } else if occurs_at(t, pat, from) {
        Some(from)
    } else {
        find_from(t, pat, from + 1, to)
    }
}

/// `pat` occurs in `t` at `i` and ends no later than `to`.
pub open spec fn starts_with_at(t: Seq<u8>, i: int, to: int, pat: Seq<u8>) -> bool {
    i + pat.len() <= to && occurs_at(t, pat, i)
}

pub proof fn lemma_ascii_valid(s: Seq<u8>)
    requires
        all_ascii(s),
    ensures
        valid_utf8(s),
    decreases s.len(),
{
    if s.len() > 0 {
        let b = s[0];
        assert(b & 0x7f <= 0x7f) by (bit_vector);
        assert(valid_first_scalar(s));
        let rest = s.subrange(1, s.len() as int);
        assert(pop_first_scalar(s) =~= rest);
        lemma_ascii_valid(rest);
    }
}

/// Overwriting an ASCII byte with another keeps a text valid UTF-8.
pub proof fn lemma_replace_ascii_valid(t: Seq<u8>, i: int, b: u8)
    requires
        valid_utf8(t),
        0 <= i < t.len(),
        t[i] < 128,
        b < 128,
    ensures
        valid_utf8(t.update(i, b)),
{
    is_char_boundary_iff_not_is_continuation_byte(t, i);
    valid_utf8_split(t, i);
    let suffix = t.subrange(i, t.len() as int);
    let rest = t.subrange(i + 1, t.len() as int);
    let x = t[i];
    assert(x & 0x7f <= 0x7f) by (bit_vector);
    assert(pop_first_scalar(suffix) =~= rest);
    assert(valid_utf8(rest));
    lemma_ascii_valid(seq![b]);
    valid_utf8_concat(seq![b], rest);
    valid_utf8_concat(t.subrange(0, i), seq![b] + rest);
    assert(t.update(i, b) =~= t.subrange(0, i) + (seq![b] + rest));
}

/// Relies on std's `String::from_utf8`: it succeeds exactly on valid UTF-8 bytes, and the
/// string it returns holds those bytes.
#[verifier::external_body]
pub(crate) fn string_from_utf8(v: Vec<u8>) -> (r: Option<String>)
    ensures
        r.is_some() == valid_utf8(v@),
        r.is_some() ==> utf8_of(r.unwrap()@) == v@,
{
    String::from_utf8(v).ok()
}

/// Bytes of a text that was assembled from valid pieces, as a `String`.
pub(crate) fn string_of_valid(v: Vec<u8>) -> (r: String)
    requires
        valid_utf8(v@),
    ensures
        utf8_of(r@) == v@,
{
    match string_from_utf8(v) {
        Some(s) => s,
        None => String::new(),
    }
}

pub(crate) fn line_start_before(t: &[u8], pos: usize) -> (r: usize)
    requires
        pos <= t@.len(),
    ensures
        r as int == line_start_of(t@, pos as int),
        r <= pos,
{
    let mut i: usize = pos;
    while i > 0 && t[i - 1] != 10u8
        invariant
            i <= pos <= t@.len(),
            line_start_of(t@, i as int) == line_start_of(t@, pos as int),
        decreases i,
    {
        i = i - 1;
    }
    i
}

pub(crate) fn line_end_from(t: &[u8], pos: usize) -> (r: usize)
    requires
        pos <= t@.len(),
    ensures
        r as int == line_end_of(t@, pos as int),
        pos <= r <= t@.len(),
{
    let mut i: usize = pos;
    while i < t.len() && t[i] != 10u8
        invariant
            pos <= i <= t@.len(),
            line_end_of(t@, i as int) == line_end_of(t@, pos as int),
        decreases t@.len() - i,
    {
        i = i + 1;
    }
    i
}

fn space_len_in(t: &[u8], i: usize, to: usize) -> (r: usize)
    requires
        i < to <= t@.len(),
    ensures
        r as int == space_len(t@, i as int, to as int),
{
    let b = t[i];
    if b == 32u8 || (9u8 <= b && b <= 13u8) {
        1
    } else if to - i > 1 && b == 0xC2u8 && (t[i + 1] == 0x85u8 || t[i + 1] == 0xA0u8) {
        2
    } else if to - i > 2 && b == 0xE1u8 && t[i + 1] == 0x9Au8 && t[i + 2] == 0x80u8 {
        3
    } else if to - i > 2 && b == 0xE2u8 && t[i + 1] == 0x80u8 && ((0x80u8 <= t[i + 2] && t[i
        + 2] <= 0x8Au8) || t[i + 2] == 0xA8u8 || t[i + 2] == 0xA9u8 || t[i + 2] == 0xAFu8) {
        3
    } else if to - i > 2 && b == 0xE2u8 && t[i + 1] == 0x81u8 && t[i + 2] == 0x9Fu8 {
        3
    } else if to - i > 2 && b == 0xE3u8 && t[i + 1] == 0x80u8 && t[i + 2] == 0x80u8 {
        3
    } else {
        0
    }
}

pub(crate) fn skip_spaces_in(t: &[u8], from: usize, to: usize) -> (r: usize)
    requires
        from <= to <= t@.len(),
    ensures
        r as int == skip_spaces(t@, from as int, to as int),
        from <= r <= to,
{
    let mut i: usize = from;
    while i < to
        invariant
            from <= i <= to <= t@.len(),
            skip_spaces(t@, i as int, to as int) == skip_spaces(t@, from as int, to as int),
        decreases to - i,
    {
        let w = space_len_in(t, i, to);
        if w == 0 {
            return i;
        }
        i = i + w;
    }
    i
}

pub(crate) fn skip_digits_in(t: &[u8], from: usize, to: usize) -> (r: usize)
    requires
        from <= to <= t@.len(),
    ensures
        r as int == skip_digits(t@, from as int, to as int),
        from <= r <= to,
{
    let mut i: usize = from;
    while i < to && 48u8 <= t[i] && t[i] <= 57u8
        invariant
            from <= i <= to <= t@.len(),
            skip_digits(t@, i as int, to as int) == skip_digits(t@, from as int, to as int),
        decreases to - i,
    {
        i = i + 1;
    }
    i
}

/// Whether `pat` occurs in `t` at `i` and ends no later than `to`.
pub(crate) fn starts_with_in(t: &[u8], i: usize, to: usize, pat: &[u8]) -> (r: bool)
    requires
        i <= to <= t@.len(),
    ensures
        r == starts_with_at(t@, i as int, to as int, pat@),
{
    if pat.len() > to - i {
        return false;
    }
    let mut k: usize = 0;
    while k < pat.len()
        invariant
            i + pat@.len() <= to <= t@.len(),
            k <= pat@.len(),
            forall|j: int| 0 <= j < k ==> t@[i + j] == pat@[j],
        decreases pat@.len() - k,
    {
        if t[i + k] != pat[k] {
            assert(t@.subrange(i as int, i + pat@.len())[k as int] != pat@[k as int]);
            return false;
        }
        k = k + 1;
    }
    assert(t@.subrange(i as int, i + pat@.len()) =~= pat@);
    true
}

/// First occurrence of `pat` in `t[from..to]`.
pub(crate) fn find_in(t: &[u8], from: usize, to: usize, pat: &[u8]) -> (r: Option<usize>)
    requires
        from <= to <= t@.len(),
    ensures
        match r {
            Some(p) => find_from(t@, pat@, from as int, to as int) == Some(p as int),
            None => find_from(t@, pat@, from as int, to as int) is None,
        },
{
    let mut i: usize = from;
    while i < to
        invariant
            from <= i <= to <= t@.len(),
            find_from(t@, pat@, i as int, to as int) == find_from(t@, pat@, from as int, to as int),
        decreases to - i,
    {
        if starts_with_in(t, i, to, pat) {
            return Some(i);
        }
        if pat.len() > to - i {
            return None;
        }
        i = i + 1;
    }
    None
}

/// Every position in `[from, skip_spaces(t, from, to))` holds white space.
pub proof fn lemma_skip_spaces(t: Seq<u8>, from: int, to: int)
    requires
        0 <= from <= to <= t.len(),
    ensures
        from <= skip_spaces(t, from, to) <= to,
    decreases to - from,
{
    if from < to && space_len(t, from, to) != 0 {
        lemma_skip_spaces(t, from + space_len(t, from, to), to);
    }
}

/// In a valid text, the position after a character that starts at a boundary is a boundary.
pub proof fn lemma_step_boundary(t: Seq<u8>, i: int, w: int)
    requires
        valid_utf8(t),
        0 <= i < t.len(),
        is_char_boundary(t, i),
        (w == 1 && t[i] < 0x80) || (w == 2 && 0xC2 <= t[i] <= 0xDF) || (w == 3 && 0xE0 <= t[i]
            <= 0xEF),
        i + w <= t.len(),
    ensures
        is_char_boundary(t, i + w),
{
    valid_utf8_split(t, i);
    let u = t.subrange(i, t.len() as int);
    assert(u[0] == t[i]);
    assert(length_of_first_scalar(u) == w);
    let rest = pop_first_scalar(u);
    assert(rest =~= t.subrange(i + w, t.len() as int));
    assert(valid_utf8(u));
    assert(valid_first_scalar(u));
    assert(valid_utf8(rest));
    if i + w < t.len() {
        assert(rest.len() > 0);
        assert(valid_first_scalar(rest));
        assert(rest[0] == t[i + w]);
        assert(!is_continuation_byte(t[i + w]));
        is_char_boundary_iff_not_is_continuation_byte(t, i + w);
    } else {
        is_char_boundary_start_end_of_seq(t);
    }
}

/// White space skipped from a character boundary ends on a character boundary.
pub proof fn lemma_skip_spaces_boundary(t: Seq<u8>, from: int, to: int)
    requires
        valid_utf8(t),
        0 <= from <= to <= t.len(),
        is_char_boundary(t, from),
        is_char_boundary(t, to),
    ensures
        is_char_boundary(t, skip_spaces(t, from, to)),
    decreases to - from,
{
    if from < to && space_len(t, from, to) != 0 {
        let w = space_len(t, from, to);
        lemma_step_boundary(t, from, w);
        lemma_skip_spaces_boundary(t, from + w, to);
    }
}

/// The start of a line is a character boundary.
pub proof fn lemma_line_start_boundary(t: Seq<u8>, pos: int)
    requires
        valid_utf8(t),
        0 <= pos <= t.len(),
    ensures
        is_char_boundary(t, line_start_of(t, pos)),
    decreases pos,
{
    if pos <= 0 {
        is_char_boundary_start_end_of_seq(t);
    } else if t[pos - 1] == 10 {
        is_char_boundary_iff_not_is_continuation_byte(t, pos - 1);
        lemma_step_boundary(t, pos - 1, 1);
    } else {
        lemma_line_start_boundary(t, pos - 1);
    }
}

pub proof fn lemma_line_start_bounds(t: Seq<u8>, pos: int)
    requires
        0 <= pos <= t.len(),
    ensures
        0 <= line_start_of(t, pos) <= pos,
        line_start_of(t, pos) > 0 ==> t[line_start_of(t, pos) - 1] == 10,
    decreases pos,
{
    if pos > 0 && t[pos - 1] != 10 {
        lemma_line_start_bounds(t, pos - 1);
    }
}

pub proof fn lemma_line_end_bounds(t: Seq<u8>, pos: int)
    requires
        0 <= pos <= t.len(),
    ensures
        pos <= line_end_of(t, pos) <= t.len(),
        line_end_of(t, pos) < t.len() ==> t[line_end_of(t, pos)] == 10,
        forall|j: int| pos <= j < line_end_of(t, pos) ==> #[trigger] t[j] != 10,
    decreases t.len() - pos,
{
    if pos < t.len() && t[pos] != 10 {
        lemma_line_end_bounds(t, pos + 1);
    }
}

/// Appends `t[a..b]` to `out`.
pub(crate) fn push_range(out: &mut Vec<u8>, t: &[u8], a: usize, b: usize)
    requires
        a <= b <= t@.len(),
    ensures
        final(out)@ == old(out)@ + t@.subrange(a as int, b as int),
{
    let mut i: usize = a;
    while i < b
        invariant
            a <= i <= b <= t@.len(),
            out@ == old(out)@ + t@.subrange(a as int, i as int),
        decreases b - i,
    {
        out.push(t[i]);
        assert(t@.subrange(a as int, i + 1) =~= t@.subrange(a as int, i as int).push(t@[i as int]));
        i = i + 1;
    }
}

/// The bytes between two character boundaries of a valid text are valid UTF-8.
pub proof fn lemma_sub_valid(t: Seq<u8>, s: int, e: int)
    requires
        valid_utf8(t),
        0 <= s <= e <= t.len(),
        is_char_boundary(t, s),
        is_char_boundary(t, e),
    ensures
        valid_utf8(t.subrange(s, e)),
{
    valid_utf8_split(t, s);
    let u = t.subrange(s, t.len() as int);
    if e < t.len() {
        is_char_boundary_iff_not_is_continuation_byte(t, e);
        is_char_boundary_iff_not_is_continuation_byte(u, e - s);
    } else {
        is_char_boundary_start_end_of_seq(u);
    }
    valid_utf8_split(u, e - s);
    assert(u.subrange(0, e - s) =~= t.subrange(s, e));
}

/// Replacing the bytes between two character boundaries by valid UTF-8 keeps a text valid.
pub proof fn lemma_replace_range_valid(t: Seq<u8>, s: int, e: int, r: Seq<u8>)
    requires
        valid_utf8(t),
        0 <= s <= e <= t.len(),
        is_char_boundary(t, s),
        is_char_boundary(t, e),
        valid_utf8(r),
    ensures
        valid_utf8(t.subrange(0, s) + r + t.subrange(e, t.len() as int)),
{
    valid_utf8_split(t, s);
    valid_utf8_split(t, e);
    valid_utf8_concat(t.subrange(0, s), r);
    valid_utf8_concat(t.subrange(0, s) + r, t.subrange(e, t.len() as int));
}

/// Where `find_from` finds `pat`, it lies inside `[from, to)` and holds `pat`.
pub proof fn lemma_find_from_range(t: Seq<u8>, pat: Seq<u8>, from: int, to: int)
    requires
        to <= t.len(),
    ensures
        find_from(t, pat, from, to) is Some ==> {
            let p = find_from(t, pat, from, to)->0;
            &&& from <= p < to
            &&& p + pat.len() <= to
            &&& t.subrange(p, p + pat.len()) == pat
        },
    decreases to - from,
{
    if !(from < 0 || from >= to || from + pat.len() > to) && !occurs_at(t, pat, from) {
        lemma_find_from_range(t, pat, from + 1, to);
    }
}

} // verus!
