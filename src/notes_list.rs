//! The list of notes in the sidebar: names, saved and edited contents, dirty flags and
//! the current note. Reading and writing the note files is left to the caller, which
//! reports what happened.

use vstd::prelude::*;
use crate::text::{find_from, find_in, utf8_of};

verus! {

/// The lower-case form of a text, as `str::to_lowercase` gives it.
pub uninterp spec fn lower_of(s: Seq<char>) -> Seq<char>;

/// Relies on `str::to_lowercase`: the result depends on the characters alone.
#[verifier::external_body]
fn lowercase(s: &str) -> (r: String)
    ensures
        r@ == lower_of(s@),
{
    s.to_lowercase()
}

/// The character of decimal digit `d`.
pub open spec fn digit_char(d: nat) -> char {
    if d == 0 {
        '0'
    } else if d == 1 {
        '1'
    } else if d == 2 {
        '2'
    } else if d == 3 {
        '3'
    } else if d == 4 {
        '4'
    } else if d == 5 {
        '5'
    } else if d == 6 {
        '6'
    } else if d == 7 {
        '7'
    } else if d == 8 {
        '8'
    } else {
        '9'
    }
}

/// Decimal digits of `n`, most significant first.
pub open spec fn decimal(n: nat) -> Seq<char>
    decreases n,
{
    if n < 10 {
        seq![digit_char(n)]
    } else {
        decimal(n / 10).push(digit_char(n % 10))
    }
}

fn digit_str(d: usize) -> (r: &'static str)
    requires
        d < 10,
    ensures
        r@ == seq![digit_char(d as nat)],
{
    proof {
        reveal_strlit("0");
        reveal_strlit("1");
        reveal_strlit("2");
        reveal_strlit("3");
        reveal_strlit("4");
        reveal_strlit("5");
        reveal_strlit("6");
        reveal_strlit("7");
        reveal_strlit("8");
        reveal_strlit("9");
    }
    let r = if d == 0 {
        "0"
    } else if d == 1 {
        "1"
    } else if d == 2 {
        "2"
    } else if d == 3 {
        "3"
    } else if d == 4 {
        "4"
    } else if d == 5 {
        "5"
    } else if d == 6 {
        "6"
    } else if d == 7 {
        "7"
    } else if d == 8 {
        "8"
    } else {
        "9"
    };
    assert(r@ =~= seq![digit_char(d as nat)]);
    r
}

/// Appends the decimal digits of `n` to `s`.
fn push_decimal(s: &mut String, n: usize)
    ensures
        final(s)@ == old(s)@ + decimal(n as nat),
    decreases n,
{
    if n >= 10 {
        push_decimal(s, n / 10);
    }
    s.append(digit_str(n % 10));
    assert(final(s)@ =~= old(s)@ + decimal(n as nat));
}

pub open spec fn strs(v: Seq<String>) -> Seq<Seq<char>> {
    v.map_values(|s: String| s@)
}

/// Notes, their contents as last saved and as edited, and which one is shown.
pub struct NotesList {
    notes_list: Vec<String>,
    current_note_index: usize,
    saved_content: Vec<String>,
    current_content: Vec<String>,
    is_dirty: Vec<bool>,
}

impl NotesList {
    pub closed spec fn names(&self) -> Seq<Seq<char>> {
        strs(self.notes_list@)
    }

    pub closed spec fn saved(&self) -> Seq<Seq<char>> {
        strs(self.saved_content@)
    }

    pub closed spec fn edited(&self) -> Seq<Seq<char>> {
        strs(self.current_content@)
    }

    pub closed spec fn dirty(&self) -> Seq<bool> {
        self.is_dirty@
    }

    pub closed spec fn current(&self) -> int {
        self.current_note_index as int
    }

    /// One saved text, one edited text and one dirty flag per note.
    pub open spec fn wf(&self) -> bool {
        &&& self.saved().len() == self.names().len()
        &&& self.edited().len() == self.names().len()
        &&& self.dirty().len() == self.names().len()
    }

    /// The edited text of the current note, or the empty text when there is no such note.
    pub open spec fn current_content(&self) -> Seq<char> {
        if 0 <= self.current() < self.edited().len() {
            self.edited()[self.current()]
        } else {
            Seq::empty()
        }
    }

    pub fn new() -> (r: Self)
        ensures
            r.wf(),
            r.names().len() == 0,
            r.current() == 0,
    {
        let r = NotesList {
            notes_list: Vec::new(),
            current_note_index: 0,
            saved_content: Vec::new(),
            current_content: Vec::new(),
            is_dirty: Vec::new(),
        };
        assert(strs(r.notes_list@) =~= Seq::empty());
        assert(strs(r.saved_content@) =~= Seq::empty());
        assert(strs(r.current_content@) =~= Seq::empty());
        r
    }

    /// Takes the notes found on disk, each with its content, all clean.
    pub fn load_notes(&mut self, names: Vec<String>, contents: Vec<String>)
        requires
            names@.len() == contents@.len(),
        ensures
            final(self).wf(),
            final(self).names() == strs(names@),
            final(self).saved() == strs(contents@),
            final(self).edited() == strs(contents@),
            forall|i: int| 0 <= i < names@.len() ==> !#[trigger] final(self).dirty()[i],
            final(self).current() == old(self).current(),
    {
        let n = names.len();
        let mut dirty: Vec<bool> = Vec::new();
        let mut i: usize = 0;
        while i < n
            invariant
                i <= n,
                dirty@.len() == i,
                forall|j: int| 0 <= j < i ==> !#[trigger] dirty@[j],
            decreases n - i,
        {
            dirty.push(false);
            i = i + 1;
        }
        self.saved_content = contents.clone();
        self.current_content = contents;
        self.notes_list = names;
        self.is_dirty = dirty;
    }

    pub fn get_current_note_name(&self) -> (r: &str)
        ensures
            0 <= self.current() < self.names().len() ==> r@ == self.names()[self.current()],
            !(0 <= self.current() < self.names().len()) ==> r@ == "No Note"@,
    {
        if self.current_note_index < self.notes_list.len() {
            self.notes_list[self.current_note_index].as_str()
        } else {
            "No Note"
        }
    }

    pub fn get_current_content(&self) -> (r: &str)
        ensures
            r@ == self.current_content(),
    {
        if self.current_note_index < self.current_content.len() {
            self.current_content[self.current_note_index].as_str()
        } else {
            proof {
                reveal_strlit("");
            }
            ""
        }
    }

    pub fn is_current_note_dirty(&self) -> (r: bool)
        ensures
            r == (0 <= self.current() < self.dirty().len() && self.dirty()[self.current()]),
    {
        if self.current_note_index < self.is_dirty.len() {
            self.is_dirty[self.current_note_index]
        } else {
            false
        }
    }

    pub fn has_any_dirty_notes(&self) -> (r: bool)
        ensures
            r == (exists|i: int| 0 <= i < self.dirty().len() && #[trigger] self.dirty()[i]),
    {
        let mut i: usize = 0;
        while i < self.is_dirty.len()
            invariant
                i <= self.is_dirty@.len(),
                forall|j: int| 0 <= j < i ==> !#[trigger] self.is_dirty@[j],
            decreases self.is_dirty@.len() - i,
        {
            if self.is_dirty[i] {
                assert(self.dirty()[i as int]);
                return true;
            }
            i = i + 1;
        }
        false
    }

    /// The notes with unsaved edits, in order.
    pub fn dirty_notes(&self) -> (r: Vec<usize>)
        requires
            self.wf(),
        ensures
            forall|k: int| 0 <= k < r@.len() ==> 0 <= #[trigger] r@[k] < self.names().len()
                && self.dirty()[r@[k] as int],
            forall|i: int| 0 <= i < self.dirty().len() && #[trigger] self.dirty()[i] ==> r@.contains(
                i as usize,
            ),
    {
        let mut r: Vec<usize> = Vec::new();
        let mut i: usize = 0;
        while i < self.is_dirty.len()
            invariant
                i <= self.is_dirty@.len(),
                self.wf(),
                forall|k: int| 0 <= k < r@.len() ==> 0 <= #[trigger] r@[k] < i && self.is_dirty@[r@[k] as int],
                forall|j: int| 0 <= j < i && #[trigger] self.is_dirty@[j] ==> r@.contains(j as usize),
            decreases self.is_dirty@.len() - i,
        {
            let ghost prev = r@;
            if self.is_dirty[i] {
                r.push(i);
                assert(r@[r@.len() - 1] == i);
                assert forall|j: int| 0 <= j < i + 1 && #[trigger] self.is_dirty@[j] implies r@.contains(
                    j as usize,
                ) by {
                    if j < i {
                        let k = choose|k: int| 0 <= k < prev.len() && prev[k] == j as usize;
                        assert(r@[k] == j as usize);
                    } else {
                        assert(r@[r@.len() - 1] == j as usize);
                    }
                }
            }
            i = i + 1;
        }
        r
    }

    /// Records that note `i` was written to disk with its edited text: that text is now
    /// its saved text and the note is clean.
    pub fn mark_saved(&mut self, i: usize)
        requires
            old(self).wf(),
            i < old(self).names().len(),
        ensures
            final(self).wf(),
            final(self).names() == old(self).names(),
            final(self).edited() == old(self).edited(),
            final(self).saved() == old(self).saved().update(i as int, old(self).edited()[i as int]),
            final(self).dirty() == old(self).dirty().update(i as int, false),
            final(self).current() == old(self).current(),
    {
        let content = self.current_content[i].clone();
        self.saved_content.set(i, content);
        self.is_dirty.set(i, false);
        assert(strs(self.saved_content@) =~= strs(old(self).saved_content@).update(
            i as int,
            old(self).current_content@[i as int]@,
        ));
    }

    /// Records that the current note was written to disk with `content`.
    pub fn save_current_note(&mut self, content: &str)
        requires
            old(self).wf(),
        ensures
            final(self).wf(),
            final(self).names() == old(self).names(),
            final(self).dirty() == old(self).dirty(),
            final(self).current() == old(self).current(),
            0 <= old(self).current() < old(self).names().len() ==> {
                &&& final(self).saved() == old(self).saved().update(old(self).current(), content@)
                &&& final(self).edited() == old(self).edited().update(old(self).current(), content@)
            },
            !(0 <= old(self).current() < old(self).names().len()) ==> final(self).saved()
                == old(self).saved() && final(self).edited() == old(self).edited(),
    {
        let i = self.current_note_index;
        if i < self.saved_content.len() {
            self.saved_content.set(i, content.to_owned());
            self.current_content.set(i, content.to_owned());
            assert(strs(self.saved_content@) =~= strs(old(self).saved_content@).update(i as int, content@));
            assert(strs(self.current_content@) =~= strs(old(self).current_content@).update(i as int, content@));
        }
    }

    /// The name a new note gets: `"Note "` and one more than the number of notes.
    pub fn new_note_name(&self) -> (r: String)
        requires
            self.names().len() < usize::MAX,
        ensures
            r@ == "Note "@ + decimal((self.names().len() + 1) as nat),
    {
        let mut name = String::from_str("Note ");
        push_decimal(&mut name, self.notes_list.len() + 1);
        name
    }

    /// Records a note created on disk: it comes last, empty and clean, and becomes current.
    pub fn create_new_note(&mut self, name: String)
        requires
            old(self).wf(),
        ensures
            final(self).wf(),
            final(self).names() == old(self).names().push(name@),
            final(self).saved() == old(self).saved().push(Seq::empty()),
            final(self).edited() == old(self).edited().push(Seq::empty()),
            final(self).dirty() == old(self).dirty().push(false),
            final(self).current() == old(self).names().len(),
    {
        self.notes_list.push(name);
        self.saved_content.push(String::new());
        self.current_content.push(String::new());
        self.is_dirty.push(false);
        self.current_note_index = self.notes_list.len() - 1;
        assert(strs(self.notes_list@) =~= strs(old(self).notes_list@).push(name@));
        assert(strs(self.saved_content@) =~= strs(old(self).saved_content@).push(Seq::empty()));
        assert(strs(self.current_content@) =~= strs(old(self).current_content@).push(Seq::empty()));
    }

    /// Records that the current note's file was deleted: the note leaves the list, and the
    /// current index moves to the last note when it fell off the end. Returns `false`,
    /// changing nothing, when there is no current note.
    pub fn delete_current_note(&mut self) -> (r: bool)
        requires
            old(self).wf(),
        ensures
            final(self).wf(),
            r == (0 <= old(self).current() < old(self).names().len()),
            r ==> {
                let c = old(self).current();
                &&& final(self).names() == old(self).names().remove(c)
                &&& final(self).saved() == old(self).saved().remove(c)
                &&& final(self).edited() == old(self).edited().remove(c)
                &&& final(self).dirty() == old(self).dirty().remove(c)
                &&& final(self).current() == (if c >= final(self).names().len() && final(self).names().len() > 0 {
                    final(self).names().len() - 1
                } else {
                    c
                })
            },
            !r ==> *final(self) == *old(self),
    {
        let i = self.current_note_index;
        if i >= self.notes_list.len() {
            return false;
        }
        self.notes_list.remove(i);
        self.saved_content.remove(i);
        self.current_content.remove(i);
        self.is_dirty.remove(i);
        assert(strs(self.notes_list@) =~= strs(old(self).notes_list@).remove(i as int));
        assert(strs(self.saved_content@) =~= strs(old(self).saved_content@).remove(i as int));
        assert(strs(self.current_content@) =~= strs(old(self).current_content@).remove(i as int));
        if self.current_note_index >= self.notes_list.len() && self.notes_list.len() > 0 {
            self.current_note_index = self.notes_list.len() - 1;
        }
        true
    }

    /// Makes note `index` current; `false`, changing nothing, when there is no such note.
    pub fn switch_to_note(&mut self, index: usize) -> (r: bool)
        ensures
            r == (index < old(self).names().len()),
            r ==> final(self).current() == index,
            !r ==> final(self).current() == old(self).current(),
            final(self).names() == old(self).names(),
            final(self).saved() == old(self).saved(),
            final(self).edited() == old(self).edited(),
            final(self).dirty() == old(self).dirty(),
    {
        if index < self.notes_list.len() {
            self.current_note_index = index;
            true
        } else {
            false
        }
    }

    /// Keeps the editor's text as the current note's edited text and updates its dirty flag.
    pub fn save_current_content(&mut self, content: &str)
        requires
            old(self).wf(),
        ensures
            final(self).wf(),
            final(self).names() == old(self).names(),
            final(self).saved() == old(self).saved(),
            final(self).current() == old(self).current(),
            0 <= old(self).current() < old(self).names().len() ==> {
                let c = old(self).current();
                &&& final(self).edited() == old(self).edited().update(c, content@)
                &&& final(self).dirty() == old(self).dirty().update(c, content@ != old(self).saved()[c])
            },
            !(0 <= old(self).current() < old(self).names().len()) ==> final(self).edited()
                == old(self).edited() && final(self).dirty() == old(self).dirty(),
    {
        let i = self.current_note_index;
        if i < self.current_content.len() {
            self.current_content.set(i, content.to_owned());
            assert(strs(self.current_content@) =~= strs(old(self).current_content@).update(i as int, content@));
            self.update_dirty_state();
        }
    }

    /// Sets the current note's dirty flag: its edited text differs from its saved text.
    pub fn update_dirty_state(&mut self)
        requires
            old(self).wf(),
        ensures
            final(self).wf(),
            final(self).names() == old(self).names(),
            final(self).saved() == old(self).saved(),
            final(self).edited() == old(self).edited(),
            final(self).current() == old(self).current(),
            0 <= old(self).current() < old(self).names().len() ==> final(self).dirty()
                == old(self).dirty().update(
                old(self).current(),
                old(self).edited()[old(self).current()] != old(self).saved()[old(self).current()],
            ),
            !(0 <= old(self).current() < old(self).names().len()) ==> final(self).dirty()
                == old(self).dirty(),
    {
        let i = self.current_note_index;
        if i < self.current_content.len() {
            let d = self.current_content[i] != self.saved_content[i];
            self.is_dirty.set(i, d);
        }
    }

    /// Marks the current note clean.
    pub fn mark_current_clean(&mut self)
        requires
            old(self).wf(),
        ensures
            final(self).wf(),
            final(self).names() == old(self).names(),
            final(self).saved() == old(self).saved(),
            final(self).edited() == old(self).edited(),
            final(self).current() == old(self).current(),
            0 <= old(self).current() < old(self).names().len() ==> final(self).dirty()
                == old(self).dirty().update(old(self).current(), false),
            !(0 <= old(self).current() < old(self).names().len()) ==> final(self).dirty()
                == old(self).dirty(),
    {
        let i = self.current_note_index;
        if i < self.is_dirty.len() {
            self.is_dirty.set(i, false);
        }
    }

    /// Records that a note's file was renamed: the first note named `old_name` takes
    /// `new_name`. Returns whether such a note was found.
    pub fn rename_note(&mut self, old_name: &str, new_name: &str) -> (r: bool)
        requires
            old(self).wf(),
        ensures
            final(self).wf(),
            r == old(self).names().contains(old_name@),
            r ==> exists|i: int|
                0 <= i < old(self).names().len() && old(self).names()[i] == old_name@ && (forall|j: int|
                    0 <= j < i ==> old(self).names()[j] != old_name@) && final(self).names()
                    == old(self).names().update(i, new_name@),
            !r ==> final(self).names() == old(self).names(),
            final(self).saved() == old(self).saved(),
            final(self).edited() == old(self).edited(),
            final(self).dirty() == old(self).dirty(),
            final(self).current() == old(self).current(),
    {
        let target = old_name.to_owned();
        let mut i: usize = 0;
        while i < self.notes_list.len()
            invariant
                i <= self.notes_list@.len(),
                target@ == old_name@,
                *self == *old(self),
                self.wf(),
                forall|j: int| 0 <= j < i ==> self.names()[j] != old_name@,
            decreases self.notes_list@.len() - i,
        {
            if self.notes_list[i] == target {
                self.notes_list.set(i, new_name.to_owned());
                assert(strs(self.notes_list@) =~= strs(old(self).notes_list@).update(i as int, new_name@));
                assert(old(self).names()[i as int] == old_name@);
                assert(self.names().len() == old(self).names().len());
                assert(old(self).names().contains(old_name@));
                return true;
            }
            i = i + 1;
        }
        assert forall|j: int| 0 <= j < old(self).names().len() implies old(self).names()[j] != old_name@ by {}
        false
    }
    /// The names of all notes, in order.
    pub fn get_note_names(&self) -> (r: &Vec<String>)
        ensures
            strs(r@) == self.names(),
    {
        &self.notes_list
    }

    /// The index of the current note.
    pub fn get_current_index(&self) -> (r: usize)
        ensures
            r == self.current(),
    {
        self.current_note_index
    }

    /// Whether note `i` has unsaved edits.
    pub fn is_note_dirty(&self, i: usize) -> (r: bool)
        ensures
            r == (i < self.dirty().len() && self.dirty()[i as int]),
    {
        if i < self.is_dirty.len() {
            self.is_dirty[i]
        } else {
            false
        }
    }

    /// The edited text of note `i`, or the empty text when there is no such note.
    pub fn get_content(&self, i: usize) -> (r: &str)
        ensures
            i < self.edited().len() ==> r@ == self.edited()[i as int],
            i >= self.edited().len() ==> r@.len() == 0,
    {
        if i < self.current_content.len() {
            self.current_content[i].as_str()
        } else {
            proof {
                reveal_strlit("");
            }
            ""
        }
    }
}

/// `part` occurs in `whole`, byte for byte.
pub open spec fn occurs_in(whole: Seq<char>, part: Seq<char>) -> bool {
    find_from(utf8_of(whole), utf8_of(part), 0, utf8_of(whole).len() as int) is Some
}

/// A note name is shown for a sidebar search when the search is empty or its lower-case
/// form occurs in the name's lower-case form.
pub open spec fn shown_for_search(name: Seq<char>, search: Seq<char>) -> bool {
    search.len() == 0 || occurs_in(lower_of(name), lower_of(search))
}

/// Whether `part` occurs in `whole`.
pub fn contains_text(whole: &str, part: &str) -> (r: bool)
    ensures
        r == occurs_in(whole@, part@),
{
    let h = whole.as_bytes();
    let p = part.as_bytes();
    find_in(h, 0, h.len(), p).is_some()
}

/// Whether the sidebar shows note `name` for the search text `search`.
pub fn matches_search(name: &str, search: &str) -> (r: bool)
    ensures
        r == shown_for_search(name@, search@),
{
    if search.is_empty() {
        return true;
    }
    let ln = lowercase(name);
    let ls = lowercase(search);
    contains_text(ln.as_str(), ls.as_str())
}

} // verus!
