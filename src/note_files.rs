//! Which files of the notes folder are notes, and the names they are listed under.

use vstd::prelude::*;
use crate::notes_list::strs;
use crate::text::utf8_of;

verus! {

/// The note a file holds: a name followed by the `.md` extension gives that name.
pub open spec fn note_stem(f: Seq<char>) -> Option<Seq<char>> {
    if f.len() > 3 && f.subrange(f.len() - 3, f.len() as int) == seq!['.', 'm', 'd'] {
        Some(f.subrange(0, f.len() - 3))
    } else {
        None
    }
}

/// The note names of the given file names, in their order.
pub open spec fn note_stems(files: Seq<Seq<char>>) -> Seq<Seq<char>>
    decreases files.len(),
{
    if files.len() == 0 {
        Seq::empty()
    } else {
        note_stems(files.drop_last()) + match note_stem(files.last()) {
            Some(s) => seq![s],
            None => Seq::empty(),
        }
    }
}

/// `a` comes no later than `b` in the order of their bytes, the order of `String`.
pub open spec fn bytes_le(a: Seq<u8>, b: Seq<u8>) -> bool
    decreases a.len(),
{
    if a.len() == 0 {
        true
    } else if b.len() == 0 {
        false
    } else if a[0] != b[0] {
        a[0] < b[0]
    } else {
        bytes_le(a.drop_first(), b.drop_first())
    }
}

/// The names are in ascending order.
pub open spec fn ascending(v: Seq<Seq<char>>) -> bool {
    forall|i: int, j: int| 0 <= i < j < v.len() ==> bytes_le(utf8_of(v[i]), utf8_of(v[j]))
}

/// Relies on `slice::sort`: the same strings, in ascending order, which `String` takes
/// to be the order of their bytes.
#[verifier::external_body]
fn sort_strings(v: &mut Vec<String>)
    ensures
        strs(final(v)@).to_multiset() == strs(old(v)@).to_multiset(),
        ascending(strs(final(v)@)),
{
    v.sort()
}

/// The note in file `file_name`, if it is a note file.
pub fn note_name_of_file(file_name: &str) -> (r: Option<String>)
    ensures
        r.is_some() == note_stem(file_name@).is_some(),
        r.is_some() ==> r.unwrap()@ == note_stem(file_name@).unwrap(),
{
    let n = file_name.unicode_len();
    if n <= 3 {
        return None;
    }
    let dot = file_name.get_char(n - 3);
    let m = file_name.get_char(n - 2);
    let d = file_name.get_char(n - 1);
    if dot == '.' && m == 'm' && d == 'd' {
        assert(file_name@.subrange(n - 3, n as int) =~= seq!['.', 'm', 'd']);
        Some(file_name.substring_char(0, n - 3).to_owned())
    } else {
        assert(file_name@.subrange(n - 3, n as int)[0] == dot);
        assert(file_name@.subrange(n - 3, n as int)[1] == m);
        assert(file_name@.subrange(n - 3, n as int)[2] == d);
        None
    }
}

/// The notes found among the files of the notes folder, in ascending order; a folder
/// without notes lists one note, `Welcome`.
pub fn note_names_from_files(files: &Vec<String>) -> (r: Vec<String>)
    ensures
        note_stems(strs(files@)).len() == 0 ==> strs(r@) == seq![seq!['W', 'e', 'l', 'c', 'o', 'm', 'e']],
        note_stems(strs(files@)).len() > 0 ==> {
            &&& strs(r@).to_multiset() == note_stems(strs(files@)).to_multiset()
            &&& ascending(strs(r@))
        },
{
    let mut names: Vec<String> = Vec::new();
    let mut i: usize = 0;
    while i < files.len()
        invariant
            i <= files@.len(),
            strs(names@) == note_stems(strs(files@.subrange(0, i as int))),
        decreases files@.len() - i,
    {
        let ghost prev = names@;
        assert(strs(files@.subrange(0, i + 1)).drop_last() =~= strs(files@.subrange(0, i as int)));
        assert(strs(files@.subrange(0, i + 1)).last() == files@[i as int]@);
        match note_name_of_file(files[i].as_str()) {
            Some(name) => {
                names.push(name);
                assert(strs(names@) =~= strs(prev).push(note_stem(files@[i as int]@).unwrap()));
            },
            None => {},
        }
        assert(strs(names@) =~= note_stems(strs(files@.subrange(0, i + 1))));
        i = i + 1;
    }
    assert(files@.subrange(0, files@.len() as int) =~= files@);
    if names.len() == 0 {
        let mut w = String::new();
        w.append("Welcome");
        proof {
            reveal_strlit("Welcome");
        }
        assert("Welcome"@ =~= seq!['W', 'e', 'l', 'c', 'o', 'm', 'e']);
        assert(w@ =~= seq!['W', 'e', 'l', 'c', 'o', 'm', 'e']);
        let mut v: Vec<String> = Vec::new();
        v.push(w);
        assert(strs(v@) =~= seq![seq!['W', 'e', 'l', 'c', 'o', 'm', 'e']]);
        return v;
    }
    sort_strings(&mut names);
    names
}

} // verus!
