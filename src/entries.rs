use vstd::prelude::*;
use vstd::string::StrSliceExecFns;

verus! {

#[verifier::external_type_specification]
#[verifier::external_body]
pub struct ExDirEntry(walkdir::DirEntry);

/// Relies on walkdir::DirEntry::file_name and OsStr::to_str: the entry's
/// file name, when it is valid UTF-8.
#[verifier::external_body]
fn entry_name(entry: &walkdir::DirEntry) -> (r: Option<&str>) {
    entry.file_name().to_str()
}

/// Relies on walkdir::DirEntry::depth: how far below the walk's root the
/// entry lies (the root itself is at depth zero).
#[verifier::external_body]
fn entry_depth(entry: &walkdir::DirEntry) -> (r: usize) {
    entry.depth()
}

/// A name that starts with `.` and has more than one character, so that the
/// local shorthand `.` is not taken for hidden.
pub open spec fn hidden_name(name: Seq<char>) -> bool {
    name.len() > 1 && name[0] == '.'
}

/// The names left out of a walk unless everything is asked for.
pub open spec fn ignored_name(name: Seq<char>) -> bool {
    name == ".git"@ || name == ".venv"@
}

/// Whether `a` and `b` hold the same characters.
fn same_chars(a: &str, b: &str) -> (r: bool)
    ensures
        r == (a@ == b@),
{
    let n = a.unicode_len();
    if n != b.unicode_len() {
        return false;
    }
    let mut i: usize = 0;
    while i < n
        invariant
            n == a@.len(),
            n == b@.len(),
            i <= n,
            forall|j: int| 0 <= j < i ==> a@[j] == b@[j],
        decreases n - i,
    {
        if a.get_char(i) != b.get_char(i) {
            return false;
        }
        i = i + 1;
    }
    assert(a@ =~= b@);
    true
}

/// Whether a file name is hidden: it starts with `.` and is longer than `.`.
pub fn is_hidden_name(name: &str) -> (r: bool)
    ensures
        r == hidden_name(name@),
{
    name.unicode_len() > 1 && name.get_char(0) == '.'
}

/// Whether a file name is one that walks leave out: `.git` or `.venv`.
pub fn is_ignored_name(name: &str) -> (r: bool)
    ensures
        r == ignored_name(name@),
{
    same_chars(name, ".git") || same_chars(name, ".venv")
}

/// Whether the entry's file name is hidden; a name that is not valid UTF-8
/// is not.
pub fn is_hidden(entry: &walkdir::DirEntry) -> (r: bool) {
    match entry_name(entry) {
        Some(name) => is_hidden_name(name),
        None => false,
    }
}

/// Whether the entry's file name is one that walks leave out; a name that is
/// not valid UTF-8 is not.
pub fn is_const_ignore(entry: &walkdir::DirEntry) -> (r: bool) {
    match entry_name(entry) {
        Some(name) => is_ignored_name(name),
        None => false,
    }
}

/// Whether a walk descends into an entry: always when everything is shown or
/// at the root, else only when the entry is not ignored.
pub fn keep_in_walk(show_all: bool, depth: usize, ignored: bool) -> (r: bool)
    ensures
        r == (show_all || depth == 0 || !ignored),
{
    if show_all {
        true
    } else if depth != 0 {
        !ignored
    } else {
        true
    }
}

/// Whether a walk descends into `entry` (see `keep_in_walk`).
pub fn keep_entry(entry: &walkdir::DirEntry, show_all: bool) -> (r: bool)
    ensures
        show_all ==> r,
{
    if show_all {
        return true;
    }
    let depth = entry_depth(entry);
    keep_in_walk(show_all, depth, is_const_ignore(entry))
}

} // verus!
