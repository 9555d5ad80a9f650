//! The entry resolver: from what a lookup of one target found to the
//! entries that its listing shows.

use crate::names::{child_texts, collect_names, dot, dot_dot, is_pseudo_name, listed_names};
use crate::sort::{is_sorted_listing, sort_names};
use crate::text::{join_path, joined_path, option_text, texts};
use vstd::prelude::*;

verus! {

/// One line of a listing: the path by which the entry is reached, and the
/// name under which it is shown.
#[derive(Clone, Debug, PartialEq, Eq)]
pub struct Entry {
    pub path: String,
    pub display_name: String,
}

/// What a lookup of one target found.
#[derive(Clone, Debug, PartialEq, Eq)]
pub enum Lookup {
    /// The target is a directory. Each item stands for one child: its name,
    /// or `None` where the child could not be read.
    Listed(Vec<Option<String>>),
    /// The target is a directory that could not be read. The text says why.
    Unreadable(String),
    /// The target is no directory, or is not there at all.
    NotDirectory,
}

/// What a target resolves to: the entries to show, in order, and a line
/// for the diagnostic stream where the target could not be read.
#[derive(Clone, Debug, PartialEq, Eq)]
pub struct Resolution {
    pub entries: Vec<Entry>,
    pub diagnostic: Option<String>,
}

/// The path by which the entry `name` of the directory `dir` is reached:
/// the directory's own path for `.` and for `..`, else the name adjoined to
/// it.
pub open spec fn entry_path_of(dir: Seq<char>, name: Seq<char>) -> Seq<char> {
    if name == dot() || name == dot_dot() {
        dir
    } else {
        joined_path(dir, name)
    }
}

/// The line that reports that `path` could not be read.
pub open spec fn diagnostic_of(path: Seq<char>, message: Seq<char>) -> Seq<char> {
    path + seq![':', ' '] + message
}

/// The names under which `entries` are shown.
pub open spec fn display_names(entries: Seq<Entry>) -> Seq<Seq<char>> {
    Seq::new(entries.len(), |i: int| entries[i].display_name@)
}

/// `found` is what the target `path` resolves to, given what its lookup
/// found.
///
/// A directory shows its listed names in sorted order, each with the path
/// by which it is reached. A directory that could not be read shows nothing
/// and reports why. Anything else is shown as one entry under the path as
/// it was given.
pub open spec fn resolves(path: Seq<char>, lookup: Lookup, show_hidden: bool, found: Resolution) -> bool {
    match lookup {
        Lookup::Listed(children) => {
            &&& found.diagnostic is None
            &&& is_sorted_listing(
                display_names(found.entries@),
                listed_names(child_texts(children@), show_hidden),
            )
            &&& forall|i: int|
                0 <= i < found.entries.len() ==> (#[trigger] found.entries[i]).path@
                    == entry_path_of(path, found.entries[i].display_name@)
        },
        Lookup::Unreadable(message) => {
            &&& found.entries.len() == 0
            &&& option_text(found.diagnostic) == Some(diagnostic_of(path, message@))
        },
        Lookup::NotDirectory => {
            &&& found.diagnostic is None
            &&& found.entries.len() == 1
            &&& found.entries[0].path@ == path
            &&& found.entries[0].display_name@ == path
        },
    }
}

/// The path by which the entry `name` of the directory `dir` is reached.
pub fn entry_path(dir: &str, name: &str) -> (path: String)
    ensures
        path@ == entry_path_of(dir@, name@),
{
    if is_pseudo_name(name) {
        String::from_str(dir)
    } else {
        join_path(dir, name)
    }
}

/// The line that reports that `path` could not be read: the path, a colon,
/// a space and the reason.
pub fn diagnostic_line(path: &str, message: &str) -> (line: String)
    ensures
        line@ == diagnostic_of(path@, message@),
{
    let mut line = String::from_str(path);
    line.push(':');
    line.push(' ');
    line.append(message);
    assert(line@ =~= diagnostic_of(path@, message@));
    line
}

/// Resolves the target `path` to the entries that its listing shows.
///
/// The names of a directory are sorted; a target that is no directory is
/// shown as it was given, whether it is hidden or not, and whether it is
/// there or not.
pub fn resolve_entries(path: &str, lookup: &Lookup, show_hidden: bool) -> (found: Resolution)
    ensures
        resolves(path@, *lookup, show_hidden, found),
{
    match lookup {
        Lookup::Listed(children) => {
            let names = sort_names(collect_names(children, show_hidden));
            let mut entries: Vec<Entry> = Vec::new();
            let mut i: usize = 0;
            while i < names.len()
                invariant
                    i <= names.len(),
                    entries.len() == i,
                    forall|k: int|
                        0 <= k < i ==> (#[trigger] entries[k]).display_name@ == names[k]@,
                    forall|k: int|
                        0 <= k < i ==> (#[trigger] entries[k]).path@ == entry_path_of(
                            path@,
                            names[k]@,
                        ),
                decreases names.len() - i,
            {
                let entry = Entry {
                    path: entry_path(path, names[i].as_str()),
                    display_name: names[i].clone(),
                };
                entries.push(entry);
                i += 1;
            }
            assert(display_names(entries@) =~= texts(names@));
            Resolution { entries, diagnostic: None }
        },
        Lookup::Unreadable(message) => Resolution {
            entries: Vec::new(),
            diagnostic: Some(diagnostic_line(path, message.as_str())),
        },
        Lookup::NotDirectory => {
            let mut entries: Vec<Entry> = Vec::new();
            entries.push(Entry { path: String::from_str(path), display_name: String::from_str(path) });
            Resolution { entries, diagnostic: None }
        },
    }
}

} // verus!
