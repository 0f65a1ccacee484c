//! File-name filtering: which directory entries take part in a search.
//!
//! Walking the directory tree itself is input/output and lives outside the
//! library; the library decides, for a list of entries the walk produced,
//! which of them are searched.

use vstd::prelude::*;
use crate::text::{contains_seq, lower_seq, lower_chars, str_to_chars};
use crate::filter::{views_of, any_contains, any_contains_lower};

verus! {

/// A filter on file base names: match every entry, or match entries whose
/// name holds one of the given substrings, literally or case-folded.
pub enum FileNameFilter {
    Every,
    CaseSensitive(Vec<String>),
    CaseInsensitive(Vec<String>),
}

/// Does a file base name pass the filter?
pub open spec fn name_matches(f: FileNameFilter, name: Seq<char>) -> bool {
    match f {
        FileNameFilter::Every => true,
        FileNameFilter::CaseSensitive(v) => exists|i: int|
            0 <= i < views_of(v@).len() && contains_seq(name, views_of(v@)[i]),
        FileNameFilter::CaseInsensitive(v) => exists|i: int|
            0 <= i < views_of(v@).len() && contains_seq(
                lower_seq(name),
                lower_seq(views_of(v@)[i]),
            ),
    }
}

/// Does the entry with this base name take part in the search?
pub fn is_path_valid(file_filter: &FileNameFilter, name: &str) -> (b: bool)
    ensures
        b == name_matches(*file_filter, name@),
{
    match file_filter {
        FileNameFilter::Every => true,
        FileNameFilter::CaseSensitive(v) => {
            let nc = str_to_chars(name);
            any_contains(v, &nc)
        },
        FileNameFilter::CaseInsensitive(v) => {
            let nc = str_to_chars(name);
            let low = lower_chars(&nc);
            any_contains_lower(v, &low)
        },
    }
}

/// One entry the directory walk produced: the path handed back on a match,
/// and the base name the filter is held against.
pub struct FileEntry {
    pub path: String,
    pub name: String,
}

/// The paths of the first `k` entries whose base name passes the filter,
/// in walk order.
pub open spec fn selected_paths(entries: Seq<FileEntry>, f: FileNameFilter, k: int) -> Seq<
    Seq<char>,
>
    decreases k,
{
    if k <= 0 {
        Seq::empty()
    } else {
        selected_paths(entries, f, k - 1) + (if name_matches(f, entries[k - 1].name@) {
            seq![entries[k - 1].path@]
        } else {
            Seq::empty()
        })
    }
}

/// Keep, in order, the paths of the entries whose base name passes the
/// filter.
pub fn list_files(entries: &Vec<FileEntry>, file_filter: &FileNameFilter) -> (r: Vec<String>)
    ensures
        views_of(r@) == selected_paths(entries@, *file_filter, entries@.len() as int),
{
    let mut r: Vec<String> = Vec::new();
    let mut k: usize = 0;
    while k < entries.len()
        invariant
            k <= entries@.len(),
            views_of(r@) =~~= selected_paths(entries@, *file_filter, k as int),
        decreases entries.len() - k,
    {
        let ghost pre = views_of(r@);
        if is_path_valid(file_filter, entries[k].name.as_str()) {
            r.push(entries[k].path.clone());
            proof {
                assert(views_of(r@) =~~= pre + seq![entries@[k as int].path@]);
            }
        }
        k += 1;
    }
    r
}

} // verus!
