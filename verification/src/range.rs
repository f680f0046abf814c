//! Which of the files of a directory hold the notes of a range of versions.

use crate::text::{text_equal, text_less, text_lt};
use vstd::prelude::*;
use vstd::string::*;

verus! {

/// Where the notes are kept.
pub const NOTES_DIRECTORY: &'static str = "./html/";

/// How the name of a file of notes ends.
pub const NOTES_SUFFIX: &'static str = ".html";

/// The file that holds the notes of a version.
pub open spec fn notes_path(version: Seq<char>) -> Seq<char> {
    NOTES_DIRECTORY@ + version + NOTES_SUFFIX@
}

/// Where the walk through the files of a directory stands.
pub struct Gathering {
    /// Whether the files now met belong to the range.
    pub open: bool,
    /// The files of the range met so far.
    pub chosen: Seq<Seq<char>>,
}

/// The walk after one more file. The file `first` opens the range where it
/// is not open; a file met while the range is open is chosen, and the file
/// `last` closes the range behind it.
pub open spec fn gather_step(walk: Gathering, file: Seq<char>, first: Seq<char>, last: Seq<char>)
    -> Gathering {
    if walk.open || file == first {
        Gathering { open: file != last, chosen: walk.chosen.push(file) }
    } else {
        walk
    }
}

/// The walk through the files, from the first to the last.
pub open spec fn gathered(files: Seq<Seq<char>>, first: Seq<char>, last: Seq<char>) -> Gathering
    decreases files.len(),
{
    if files.len() == 0 {
        Gathering { open: false, chosen: Seq::empty() }
    } else {
        gather_step(gathered(files.drop_last(), first, last), files.last(), first, last)
    }
}

/// The files that hold the notes of the versions from the earlier of `a` and
/// `b` to the later, in the order in which `files` gives them.
pub open spec fn files_of_range(files: Seq<Seq<char>>, a: Seq<char>, b: Seq<char>) -> Seq<
    Seq<char>,
> {
    if text_lt(b, a) {
        gathered(files, notes_path(b), notes_path(a)).chosen
    } else {
        gathered(files, notes_path(a), notes_path(b)).chosen
    }
}

/// The file that holds the notes of a version.
pub fn version_path(version: &str) -> (path: String)
    ensures
        path@ == notes_path(version@),
{
    let mut path = NOTES_DIRECTORY.to_owned();
    path.append(version);
    path.append(NOTES_SUFFIX);
    path
}

/// The files that hold the notes of the versions from the earlier of `a` and
/// `b` to the later, in the order in which `version_list` gives them.
pub fn files_between(version_list: &Vec<String>, a: &str, b: &str) -> (chosen: Vec<String>)
    ensures
        chosen.deep_view() == files_of_range(version_list.deep_view(), a@, b@),
{
    let swapped = text_less(b, a);
    let old_path = if swapped {
        version_path(b)
    } else {
        version_path(a)
    };
    let new_path = if swapped {
        version_path(a)
    } else {
        version_path(b)
    };
    let mut gathering_patches = false;
    let mut chosen: Vec<String> = Vec::new();
    let mut i: usize = 0;
    assert(chosen.deep_view() =~= Seq::<Seq<char>>::empty());
    while i < version_list.len()
        invariant
            i <= version_list.len(),
            gathered(version_list.deep_view().take(i as int), old_path@, new_path@) == (Gathering {
                open: gathering_patches,
                chosen: chosen.deep_view(),
            }),
        decreases version_list.len() - i,
    {
        let ghost before = chosen.deep_view();
        proof {
            assert(version_list.deep_view().take(i + 1).drop_last()
                =~= version_list.deep_view().take(i as int));
        }
        let version = &version_list[i];
        if !gathering_patches && text_equal(version.as_str(), old_path.as_str()) {
            gathering_patches = true;
        }
        if gathering_patches {
            if text_equal(version.as_str(), new_path.as_str()) {
                gathering_patches = false;
            }
            chosen.push(version.clone());
            assert(chosen.deep_view() =~= before.push(version@));
        }
        i += 1;
    }
    assert(version_list.deep_view().take(version_list.len() as int)
        =~= version_list.deep_view());
    chosen
}

} // verus!
