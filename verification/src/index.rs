//! The read-only view of the installed application descriptors that a
//! resolution works against: the descriptor directories, in search
//! order, and the descriptor files found in them.

use crate::text::{extension_of_name, has_desktop_extension, last_component, last_component_chars,
    str_chars};
use vstd::prelude::*;

verus! {

/// Whether a path names a desktop descriptor file: its file name must
/// carry the `desktop` extension.
pub open spec fn is_desktop_path(p: Seq<char>) -> bool {
    extension_of_name(last_component(p)) == Some("desktop"@)
}

/// The paths among `files` that name desktop descriptor files, in order.
pub open spec fn desktop_files_of(files: Seq<Seq<char>>) -> Seq<Seq<char>>
    decreases files.len(),
{
    if files.len() == 0 {
        Seq::<Seq<char>>::empty()
    } else {
        let r = desktop_files_of(files.drop_last());
        if is_desktop_path(files.last()) {
            r.push(files.last())
        } else {
            r
        }
    }
}

/// Every file the index keeps names a desktop descriptor, and comes
/// from the enumeration it was built from.
pub proof fn lemma_desktop_files_of_sound(files: Seq<Seq<char>>)
    ensures
        forall|k: int|
            0 <= k < desktop_files_of(files).len() ==> is_desktop_path(
                #[trigger] desktop_files_of(files)[k],
            ),
        forall|k: int|
            0 <= k < desktop_files_of(files).len() ==> files.contains(
                #[trigger] desktop_files_of(files)[k],
            ),
    decreases files.len(),
{
    if files.len() != 0 {
        lemma_desktop_files_of_sound(files.drop_last());
        assert forall|k: int| 0 <= k < desktop_files_of(files).len() implies files.contains(
            #[trigger] desktop_files_of(files)[k],
        ) by {
            let prev = desktop_files_of(files.drop_last());
            if k < prev.len() {
                assert(files.drop_last().contains(prev[k]));
                let j = choose|j: int|
                    0 <= j < files.drop_last().len() && files.drop_last()[j] == prev[k];
                assert(files[j] == prev[k]);
            } else {
                assert(files.contains(files.last()));
            }
        }
    }
}

/// The descriptor index: the application directories in search order,
/// and the descriptor files enumerated from them. Immutable during a
/// resolution; the resolver only reads it.
pub struct DesktopIndex {
    pub locations: Vec<String>,
    pub files: Vec<String>,
}

impl DesktopIndex {
    /// Builds the index from a list of application directories and a
    /// raw file enumeration, keeping only desktop descriptor files.
    pub fn new(locations: Vec<String>, files: Vec<String>) -> (r: DesktopIndex)
        ensures
            r.locations.deep_view() == locations.deep_view(),
            r.files.deep_view() == desktop_files_of(files.deep_view()),
    {
        let n = files.len();
        let mut kept: Vec<String> = Vec::new();
        let mut i: usize = 0;
        while i < n
            invariant
                i <= n,
                n == files@.len(),
                kept.deep_view() == desktop_files_of(files.deep_view().take(i as int)),
            decreases n - i,
        {
            proof {
                assert(files.deep_view().take(i + 1).drop_last() =~= files.deep_view().take(
                    i as int,
                ));
                assert(files.deep_view().take(i + 1).last() == files.deep_view()[i as int]);
            }
            let name = last_component_chars(&str_chars(files[i].as_str()));
            if has_desktop_extension(&name) {
                let f = files[i].clone();
                kept.push(f);
                proof {
                    assert(kept.deep_view() =~= desktop_files_of(files.deep_view().take(i + 1)));
                }
            }
            i = i + 1;
        }
        proof {
            assert(files.deep_view().take(n as int) =~= files.deep_view());
        }
        DesktopIndex { locations, files: kept }
    }
}

} // verus!
