//! From a walk through the source tree to the application structure: the
//! paths of the walk are made relative to the source root, and the structure
//! is built from them.

use crate::convention::{Convention, ConventionView};
use crate::error::{CompileError, ErrorKind, Failure};
use crate::tree::{
    build_app_struct, built, empty_app, entry_views, opt_text, AppStruct, AppStructView, EntryView,
    TreeEntry,
};
use vstd::prelude::*;

verus! {

/// The path that leads from the directory `base` to `path`, or `None` where
/// there is none, by the path syntax of the platform that the library is
/// built for.
pub uninterp spec fn path_difference(path: Seq<char>, base: Seq<char>) -> Option<Seq<char>>;

/// Calls `pathdiff::diff_paths` and writes the result as a string. Trusted:
/// the result depends on the two paths alone.
#[verifier::external_body]
pub(crate) fn diff_paths(path: &str, base: &str) -> (r: Option<String>)
    ensures
        opt_text(r) == path_difference(path@, base@),
{
    match pathdiff::diff_paths(path, base) {
        Some(p) => Some(p.to_string_lossy().to_string()),
        None => None,
    }
}

/// One entry of a walk through the source tree, by the path at which the
/// walk found it.
#[derive(Debug)]
pub struct WalkedEntry {
    pub path: String,
    pub is_dir: bool,
}

/// A walked entry as plain values.
pub struct WalkedView {
    pub path: Seq<char>,
    pub is_dir: bool,
}

impl View for WalkedEntry {
    type V = WalkedView;

    open spec fn view(&self) -> WalkedView {
        WalkedView { path: self.path@, is_dir: self.is_dir }
    }
}

/// The walked entries that a sequence holds.
pub open spec fn walked_views(v: Seq<WalkedEntry>) -> Seq<WalkedView> {
    Seq::new(v.len(), |i: int| v[i]@)
}

/// The number of entries, from the first on, to which a path leads from
/// `base`: the index of the first entry to which none leads, or the number
/// of all entries.
pub open spec fn first_unrelated(walked: Seq<WalkedView>, base: Seq<char>) -> int
    decreases walked.len(),
{
    if walked.len() == 0 {
        0
    } else if path_difference(walked[0].path, base) is None {
        0
    } else {
        1 + first_unrelated(walked.skip(1), base)
    }
}

/// The entries by their paths from `base`.
pub open spec fn related(walked: Seq<WalkedView>, base: Seq<char>) -> Seq<EntryView> {
    Seq::new(
        walked.len(),
        |i: int|
            EntryView {
                relative_path: path_difference(walked[i].path, base)->0,
                is_dir: walked[i].is_dir,
            },
    )
}

/// The entries of a walk by their paths from `base`, or the failure at the
/// first entry to which no path leads from `base`.
pub open spec fn relative(walked: Seq<WalkedView>, base: Seq<char>) -> Result<
    Seq<EntryView>,
    Failure,
> {
    let k = first_unrelated(walked, base);
    if k == walked.len() {
        Ok(related(walked, base))
    } else {
        Err(Failure { kind: ErrorKind::PathResolutionError, path: walked[k].path })
    }
}

/// Makes the paths of a walk relative to `base`. The first entry to which no
/// path leads from `base` is a `PathResolutionError` at that entry.
pub fn relative_entries(walked: &Vec<WalkedEntry>, base: &str) -> (r: Result<
    Vec<TreeEntry>,
    CompileError,
>)
    ensures
        match relative(walked_views(walked@), base@) {
            Ok(es) => r matches Ok(v) && entry_views(v@) == es,
            Err(f) => r matches Err(e) && e@ == f,
        },
{
    let ghost all = walked_views(walked@);
    let mut es: Vec<TreeEntry> = Vec::new();
    let mut i: usize = 0;
    assert(all.skip(0) == all);
    while i < walked.len()
        invariant
            i <= walked.len(),
            all == walked_views(walked@),
            es.len() == i,
            first_unrelated(all, base@) == i + first_unrelated(all.skip(i as int), base@),
            forall|j: int| 0 <= j < i ==> (#[trigger] es@[j])@ == related(all, base@)[j],
        decreases walked.len() - i,
    {
        let entry = &walked[i];
        proof {
            assert(all[i as int] == entry@);
            assert(all.skip(i as int)[0] == entry@);
            assert(all.skip(i as int).skip(1) == all.skip(i + 1));
        }
        match diff_paths(entry.path.as_str(), base) {
            Some(relative_path) => {
                es.push(TreeEntry { relative_path, is_dir: entry.is_dir });
            },
            None => {
                return Err(
                    CompileError::new(ErrorKind::PathResolutionError, entry.path.as_str()),
                );
            },
        }
        i = i + 1;
    }
    assert(entry_views(es@) =~= related(all, base@));
    Ok(es)
}

/// The application structure of a source tree, from a walk through it; or
/// the failure where no path leads from the output directory to the source
/// root, or from the source root to an entry.
pub open spec fn structure(
    src_dir: Seq<char>,
    src_path: Seq<char>,
    dist_path: Seq<char>,
    walked: Seq<WalkedView>,
    conv: ConventionView,
) -> Result<AppStructView, Failure> {
    match path_difference(src_path, dist_path) {
        None => Err(Failure { kind: ErrorKind::PathResolutionError, path: src_path }),
        Some(dist_to_src_relpath) => match relative(walked, src_path) {
            Err(f) => Err(f),
            Ok(es) => Ok(built(empty_app(src_dir, dist_to_src_relpath, conv), es, conv)),
        },
    }
}

/// Builds the application structure of a source tree from a walk through it.
///
/// `src_path` and `dist_path` are the source root and the output directory
/// in a form that can be compared; `walked` holds the entries below the
/// source root, a directory before what it holds. Fails with a
/// `PathResolutionError` where no path leads from the output directory to
/// the source root, or from the source root to an entry.
pub fn get_app_struct(
    src_dir: &str,
    src_path: &str,
    dist_path: &str,
    walked: &Vec<WalkedEntry>,
    convention: &Convention,
) -> (r: Result<AppStruct, CompileError>)
    ensures
        match structure(src_dir@, src_path@, dist_path@, walked_views(walked@), convention@) {
            Ok(app) => r matches Ok(a) && a@ == app,
            Err(f) => r matches Err(e) && e@ == f,
        },
{
    match diff_paths(src_path, dist_path) {
        None => Err(CompileError::new(ErrorKind::PathResolutionError, src_path)),
        Some(dist_to_src_relpath) => {
            match relative_entries(walked, src_path) {
                Err(e) => Err(e),
                Ok(entries) => Ok(
                    build_app_struct(src_dir, dist_to_src_relpath.as_str(), &entries, convention),
                ),
            }
        },
    }
}

} // verus!
