//! What comes out depends on what goes in, and on nothing else.

use crate::assemble::output;
use crate::compile::{source_views, RouteSource};
use crate::convention::{Config, Convention};
use crate::tree::AppStruct;
use crate::walk::{
    first_unrelated, path_difference, structure, walked_views, WalkedEntry, WalkedView,
};
use vstd::prelude::*;

verus! {

/// The generated module depends on what the inputs hold and on nothing
/// else: two compilations of inputs that hold the same give the same
/// module, or the same failure.
pub proof fn law_compilation_is_deterministic(
    app1: AppStruct,
    sources1: Seq<RouteSource>,
    convention1: Convention,
    config1: Config,
    app2: AppStruct,
    sources2: Seq<RouteSource>,
    convention2: Convention,
    config2: Config,
)
    requires
        app1@ == app2@,
        source_views(sources1) == source_views(sources2),
        convention1@ == convention2@,
        config1.method_not_allowed_res@ == config2.method_not_allowed_res@,
    ensures
        output(app1@, source_views(sources1), convention1@, config1.method_not_allowed_res@)
            == output(
            app2@,
            source_views(sources2),
            convention2@,
            config2.method_not_allowed_res@,
        ),
{
}

/// The application structure depends on what the walk and the convention
/// hold and on nothing else.
pub proof fn law_structure_is_deterministic(
    src_dir: Seq<char>,
    src_path: Seq<char>,
    dist_path: Seq<char>,
    walked1: Seq<WalkedEntry>,
    convention1: Convention,
    walked2: Seq<WalkedEntry>,
    convention2: Convention,
)
    requires
        walked_views(walked1) == walked_views(walked2),
        convention1@ == convention2@,
    ensures
        structure(src_dir, src_path, dist_path, walked_views(walked1), convention1@) == structure(
            src_dir,
            src_path,
            dist_path,
            walked_views(walked2),
            convention2@,
        ),
{
}

/// The walk fails at the first entry to which no path leads from the
/// source root: `first_unrelated` is the index of an entry, or the number of
/// entries; a path leads from `base` to every entry before it, and none to
/// the entry at it.
pub proof fn law_failure_is_at_the_first_unrelated_entry(walked: Seq<WalkedView>, base: Seq<char>)
    ensures
        0 <= first_unrelated(walked, base) <= walked.len(),
        forall|j: int|
            0 <= j < first_unrelated(walked, base) ==> path_difference(
                #[trigger] walked[j].path,
                base,
            ) is Some,
        first_unrelated(walked, base) < walked.len() ==> path_difference(
            walked[first_unrelated(walked, base)].path,
            base,
        ) is None,
    decreases walked.len(),
{
    if walked.len() > 0 && path_difference(walked[0].path, base) is Some {
        let rest = walked.skip(1);
        law_failure_is_at_the_first_unrelated_entry(rest, base);
        assert forall|j: int| 0 <= j < first_unrelated(walked, base) implies path_difference(
            #[trigger] walked[j].path,
            base,
        ) is Some by {
            if j > 0 {
                assert(walked[j] == rest[j - 1]);
            }
        }
        if first_unrelated(walked, base) < walked.len() {
            assert(walked[first_unrelated(walked, base)] == rest[first_unrelated(rest, base)]);
        }
    }
}

} // verus!
