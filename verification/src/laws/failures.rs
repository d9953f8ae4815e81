//! A route file without handlers ends the compilation.

use crate::assemble::output;
use crate::compile::{
    current_router, forest_fragment, node_fragment, route_file_path, scan_outcome, tree_fragment,
    SourceView, SubRouterView,
};
use crate::convention::ConventionView;
use crate::tree::{
    insert_position, lemma_insert_position_range, lemma_sorted_each, lemma_sorted_len,
    sorted_by_name, sorted_each, sorted_tree, AppStructView, RouteNode,
};
use vstd::prelude::*;

verus! {

/// Whether the route file of `n` is a module that exports no handler.
pub open spec fn exports_nothing(n: RouteNode, sources: Seq<SourceView>) -> bool {
    &&& n.route is Some
    &&& scan_outcome(sources, route_file_path(n)) matches Ok(hs)
    &&& hs.len() == 0
}

/// Whether some route file of the tree below `n` exports no handler.
pub open spec fn has_empty_route(n: RouteNode, sources: Seq<SourceView>) -> bool
    decreases n,
{
    exports_nothing(n, sources) || any_has_empty_route(n.children, sources)
}

/// Whether some route file of the trees `cs` exports no handler.
pub open spec fn any_has_empty_route(cs: Seq<RouteNode>, sources: Seq<SourceView>) -> bool
    decreases cs,
{
    cs.len() > 0 && (any_has_empty_route(cs.drop_last(), sources) || has_empty_route(
        cs.last(),
        sources,
    ))
}

/// Some tree has an empty route exactly when the tree at some index has.
pub proof fn lemma_any_has_empty_route(cs: Seq<RouteNode>, sources: Seq<SourceView>)
    ensures
        any_has_empty_route(cs, sources) <==> exists|k: int|
            0 <= k < cs.len() && has_empty_route(#[trigger] cs[k], sources),
    decreases cs.len(),
{
    if cs.len() > 0 {
        let init = cs.drop_last();
        lemma_any_has_empty_route(init, sources);
        if any_has_empty_route(init, sources) {
            let k = choose|k: int| 0 <= k < init.len() && has_empty_route(#[trigger] init[k], sources);
            assert(has_empty_route(cs[k], sources));
        }
        if exists|k: int| 0 <= k < cs.len() && has_empty_route(#[trigger] cs[k], sources) {
            let k = choose|k: int| 0 <= k < cs.len() && has_empty_route(#[trigger] cs[k], sources);
            if k < cs.len() - 1 {
                assert(has_empty_route(init[k], sources));
            }
        }
    }
}

/// A tree with a route file that exports no handler does not compile,
/// whatever router encloses it.
pub proof fn lemma_empty_route_fails_tree(
    n: RouteNode,
    nearest: Option<SubRouterView>,
    sources: Seq<SourceView>,
    dist: Seq<char>,
    conv: ConventionView,
    not_allowed: Seq<char>,
)
    requires
        has_empty_route(n, sources),
    ensures
        tree_fragment(n, nearest, sources, dist, conv, not_allowed) is Err,
    decreases n, 1int,
{
    match node_fragment(n, nearest, sources, dist, conv, not_allowed) {
        Err(_) => {},
        Ok(own) => {
            assert(!exports_nothing(n, sources));
            lemma_empty_route_fails_forest(
                n.children,
                current_router(own.1, nearest),
                sources,
                dist,
                conv,
                not_allowed,
            );
        },
    }
}

/// Trees of which one has a route file that exports no handler do not
/// compile.
pub proof fn lemma_empty_route_fails_forest(
    cs: Seq<RouteNode>,
    nearest: Option<SubRouterView>,
    sources: Seq<SourceView>,
    dist: Seq<char>,
    conv: ConventionView,
    not_allowed: Seq<char>,
)
    requires
        any_has_empty_route(cs, sources),
    ensures
        forest_fragment(cs, nearest, sources, dist, conv, not_allowed) is Err,
    decreases cs, 0int,
{
    if any_has_empty_route(cs.drop_last(), sources) {
        lemma_empty_route_fails_forest(cs.drop_last(), nearest, sources, dist, conv, not_allowed);
    } else {
        lemma_empty_route_fails_tree(cs.last(), nearest, sources, dist, conv, not_allowed);
    }
}

/// Every node of a sequence is a node of the sorted sequence.
pub proof fn lemma_sorted_holds(cs: Seq<RouteNode>, k: int)
    requires
        0 <= k < cs.len(),
    ensures
        exists|j: int| 0 <= j < sorted_by_name(cs).len() && #[trigger] sorted_by_name(cs)[j] == cs[k],
    decreases cs.len(),
{
    let init = sorted_by_name(cs.drop_last());
    let at = insert_position(init, cs.last());
    lemma_insert_position_range(init, cs.last());
    lemma_sorted_len(cs.drop_last());
    if k == cs.len() - 1 {
        assert(sorted_by_name(cs)[at] == cs[k]);
    } else {
        lemma_sorted_holds(cs.drop_last(), k);
        let j = choose|j: int| 0 <= j < init.len() && #[trigger] init[j] == cs.drop_last()[k];
        if j < at {
            assert(sorted_by_name(cs)[j] == cs[k]);
        } else {
            assert(sorted_by_name(cs)[j + 1] == cs[k]);
        }
    }
}

/// Sorting a tree keeps a route file that exports no handler.
pub proof fn lemma_sorted_tree_keeps_empty_route(n: RouteNode, sources: Seq<SourceView>)
    requires
        has_empty_route(n, sources),
    ensures
        has_empty_route(sorted_tree(n), sources),
    decreases n,
{
    if !exports_nothing(n, sources) {
        lemma_any_has_empty_route(n.children, sources);
        let k = choose|k: int|
            0 <= k < n.children.len() && has_empty_route(#[trigger] n.children[k], sources);
        lemma_sorted_tree_keeps_empty_route(n.children[k], sources);
        lemma_sorted_each(n.children);
        let each = sorted_each(n.children);
        assert(has_empty_route(each[k], sources));
        lemma_sorted_holds(each, k);
        let j = choose|j: int|
            0 <= j < sorted_by_name(each).len() && #[trigger] sorted_by_name(each)[j] == each[k];
        lemma_any_has_empty_route(sorted_by_name(each), sources);
        assert(has_empty_route(sorted_by_name(each)[j], sources));
    }
}

/// A route file that exports no handler ends the compilation in a failure:
/// an application with such a file has no generated module.
pub proof fn law_empty_route_fails(
    app: AppStructView,
    sources: Seq<SourceView>,
    conv: ConventionView,
    not_allowed: Seq<char>,
)
    requires
        has_empty_route(app.app, sources),
    ensures
        output(app, sources, conv, not_allowed) is Err,
{
    lemma_sorted_tree_keeps_empty_route(app.app, sources);
    lemma_empty_route_fails_tree(
        sorted_tree(app.app),
        None,
        sources,
        app.dist_to_src_relpath,
        conv,
        not_allowed,
    );
}

} // verus!
