//! The shape of the trees that the builder builds.

use crate::convention::ConventionView;
use crate::tree::{
    any_has_path, built, change_of, changed, empty_app, file_name, has_path, is_first_with_path,
    is_virtual_group, last_slash, leaf, lemma_any_has_path, lemma_changed_without_path,
    lemma_last_slash_range, parent_path, ChangeView, EntryView, RouteNode,
};
use vstd::prelude::*;

verus! {

/// Whether `c` can be a child of the node at `parent`: its path is the
/// parent's, a slash and its own name.
pub open spec fn is_child_of(c: RouteNode, parent: Seq<char>) -> bool {
    c.relative_path == parent.push('/') + c.name
}

/// Whether the tree below `n` is well formed: every node has a path, the
/// path of every child is that of its parent, a slash and the child's name,
/// and no virtual group holds a route or middleware.
pub open spec fn is_well_formed(n: RouteNode) -> bool
    decreases n,
{
    &&& n.relative_path.len() > 0
    &&& is_virtual_group(n.name) ==> n.route is None && n.middlewares is None
    &&& are_well_formed(n.children, n.relative_path)
}

/// Whether the trees `cs` are well formed, and children of the node at
/// `parent`.
pub open spec fn are_well_formed(cs: Seq<RouteNode>, parent: Seq<char>) -> bool
    decreases cs,
{
    cs.len() == 0 || (are_well_formed(cs.drop_last(), parent) && is_child_of(cs.last(), parent)
        && is_well_formed(cs.last()))
}

/// Trees are well-formed children exactly when each of them is.
pub proof fn lemma_are_well_formed(cs: Seq<RouteNode>, parent: Seq<char>)
    ensures
        are_well_formed(cs, parent) <==> forall|k: int|
            0 <= k < cs.len() ==> is_child_of(#[trigger] cs[k], parent) && is_well_formed(cs[k]),
    decreases cs.len(),
{
    if cs.len() > 0 {
        let init = cs.drop_last();
        lemma_are_well_formed(init, parent);
        if are_well_formed(cs, parent) {
            assert forall|k: int| 0 <= k < cs.len() implies is_child_of(
                #[trigger] cs[k],
                parent,
            ) && is_well_formed(cs[k]) by {
                if k < cs.len() - 1 {
                    assert(cs[k] == init[k]);
                }
            }
        }
        if forall|k: int|
            0 <= k < cs.len() ==> is_child_of(#[trigger] cs[k], parent) && is_well_formed(cs[k]) {
            assert forall|k: int| 0 <= k < init.len() implies is_child_of(
                #[trigger] init[k],
                parent,
            ) && is_well_formed(init[k]) by {
                assert(init[k] == cs[k]);
            }
            assert(is_child_of(cs[cs.len() - 1], parent));
        }
    }
}

/// A path with a directory before its last segment is that directory, a
/// slash and the last segment.
pub proof fn lemma_path_parts(p: Seq<char>)
    requires
        parent_path(p).len() > 0,
    ensures
        p == parent_path(p).push('/') + file_name(p),
        p.len() > 0,
{
    lemma_last_slash_range(p);
    let k = last_slash(p);
    assert(p =~= p.take(k).push('/') + p.skip(k + 1));
}

/// What the builder does for an entry keeps a well-formed tree well
/// formed.
pub proof fn lemma_changed_keeps_well_formed(n: RouteNode, e: EntryView, conv: ConventionView)
    requires
        is_well_formed(n),
    ensures
        is_well_formed(changed(n, parent_path(e.relative_path), change_of(e, conv))),
    decreases n,
{
    let p = parent_path(e.relative_path);
    let c = change_of(e, conv);
    let after = changed(n, p, c);
    lemma_are_well_formed(n.children, n.relative_path);
    if n.relative_path == p {
        if e.is_dir {
            lemma_path_parts(e.relative_path);
            let child = leaf(file_name(e.relative_path), e.relative_path);
            assert(are_well_formed(child.children, child.relative_path));
            assert(is_well_formed(child));
            assert(after.children == n.children.push(child));
            lemma_are_well_formed(after.children, n.relative_path);
        }
    } else {
        assert forall|k: int| 0 <= k < after.children.len() implies is_child_of(
            #[trigger] after.children[k],
            n.relative_path,
        ) && is_well_formed(after.children[k]) by {
            if is_first_with_path(n.children, p, k) {
                lemma_changed_keeps_well_formed(n.children[k], e, conv);
                lemma_changed_keeps_node(n.children[k], p, c);
            }
        }
        lemma_are_well_formed(after.children, n.relative_path);
    }
}

/// A change below a node with another path leaves the node's name and path
/// as they are; a change at a node does too.
pub proof fn lemma_changed_keeps_node(n: RouteNode, p: Seq<char>, c: ChangeView)
    ensures
        changed(n, p, c).name == n.name,
        changed(n, p, c).relative_path == n.relative_path,
{
}

/// The builder builds well-formed trees: where the routing root has a name,
/// the path of every node of the tree is that of its parent, a slash and
/// the node's name, and no virtual group holds a route or middleware,
/// whatever the walk has found and in whatever order.
pub proof fn law_built_tree_is_well_formed(
    src_dir: Seq<char>,
    dist_to_src_relpath: Seq<char>,
    es: Seq<EntryView>,
    conv: ConventionView,
)
    requires
        conv.app_dir_name.len() > 0,
    ensures
        is_well_formed(built(empty_app(src_dir, dist_to_src_relpath, conv), es, conv).app),
    decreases es.len(),
{
    let init = empty_app(src_dir, dist_to_src_relpath, conv);
    if es.len() == 0 {
        assert(are_well_formed(init.app.children, init.app.relative_path));
    } else {
        law_built_tree_is_well_formed(src_dir, dist_to_src_relpath, es.drop_last(), conv);
        lemma_changed_keeps_well_formed(built(init, es.drop_last(), conv).app, es.last(), conv);
    }
}

/// The number of nodes with the path `q` in the tree below `n`.
pub open spec fn count_path(n: RouteNode, q: Seq<char>) -> nat
    decreases n,
{
    (if n.relative_path == q {
        1nat
    } else {
        0nat
    }) + count_among(n.children, q)
}

/// The number of nodes with the path `q` in the trees `cs`.
pub open spec fn count_among(cs: Seq<RouteNode>, q: Seq<char>) -> nat
    decreases cs,
{
    if cs.len() == 0 {
        0
    } else {
        count_among(cs.drop_last(), q) + count_path(cs.last(), q)
    }
}

/// Whether the path of a node tells it from every other node of the tree.
pub open spec fn has_unique_paths(n: RouteNode) -> bool {
    forall|q: Seq<char>| #[trigger] count_path(n, q) <= 1
}

/// A tree holds a path exactly when it counts a node with it.
pub proof fn lemma_count_path(n: RouteNode, q: Seq<char>)
    ensures
        has_path(n, q) <==> count_path(n, q) > 0,
    decreases n, 1int,
{
    lemma_count_among(n.children, q);
}

/// Trees hold a path exactly when they count a node with it.
pub proof fn lemma_count_among(cs: Seq<RouteNode>, q: Seq<char>)
    ensures
        any_has_path(cs, q) <==> count_among(cs, q) > 0,
    decreases cs, 0int,
{
    if cs.len() > 0 {
        lemma_count_among(cs.drop_last(), q);
        lemma_count_path(cs.last(), q);
    }
}

/// Two sequences of trees that differ in one tree differ in their counts as
/// that tree does.
pub proof fn lemma_count_among_differs(
    a: Seq<RouteNode>,
    b: Seq<RouteNode>,
    k: int,
    q: Seq<char>,
)
    requires
        a.len() == b.len(),
        0 <= k < a.len(),
        forall|i: int| 0 <= i < a.len() && i != k ==> a[i] == b[i],
    ensures
        count_among(b, q) + count_path(a[k], q) == count_among(a, q) + count_path(b[k], q),
    decreases a.len(),
{
    if k == a.len() - 1 {
        assert(a.drop_last() =~= b.drop_last());
    } else {
        lemma_count_among_differs(a.drop_last(), b.drop_last(), k, q);
    }
}

/// Among trees of which one holds a path, one is the first to hold it.
pub proof fn lemma_first_with_path(cs: Seq<RouteNode>, p: Seq<char>)
    requires
        any_has_path(cs, p),
    ensures
        exists|k: int| is_first_with_path(cs, p, k),
    decreases cs.len(),
{
    let init = cs.drop_last();
    if any_has_path(init, p) {
        lemma_first_with_path(init, p);
        let k = choose|k: int| is_first_with_path(init, p, k);
        assert(is_first_with_path(cs, p, k)) by {
            assert(cs[k] == init[k]);
            assert forall|j: int| 0 <= j < k implies !has_path(#[trigger] cs[j], p) by {
                assert(cs[j] == init[j]);
            }
        }
    } else {
        lemma_any_has_path(init, p);
        assert(is_first_with_path(cs, p, cs.len() - 1)) by {
            assert forall|j: int| 0 <= j < cs.len() - 1 implies !has_path(#[trigger] cs[j], p) by {
                assert(cs[j] == init[j]);
            }
        }
    }
}

/// What a change adds to the number of nodes with the path `q`: one where
/// it adds a child with that path to a node that is there, nothing else.
pub open spec fn added(n: RouteNode, p: Seq<char>, c: ChangeView, q: Seq<char>) -> nat {
    if has_path(n, p) && c is AddChild && c->relative_path == q {
        1
    } else {
        0
    }
}

/// A change changes the number of nodes with a path by what it adds.
pub proof fn lemma_count_after_change(n: RouteNode, p: Seq<char>, c: ChangeView, q: Seq<char>)
    ensures
        count_path(changed(n, p, c), q) == count_path(n, q) + added(n, p, c, q),
    decreases n,
{
    let after = changed(n, p, c);
    if n.relative_path == p {
        match c {
            ChangeView::AddChild { name, relative_path } => {
                let child = leaf(name, relative_path);
                assert(after.children.drop_last() == n.children);
                assert(after.children.last() == child);
                assert(count_among(child.children, q) == 0);
                assert(count_path(child, q) == if relative_path == q {
                    1nat
                } else {
                    0nat
                });
                assert(count_among(after.children, q) == count_among(n.children, q) + count_path(
                    child,
                    q,
                ));
            },
            ChangeView::Attach { .. } => {},
        }
    } else if !any_has_path(n.children, p) {
        lemma_changed_without_path(n, p, c);
    } else {
        lemma_first_with_path(n.children, p);
        let k = choose|k: int| is_first_with_path(n.children, p, k);
        assert forall|i: int| 0 <= i < n.children.len() && i != k implies n.children[i]
            == after.children[i] by {
            assert(!is_first_with_path(n.children, p, i));
        }
        assert(after.children[k] == changed(n.children[k], p, c));
        lemma_count_after_change(n.children[k], p, c, q);
        lemma_count_among_differs(n.children, after.children, k, q);
    }
}

/// Whether the walk `es` holds a directory with the path `q`.
pub open spec fn is_walked_directory(es: Seq<EntryView>, q: Seq<char>) -> bool {
    exists|i: int| 0 <= i < es.len() && (#[trigger] es[i]).is_dir && es[i].relative_path == q
}

/// Whether the walk names no directory twice.
pub open spec fn has_distinct_directories(es: Seq<EntryView>) -> bool {
    forall|i: int, j: int|
        0 <= i < j < es.len() && (#[trigger] es[i]).is_dir && (#[trigger] es[j]).is_dir
            ==> es[i].relative_path != es[j].relative_path
}

/// The paths of a built tree: each is the path of one node alone; each is
/// that of the routing root or of a directory of the walk; and each begins
/// with the path of the routing root.
pub proof fn lemma_built_paths(
    src_dir: Seq<char>,
    dist_to_src_relpath: Seq<char>,
    es: Seq<EntryView>,
    conv: ConventionView,
)
    requires
        conv.app_dir_name.len() > 0,
        has_distinct_directories(es),
    ensures
        ({
            let tree = built(empty_app(src_dir, dist_to_src_relpath, conv), es, conv).app;
            &&& forall|q: Seq<char>| #[trigger] count_path(tree, q) <= 1
            &&& forall|q: Seq<char>| #[trigger]
                count_path(tree, q) > 0 ==> q == conv.app_dir_name || is_walked_directory(es, q)
            &&& forall|q: Seq<char>| #[trigger]
                count_path(tree, q) > 0 ==> conv.app_dir_name.is_prefix_of(q)
        }),
    decreases es.len(),
{
    let root = conv.app_dir_name;
    let init = empty_app(src_dir, dist_to_src_relpath, conv);
    let tree = built(init, es, conv).app;
    if es.len() == 0 {
        assert(count_among(init.app.children, root) == 0);
        assert forall|q: Seq<char>| #[trigger] count_path(tree, q) <= 1 by {
            assert(count_among(init.app.children, q) == 0);
        }
        assert forall|q: Seq<char>| #[trigger] count_path(tree, q) > 0 implies q == root
            || is_walked_directory(es, q) by {
            assert(count_among(init.app.children, q) == 0);
        }
        assert forall|q: Seq<char>| #[trigger] count_path(tree, q) > 0 implies root.is_prefix_of(
            q,
        ) by {
            assert(count_among(init.app.children, q) == 0);
        }
    } else {
        let before = es.drop_last();
        let e = es.last();
        assert(has_distinct_directories(before)) by {
            assert forall|i: int, j: int|
                0 <= i < j < before.len() && (#[trigger] before[i]).is_dir && (
                #[trigger] before[j]).is_dir implies before[i].relative_path
                != before[j].relative_path by {
                assert(before[i] == es[i] && before[j] == es[j]);
            }
        }
        lemma_built_paths(src_dir, dist_to_src_relpath, before, conv);
        let prev = built(init, before, conv).app;
        let p = parent_path(e.relative_path);
        let c = change_of(e, conv);
        assert(tree == changed(prev, p, c));
        assert forall|q: Seq<char>| is_walked_directory(before, q) implies is_walked_directory(
            es,
            q,
        ) by {
            let i = choose|i: int|
                0 <= i < before.len() && (#[trigger] before[i]).is_dir && before[i].relative_path
                    == q;
            assert(es[i] == before[i]);
        }
        assert forall|q: Seq<char>|
            #![trigger count_path(tree, q)]
            count_path(tree, q) <= 1 && (count_path(tree, q) > 0 ==> q == root
                || is_walked_directory(es, q)) && (count_path(tree, q) > 0 ==> root.is_prefix_of(
                q,
            )) by {
            lemma_count_after_change(prev, p, c, q);
            if added(prev, p, c, q) == 1 {
                assert(e.is_dir && q == e.relative_path);
                assert(es[es.len() - 1] == e);
                assert(is_walked_directory(es, q));
                lemma_count_path(prev, p);
                assert(count_path(prev, p) > 0);
                assert(root.is_prefix_of(p));
                lemma_last_slash_range(q);
                assert(p.len() > 0);
                assert(p == q.take(last_slash(q)));
                assert(root.is_prefix_of(q)) by {
                    assert(q.subrange(0, root.len() as int) =~= p.subrange(0, root.len() as int));
                }
                if count_path(prev, q) > 0 {
                    if q == root {
                        assert(p.len() < q.len());
                    } else {
                        let i = choose|i: int|
                            0 <= i < before.len() && (#[trigger] before[i]).is_dir
                                && before[i].relative_path == q;
                        assert(es[i] == before[i]);
                        assert(es[i].relative_path != es[es.len() - 1].relative_path);
                    }
                }
            }
        }
    }
}

/// The path of a node tells it from every other node of a built tree,
/// where the routing root has a name and the walk names no directory
/// twice.
pub proof fn law_built_tree_has_unique_paths(
    src_dir: Seq<char>,
    dist_to_src_relpath: Seq<char>,
    es: Seq<EntryView>,
    conv: ConventionView,
)
    requires
        conv.app_dir_name.len() > 0,
        has_distinct_directories(es),
    ensures
        has_unique_paths(built(empty_app(src_dir, dist_to_src_relpath, conv), es, conv).app),
{
    lemma_built_paths(src_dir, dist_to_src_relpath, es, conv);
}

} // verus!
