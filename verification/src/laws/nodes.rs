//! What one node brings to the generated code: one registration for its
//! route file, on the nearest router and with one clause for each handler.

use crate::compile::{
    current_router, declared_path, empty_fragment, handler_dispatch, handler_imports,
    mount_fragment, node_fragment, route_file_path, router_name, scan_outcome, tree_fragment,
    FragmentView, SourceView, SubRouterView,
};
use crate::convention::ConventionView;
use crate::emit::{
    dispatch_clause, header_line, import_line, mount_lines, registration, wait_marker,
};
use crate::error::{ErrorKind, Failure};
use crate::laws::paths::{
    are_real, are_segments, is_segment, law_no_virtual_group_in_declared_path,
    law_no_virtual_group_in_endpoint, law_paths_are_declared_on_the_nearest_router,
    lemma_mount_path_of_directories, path_below, slash_joined,
};
use crate::naming::{endpoint, handler_alias, identifier_of, mount_path};
use crate::scan::HandlerView;
use crate::text::{split, trimmed, uppercase};
use crate::tree::RouteNode;
use vstd::prelude::*;

verus! {

/// The code that the middleware of a node brings, and nothing where the
/// node has none.
pub open spec fn mount_code(
    n: RouteNode,
    nearest: Option<SubRouterView>,
    dist: Seq<char>,
    conv: ConventionView,
) -> FragmentView {
    match mount_fragment(n, nearest, dist, conv) {
        Ok(Some(m)) => m.0,
        _ => empty_fragment(),
    }
}

/// A route file brings exactly one registration. Where a node with a route
/// file compiles, its file holds at least one handler, and the statements
/// of the node are: the comment that names the node, what its middleware
/// brings, one registration for all methods on the router that encloses the
/// route, at the endpoint path as declared on that router, and an empty
/// line. The body of the registration is the dispatch among the handlers of
/// the file and, behind it, the answer to a method that none of them
/// takes. The imports are those of the middleware and one for each handler.
pub proof fn law_route_is_registered_once(
    n: RouteNode,
    nearest: Option<SubRouterView>,
    sources: Seq<SourceView>,
    dist: Seq<char>,
    conv: ConventionView,
    not_allowed: Seq<char>,
)
    requires
        n.route is Some,
        node_fragment(n, nearest, sources, dist, conv, not_allowed) is Ok,
    ensures
        ({
            let own = node_fragment(n, nearest, sources, dist, conv, not_allowed)->Ok_0;
            let current = current_router(own.1, nearest);
            let mount = mount_code(n, nearest, dist, conv);
            &&& endpoint(route_file_path(n), conv.app_dir_name) matches Some(ep)
            &&& scan_outcome(sources, route_file_path(n)) matches Ok(hs)
            &&& hs.len() > 0
            &&& own.0.routes == header_line(n.name, n.relative_path) + mount.routes + registration(
                router_name(current),
                declared_path(ep, current),
                handler_dispatch(hs, n.relative_path),
                not_allowed,
            ) + "\n"@
            &&& own.0.imports == mount.imports + handler_imports(
                hs,
                n.relative_path,
                n.route->0,
                dist,
            )
        }),
{
}

/// A route file without handlers fails its node with `EmptyHandlerSet` at
/// the path of the file, where nothing fails before it: the middleware of
/// the node compiles and the file lies below the routing root. The tree
/// below the node fails in the same way, and brings no code.
pub proof fn law_route_without_handlers_fails_its_node(
    n: RouteNode,
    nearest: Option<SubRouterView>,
    sources: Seq<SourceView>,
    dist: Seq<char>,
    conv: ConventionView,
    not_allowed: Seq<char>,
)
    requires
        n.route is Some,
        mount_fragment(n, nearest, dist, conv) is Ok,
        endpoint(route_file_path(n), conv.app_dir_name) is Some,
        scan_outcome(sources, route_file_path(n)) matches Ok(hs) && hs.len() == 0,
    ensures
        node_fragment(n, nearest, sources, dist, conv, not_allowed) == Err::<
            (FragmentView, Option<SubRouterView>),
            Failure,
        >(Failure { kind: ErrorKind::EmptyHandlerSet, path: route_file_path(n) }),
        tree_fragment(n, nearest, sources, dist, conv, not_allowed) == Err::<FragmentView, Failure>(
            Failure { kind: ErrorKind::EmptyHandlerSet, path: route_file_path(n) },
        ),
{
}

/// The dispatch among handlers, one run after another, is the dispatch
/// among the first run and then the dispatch among the second.
pub proof fn lemma_dispatch_add(a: Seq<HandlerView>, b: Seq<HandlerView>, relative_path: Seq<char>)
    ensures
        handler_dispatch(a + b, relative_path) == handler_dispatch(a, relative_path)
            + handler_dispatch(b, relative_path),
    decreases b.len(),
{
    if b.len() == 0 {
        assert(a + b == a);
        assert(handler_dispatch(a, relative_path) + handler_dispatch(b, relative_path)
            == handler_dispatch(a, relative_path));
    } else {
        lemma_dispatch_add(a, b.drop_last(), relative_path);
        assert((a + b).drop_last() == a + b.drop_last());
        assert((a + b).last() == b.last());
        let clause = dispatch_clause(
            uppercase(b.last().export_name),
            handler_alias(relative_path, b.last().export_name),
            b.last().is_async,
        );
        assert(handler_dispatch(a, relative_path) + handler_dispatch(b.drop_last(), relative_path)
            + clause == handler_dispatch(a, relative_path) + (handler_dispatch(
            b.drop_last(),
            relative_path,
        ) + clause));
    }
}

/// Every handler has its own clause in the dispatch, in the order of the
/// handlers: the dispatch is the clauses of the handlers before it, its own
/// clause, and the clauses of the handlers behind it. Its clause tests the
/// upper-case form of its name and calls its alias, behind the wait marker
/// exactly where the handler is deferred.
pub proof fn law_each_handler_has_its_clause(
    hs: Seq<HandlerView>,
    relative_path: Seq<char>,
    k: int,
)
    requires
        0 <= k < hs.len(),
    ensures
        handler_dispatch(hs, relative_path) == handler_dispatch(hs.take(k), relative_path)
            + dispatch_clause(
            uppercase(hs[k].export_name),
            handler_alias(relative_path, hs[k].export_name),
            hs[k].is_async,
        ) + handler_dispatch(hs.skip(k + 1), relative_path),
{
    let before = hs.take(k + 1);
    assert(hs == before + hs.skip(k + 1));
    lemma_dispatch_add(before, hs.skip(k + 1), relative_path);
    assert(before.drop_last() == hs.take(k));
    assert(before.last() == hs[k]);
}

/// The imports of handlers, one run after another, are the imports of the
/// first run and then those of the second.
pub proof fn lemma_imports_add(
    a: Seq<HandlerView>,
    b: Seq<HandlerView>,
    relative_path: Seq<char>,
    file: Seq<char>,
    dist: Seq<char>,
)
    ensures
        handler_imports(a + b, relative_path, file, dist) == handler_imports(
            a,
            relative_path,
            file,
            dist,
        ) + handler_imports(b, relative_path, file, dist),
    decreases b.len(),
{
    if b.len() == 0 {
        assert(a + b == a);
        assert(handler_imports(a, relative_path, file, dist) + handler_imports(
            b,
            relative_path,
            file,
            dist,
        ) == handler_imports(a, relative_path, file, dist));
    } else {
        lemma_imports_add(a, b.drop_last(), relative_path, file, dist);
        assert((a + b).drop_last() == a + b.drop_last());
        assert((a + b).last() == b.last());
        let line = import_line(
            b.last().export_name,
            handler_alias(relative_path, b.last().export_name),
            dist,
            relative_path,
            file,
        );
        assert(handler_imports(a, relative_path, file, dist) + handler_imports(
            b.drop_last(),
            relative_path,
            file,
            dist,
        ) + line == handler_imports(a, relative_path, file, dist) + (handler_imports(
            b.drop_last(),
            relative_path,
            file,
            dist,
        ) + line));
    }
}

/// Every handler has its own import, under its alias, in the order of the
/// handlers.
pub proof fn law_each_handler_has_its_import(
    hs: Seq<HandlerView>,
    relative_path: Seq<char>,
    file: Seq<char>,
    dist: Seq<char>,
    k: int,
)
    requires
        0 <= k < hs.len(),
    ensures
        handler_imports(hs, relative_path, file, dist) == handler_imports(
            hs.take(k),
            relative_path,
            file,
            dist,
        ) + import_line(
            hs[k].export_name,
            handler_alias(relative_path, hs[k].export_name),
            dist,
            relative_path,
            file,
        ) + handler_imports(hs.skip(k + 1), relative_path, file, dist),
{
    let before = hs.take(k + 1);
    assert(hs == before + hs.skip(k + 1));
    lemma_imports_add(before, hs.skip(k + 1), relative_path, file, dist);
    assert(before.drop_last() == hs.take(k));
    assert(before.last() == hs[k]);
}

/// A node with middleware and a route file registers its route on its own
/// sub-router, at the root of that sub-router.
///
/// Let the node lie below the routing root by the directories `outer` and
/// then `inner`, none of them a virtual group, and let the nearest router
/// be the application, with `outer` empty, or a sub-router mounted at
/// `outer`. Where the node compiles, it mounts its sub-router on the
/// nearest router at `inner` alone, each directory behind a slash, and
/// registers its route on its own sub-router at `/`. The directories
/// `outer` show in neither statement.
pub proof fn law_own_route_is_registered_at_the_root(
    n: RouteNode,
    outer: Seq<Seq<char>>,
    inner: Seq<Seq<char>>,
    nearest: Option<SubRouterView>,
    sources: Seq<SourceView>,
    dist: Seq<char>,
    conv: ConventionView,
    not_allowed: Seq<char>,
)
    requires
        n.middlewares is Some,
        n.route is Some,
        n.relative_path == conv.app_dir_name + slash_joined(outer + inner),
        are_segments(outer + inner),
        are_real(outer + inner),
        is_segment(n.route->0),
        match nearest {
            Some(r) => r.path == mount_path(
                conv.app_dir_name + slash_joined(outer),
                conv.app_dir_name,
            ),
            None => outer.len() == 0,
        },
        node_fragment(n, nearest, sources, dist, conv, not_allowed) is Ok,
    ensures
        ({
            let own = node_fragment(n, nearest, sources, dist, conv, not_allowed)->Ok_0;
            &&& identifier_of(trimmed(n.name)) matches Some(id)
            &&& scan_outcome(sources, route_file_path(n)) matches Ok(hs)
            &&& own.1 == Some(
                SubRouterView { identifier: id + "Router"@, path: slash_joined(outer + inner) },
            )
            &&& own.0.routes == header_line(n.name, n.relative_path) + mount_lines(
                id,
                router_name(nearest),
                slash_joined(inner),
            ) + registration(
                id + "Router"@,
                seq!['/'],
                handler_dispatch(hs, n.relative_path),
                not_allowed,
            ) + "\n"@
        }),
{
    let root = conv.app_dir_name;
    let dirs = outer + inner;
    let id = identifier_of(trimmed(n.name))->0;
    let router = SubRouterView { identifier: id + "Router"@, path: mount_path(n.relative_path, root) };
    lemma_mount_path_of_directories(root, dirs);
    match nearest {
        Some(r) => {
            law_paths_are_declared_on_the_nearest_router(root, outer, inner, n.route->0, r);
        },
        None => {
            assert(outer + inner == inner);
        },
    }
    assert(dirs + Seq::<Seq<char>>::empty() == dirs);
    law_paths_are_declared_on_the_nearest_router(
        root,
        dirs,
        Seq::<Seq<char>>::empty(),
        n.route->0,
        router,
    );
    assert(route_file_path(n) == path_below(root, dirs, n.route->0)) by {
        assert(n.relative_path.push('/') + n.route->0 =~= root + slash_joined(dirs) + seq!['/']
            + n.route->0);
    }
    assert(slash_joined(Seq::<Seq<char>>::empty()).push('/') == seq!['/']);
}

/// A virtual group never shows in the path at which a node registers its
/// route: on the application, or on a sub-router whose mount path ends with
/// a segment of the endpoint path, no piece between the slashes of the
/// registered path is a virtual group.
pub proof fn law_no_virtual_group_in_registered_path(
    n: RouteNode,
    nearest: Option<SubRouterView>,
    sources: Seq<SourceView>,
    dist: Seq<char>,
    conv: ConventionView,
    not_allowed: Seq<char>,
)
    requires
        n.route is Some,
        node_fragment(n, nearest, sources, dist, conv, not_allowed) is Ok,
        ({
            let own = node_fragment(n, nearest, sources, dist, conv, not_allowed)->Ok_0;
            let ep = endpoint(route_file_path(n), conv.app_dir_name)->0;
            let declared = declared_path(ep, current_router(own.1, nearest));
            declared == ep || declared.len() == 0 || declared[0] == '/'
        }),
    ensures
        ({
            let own = node_fragment(n, nearest, sources, dist, conv, not_allowed)->Ok_0;
            let ep = endpoint(route_file_path(n), conv.app_dir_name)->0;
            are_real(split(declared_path(ep, current_router(own.1, nearest)), '/'))
        }),
{
    law_route_is_registered_once(n, nearest, sources, dist, conv, not_allowed);
    let own = node_fragment(n, nearest, sources, dist, conv, not_allowed)->Ok_0;
    law_no_virtual_group_in_endpoint(route_file_path(n), conv.app_dir_name);
    match current_router(own.1, nearest) {
        Some(r) => {
            law_no_virtual_group_in_declared_path(route_file_path(n), conv.app_dir_name, r);
        },
        None => {},
    }
}

/// Texts one after another are one text, however they are grouped.
proof fn lemma_regroup(x: Seq<char>, y: Seq<char>, z: Seq<char>)
    ensures
        (x + y) + z == x + (y + z),
{
    assert((x + y) + z =~= x + (y + z));
}

/// In the statements of a node, the call of a deferred handler stands
/// behind its wait marker, and the call of another handler does not: the
/// statements hold the clause of every handler of the route file, and the
/// clause of a handler is the test of its method, the wait marker exactly
/// where the handler is deferred, the call of its alias and the return.
pub proof fn law_node_awaits_its_deferred_handlers(
    n: RouteNode,
    nearest: Option<SubRouterView>,
    sources: Seq<SourceView>,
    dist: Seq<char>,
    conv: ConventionView,
    not_allowed: Seq<char>,
    k: int,
)
    requires
        n.route is Some,
        node_fragment(n, nearest, sources, dist, conv, not_allowed) is Ok,
        0 <= k < scan_outcome(sources, route_file_path(n))->Ok_0.len(),
    ensures
        ({
            let own = node_fragment(n, nearest, sources, dist, conv, not_allowed)->Ok_0;
            let h = scan_outcome(sources, route_file_path(n))->Ok_0[k];
            let alias = handler_alias(n.relative_path, h.export_name);
            &&& exists|head: Seq<char>, tail: Seq<char>|
                #![auto]
                own.0.routes == head + dispatch_clause(
                    uppercase(h.export_name),
                    alias,
                    h.is_async,
                ) + tail
            &&& dispatch_clause(uppercase(h.export_name), alias, h.is_async)
                == "if (req.method === \""@ + uppercase(h.export_name) + "\") { "@ + wait_marker(
                h.is_async,
            ) + alias + "(req, res); return; }\n"@
        }),
{
    law_route_is_registered_once(n, nearest, sources, dist, conv, not_allowed);
    let own = node_fragment(n, nearest, sources, dist, conv, not_allowed)->Ok_0;
    let hs = scan_outcome(sources, route_file_path(n))->Ok_0;
    let h = hs[k];
    let alias = handler_alias(n.relative_path, h.export_name);
    law_each_handler_has_its_clause(hs, n.relative_path, k);
    let current = current_router(own.1, nearest);
    let ep = endpoint(route_file_path(n), conv.app_dir_name)->0;
    let clause = dispatch_clause(uppercase(h.export_name), alias, h.is_async);
    let first = handler_dispatch(hs.take(k), n.relative_path);
    let last = handler_dispatch(hs.skip(k + 1), n.relative_path);
    let inner = handler_dispatch(hs, n.relative_path);
    assert(inner == first + clause + last);
    let opening = router_name(current) + ".all(\""@ + declared_path(ep, current)
        + "\", async (req, res) => { "@;
    let closing = " "@ + not_allowed + " });\n"@;
    let whole = registration(
        router_name(current),
        declared_path(ep, current),
        inner,
        not_allowed,
    );
    let top = header_line(n.name, n.relative_path) + mount_code(n, nearest, dist, conv).routes;
    assert(own.0.routes == top + whole + "\n"@);
    assert(whole == opening + inner + closing) by {
        lemma_regroup(opening + inner, " "@, not_allowed);
        lemma_regroup(opening + inner, " "@ + not_allowed, " });\n"@);
    }
    assert(opening + inner == opening + first + clause + last) by {
        lemma_regroup(opening, first + clause, last);
        lemma_regroup(opening, first, clause);
    }
    assert(whole == opening + first + clause + (last + closing)) by {
        lemma_regroup(opening + first + clause, last, closing);
    }
    assert(top + whole == top + (opening + first) + clause + (last + closing)) by {
        lemma_regroup(top, opening + first + clause, last + closing);
        lemma_regroup(top, opening + first, clause);
    }
    let head = top + (opening + first);
    let tail = last + closing + "\n"@;
    assert(own.0.routes == head + clause + tail) by {
        lemma_regroup(head + clause, last + closing, "\n"@);
    }
}

} // verus!
