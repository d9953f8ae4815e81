//! The route tree compiler: from the route tree to the fragments of the
//! generated module, root first and children in their order, each statement
//! on the nearest enclosing router.

use crate::convention::{Config, Convention, ConventionView};
use crate::emit::{
    dispatch_clause, emit_dispatch, emit_header, emit_import, emit_mount, emit_registration,
    emit_root_import, emit_use_all, header_line, import_line, mount_lines, registration,
    root_import_line, settings_lines, use_all_line,
};
use crate::error::{CompileError, ErrorKind, Failure};
use crate::naming::{
    endpoint, full_router_path, handler_alias, handler_alias_of, identifier_of, mount_path,
    rel_path_to_endpoint, route_name_to_identifier,
};
use crate::scan::{get_endpoint_handlers, handler_views, scanned, EndpointHandler, HandlerView};
use crate::text::{
    push_char, same_text, strip_prefix, to_uppercase, trimmed, uppercase, without_prefix,
};
use crate::tree::{
    lemma_node_view, nodes, opt_text, AppRoute, AppStruct, AppStructView, RouteNode,
};
use vstd::prelude::*;

verus! {

/// A sub-router: the identifier of its value in the generated code, and the
/// path at which it is mounted as seen from the application.
#[derive(Debug)]
pub struct SubRouter {
    pub identifier: String,
    pub path: String,
}

/// A sub-router as plain values.
pub struct SubRouterView {
    pub identifier: Seq<char>,
    pub path: Seq<char>,
}

impl View for SubRouter {
    type V = SubRouterView;

    open spec fn view(&self) -> SubRouterView {
        SubRouterView { identifier: self.identifier@, path: self.path@ }
    }
}

/// The sub-router that a reference leads to, if there is one.
pub open spec fn router_view(o: Option<&SubRouter>) -> Option<SubRouterView> {
    match o {
        Some(r) => Some(r@),
        None => None,
    }
}

/// The sub-router that an option holds, if there is one.
pub open spec fn owned_router_view(o: Option<SubRouter>) -> Option<SubRouterView> {
    match o {
        Some(r) => Some(r@),
        None => None,
    }
}

/// The router that encloses what lies below a node: the node's own where it
/// has mounted one, else the one that encloses the node.
pub open spec fn current_router(
    mounted: Option<SubRouterView>,
    nearest: Option<SubRouterView>,
) -> Option<SubRouterView> {
    match mounted {
        Some(r) => Some(r),
        None => nearest,
    }
}

/// The identifier of the router on which a statement is made: the nearest
/// enclosing sub-router, or the application where there is none.
pub open spec fn router_name(nearest: Option<SubRouterView>) -> Seq<char> {
    match nearest {
        Some(r) => r.identifier,
        None => "app"@,
    }
}

/// A path as it is declared on the nearest enclosing router: without the
/// path at which that router is mounted, where the path begins with it. On
/// the application the path is declared whole.
pub open spec fn declared_path(full: Seq<char>, nearest: Option<SubRouterView>) -> Seq<char> {
    match nearest {
        Some(r) => without_prefix(full, r.path),
        None => full,
    }
}

/// Writes `router_name`.
fn router_name_of(nearest: Option<&SubRouter>) -> (r: String)
    ensures
        r@ == router_name(router_view(nearest)),
{
    match nearest {
        Some(router) => router.identifier.clone(),
        None => String::from_str("app"),
    }
}

/// Computes `declared_path`.
fn declare_path(full: &str, nearest: Option<&SubRouter>) -> (r: String)
    ensures
        r@ == declared_path(full@, router_view(nearest)),
{
    match nearest {
        Some(router) => strip_prefix(full, router.path.as_str()),
        None => String::from_str(full),
    }
}

/// Two texts of generated code: the imports, and the statements on routers.
#[derive(Debug)]
pub struct Fragment {
    pub imports: String,
    pub routes: String,
}

/// A fragment as plain values.
pub struct FragmentView {
    pub imports: Seq<char>,
    pub routes: Seq<char>,
}

impl View for Fragment {
    type V = FragmentView;

    open spec fn view(&self) -> FragmentView {
        FragmentView { imports: self.imports@, routes: self.routes@ }
    }
}

/// The fragment without any code.
pub open spec fn empty_fragment() -> FragmentView {
    FragmentView { imports: Seq::empty(), routes: Seq::empty() }
}

impl Fragment {
    /// The fragment without any code.
    pub fn empty() -> (f: Fragment)
        ensures
            f@ == empty_fragment(),
    {
        Fragment { imports: String::new(), routes: String::new() }
    }
}

/// What the middleware of a node brings, where the node has any: the
/// import of the middleware, the statements that create and mount the
/// node's sub-router, and that sub-router. A node whose name is a virtual
/// group has no identifier: the failure names the node.
pub open spec fn mount_fragment(
    n: RouteNode,
    nearest: Option<SubRouterView>,
    dist: Seq<char>,
    conv: ConventionView,
) -> Result<Option<(FragmentView, SubRouterView)>, Failure> {
    match n.middlewares {
        None => Ok(None),
        Some(file) => match identifier_of(trimmed(n.name)) {
            None => Err(Failure { kind: ErrorKind::InvalidRouteName, path: n.relative_path }),
            Some(id) => {
                let path = mount_path(n.relative_path, conv.app_dir_name);
                Ok(
                    Some(
                        (
                            FragmentView {
                                imports: import_line(
                                    conv.middlewares_export_name,
                                    id + "Middlewares"@,
                                    dist,
                                    n.relative_path,
                                    file,
                                ),
                                routes: mount_lines(
                                    id,
                                    router_name(nearest),
                                    declared_path(path, nearest),
                                ),
                            },
                            SubRouterView { identifier: id + "Router"@, path },
                        ),
                    ),
                )
            },
        },
    }
}

/// Compiles the middleware of a node, where it has any: imports it, creates
/// the node's sub-router, mounts it on the nearest enclosing router at the
/// path declared there, and puts the middleware to work on it.
pub fn compile_middlewares(
    node: &AppRoute,
    nearest: Option<&SubRouter>,
    dist_to_src_relpath: &str,
    convention: &Convention,
) -> (r: Result<Option<(Fragment, SubRouter)>, CompileError>)
    ensures
        match mount_fragment(node@, router_view(nearest), dist_to_src_relpath@, convention@) {
            Ok(Some(m)) => r matches Ok(Some(got)) && got.0@ == m.0 && got.1@ == m.1,
            Ok(None) => r matches Ok(None),
            Err(f) => r matches Err(e) && e@ == f,
        },
{
    proof {
        lemma_node_view(*node);
    }
    let file = match &node.middlewares {
        Some(file) => file,
        None => {
            return Ok(None);
        },
    };
    let id = match route_name_to_identifier(node.name.as_str()) {
        Ok(id) => id,
        Err(_) => {
            return Err(
                CompileError::new(ErrorKind::InvalidRouteName, node.relative_path.as_str()),
            );
        },
    };
    let path = full_router_path(node.relative_path.as_str(), convention.app_dir_name.as_str());
    let declared = declare_path(path.as_str(), nearest);
    let parent = router_name_of(nearest);
    let mut alias = id.clone();
    alias.append("Middlewares");
    let imports = emit_import(
        convention.middlewares_export_name.as_str(),
        alias.as_str(),
        dist_to_src_relpath,
        node.relative_path.as_str(),
        file.as_str(),
    );
    let routes = emit_mount(id.as_str(), parent.as_str(), declared.as_str());
    let mut identifier = id;
    identifier.append("Router");
    Ok(Some((Fragment { imports, routes }, SubRouter { identifier, path })))
}

/// The path, from the source root, of the route file of a node that has
/// one.
pub open spec fn route_file_path(n: RouteNode) -> Seq<char> {
    n.relative_path.push('/') + n.route->0
}

/// The imports of the handlers `hs` of the route file `file` of the node
/// at `relative_path`, one for each handler, in their order.
pub open spec fn handler_imports(
    hs: Seq<HandlerView>,
    relative_path: Seq<char>,
    file: Seq<char>,
    dist: Seq<char>,
) -> Seq<char>
    decreases hs.len(),
{
    if hs.len() == 0 {
        Seq::empty()
    } else {
        handler_imports(hs.drop_last(), relative_path, file, dist) + import_line(
            hs.last().export_name,
            handler_alias(relative_path, hs.last().export_name),
            dist,
            relative_path,
            file,
        )
    }
}

/// The dispatch among the handlers `hs` of the node at `relative_path`: one
/// clause for each handler, in their order, each for the method that the
/// upper-case form of the handler's name spells.
pub open spec fn handler_dispatch(hs: Seq<HandlerView>, relative_path: Seq<char>) -> Seq<char>
    decreases hs.len(),
{
    if hs.len() == 0 {
        Seq::empty()
    } else {
        handler_dispatch(hs.drop_last(), relative_path) + dispatch_clause(
            uppercase(hs.last().export_name),
            handler_alias(relative_path, hs.last().export_name),
            hs.last().is_async,
        )
    }
}

/// What the route file of a node brings, where the node has one, once its
/// endpoint path `ep` and its handlers `hs` are known: one import for each
/// handler, and one registration, on the router `current`, that dispatches
/// among them. A route file without handlers is a failure.
pub open spec fn endpoint_fragment(
    n: RouteNode,
    current: Option<SubRouterView>,
    ep: Seq<char>,
    hs: Seq<HandlerView>,
    dist: Seq<char>,
    not_allowed: Seq<char>,
) -> Result<FragmentView, Failure> {
    if n.route is None {
        Ok(empty_fragment())
    } else if hs.len() == 0 {
        Err(Failure { kind: ErrorKind::EmptyHandlerSet, path: route_file_path(n) })
    } else {
        Ok(
            FragmentView {
                imports: handler_imports(hs, n.relative_path, n.route->0, dist),
                routes: registration(
                    router_name(current),
                    declared_path(ep, current),
                    handler_dispatch(hs, n.relative_path),
                    not_allowed,
                ),
            },
        )
    }
}

/// The path, from the source root, of the route file of a node, where it
/// has one.
pub fn route_file_of(node: &AppRoute) -> (r: Option<String>)
    ensures
        match node@.route {
            Some(_) => r matches Some(path) && path@ == route_file_path(node@),
            None => r is None,
        },
{
    proof {
        lemma_node_view(*node);
    }
    match &node.route {
        Some(file) => {
            let mut path = node.relative_path.clone();
            push_char(&mut path, '/');
            path.append(file.as_str());
            Some(path)
        },
        None => None,
    }
}

/// Compiles the route file of a node, where it has one, from its endpoint
/// path and its handlers: imports each handler under its alias and
/// registers, on the router `current` and at the path declared there, one
/// dispatch among them. Fails with `EmptyHandlerSet` exactly where there is
/// a route file and no handler.
pub fn compile_endpoint(
    node: &AppRoute,
    current: Option<&SubRouter>,
    endpoint_uri: &str,
    handlers: &Vec<EndpointHandler>,
    dist_to_src_relpath: &str,
    config: &Config,
) -> (r: Result<Fragment, CompileError>)
    ensures
        match endpoint_fragment(
            node@,
            router_view(current),
            endpoint_uri@,
            handler_views(handlers@),
            dist_to_src_relpath@,
            config.method_not_allowed_res@,
        ) {
            Ok(f) => r matches Ok(got) && got@ == f,
            Err(f) => r matches Err(e) && e@ == f,
        },
{
    proof {
        lemma_node_view(*node);
    }
    let file = match &node.route {
        Some(file) => file,
        None => {
            return Ok(Fragment::empty());
        },
    };
    if handlers.len() == 0 {
        let path = route_file_of(node).unwrap();
        return Err(CompileError::new(ErrorKind::EmptyHandlerSet, path.as_str()));
    }
    let ghost hs = handler_views(handlers@);
    let mut imports = String::new();
    let mut inner = String::new();
    let mut i: usize = 0;
    assert(hs.take(0) =~= Seq::<HandlerView>::empty());
    while i < handlers.len()
        invariant
            i <= handlers.len(),
            hs == handler_views(handlers@),
            imports@ == handler_imports(
                hs.take(i as int),
                node.relative_path@,
                file@,
                dist_to_src_relpath@,
            ),
            inner@ == handler_dispatch(hs.take(i as int), node.relative_path@),
        decreases handlers.len() - i,
    {
        let handler = &handlers[i];
        proof {
            assert(hs.take(i + 1).drop_last() == hs.take(i as int));
            assert(hs.take(i + 1).last() == handler@);
        }
        let alias = handler_alias_of(
            node.relative_path.as_str(),
            handler.export_name.as_str(),
        );
        let line = emit_import(
            handler.export_name.as_str(),
            alias.as_str(),
            dist_to_src_relpath,
            node.relative_path.as_str(),
            file.as_str(),
        );
        imports.append(line.as_str());
        let method = to_uppercase(handler.export_name.as_str());
        let clause = emit_dispatch(method.as_str(), alias.as_str(), handler.is_async);
        inner.append(clause.as_str());
        i = i + 1;
    }
    assert(hs.take(i as int) == hs);
    let router = router_name_of(current);
    let declared = declare_path(endpoint_uri, current);
    let routes = emit_registration(
        router.as_str(),
        declared.as_str(),
        inner.as_str(),
        config.method_not_allowed_res.as_str(),
    );
    Ok(Fragment { imports, routes })
}

/// The text of a route module, by the path of its file from the source
/// root.
#[derive(Debug)]
pub struct RouteSource {
    pub path: String,
    pub text: String,
}

/// A route source as plain values.
pub struct SourceView {
    pub path: Seq<char>,
    pub text: Seq<char>,
}

impl View for RouteSource {
    type V = SourceView;

    open spec fn view(&self) -> SourceView {
        SourceView { path: self.path@, text: self.text@ }
    }
}

/// The sources that a sequence holds.
pub open spec fn source_views(v: Seq<RouteSource>) -> Seq<SourceView> {
    Seq::new(v.len(), |i: int| v[i]@)
}

/// The text of the first source with the path `path`, if there is one.
pub open spec fn source_text(sources: Seq<SourceView>, path: Seq<char>) -> Option<Seq<char>>
    decreases sources.len(),
{
    if sources.len() == 0 {
        None
    } else if sources[0].path == path {
        Some(sources[0].text)
    } else {
        source_text(sources.skip(1), path)
    }
}

/// What scanning the route file at `path` gives: its handlers; an `IOError`
/// where its text is not among the sources; a `ParseError` where its text
/// is no module.
pub open spec fn scan_outcome(sources: Seq<SourceView>, path: Seq<char>) -> Result<
    Seq<HandlerView>,
    Failure,
> {
    match source_text(sources, path) {
        None => Err(Failure { kind: ErrorKind::IOError, path }),
        Some(text) => match scanned(text) {
            None => Err(Failure { kind: ErrorKind::ParseError, path }),
            Some(hs) => Ok(hs),
        },
    }
}

/// Finds the text of the route file at `path` among the sources and scans
/// it for the handlers it exports.
pub fn scan_route(sources: &Vec<RouteSource>, path: &str) -> (r: Result<
    Vec<EndpointHandler>,
    CompileError,
>)
    ensures
        match scan_outcome(source_views(sources@), path@) {
            Ok(hs) => r matches Ok(found) && handler_views(found@) == hs,
            Err(f) => r matches Err(e) && e@ == f,
        },
{
    let ghost all = source_views(sources@);
    let mut i: usize = 0;
    assert(all.skip(0) == all);
    while i < sources.len()
        invariant
            i <= sources.len(),
            all == source_views(sources@),
            source_text(all, path@) == source_text(all.skip(i as int), path@),
        decreases sources.len() - i,
    {
        let source = &sources[i];
        proof {
            assert(all.skip(i as int)[0] == source@);
            assert(all.skip(i as int).skip(1) == all.skip(i + 1));
        }
        if same_text(source.path.as_str(), path) {
            return get_endpoint_handlers(path, source.text.as_str());
        }
        i = i + 1;
    }
    Err(CompileError::new(ErrorKind::IOError, path))
}

/// What the route file of a node brings, where the node has one. Its
/// endpoint path is derived first, then its text is scanned, then its
/// handlers are registered; the first of these to fail is the failure.
pub open spec fn route_fragment(
    n: RouteNode,
    current: Option<SubRouterView>,
    sources: Seq<SourceView>,
    dist: Seq<char>,
    conv: ConventionView,
    not_allowed: Seq<char>,
) -> Result<FragmentView, Failure> {
    if n.route is None {
        Ok(empty_fragment())
    } else {
        match endpoint(route_file_path(n), conv.app_dir_name) {
            None => Err(
                Failure { kind: ErrorKind::PathResolutionError, path: route_file_path(n) },
            ),
            Some(ep) => match scan_outcome(sources, route_file_path(n)) {
                Err(f) => Err(f),
                Ok(hs) => endpoint_fragment(n, current, ep, hs, dist, not_allowed),
            },
        }
    }
}

/// What one node brings, and the sub-router it has mounted, if any. A node
/// with neither middleware nor a route file brings nothing. Any other node
/// brings a comment that names it, what its middleware brings, what its
/// route file brings on the router that then encloses it, and an empty
/// line.
pub open spec fn node_fragment(
    n: RouteNode,
    nearest: Option<SubRouterView>,
    sources: Seq<SourceView>,
    dist: Seq<char>,
    conv: ConventionView,
    not_allowed: Seq<char>,
) -> Result<(FragmentView, Option<SubRouterView>), Failure> {
    if n.route is None && n.middlewares is None {
        Ok((empty_fragment(), None))
    } else {
        match mount_fragment(n, nearest, dist, conv) {
            Err(f) => Err(f),
            Ok(mounting) => {
                let mount = match mounting {
                    Some(m) => m.0,
                    None => empty_fragment(),
                };
                let mounted = match mounting {
                    Some(m) => Some(m.1),
                    None => None,
                };
                match route_fragment(
                    n,
                    current_router(mounted, nearest),
                    sources,
                    dist,
                    conv,
                    not_allowed,
                ) {
                    Err(f) => Err(f),
                    Ok(route) => Ok(
                        (
                            FragmentView {
                                imports: mount.imports + route.imports,
                                routes: header_line(n.name, n.relative_path) + mount.routes
                                    + route.routes + "\n"@,
                            },
                            mounted,
                        ),
                    ),
                }
            },
        }
    }
}

/// The router that encloses what lies below a node.
fn current_of<'a>(mounted: &'a Option<SubRouter>, nearest: Option<&'a SubRouter>) -> (r: Option<
    &'a SubRouter,
>)
    ensures
        router_view(r) == current_router(owned_router_view(*mounted), router_view(nearest)),
{
    match mounted {
        Some(router) => Some(router),
        None => nearest,
    }
}

/// Compiles the route file of a node, where it has one, on the router
/// `current`.
fn compile_route_file(
    node: &AppRoute,
    current: Option<&SubRouter>,
    sources: &Vec<RouteSource>,
    dist_to_src_relpath: &str,
    convention: &Convention,
    config: &Config,
) -> (r: Result<Fragment, CompileError>)
    ensures
        match route_fragment(
            node@,
            router_view(current),
            source_views(sources@),
            dist_to_src_relpath@,
            convention@,
            config.method_not_allowed_res@,
        ) {
            Ok(f) => r matches Ok(got) && got@ == f,
            Err(f) => r matches Err(e) && e@ == f,
        },
{
    let path = match route_file_of(node) {
        Some(path) => path,
        None => {
            return Ok(Fragment::empty());
        },
    };
    let endpoint_uri = match rel_path_to_endpoint(
        path.as_str(),
        convention.app_dir_name.as_str(),
    ) {
        Ok(uri) => uri,
        Err(e) => {
            return Err(e);
        },
    };
    let handlers = match scan_route(sources, path.as_str()) {
        Ok(handlers) => handlers,
        Err(e) => {
            return Err(e);
        },
    };
    compile_endpoint(
        node,
        current,
        endpoint_uri.as_str(),
        &handlers,
        dist_to_src_relpath,
        config,
    )
}

/// Compiles one node: its middleware, if it has any, on the nearest
/// enclosing router, and its route file, if it has one, on the router that
/// then encloses it. Returns the code and the sub-router that the node has
/// mounted, if any. The first step that fails is the failure, and nothing
/// is returned of what came before.
pub fn compile_route(
    node: &AppRoute,
    nearest: Option<&SubRouter>,
    sources: &Vec<RouteSource>,
    dist_to_src_relpath: &str,
    convention: &Convention,
    config: &Config,
) -> (r: Result<(Fragment, Option<SubRouter>), CompileError>)
    ensures
        match node_fragment(
            node@,
            router_view(nearest),
            source_views(sources@),
            dist_to_src_relpath@,
            convention@,
            config.method_not_allowed_res@,
        ) {
            Ok(f) => r matches Ok(got) && got.0@ == f.0 && owned_router_view(got.1) == f.1,
            Err(f) => r matches Err(e) && e@ == f,
        },
{
    proof {
        lemma_node_view(*node);
    }
    if node.route.is_none() && node.middlewares.is_none() {
        return Ok((Fragment::empty(), None));
    }
    let (mount, mounted) = match compile_middlewares(
        node,
        nearest,
        dist_to_src_relpath,
        convention,
    ) {
        Err(e) => {
            return Err(e);
        },
        Ok(Some((fragment, router))) => (fragment, Some(router)),
        Ok(None) => (Fragment::empty(), None),
    };
    let route = match compile_route_file(
        node,
        current_of(&mounted, nearest),
        sources,
        dist_to_src_relpath,
        convention,
        config,
    ) {
        Err(e) => {
            return Err(e);
        },
        Ok(fragment) => fragment,
    };
    let mut imports = mount.imports;
    imports.append(route.imports.as_str());
    let mut routes = emit_header(node.name.as_str(), node.relative_path.as_str());
    routes.append(mount.routes.as_str());
    routes.append(route.routes.as_str());
    routes.append("\n");
    Ok((Fragment { imports, routes }, mounted))
}

/// The code of the tree below `n`: what `n` brings, then what the trees
/// below its children bring, in their order, on the router that encloses
/// them. The first node to fail, in that order, is the failure.
pub open spec fn tree_fragment(
    n: RouteNode,
    nearest: Option<SubRouterView>,
    sources: Seq<SourceView>,
    dist: Seq<char>,
    conv: ConventionView,
    not_allowed: Seq<char>,
) -> Result<FragmentView, Failure>
    decreases n,
{
    match node_fragment(n, nearest, sources, dist, conv, not_allowed) {
        Err(f) => Err(f),
        Ok(own) => match forest_fragment(
            n.children,
            current_router(own.1, nearest),
            sources,
            dist,
            conv,
            not_allowed,
        ) {
            Err(f) => Err(f),
            Ok(below) => Ok(
                FragmentView {
                    imports: own.0.imports + below.imports,
                    routes: own.0.routes + below.routes,
                },
            ),
        },
    }
}

/// The code of the trees `cs`, in their order, all on the same enclosing
/// router.
pub open spec fn forest_fragment(
    cs: Seq<RouteNode>,
    nearest: Option<SubRouterView>,
    sources: Seq<SourceView>,
    dist: Seq<char>,
    conv: ConventionView,
    not_allowed: Seq<char>,
) -> Result<FragmentView, Failure>
    decreases cs,
{
    if cs.len() == 0 {
        Ok(empty_fragment())
    } else {
        match forest_fragment(cs.drop_last(), nearest, sources, dist, conv, not_allowed) {
            Err(f) => Err(f),
            Ok(before) => match tree_fragment(cs.last(), nearest, sources, dist, conv, not_allowed) {
                Err(f) => Err(f),
                Ok(last) => Ok(
                    FragmentView {
                        imports: before.imports + last.imports,
                        routes: before.routes + last.routes,
                    },
                ),
            },
        }
    }
}

/// A failure among the first trees of a forest is the failure of the
/// forest.
pub proof fn lemma_forest_failure(
    cs: Seq<RouteNode>,
    k: int,
    nearest: Option<SubRouterView>,
    sources: Seq<SourceView>,
    dist: Seq<char>,
    conv: ConventionView,
    not_allowed: Seq<char>,
)
    requires
        0 <= k <= cs.len(),
        forest_fragment(cs.take(k), nearest, sources, dist, conv, not_allowed) is Err,
    ensures
        forest_fragment(cs, nearest, sources, dist, conv, not_allowed) == forest_fragment(
            cs.take(k),
            nearest,
            sources,
            dist,
            conv,
            not_allowed,
        ),
    decreases cs.len() - k,
{
    if k < cs.len() {
        assert(cs.take(k + 1).drop_last() == cs.take(k));
        lemma_forest_failure(cs, k + 1, nearest, sources, dist, conv, not_allowed);
    } else {
        assert(cs.take(k) == cs);
    }
}

/// Compiles the tree below a node, the node first and then its children in
/// their order, each on its nearest enclosing router. The first node that
/// fails ends the compilation, and nothing is returned of what came before.
pub fn traverse_route(
    node: &AppRoute,
    nearest: Option<&SubRouter>,
    sources: &Vec<RouteSource>,
    dist_to_src_relpath: &str,
    convention: &Convention,
    config: &Config,
) -> (r: Result<Fragment, CompileError>)
    ensures
        match tree_fragment(
            node@,
            router_view(nearest),
            source_views(sources@),
            dist_to_src_relpath@,
            convention@,
            config.method_not_allowed_res@,
        ) {
            Ok(f) => r matches Ok(got) && got@ == f,
            Err(f) => r matches Err(e) && e@ == f,
        },
    decreases node,
{
    proof {
        lemma_node_view(*node);
    }
    let (own, mounted) = match compile_route(
        node,
        nearest,
        sources,
        dist_to_src_relpath,
        convention,
        config,
    ) {
        Err(e) => {
            return Err(e);
        },
        Ok(pair) => pair,
    };
    let current = current_of(&mounted, nearest);
    let ghost cs = node@.children;
    let mut below = Fragment::empty();
    let mut i: usize = 0;
    assert(cs.take(0) =~= Seq::<RouteNode>::empty());
    while i < node.children.len()
        invariant
            i <= node.children.len(),
            cs == nodes(node.children@),
            cs == node@.children,
            node_fragment(
                node@,
                router_view(nearest),
                source_views(sources@),
                dist_to_src_relpath@,
                convention@,
                config.method_not_allowed_res@,
            ) matches Ok(f) && own@ == f.0 && router_view(current) == current_router(
                f.1,
                router_view(nearest),
            ),
            forest_fragment(
                cs.take(i as int),
                router_view(current),
                source_views(sources@),
                dist_to_src_relpath@,
                convention@,
                config.method_not_allowed_res@,
            ) == Ok::<FragmentView, Failure>(below@),
        decreases node.children.len() - i,
    {
        let child = &node.children[i];
        proof {
            assert(cs.take(i + 1).drop_last() == cs.take(i as int));
            assert(cs.take(i + 1).last() == child@);
        }
        match traverse_route(child, current, sources, dist_to_src_relpath, convention, config) {
            Err(e) => {
                proof {
                    lemma_forest_failure(
                        cs,
                        i + 1,
                        router_view(current),
                        source_views(sources@),
                        dist_to_src_relpath@,
                        convention@,
                        config.method_not_allowed_res@,
                    );
                }
                return Err(e);
            },
            Ok(fragment) => {
                below.imports.append(fragment.imports.as_str());
                below.routes.append(fragment.routes.as_str());
            },
        }
        i = i + 1;
    }
    assert(cs.take(i as int) == cs);
    let mut imports = own.imports;
    imports.append(below.imports.as_str());
    let mut routes = own.routes;
    routes.append(below.routes.as_str());
    Ok(Fragment { imports, routes })
}

/// The code of a whole application, in the five parts that the template
/// takes.
#[derive(Debug)]
pub struct CompiledAppStruct {
    pub imports: String,
    pub settings: String,
    pub top_level_middlewares: String,
    pub routes: String,
    pub tail_middlewares: String,
}

/// Compiled code as plain values.
pub struct CompiledView {
    pub imports: Seq<char>,
    pub settings: Seq<char>,
    pub top_level_middlewares: Seq<char>,
    pub routes: Seq<char>,
    pub tail_middlewares: Seq<char>,
}

impl View for CompiledAppStruct {
    type V = CompiledView;

    open spec fn view(&self) -> CompiledView {
        CompiledView {
            imports: self.imports@,
            settings: self.settings@,
            top_level_middlewares: self.top_level_middlewares@,
            routes: self.routes@,
            tail_middlewares: self.tail_middlewares@,
        }
    }
}

/// The import of a module of the whole application, where there is one.
pub open spec fn optional_import(
    file: Option<Seq<char>>,
    export: Seq<char>,
    alias: Seq<char>,
    dist: Seq<char>,
) -> Seq<char> {
    match file {
        Some(f) => root_import_line(export, alias, dist, f),
        None => Seq::empty(),
    }
}

/// `code` where the module is there, nothing where it is not.
pub open spec fn optional_code(file: Option<Seq<char>>, code: Seq<char>) -> Seq<char> {
    match file {
        Some(_) => code,
        None => Seq::empty(),
    }
}

/// The code of an application: the imports of its settings, of its
/// top-level and of its tail middleware, then those of the route tree; the
/// statements that apply each of the three where it is there; and the
/// statements of the route tree, compiled from the root with the
/// application as the enclosing router.
pub open spec fn compiled(
    app: AppStructView,
    sources: Seq<SourceView>,
    conv: ConventionView,
    not_allowed: Seq<char>,
) -> Result<CompiledView, Failure> {
    match tree_fragment(app.app, None, sources, app.dist_to_src_relpath, conv, not_allowed) {
        Err(f) => Err(f),
        Ok(tree) => Ok(
            CompiledView {
                imports: optional_import(
                    app.settings,
                    conv.settings_export_name,
                    "appSettings"@,
                    app.dist_to_src_relpath,
                ) + optional_import(
                    app.top_level_middlewares,
                    conv.middlewares_export_name,
                    "topLevelMiddlewares"@,
                    app.dist_to_src_relpath,
                ) + optional_import(
                    app.tail_middlewares,
                    conv.tail_middlewares_export_name,
                    "tailMiddlewares"@,
                    app.dist_to_src_relpath,
                ) + tree.imports,
                settings: optional_code(app.settings, settings_lines()),
                top_level_middlewares: optional_code(
                    app.top_level_middlewares,
                    use_all_line("topLevelMiddlewares"@),
                ),
                routes: tree.routes,
                tail_middlewares: optional_code(
                    app.tail_middlewares,
                    use_all_line("tailMiddlewares"@),
                ),
            },
        ),
    }
}

/// Writes `optional_import`.
fn emit_optional_import(file: &Option<String>, export: &str, alias: &str, dist: &str) -> (r: String)
    ensures
        r@ == optional_import(opt_text(*file), export@, alias@, dist@),
{
    match file {
        Some(f) => emit_root_import(export, alias, dist, f.as_str()),
        None => String::new(),
    }
}

/// Writes `optional_code`.
fn emit_optional_code(file: &Option<String>, code: String) -> (r: String)
    ensures
        r@ == optional_code(opt_text(*file), code@),
{
    match file {
        Some(_) => code,
        None => String::new(),
    }
}

/// Compiles an application structure into the five parts of the generated
/// module. Any failure in the route tree is the failure of the whole, and
/// then no part is returned.
pub fn compile_app_struct(
    app_struct: &AppStruct,
    sources: &Vec<RouteSource>,
    convention: &Convention,
    config: &Config,
) -> (r: Result<CompiledAppStruct, CompileError>)
    ensures
        match compiled(
            app_struct@,
            source_views(sources@),
            convention@,
            config.method_not_allowed_res@,
        ) {
            Ok(c) => r matches Ok(got) && got@ == c,
            Err(f) => r matches Err(e) && e@ == f,
        },
{
    let dist = app_struct.dist_to_src_relpath.as_str();
    let tree = match traverse_route(&app_struct.app, None, sources, dist, convention, config) {
        Err(e) => {
            return Err(e);
        },
        Ok(tree) => tree,
    };
    let mut imports = emit_optional_import(
        &app_struct.settings,
        convention.settings_export_name.as_str(),
        "appSettings",
        dist,
    );
    let top_import = emit_optional_import(
        &app_struct.top_level_middlewares,
        convention.middlewares_export_name.as_str(),
        "topLevelMiddlewares",
        dist,
    );
    let tail_import = emit_optional_import(
        &app_struct.tail_middlewares,
        convention.tail_middlewares_export_name.as_str(),
        "tailMiddlewares",
        dist,
    );
    imports.append(top_import.as_str());
    imports.append(tail_import.as_str());
    imports.append(tree.imports.as_str());
    let settings = emit_optional_code(
        &app_struct.settings,
        String::from_str(
            "for (const setting of appSettings) {\n      app.set(setting.name, setting.value);\n    }\n",
        ),
    );
    let top_level_middlewares = emit_optional_code(
        &app_struct.top_level_middlewares,
        emit_use_all("topLevelMiddlewares"),
    );
    let tail_middlewares = emit_optional_code(
        &app_struct.tail_middlewares,
        emit_use_all("tailMiddlewares"),
    );
    Ok(
        CompiledAppStruct {
            imports,
            settings,
            top_level_middlewares,
            routes: tree.routes,
            tail_middlewares,
        },
    )
}

} // verus!
