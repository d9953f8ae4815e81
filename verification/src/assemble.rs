//! The template assembler and the whole compilation: from an application
//! structure and the texts of its route modules to the generated module.

use crate::compile::{
    compile_app_struct, compiled, route_file_of, route_file_path, source_views, CompiledAppStruct,
    CompiledView, RouteSource, SourceView,
};
use crate::convention::{Config, Convention, ConventionView};
use crate::error::{CompileError, Failure};
use crate::text::{replace, replace_all, texts};
use crate::tree::{lemma_node_view, nodes, sorted_tree, AppRoute, AppStruct, AppStructView, RouteNode};
use vstd::prelude::*;

verus! {

/// The marker that the imports replace.
pub const IMPORTS_MARKER: &'static str = "/* __nextExpress_imports__ */";

/// The marker that the settings loop replaces.
pub const SETTINGS_MARKER: &'static str = "/* __nextExpress_settings__ */";

/// The marker that the top-level middleware replaces.
pub const TOP_LEVEL_MIDDLEWARES_MARKER: &'static str = "/* __nextExpress_topLevelMiddlewares__ */";

/// The marker that the statements of the route tree replace.
pub const ROUTES_MARKER: &'static str = "/* __nextExpress_routes__ */";

/// The marker that the tail middleware replaces.
pub const TAIL_MIDDLEWARES_MARKER: &'static str = "/* __nextExpress_tailMiddlewares__ */";

/// The template with each marker replaced by its part of the code: the
/// imports first, then the settings, the top-level middleware, the routes
/// and the tail middleware. A part whose marker the template lacks is
/// dropped.
pub open spec fn assembled(template: Seq<char>, c: CompiledView) -> Seq<char> {
    replace_all(
        replace_all(
            replace_all(
                replace_all(
                    replace_all(template, IMPORTS_MARKER@, c.imports),
                    SETTINGS_MARKER@,
                    c.settings,
                ),
                TOP_LEVEL_MIDDLEWARES_MARKER@,
                c.top_level_middlewares,
            ),
            ROUTES_MARKER@,
            c.routes,
        ),
        TAIL_MIDDLEWARES_MARKER@,
        c.tail_middlewares,
    )
}

/// Fills the template with the compiled code.
pub fn assemble(template: &str, code: &CompiledAppStruct) -> (r: String)
    ensures
        r@ == assembled(template@, code@),
{
    let a = replace(template, IMPORTS_MARKER, code.imports.as_str());
    let b = replace(a.as_str(), SETTINGS_MARKER, code.settings.as_str());
    let c = replace(
        b.as_str(),
        TOP_LEVEL_MIDDLEWARES_MARKER,
        code.top_level_middlewares.as_str(),
    );
    let d = replace(c.as_str(), ROUTES_MARKER, code.routes.as_str());
    replace(d.as_str(), TAIL_MIDDLEWARES_MARKER, code.tail_middlewares.as_str())
}

/// The paths of the route files of the tree below `n`, from the source
/// root: that of `n` first, then those below its children, in their order.
pub open spec fn route_paths(n: RouteNode) -> Seq<Seq<char>>
    decreases n,
{
    (if n.route is Some {
        seq![route_file_path(n)]
    } else {
        Seq::empty()
    }) + forest_route_paths(n.children)
}

/// The paths of the route files of the trees `cs`, in their order.
pub open spec fn forest_route_paths(cs: Seq<RouteNode>) -> Seq<Seq<char>>
    decreases cs,
{
    if cs.len() == 0 {
        Seq::empty()
    } else {
        forest_route_paths(cs.drop_last()) + route_paths(cs.last())
    }
}

/// Appends the paths of the route files of the tree below `node`.
fn collect_route_files(node: &AppRoute, out: &mut Vec<String>)
    ensures
        texts(final(out)@) == texts(old(out)@) + route_paths(node@),
    decreases node,
{
    proof {
        lemma_node_view(*node);
    }
    let ghost start = texts(out@);
    let ghost own = if node@.route is Some {
        seq![route_file_path(node@)]
    } else {
        Seq::empty()
    };
    match route_file_of(node) {
        Some(path) => out.push(path),
        None => {},
    }
    let ghost cs = node@.children;
    let mut i: usize = 0;
    assert(texts(out@) =~= start + (own + forest_route_paths(cs.take(0))));
    while i < node.children.len()
        invariant
            i <= node.children.len(),
            cs == nodes(node.children@),
            texts(out@) == start + (own + forest_route_paths(cs.take(i as int))),
        decreases node.children.len() - i,
    {
        let child = &node.children[i];
        proof {
            assert(cs.take(i + 1).drop_last() == cs.take(i as int));
            assert(cs.take(i + 1).last() == child@);
        }
        collect_route_files(child, out);
        assert(texts(out@) =~= start + (own + forest_route_paths(cs.take(i + 1))));
        i = i + 1;
    }
    assert(cs.take(i as int) == cs);
}

/// The paths, from the source root, of the route files that a compilation
/// of `app_struct` reads: those of the route tree, the root's first.
pub fn route_file_paths(app_struct: &AppStruct) -> (r: Vec<String>)
    ensures
        texts(r@) == route_paths(app_struct@.app),
{
    let mut out: Vec<String> = Vec::new();
    collect_route_files(&app_struct.app, &mut out);
    assert(texts(out@) =~= route_paths(app_struct@.app));
    out
}

/// The generated module of an application: its route tree is sorted, the
/// sorted structure is compiled, and the template of the convention is
/// filled with the code. A failure of the compilation is the failure of the
/// whole, and then there is no module.
pub open spec fn output(
    app: AppStructView,
    sources: Seq<SourceView>,
    conv: ConventionView,
    not_allowed: Seq<char>,
) -> Result<Seq<char>, Failure> {
    match compiled(AppStructView { app: sorted_tree(app.app), ..app }, sources, conv, not_allowed) {
        Err(f) => Err(f),
        Ok(code) => Ok(assembled(conv.server_template, code)),
    }
}

/// Compiles an application structure, as the walk has left it, and the
/// texts of its route modules into the text of the generated module.
///
/// Nothing is written anywhere: the caller has the whole module or the
/// failure, never a part.
pub fn compile(
    app_struct: AppStruct,
    sources: &Vec<RouteSource>,
    convention: &Convention,
    config: &Config,
) -> (r: Result<String, CompileError>)
    ensures
        match output(
            app_struct@,
            source_views(sources@),
            convention@,
            config.method_not_allowed_res@,
        ) {
            Ok(text) => r matches Ok(got) && got@ == text,
            Err(f) => r matches Err(e) && e@ == f,
        },
{
    let mut app_struct = app_struct;
    app_struct.app.sort_app_route();
    match compile_app_struct(&app_struct, sources, convention, config) {
        Err(e) => Err(e),
        Ok(code) => Ok(assemble(convention.server_template.as_str(), &code)),
    }
}

} // verus!
