//! The lines of generated code, each as a text and as the function that
//! writes it.

use crate::naming::{module_specifier, strip_extensions};
use vstd::prelude::*;

verus! {

/// The comment that opens the statements of a node.
pub open spec fn header_line(name: Seq<char>, relative_path: Seq<char>) -> Seq<char> {
    "// ===== routes ["@ + name + " | "@ + relative_path + "] =====\n"@
}

/// Writes `header_line`.
pub fn emit_header(name: &str, relative_path: &str) -> (r: String)
    ensures
        r@ == header_line(name@, relative_path@),
{
    let mut s = String::from_str("// ===== routes [");
    s.append(name);
    s.append(" | ");
    s.append(relative_path);
    s.append("] =====\n");
    s
}

/// The import of `export`, under the name `alias`, from the module of
/// `file` in the directory `relative_path` of the source tree, which lies at
/// `dist` as seen from the generated module.
pub open spec fn import_line(
    export: Seq<char>,
    alias: Seq<char>,
    dist: Seq<char>,
    relative_path: Seq<char>,
    file: Seq<char>,
) -> Seq<char> {
    "import { "@ + export + " as "@ + alias + " } from \""@ + dist + "/"@ + relative_path + "/"@
        + module_specifier(file) + "\";\n"@
}

/// Writes `import_line`.
pub fn emit_import(export: &str, alias: &str, dist: &str, relative_path: &str, file: &str) -> (r:
    String)
    ensures
        r@ == import_line(export@, alias@, dist@, relative_path@, file@),
{
    let module = strip_extensions(file);
    let mut s = String::from_str("import { ");
    s.append(export);
    s.append(" as ");
    s.append(alias);
    s.append(" } from \"");
    s.append(dist);
    s.append("/");
    s.append(relative_path);
    s.append("/");
    s.append(module.as_str());
    s.append("\";\n");
    s
}

/// The import of `export`, under the name `alias`, from the module of a
/// file that lies at the source root.
pub open spec fn root_import_line(
    export: Seq<char>,
    alias: Seq<char>,
    dist: Seq<char>,
    file: Seq<char>,
) -> Seq<char> {
    "import { "@ + export + " as "@ + alias + " } from \""@ + dist + "/"@ + module_specifier(file)
        + "\";\n"@
}

/// Writes `root_import_line`.
pub fn emit_root_import(export: &str, alias: &str, dist: &str, file: &str) -> (r: String)
    ensures
        r@ == root_import_line(export@, alias@, dist@, file@),
{
    let module = strip_extensions(file);
    let mut s = String::from_str("import { ");
    s.append(export);
    s.append(" as ");
    s.append(alias);
    s.append(" } from \"");
    s.append(dist);
    s.append("/");
    s.append(module.as_str());
    s.append("\";\n");
    s
}

/// The statements that create the sub-router of the node with the
/// identifier `id`, mount it on the router `parent` at the path `declared`,
/// and put the node's middleware to work on it.
pub open spec fn mount_lines(id: Seq<char>, parent: Seq<char>, declared: Seq<char>) -> Seq<char> {
    "const "@ + id + "Router = express.Router();\n"@ + parent + ".use(\""@ + declared + "\", "@
        + id + "Router);\n"@ + id + "Router.use(..."@ + id + "Middlewares);\n"@
}

/// Writes `mount_lines`.
pub fn emit_mount(id: &str, parent: &str, declared: &str) -> (r: String)
    ensures
        r@ == mount_lines(id@, parent@, declared@),
{
    let mut s = String::from_str("const ");
    s.append(id);
    s.append("Router = express.Router();\n");
    s.append(parent);
    s.append(".use(\"");
    s.append(declared);
    s.append("\", ");
    s.append(id);
    s.append("Router);\n");
    s.append(id);
    s.append("Router.use(...");
    s.append(id);
    s.append("Middlewares);\n");
    s
}

/// What stands before the call of a handler: the wait for a deferred
/// handler, nothing for another.
pub open spec fn wait_marker(is_deferred: bool) -> Seq<char> {
    if is_deferred {
        "await "@
    } else {
        Seq::empty()
    }
}

/// The statement that hands a request of the method `method` to the handler
/// imported as `alias`, and ends the dispatch.
pub open spec fn dispatch_clause(method: Seq<char>, alias: Seq<char>, is_deferred: bool) -> Seq<
    char,
> {
    "if (req.method === \""@ + method + "\") { "@ + wait_marker(is_deferred) + alias
        + "(req, res); return; }\n"@
}

/// Writes `dispatch_clause`.
pub fn emit_dispatch(method: &str, alias: &str, is_deferred: bool) -> (r: String)
    ensures
        r@ == dispatch_clause(method@, alias@, is_deferred),
{
    let mut s = String::from_str("if (req.method === \"");
    s.append(method);
    s.append("\") { ");
    let ghost before = s@;
    if is_deferred {
        s.append("await ");
    } else {
        assert(s@ =~= before + Seq::<char>::empty());
    }
    s.append(alias);
    s.append("(req, res); return; }\n");
    s
}

/// The one registration of a route: on the router `router`, for every
/// method, at the path `declared`; its body is the dispatch `inner`, and
/// then the answer `not_allowed` to a method that no handler takes.
pub open spec fn registration(
    router: Seq<char>,
    declared: Seq<char>,
    inner: Seq<char>,
    not_allowed: Seq<char>,
) -> Seq<char> {
    router + ".all(\""@ + declared + "\", async (req, res) => { "@ + inner + " "@ + not_allowed
        + " });\n"@
}

/// Writes `registration`.
pub fn emit_registration(router: &str, declared: &str, inner: &str, not_allowed: &str) -> (r:
    String)
    ensures
        r@ == registration(router@, declared@, inner@, not_allowed@),
{
    let mut s = String::from_str(router);
    s.append(".all(\"");
    s.append(declared);
    s.append("\", async (req, res) => { ");
    s.append(inner);
    s.append(" ");
    s.append(not_allowed);
    s.append(" });\n");
    s
}

/// The loop that applies the settings of the application.
pub open spec fn settings_lines() -> Seq<char> {
    "for (const setting of appSettings) {\n      app.set(setting.name, setting.value);\n    }\n"@
}

/// The statement that puts the middleware imported as `alias` to work on
/// the application.
pub open spec fn use_all_line(alias: Seq<char>) -> Seq<char> {
    "app.use(..."@ + alias + ");\n"@
}

/// Writes `use_all_line`.
pub fn emit_use_all(alias: &str) -> (r: String)
    ensures
        r@ == use_all_line(alias@),
{
    let mut s = String::from_str("app.use(...");
    s.append(alias);
    s.append(");\n");
    s
}

} // verus!
