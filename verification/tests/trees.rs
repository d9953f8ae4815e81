use nexp_compiler::compile::{
    compile_endpoint, compile_middlewares, compile_route, route_file_of, scan_route,
    traverse_route, RouteSource, SubRouter,
};
use nexp_compiler::convention::{Config, Convention};
use nexp_compiler::emit::{
    emit_dispatch, emit_header, emit_import, emit_mount, emit_registration, emit_root_import,
    emit_use_all,
};
use nexp_compiler::error::{CompileError, ErrorKind};
use nexp_compiler::scan::EndpointHandler;
use nexp_compiler::tree::{build_app_struct, sort_children, AppRoute, Change, TreeEntry};
use nexp_compiler::walk::{relative_entries, WalkedEntry};

fn node(name: &str, relative_path: &str) -> AppRoute {
    AppRoute::new(name, relative_path)
}

fn names(children: &[AppRoute]) -> Vec<&str> {
    children.iter().map(|c| c.name.as_str()).collect()
}

fn entry(path: &str, is_dir: bool) -> TreeEntry {
    TreeEntry { relative_path: path.to_string(), is_dir }
}

#[test]
fn default_convention_and_config() {
    let c = Convention::default();
    assert_eq!(c.app_dir_name, "app");
    assert_eq!(c.support_ext, vec![".ts", ".js"]);
    assert_eq!(c.route_file_basename, "route");
    assert_eq!(c.middlewares_file_basename, "middlewares");
    assert_eq!(c.tail_middlewares_file_basename, "tail-middlewares");
    assert_eq!(c.settings_file_basename, "settings");
    assert_eq!(c.custom_server_basename, "custom-server");
    assert_eq!(c.settings_export_name, "settings");
    assert_eq!(c.middlewares_export_name, "middlewares");
    assert_eq!(c.tail_middlewares_export_name, "middlewares");
    assert_eq!(
        c.server_template,
        "import express from \"express\";\n/* __nextExpress_imports__ */\n\nexport const createServer = () => {\n  const app = express();\n\n  /* __nextExpress_settings__ */\n\n  /* __nextExpress_topLevelMiddlewares__ */\n\n  /* __nextExpress_routes__ */\n\n  /* __nextExpress_tailMiddlewares__ */\n  return app;\n};\n"
    );
    assert_eq!(
        Config::default().method_not_allowed_res,
        "res.status(405).send(`Method ${req.method} Not Allowed`);"
    );
}

#[test]
fn filenames_of_roles() {
    let c = Convention::default();
    assert_eq!(c.get_filenames("x"), vec!["x.ts", "x.js"]);
    assert_eq!(c.get_route_filenames(), vec!["route.ts", "route.js"]);
    assert_eq!(c.get_middlewares_filenames(), vec!["middlewares.ts", "middlewares.js"]);
    assert_eq!(
        c.get_tail_middlewares_filenames(),
        vec!["tail-middlewares.ts", "tail-middlewares.js"]
    );
    assert_eq!(c.get_settings_filenames(), vec!["settings.ts", "settings.js"]);
    assert_eq!(c.get_custom_server_filenames(), vec!["custom-server.ts", "custom-server.js"]);
    let mut none = Convention::default();
    none.support_ext = vec![];
    assert_eq!(none.get_route_filenames(), Vec::<String>::new());
    let changed = Convention::default().with_server_template("T");
    assert_eq!(changed.server_template, "T");
    assert_eq!(changed.app_dir_name, "app");
}

#[test]
fn builder_attaches_files_to_their_directories() {
    let app = build_app_struct(
        "src",
        "..",
        &vec![
            entry("", true),
            entry("app", true),
            entry("app/route.js", false),
            entry("app/users", true),
            entry("app/users/route.ts", false),
            entry("app/users/middlewares.js", false),
            entry("app/users/helper.ts", false),
            entry("app/users/[id]", true),
            entry("app/users/[id]/route.ts", false),
            entry("app/(group)", true),
            entry("app/(group)/route.ts", false),
            entry("app/(group)/middlewares.ts", false),
            entry("app/(group)/inner", true),
            entry("app/(group)/inner/route.ts", false),
            entry("lib", true),
            entry("lib/route.ts", false),
            entry("application", true),
            entry("application/route.ts", false),
            entry("app/settings.ts", false),
        ],
        &Convention::default(),
    );
    assert_eq!(app.src_dir, "src");
    assert_eq!(app.dist_to_src_relpath, "..");
    assert_eq!(app.settings, None);
    assert_eq!(app.top_level_middlewares, None);
    assert_eq!(app.tail_middlewares, None);
    let root = &app.app;
    assert_eq!(root.name, "app");
    assert_eq!(root.relative_path, "app");
    assert_eq!(root.route.as_deref(), Some("route.js"));
    assert_eq!(root.middlewares, None);
    assert_eq!(names(&root.children), vec!["users", "(group)"]);
    let users = &root.children[0];
    assert_eq!(users.relative_path, "app/users");
    assert_eq!(users.route.as_deref(), Some("route.ts"));
    assert_eq!(users.middlewares.as_deref(), Some("middlewares.js"));
    assert_eq!(names(&users.children), vec!["[id]"]);
    assert_eq!(users.children[0].relative_path, "app/users/[id]");
    assert_eq!(users.children[0].route.as_deref(), Some("route.ts"));
    let group = &root.children[1];
    assert_eq!(group.route, None);
    assert_eq!(group.middlewares, None);
    assert_eq!(names(&group.children), vec!["inner"]);
    assert_eq!(group.children[0].route.as_deref(), Some("route.ts"));
}

#[test]
fn builder_skips_what_has_no_directory_in_the_tree() {
    let app = build_app_struct(
        "src",
        "..",
        &vec![entry("app/a/b", true), entry("app/a/route.ts", false), entry("x/y", true)],
        &Convention::default(),
    );
    assert!(app.app.children.is_empty());
    assert_eq!(app.app.route, None);
}

#[test]
fn builder_keeps_the_last_route_file_of_a_directory() {
    let app = build_app_struct(
        "src",
        "..",
        &vec![entry("app/route.ts", false), entry("app/route.js", false)],
        &Convention::default(),
    );
    assert_eq!(app.app.route.as_deref(), Some("route.js"));
}

#[test]
fn builder_names_the_root_after_the_routing_root() {
    let mut convention = Convention::default();
    convention.app_dir_name = "routes".to_string();
    let app = build_app_struct(
        "src",
        "..",
        &vec![entry("routes", true), entry("routes/a", true), entry("app/b", true)],
        &convention,
    );
    assert_eq!(app.app.name, "routes");
    assert_eq!(app.app.relative_path, "routes");
    assert_eq!(names(&app.app.children), vec!["a"]);
}

#[test]
fn update_changes_the_first_node_with_the_path() {
    let mut root = node("app", "app");
    let add = |name: &str, path: &str| Change::AddChild {
        name: name.to_string(),
        relative_path: path.to_string(),
    };
    assert!(root.update_at("app", &add("a", "app/a")));
    assert!(root.update_at("app", &add("b", "app/b")));
    assert!(root.update_at("app", &add("b2", "app/b")));
    assert!(root.update_at("app/b", &add("c", "app/b/c")));
    assert!(!root.update_at("app/z", &add("c", "app/z/c")));
    assert_eq!(names(&root.children), vec!["a", "b", "b2"]);
    assert_eq!(names(&root.children[1].children), vec!["c"]);
    assert!(root.children[2].children.is_empty());
    let attach = Change::Attach { file: "f.ts".to_string(), as_route: true, as_middlewares: false };
    assert!(root.update_at("app/b/c", &attach));
    assert_eq!(root.children[1].children[0].route.as_deref(), Some("f.ts"));
    assert_eq!(root.children[1].children[0].middlewares, None);
    let both = Change::Attach { file: "g.ts".to_string(), as_route: true, as_middlewares: true };
    assert!(root.update_at("app/a", &both));
    assert_eq!(root.children[0].route.as_deref(), Some("g.ts"));
    assert_eq!(root.children[0].middlewares.as_deref(), Some("g.ts"));
    let neither =
        Change::Attach { file: "h.ts".to_string(), as_route: false, as_middlewares: false };
    assert!(root.update_at("app/a", &neither));
    assert_eq!(root.children[0].route.as_deref(), Some("g.ts"));
}

#[test]
fn siblings_are_sorted_without_regard_to_case() {
    let mut children = vec![
        node("b", "1"),
        node("B", "2"),
        node("a", "3"),
        node("C", "4"),
        node("A", "5"),
        node("É", "6"),
        node("é", "7"),
        node("_x", "8"),
    ];
    sort_children(&mut children);
    let order: Vec<(&str, &str)> =
        children.iter().map(|c| (c.name.as_str(), c.relative_path.as_str())).collect();
    assert_eq!(
        order,
        vec![
            ("_x", "8"),
            ("a", "3"),
            ("A", "5"),
            ("b", "1"),
            ("B", "2"),
            ("C", "4"),
            ("É", "6"),
            ("é", "7"),
        ]
    );
    let mut none: Vec<AppRoute> = vec![];
    sort_children(&mut none);
    assert!(none.is_empty());
}

#[test]
fn the_whole_tree_is_sorted() {
    let mut root = node("app", "app");
    let mut only = node("only", "app/only");
    only.children.push(node("z", "app/only/z"));
    only.children.push(node("Y", "app/only/Y"));
    only.children.push(node("x", "app/only/x"));
    root.children.push(only);
    root.sort_app_route();
    assert_eq!(names(&root.children), vec!["only"]);
    assert_eq!(names(&root.children[0].children), vec!["x", "Y", "z"]);
}

fn router(identifier: &str, path: &str) -> SubRouter {
    SubRouter { identifier: identifier.to_string(), path: path.to_string() }
}

fn handler(name: &str, is_async: bool) -> EndpointHandler {
    EndpointHandler { export_name: name.to_string(), is_async }
}

fn kind_and_path(e: CompileError) -> (ErrorKind, String) {
    (e.kind, e.path)
}

#[test]
fn lines_of_generated_code() {
    assert_eq!(emit_header("a", "app/a"), "// ===== routes [a | app/a] =====\n");
    assert_eq!(
        emit_import("GET", "app_a_GET", "../src", "app/a", "route.ts"),
        "import { GET as app_a_GET } from \"../src/app/a/route\";\n"
    );
    assert_eq!(
        emit_root_import("settings", "appSettings", "..", "settings.js"),
        "import { settings as appSettings } from \"../settings\";\n"
    );
    assert_eq!(
        emit_mount("a", "app", "/a"),
        "const aRouter = express.Router();\napp.use(\"/a\", aRouter);\naRouter.use(...aMiddlewares);\n"
    );
    assert_eq!(
        emit_dispatch("GET", "x_GET", false),
        "if (req.method === \"GET\") { x_GET(req, res); return; }\n"
    );
    assert_eq!(
        emit_dispatch("GET", "x_GET", true),
        "if (req.method === \"GET\") { await x_GET(req, res); return; }\n"
    );
    assert_eq!(
        emit_registration("app", "/a/", "INNER", "NOPE"),
        "app.all(\"/a/\", async (req, res) => { INNER NOPE });\n"
    );
    assert_eq!(emit_use_all("tailMiddlewares"), "app.use(...tailMiddlewares);\n");
}

#[test]
fn middleware_of_a_node() {
    let mut n = node("user-list", "app/api/user-list");
    n.middlewares = Some("middlewares.ts".to_string());
    let parent = router("apiRouter", "/api");
    let (fragment, mounted) =
        compile_middlewares(&n, Some(&parent), "../src", &Convention::default()).unwrap().unwrap();
    assert_eq!(
        fragment.imports,
        "import { middlewares as user_listMiddlewares } from \"../src/app/api/user-list/middlewares\";\n"
    );
    assert_eq!(
        fragment.routes,
        "const user_listRouter = express.Router();\napiRouter.use(\"/user-list\", user_listRouter);\nuser_listRouter.use(...user_listMiddlewares);\n"
    );
    assert_eq!(mounted.identifier, "user_listRouter");
    assert_eq!(mounted.path, "/api/user-list");

    let (fragment, mounted) =
        compile_middlewares(&n, None, "../src", &Convention::default()).unwrap().unwrap();
    assert!(fragment.routes.contains("app.use(\"/api/user-list\", user_listRouter);\n"));
    assert_eq!(mounted.path, "/api/user-list");

    let unrelated = router("xRouter", "/x");
    let (fragment, _) =
        compile_middlewares(&n, Some(&unrelated), "../src", &Convention::default())
            .unwrap()
            .unwrap();
    assert!(fragment.routes.contains("xRouter.use(\"/api/user-list\", user_listRouter);\n"));

    let bare = node("bare", "app/bare");
    assert!(compile_middlewares(&bare, None, "../src", &Convention::default()).unwrap().is_none());
}

#[test]
fn middleware_of_a_virtual_group_fails() {
    let mut n = node("(group)", "app/(group)");
    n.middlewares = Some("middlewares.ts".to_string());
    let err = compile_middlewares(&n, None, "../src", &Convention::default()).unwrap_err();
    assert_eq!(kind_and_path(err), (ErrorKind::InvalidRouteName, "app/(group)".to_string()));
    n.middlewares = None;
    assert!(compile_middlewares(&n, None, "../src", &Convention::default()).unwrap().is_none());
}

#[test]
fn endpoint_of_a_node() {
    let mut n = node("b", "app/a/b");
    n.route = Some("route.ts".to_string());
    assert_eq!(route_file_of(&n).as_deref(), Some("app/a/b/route.ts"));
    assert_eq!(route_file_of(&node("x", "app/x")), None);
    let own = router("bRouter", "/a/b");
    let handlers = vec![handler("get", false), handler("default", true)];
    let fragment =
        compile_endpoint(&n, Some(&own), "/a/b/", &handlers, "..", &Config::default()).unwrap();
    assert_eq!(
        fragment.imports,
        "import { get as app_a_b_get } from \"../app/a/b/route\";\nimport { default as app_a_b_default } from \"../app/a/b/route\";\n"
    );
    assert_eq!(
        fragment.routes,
        "bRouter.all(\"/\", async (req, res) => { if (req.method === \"GET\") { app_a_b_get(req, res); return; }\nif (req.method === \"DEFAULT\") { await app_a_b_default(req, res); return; }\n res.status(405).send(`Method ${req.method} Not Allowed`); });\n"
    );
    let err = compile_endpoint(&n, Some(&own), "/a/b/", &vec![], "..", &Config::default())
        .unwrap_err();
    assert_eq!(kind_and_path(err), (ErrorKind::EmptyHandlerSet, "app/a/b/route.ts".to_string()));
    let bare = node("b", "app/a/b");
    let nothing =
        compile_endpoint(&bare, Some(&own), "/a/b/", &vec![], "..", &Config::default()).unwrap();
    assert_eq!(nothing.imports, "");
    assert_eq!(nothing.routes, "");
}

#[test]
fn node_without_files_brings_nothing() {
    let n = node("a", "app/a");
    let (fragment, mounted) =
        compile_route(&n, None, &vec![], "..", &Convention::default(), &Config::default())
            .unwrap();
    assert_eq!(fragment.imports, "");
    assert_eq!(fragment.routes, "");
    assert!(mounted.is_none());
}

#[test]
fn route_outside_the_routing_root_fails() {
    let mut n = node("a", "lib/a");
    n.route = Some("route.ts".to_string());
    let sources = vec![RouteSource {
        path: "lib/a/route.ts".to_string(),
        text: "export function GET() {}".to_string(),
    }];
    let err = compile_route(&n, None, &sources, "..", &Convention::default(), &Config::default())
        .unwrap_err();
    assert_eq!(kind_and_path(err), (ErrorKind::PathResolutionError, "lib/a/route.ts".to_string()));
}

#[test]
fn the_first_source_with_the_path_is_scanned() {
    let sources = vec![
        RouteSource { path: "a".to_string(), text: "export function A() {}".to_string() },
        RouteSource { path: "b".to_string(), text: "export function B() {}".to_string() },
        RouteSource { path: "b".to_string(), text: "export function ( {".to_string() },
    ];
    let found = scan_route(&sources, "b").unwrap();
    assert_eq!(found.len(), 1);
    assert_eq!(found[0].export_name, "B");
    let err = scan_route(&sources, "c").unwrap_err();
    assert_eq!(kind_and_path(err), (ErrorKind::IOError, "c".to_string()));
}

#[test]
fn children_use_the_router_of_the_nearest_ancestor() {
    let mut root = node("app", "app");
    let mut a = node("a", "app/a");
    a.middlewares = Some("middlewares.ts".to_string());
    let mut plain = node("plain", "app/a/plain");
    let mut deep = node("deep", "app/a/plain/deep");
    deep.route = Some("route.ts".to_string());
    plain.children.push(deep);
    a.children.push(plain);
    let mut sibling = node("s", "app/s");
    sibling.route = Some("route.ts".to_string());
    root.children.push(a);
    root.children.push(sibling);
    let sources = vec![
        RouteSource {
            path: "app/a/plain/deep/route.ts".to_string(),
            text: "export function GET() {}".to_string(),
        },
        RouteSource { path: "app/s/route.ts".to_string(), text: "export function GET() {}".to_string() },
    ];
    let fragment =
        traverse_route(&root, None, &sources, "..", &Convention::default(), &Config::default())
            .unwrap();
    assert!(fragment.routes.contains("aRouter.all(\"/plain/deep/\", async"));
    assert!(fragment.routes.contains("app.all(\"/s/\", async"));
    assert!(!fragment.routes.contains("routes [app | app]"));
    assert!(!fragment.routes.contains("routes [plain |"));
}

#[test]
fn relative_entries_keep_order_and_kind() {
    let walked = vec![
        WalkedEntry { path: "/r/s".to_string(), is_dir: true },
        WalkedEntry { path: "/r/s/app/x.ts".to_string(), is_dir: false },
        WalkedEntry { path: "/r/other".to_string(), is_dir: true },
    ];
    let entries = relative_entries(&walked, "/r/s").unwrap();
    let got: Vec<(&str, bool)> =
        entries.iter().map(|e| (e.relative_path.as_str(), e.is_dir)).collect();
    assert_eq!(got, vec![("", true), ("app/x.ts", false), ("../other", true)]);
}
