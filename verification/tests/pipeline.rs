use nexp_compiler::assemble::{assemble, compile, route_file_paths};
use nexp_compiler::compile::{CompiledAppStruct, RouteSource};
use nexp_compiler::convention::{Config, Convention};
use nexp_compiler::error::ErrorKind;
use nexp_compiler::tree::{build_app_struct, AppStruct, TreeEntry};
use nexp_compiler::walk::{get_app_struct, WalkedEntry};

fn dir(path: &str) -> TreeEntry {
    TreeEntry { relative_path: path.to_string(), is_dir: true }
}

fn file(path: &str) -> TreeEntry {
    TreeEntry { relative_path: path.to_string(), is_dir: false }
}

fn source(path: &str, text: &str) -> RouteSource {
    RouteSource { path: path.to_string(), text: text.to_string() }
}

fn structure(entries: Vec<TreeEntry>) -> AppStruct {
    build_app_struct("src", "../src", &entries, &Convention::default())
}

const NOT_ALLOWED: &str = "res.status(405).send(`Method ${req.method} Not Allowed`);";

#[test]
fn nested_sub_routers_are_mounted_relative_to_the_nearest_router() {
    let app = structure(vec![
        dir(""),
        dir("app"),
        dir("app/a"),
        file("app/a/middlewares.ts"),
        dir("app/a/b"),
        file("app/a/b/middlewares.ts"),
        file("app/a/b/route.ts"),
    ]);
    let sources = vec![source("app/a/b/route.ts", "export function GET(req, res) {}")];
    let out = compile(app, &sources, &Convention::default(), &Config::default()).unwrap();
    let expected = format!(
        "import express from \"express\";\n\
import {{ middlewares as aMiddlewares }} from \"../src/app/a/middlewares\";\n\
import {{ middlewares as bMiddlewares }} from \"../src/app/a/b/middlewares\";\n\
import {{ GET as app_a_b_GET }} from \"../src/app/a/b/route\";\n\
\n\
\n\
export const createServer = () => {{\n  const app = express();\n\n  \n\n  \n\n  \
// ===== routes [a | app/a] =====\n\
const aRouter = express.Router();\n\
app.use(\"/a\", aRouter);\n\
aRouter.use(...aMiddlewares);\n\
\n\
// ===== routes [b | app/a/b] =====\n\
const bRouter = express.Router();\n\
aRouter.use(\"/b\", bRouter);\n\
bRouter.use(...bMiddlewares);\n\
bRouter.all(\"/\", async (req, res) => {{ if (req.method === \"GET\") {{ app_a_b_GET(req, res); return; }}\n {} }});\n\
\n\
\n\n  \n  return app;\n}};\n",
        NOT_ALLOWED
    );
    assert_eq!(out, expected);
    assert!(!out.contains("bRouter.use(\"/a"));
    assert!(!out.contains("bRouter.all(\"/a"));
}

#[test]
fn get_and_post_share_one_registration() {
    let app = structure(vec![dir("app"), dir("app/users"), file("app/users/route.ts")]);
    let sources = vec![source(
        "app/users/route.ts",
        "export function GET(req, res) {}\nexport const POST = async (req, res) => {};\n",
    )];
    let out = compile(app, &sources, &Convention::default(), &Config::default()).unwrap();
    let registration = format!(
        "app.all(\"/users/\", async (req, res) => {{ \
if (req.method === \"GET\") {{ app_users_GET(req, res); return; }}\n\
if (req.method === \"POST\") {{ await app_users_POST(req, res); return; }}\n {} }});\n",
        NOT_ALLOWED
    );
    assert!(out.contains(&registration), "{}", out);
    assert_eq!(out.matches(".all(").count(), 1);
    assert!(!out.contains("\"PUT\""));
    assert!(out.contains("import { GET as app_users_GET } from \"../src/app/users/route\";\n"));
    assert!(out.contains("import { POST as app_users_POST } from \"../src/app/users/route\";\n"));
}

#[test]
fn route_without_handlers_fails() {
    let app = structure(vec![dir("app"), dir("app/users"), file("app/users/route.ts")]);
    let sources = vec![source("app/users/route.ts", "const x = 1;\nexport const y = 2;\n")];
    let err = compile(app, &sources, &Convention::default(), &Config::default()).unwrap_err();
    assert_eq!(err.kind, ErrorKind::EmptyHandlerSet);
    assert_eq!(err.path, "app/users/route.ts");
}

#[test]
fn route_that_does_not_parse_fails() {
    let app = structure(vec![dir("app"), dir("app/users"), file("app/users/route.ts")]);
    let sources = vec![source("app/users/route.ts", "export function GET( {")];
    let err = compile(app, &sources, &Convention::default(), &Config::default()).unwrap_err();
    assert_eq!(err.kind, ErrorKind::ParseError);
    assert_eq!(err.path, "app/users/route.ts");
}

#[test]
fn route_without_text_fails() {
    let app = structure(vec![dir("app"), dir("app/users"), file("app/users/route.ts")]);
    let err = compile(app, &vec![], &Convention::default(), &Config::default()).unwrap_err();
    assert_eq!(err.kind, ErrorKind::IOError);
    assert_eq!(err.path, "app/users/route.ts");
}

#[test]
fn first_failure_in_tree_order_wins() {
    let app = structure(vec![
        dir("app"),
        dir("app/zeta"),
        file("app/zeta/route.ts"),
        dir("app/alpha"),
        file("app/alpha/route.ts"),
    ]);
    let sources = vec![source("app/zeta/route.ts", "export function GET( {")];
    let err = compile(app, &sources, &Convention::default(), &Config::default()).unwrap_err();
    assert_eq!(err.kind, ErrorKind::IOError);
    assert_eq!(err.path, "app/alpha/route.ts");
}

#[test]
fn compiling_twice_gives_the_same_text() {
    let entries = || {
        vec![
            dir("app"),
            file("settings.ts"),
            dir("app/b"),
            file("app/b/route.ts"),
            dir("app/A"),
            file("app/A/route.ts"),
        ]
    };
    let sources = vec![
        source("app/b/route.ts", "export default async function (req, res) {}"),
        source("app/A/route.ts", "export async function DELETE(req, res) {}"),
    ];
    let first =
        compile(structure(entries()), &sources, &Convention::default(), &Config::default())
            .unwrap();
    let second =
        compile(structure(entries()), &sources, &Convention::default(), &Config::default())
            .unwrap();
    assert_eq!(first, second);
    let a = first.find("routes [A | app/A]").unwrap();
    let b = first.find("routes [b | app/b]").unwrap();
    assert!(a < b);
    assert!(first.contains("if (req.method === \"DEFAULT\") { await app_b_default(req, res); return; }"));
    assert!(first.contains("if (req.method === \"DELETE\") { await app_A_DELETE(req, res); return; }"));
    assert!(first.contains("import { settings as appSettings } from \"../src/settings\";\n"));
    assert!(first.contains(
        "for (const setting of appSettings) {\n      app.set(setting.name, setting.value);\n    }\n"
    ));
}

#[test]
fn virtual_group_is_left_out_of_the_endpoint() {
    let app = structure(vec![
        dir("app"),
        dir("app/(admin)"),
        file("app/(admin)/route.ts"),
        dir("app/(admin)/users"),
        file("app/(admin)/users/route.ts"),
    ]);
    assert_eq!(route_file_paths(&app), vec!["app/(admin)/users/route.ts".to_string()]);
    let sources = vec![source("app/(admin)/users/route.ts", "export const GET = () => {};")];
    let out = compile(app, &sources, &Convention::default(), &Config::default()).unwrap();
    assert!(out.contains("app.all(\"/users/\", "));
    assert!(out.contains(
        "import { GET as app_$28admin$29_users_GET } from \"../src/app/(admin)/users/route\";\n"
    ));
    assert!(!out.contains(".all(\"/(admin)"));
}

#[test]
fn app_level_modules_are_imported_and_applied() {
    let app = structure(vec![
        file("middlewares.ts"),
        file("tail-middlewares.js"),
        file("settings.js"),
        file("settings.ts"),
        dir("app"),
        file("app/route.ts"),
        file("app/middlewares.ts"),
    ]);
    assert_eq!(app.settings.as_deref(), Some("settings.js"));
    assert_eq!(app.top_level_middlewares.as_deref(), Some("middlewares.ts"));
    assert_eq!(app.tail_middlewares.as_deref(), Some("tail-middlewares.js"));
    assert_eq!(app.app.route.as_deref(), Some("route.ts"));
    assert_eq!(app.app.middlewares.as_deref(), Some("middlewares.ts"));
    let sources = vec![source("app/route.ts", "export function GET() {}")];
    let out = compile(app, &sources, &Convention::default(), &Config::default()).unwrap();
    let imports = "import { settings as appSettings } from \"../src/settings\";\n\
import { middlewares as topLevelMiddlewares } from \"../src/middlewares\";\n\
import { middlewares as tailMiddlewares } from \"../src/tail-middlewares\";\n\
import { middlewares as appMiddlewares } from \"../src/app/middlewares\";\n\
import { GET as app_GET } from \"../src/app/route\";\n";
    assert!(out.contains(imports), "{}", out);
    assert!(out.contains("app.use(...topLevelMiddlewares);\n"));
    assert!(out.contains("app.use(...tailMiddlewares);\n"));
    assert!(out.contains(
        "const appRouter = express.Router();\napp.use(\"\", appRouter);\nappRouter.use(...appMiddlewares);\n"
    ));
    assert!(out.contains("appRouter.all(\"/\", async (req, res) => {"));
}

#[test]
fn template_parts_replace_their_markers() {
    let code = CompiledAppStruct {
        imports: "I".to_string(),
        settings: "S".to_string(),
        top_level_middlewares: "T".to_string(),
        routes: "R".to_string(),
        tail_middlewares: "L".to_string(),
    };
    let template = "/* __nextExpress_routes__ */|/* __nextExpress_imports__ */|\
/* __nextExpress_tailMiddlewares__ */|/* __nextExpress_settings__ */|\
/* __nextExpress_topLevelMiddlewares__ */|/* __nextExpress_routes__ */";
    assert_eq!(assemble(template, &code), "R|I|L|S|T|R");
    assert_eq!(assemble("no markers", &code), "no markers");
    assert_eq!(assemble("/* __nextExpress_imports__ *//* __nextExpress_imports__", &code), "I/* __nextExpress_imports__");
}

#[test]
fn custom_template_is_used() {
    let app = structure(vec![dir("app")]);
    let convention = Convention::default().with_server_template("A /* __nextExpress_routes__ */ B");
    let out = compile(app, &vec![], &convention, &Config::default()).unwrap();
    assert_eq!(out, "A  B");
}

#[test]
fn walked_paths_become_relative() {
    let walked = vec![
        WalkedEntry { path: "/w/src".to_string(), is_dir: true },
        WalkedEntry { path: "/w/src/app".to_string(), is_dir: true },
        WalkedEntry { path: "/w/src/app/users".to_string(), is_dir: true },
        WalkedEntry { path: "/w/src/app/users/route.ts".to_string(), is_dir: false },
        WalkedEntry { path: "/w/src/settings.ts".to_string(), is_dir: false },
    ];
    let app =
        get_app_struct("src", "/w/src", "/w/out/gen", &walked, &Convention::default()).unwrap();
    assert_eq!(app.src_dir, "src");
    assert_eq!(app.dist_to_src_relpath, "../../src");
    assert_eq!(app.settings.as_deref(), Some("settings.ts"));
    assert_eq!(app.app.name, "app");
    assert_eq!(app.app.relative_path, "app");
    assert_eq!(app.app.children.len(), 1);
    assert_eq!(app.app.children[0].name, "users");
    assert_eq!(app.app.children[0].relative_path, "app/users");
    assert_eq!(app.app.children[0].route.as_deref(), Some("route.ts"));
}

#[test]
fn unrelated_paths_fail() {
    let walked = vec![
        WalkedEntry { path: "/w/src/app".to_string(), is_dir: true },
        WalkedEntry { path: "elsewhere/app".to_string(), is_dir: true },
    ];
    let err = get_app_struct("src", "/w/src", "/w/out", &walked, &Convention::default())
        .unwrap_err();
    assert_eq!(err.kind, ErrorKind::PathResolutionError);
    assert_eq!(err.path, "elsewhere/app");
    let err =
        get_app_struct("src", "src", "/w/out", &vec![], &Convention::default()).unwrap_err();
    assert_eq!(err.kind, ErrorKind::PathResolutionError);
    assert_eq!(err.path, "src");
}

#[test]
fn routes_of_similar_directories_keep_apart() {
    let app = structure(vec![
        dir("app"),
        dir("app/a"),
        dir("app/a/b"),
        file("app/a/b/route.ts"),
        dir("app/a_b"),
        file("app/a_b/route.ts"),
        dir("app/v1.0"),
        file("app/v1.0/middlewares.ts"),
    ]);
    let sources = vec![
        source("app/a/b/route.ts", "export function GET() {}"),
        source("app/a_b/route.ts", "export function GET() {}"),
    ];
    let out = compile(app, &sources, &Convention::default(), &Config::default()).unwrap();
    assert!(out.contains("import { GET as app_a_b_GET } from \"../src/app/a/b/route\";\n"));
    assert!(out.contains("import { GET as app_a$5fb_GET } from \"../src/app/a_b/route\";\n"));
    assert!(out.contains("{ app_a_b_GET(req, res); return; }"));
    assert!(out.contains("{ app_a$5fb_GET(req, res); return; }"));
    assert!(out.contains("const v1_0Router = express.Router();\napp.use(\"/v1.0\", v1_0Router);\n"));
    assert!(out.contains(
        "import { middlewares as v1_0Middlewares } from \"../src/app/v1.0/middlewares\";\n"
    ));
}
