use nexp_compiler::error::ErrorKind;
use nexp_compiler::scan::{
    collect_handlers, get_endpoint_handlers, Binding, EndpointHandler, TopLevelItem, ValueShape,
};

fn names(handlers: &[EndpointHandler]) -> Vec<(String, bool)> {
    handlers.iter().map(|h| (h.export_name.clone(), h.is_async)).collect()
}

fn scan(source: &str) -> Vec<(String, bool)> {
    names(&get_endpoint_handlers("app/route.ts", source).unwrap())
}

fn pair(name: &str, is_async: bool) -> (String, bool) {
    (name.to_string(), is_async)
}

#[test]
fn exported_functions_are_handlers() {
    assert_eq!(
        scan("export function GET(req, res) {}\nexport async function POST(req, res) {}"),
        vec![pair("GET", false), pair("POST", true)]
    );
}

#[test]
fn exported_function_bindings_are_handlers() {
    assert_eq!(
        scan(
            "export const GET = (req, res) => {};\n\
             export const POST = async (req, res) => {};\n\
             export const PUT = function (req, res) {};\n\
             export const PATCH = async function (req, res) {};"
        ),
        vec![pair("GET", false), pair("POST", true), pair("PUT", false), pair("PATCH", true)]
    );
}

#[test]
fn bindings_of_one_declaration_keep_their_order() {
    assert_eq!(
        scan("export const B = () => {}, skipped = 1, A = async () => {};"),
        vec![pair("B", false), pair("A", true)]
    );
}

#[test]
fn bindings_that_are_no_functions_are_ignored() {
    assert_eq!(
        scan(
            "export const config = { a: 1 };\n\
             export let later;\n\
             export const [x, y] = [() => {}, () => {}];\n\
             export const wrapped = (() => {});\n\
             export const GET = () => {};"
        ),
        vec![pair("GET", false)]
    );
}

#[test]
fn default_exports_of_functions_are_handlers() {
    assert_eq!(scan("export default () => {};"), vec![pair("default", false)]);
    assert_eq!(scan("export default async () => {};"), vec![pair("default", true)]);
    assert_eq!(scan("export default function (req, res) {}"), vec![pair("default", false)]);
    assert_eq!(scan("export default async function run(req, res) {}"), vec![pair("default", true)]);
}

#[test]
fn default_exports_of_other_values_are_ignored() {
    assert_eq!(scan("export default 5;"), vec![]);
    assert_eq!(scan("export default class A {}"), vec![]);
    assert_eq!(scan("const handler = () => {};\nexport default handler;"), vec![]);
}

#[test]
fn other_items_are_ignored() {
    assert_eq!(
        scan(
            "import express from \"express\";\n\
             function local() {}\n\
             const GET = () => {};\n\
             export { GET };\n\
             export * from \"./other\";\n\
             export class Service {}\n\
             export interface Shape { a: number }\n\
             export type Alias = string;\n\
             export enum Color { Red }\n\
             namespace inner { export function POST() {} }\n\
             if (true) { local(); }"
        ),
        vec![]
    );
}

#[test]
fn handlers_come_in_declaration_order() {
    assert_eq!(
        scan(
            "export async function POST(req: Request, res: Response): Promise<void> {}\n\
             export default () => {};\n\
             export const GET = (req: Request, res: Response) => { res.send(\"ok\"); };\n\
             @sealed\nexport class Decorated {}\n\
             export function DELETE() {}"
        ),
        vec![pair("POST", true), pair("default", false), pair("GET", false), pair("DELETE", false)]
    );
}

#[test]
fn empty_module_has_no_handlers() {
    assert_eq!(scan(""), vec![]);
    assert_eq!(scan("// nothing here\n"), vec![]);
}

#[test]
fn byte_order_mark_is_no_syntax_error() {
    assert_eq!(scan("\u{feff}export function GET() {}"), vec![pair("GET", false)]);
}

#[test]
fn invalid_module_is_a_parse_error() {
    let err = get_endpoint_handlers("app/x/route.ts", "export function ( {").unwrap_err();
    assert_eq!(err.kind, ErrorKind::ParseError);
    assert_eq!(err.path, "app/x/route.ts");
    assert_eq!(err.message(), "Failed to parse the route module: app/x/route.ts");
    assert!(get_endpoint_handlers("p", "export const = ;").is_err());
}

#[test]
fn collect_handlers_follows_the_shapes() {
    let items = vec![
        TopLevelItem::Other,
        TopLevelItem::FunctionExport { name: "GET".to_string(), is_async: true },
        TopLevelItem::BindingExport {
            bindings: vec![
                Binding { name: Some("A".to_string()), value: Some(ValueShape::Other) },
                Binding { name: None, value: Some(ValueShape::Arrow { is_async: true }) },
                Binding { name: Some("B".to_string()), value: None },
                Binding {
                    name: Some("POST".to_string()),
                    value: Some(ValueShape::Function { is_async: true }),
                },
                Binding {
                    name: Some("PUT".to_string()),
                    value: Some(ValueShape::Arrow { is_async: false }),
                },
            ],
        },
        TopLevelItem::DefaultExport { value: ValueShape::Other },
        TopLevelItem::DefaultExport { value: ValueShape::Arrow { is_async: true } },
        TopLevelItem::BindingExport { bindings: vec![] },
    ];
    assert_eq!(
        names(&collect_handlers(&items)),
        vec![pair("GET", true), pair("POST", true), pair("PUT", false), pair("default", true)]
    );
    assert_eq!(names(&collect_handlers(&vec![])), vec![]);
}
