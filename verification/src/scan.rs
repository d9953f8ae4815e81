//! The export scanner: which handler functions a route module exports, in
//! the order in which it declares them.

use crate::error::{CompileError, ErrorKind};
use crate::tree::opt_text;
use swc_common::sync::Lrc;
use swc_common::{FileName, SourceMap};
use swc_ecma_ast::{
    Decl, DefaultDecl, EsVersion, ExportDecl, Expr, Module, ModuleDecl, ModuleItem, Pat,
};
use swc_ecma_parser::error::Error;
use swc_ecma_parser::lexer::Lexer;
use swc_ecma_parser::{Parser, StringInput, Syntax, TsSyntax};
use vstd::prelude::*;
use vstd::utf8::encode_utf8;

verus! {

/// A handler function that a route module exports.
#[derive(Debug)]
pub struct EndpointHandler {
    /// The name under which the module exports it: an HTTP verb, or
    /// `default`.
    pub export_name: String,
    /// Whether the handler is deferred: declared `async`, so that its call
    /// has to be awaited.
    pub is_async: bool,
}

/// A handler as plain values.
pub struct HandlerView {
    pub export_name: Seq<char>,
    pub is_async: bool,
}

impl View for EndpointHandler {
    type V = HandlerView;

    open spec fn view(&self) -> HandlerView {
        HandlerView { export_name: self.export_name@, is_async: self.is_async }
    }
}

/// The handlers that a sequence holds.
pub open spec fn handler_views(v: Seq<EndpointHandler>) -> Seq<HandlerView> {
    Seq::new(v.len(), |i: int| v[i]@)
}

/// What kind of value an expression is, as far as the scanner cares.
#[derive(Clone, Copy, Debug, PartialEq, Eq, Structural)]
pub enum ValueShape {
    /// An arrow function.
    Arrow { is_async: bool },
    /// A function expression.
    Function { is_async: bool },
    /// Anything else.
    Other,
}

/// One binding of an exported variable declaration.
#[derive(Debug)]
pub struct Binding {
    /// The bound name, where the binding is a plain identifier and not a
    /// pattern.
    pub name: Option<String>,
    /// The shape of the initial value, where there is one.
    pub value: Option<ValueShape>,
}

/// A binding as plain values.
pub struct BindingView {
    pub name: Option<Seq<char>>,
    pub value: Option<ValueShape>,
}

impl View for Binding {
    type V = BindingView;

    open spec fn view(&self) -> BindingView {
        BindingView { name: opt_text(self.name), value: self.value }
    }
}

/// The bindings that a sequence holds.
pub open spec fn binding_views(v: Seq<Binding>) -> Seq<BindingView> {
    Seq::new(v.len(), |i: int| v[i]@)
}

/// A top-level item of a module, as far as the scanner cares.
#[derive(Debug)]
pub enum TopLevelItem {
    /// `export function name` or `export async function name`.
    FunctionExport { name: String, is_async: bool },
    /// `export const a = .., b = ..`, and the same with `let` or `var`.
    BindingExport { bindings: Vec<Binding> },
    /// `export default` followed by an expression or a function.
    DefaultExport { value: ValueShape },
    /// Any other item.
    Other,
}

/// A top-level item as plain values.
pub enum TopLevelItemView {
    FunctionExport { name: Seq<char>, is_async: bool },
    BindingExport { bindings: Seq<BindingView> },
    DefaultExport { value: ValueShape },
    Other,
}

impl View for TopLevelItem {
    type V = TopLevelItemView;

    open spec fn view(&self) -> TopLevelItemView {
        match *self {
            TopLevelItem::FunctionExport { name, is_async } => TopLevelItemView::FunctionExport {
                name: name@,
                is_async,
            },
            TopLevelItem::BindingExport { bindings } => TopLevelItemView::BindingExport {
                bindings: binding_views(bindings@),
            },
            TopLevelItem::DefaultExport { value } => TopLevelItemView::DefaultExport { value },
            TopLevelItem::Other => TopLevelItemView::Other,
        }
    }
}

/// The items that a sequence holds.
pub open spec fn item_views(v: Seq<TopLevelItem>) -> Seq<TopLevelItemView> {
    Seq::new(v.len(), |i: int| v[i]@)
}

/// Whether a value is a function, of either form.
pub open spec fn is_function(v: ValueShape) -> bool {
    v is Arrow || v is Function
}

/// Whether a value is a deferred function.
pub open spec fn is_deferred(v: ValueShape) -> bool {
    match v {
        ValueShape::Arrow { is_async } => is_async,
        ValueShape::Function { is_async } => is_async,
        ValueShape::Other => false,
    }
}

/// The handler that a binding exports: one under the bound name where a
/// plain identifier is bound to a function, none otherwise.
pub open spec fn binding_handlers(b: BindingView) -> Seq<HandlerView> {
    if b.name is Some && b.value is Some && is_function(b.value->0) {
        seq![HandlerView { export_name: b.name->0, is_async: is_deferred(b.value->0) }]
    } else {
        Seq::empty()
    }
}

/// The handlers that the bindings of one declaration export, in their order.
pub open spec fn bindings_handlers(bs: Seq<BindingView>) -> Seq<HandlerView>
    decreases bs.len(),
{
    if bs.len() == 0 {
        Seq::empty()
    } else {
        bindings_handlers(bs.drop_last()) + binding_handlers(bs.last())
    }
}

/// The handlers that one top-level item exports. An exported function is a
/// handler under its name; an exported binding is one where its value is a
/// function; a default export is one, under the name `default`, where its
/// value is a function. Nothing else is a handler.
pub open spec fn item_handlers(item: TopLevelItemView) -> Seq<HandlerView> {
    match item {
        TopLevelItemView::FunctionExport { name, is_async } => seq![
            HandlerView { export_name: name, is_async },
        ],
        TopLevelItemView::BindingExport { bindings } => bindings_handlers(bindings),
        TopLevelItemView::DefaultExport { value } => if is_function(value) {
            seq![HandlerView { export_name: "default"@, is_async: is_deferred(value) }]
        } else {
            Seq::empty()
        },
        TopLevelItemView::Other => Seq::empty(),
    }
}

/// The handlers that a module exports, in the order of its items.
pub open spec fn handlers_of(items: Seq<TopLevelItemView>) -> Seq<HandlerView>
    decreases items.len(),
{
    if items.len() == 0 {
        Seq::empty()
    } else {
        handlers_of(items.drop_last()) + item_handlers(items.last())
    }
}

/// Appends the handler of a function value under the given name, if the
/// value is a function.
fn push_function(out: &mut Vec<EndpointHandler>, name: &str, value: ValueShape)
    ensures
        handler_views(final(out)@) == handler_views(old(out)@) + (if is_function(value) {
            seq![HandlerView { export_name: name@, is_async: is_deferred(value) }]
        } else {
            Seq::empty()
        }),
{
    let ghost before = handler_views(out@);
    match value {
        ValueShape::Arrow { is_async } => {
            out.push(EndpointHandler { export_name: String::from_str(name), is_async });
            assert(handler_views(out@) =~= before + seq![
                HandlerView { export_name: name@, is_async },
            ]);
        },
        ValueShape::Function { is_async } => {
            out.push(EndpointHandler { export_name: String::from_str(name), is_async });
            assert(handler_views(out@) =~= before + seq![
                HandlerView { export_name: name@, is_async },
            ]);
        },
        ValueShape::Other => {
            assert(handler_views(out@) =~= before + Seq::<HandlerView>::empty());
        },
    }
}

/// Appends the handlers that one item exports.
fn push_item_handlers(out: &mut Vec<EndpointHandler>, item: &TopLevelItem)
    ensures
        handler_views(final(out)@) == handler_views(old(out)@) + item_handlers(item@),
{
    let ghost before = handler_views(out@);
    match item {
        TopLevelItem::FunctionExport { name, is_async } => {
            out.push(EndpointHandler { export_name: name.clone(), is_async: *is_async });
            assert(handler_views(out@) =~= before + item_handlers(item@));
        },
        TopLevelItem::BindingExport { bindings } => {
            let ghost bs = binding_views(bindings@);
            let mut j: usize = 0;
            assert(bs.take(0) =~= Seq::<BindingView>::empty());
            assert(handler_views(out@) =~= before + bindings_handlers(bs.take(0)));
            while j < bindings.len()
                invariant
                    j <= bindings.len(),
                    bs == binding_views(bindings@),
                    handler_views(out@) == before + bindings_handlers(bs.take(j as int)),
                decreases bindings.len() - j,
            {
                let b = &bindings[j];
                let ghost so_far = handler_views(out@);
                proof {
                    assert(bs.take(j + 1).drop_last() == bs.take(j as int));
                    assert(bs.take(j + 1).last() == b@);
                }
                match (&b.name, b.value) {
                    (Some(name), Some(value)) => {
                        push_function(out, name.as_str(), value);
                    },
                    _ => {
                        assert(handler_views(out@) =~= so_far + Seq::<HandlerView>::empty());
                    },
                }
                assert(handler_views(out@) =~= before + bindings_handlers(bs.take(j + 1)));
                j = j + 1;
            }
            assert(bs.take(j as int) == bs);
        },
        TopLevelItem::DefaultExport { value } => {
            push_function(out, "default", *value);
        },
        TopLevelItem::Other => {
            assert(handler_views(out@) =~= before + Seq::<HandlerView>::empty());
        },
    }
}

/// The handlers that the items of a module export, in the order of the
/// items and, within a declaration, of its bindings.
pub fn collect_handlers(items: &Vec<TopLevelItem>) -> (r: Vec<EndpointHandler>)
    ensures
        handler_views(r@) == handlers_of(item_views(items@)),
{
    let mut out: Vec<EndpointHandler> = Vec::new();
    let ghost all = item_views(items@);
    let mut i: usize = 0;
    assert(handler_views(out@) =~= handlers_of(all.take(0)));
    while i < items.len()
        invariant
            i <= items.len(),
            all == item_views(items@),
            handler_views(out@) == handlers_of(all.take(i as int)),
        decreases items.len() - i,
    {
        proof {
            assert(all.take(i + 1).drop_last() == all.take(i as int));
            assert(all.take(i + 1).last() == items@[i as int]@);
        }
        push_item_handlers(&mut out, &items[i]);
        i = i + 1;
    }
    assert(all.take(i as int) == all);
    out
}

/// `swc_ecma_ast::Module`, a parsed module: opaque here.
#[verifier::external_type_specification]
#[verifier::external_body]
pub struct ExModule(Module);

/// `swc_ecma_parser::error::Error`, the parser's reason for rejecting a
/// text: opaque here.
#[verifier::external_type_specification]
#[verifier::external_body]
pub struct ExParserError(Error);

/// The top-level items that a parsed module holds, in source order.
pub uninterp spec fn module_items(m: Module) -> Seq<TopLevelItemView>;

/// The top-level items of the module that a source text is, or `None` where
/// the text is not a syntactically valid module.
pub uninterp spec fn module_syntax(source: Seq<char>) -> Option<Seq<TopLevelItemView>>;

/// The longest source text, in bytes, that the parser can take: it counts
/// positions in 32 bits.
pub const MAX_SOURCE_BYTES: usize = 0x7fff_ffff;

/// Calls `swc_ecma_parser::Parser::parse_module` on a lexer for TypeScript
/// with decorators and without JSX, as the route modules are written.
/// Trusted: parsing depends on the text alone; it succeeds exactly on the
/// texts that are modules, and the module it returns holds the items of
/// the text.
#[verifier::external_body]
pub(crate) fn parse_module(source: &str) -> (r: Result<Module, Error>)
    requires
        encode_utf8(source@).len() <= MAX_SOURCE_BYTES,
    ensures
        r is Ok <==> module_syntax(source@) is Some,
        r matches Ok(m) ==> Some(module_items(m)) == module_syntax(source@),
{
    let syntax = Syntax::Typescript(
        TsSyntax {
            tsx: false,
            decorators: true,
            dts: false,
            no_early_errors: true,
            disallow_ambiguous_jsx_like: true,
        },
    );
    let map: Lrc<SourceMap> = Default::default();
    let file = map.new_source_file(Lrc::new(FileName::Anon), source.to_string());
    let lexer = Lexer::new(syntax, EsVersion::Es2022, StringInput::from(&*file), None);
    Parser::new_from(lexer).parse_module()
}

/// Reads the length of `swc_ecma_ast::Module::body`. Trusted: it is the
/// number of top-level items.
#[verifier::external_body]
pub(crate) fn module_len(m: &Module) -> (n: usize)
    ensures
        n == module_items(*m).len(),
{
    m.body.len()
}

/// What the scanner has to know of an item before it reads its parts.
#[derive(Clone, Copy, Debug)]
pub enum ItemShape {
    FunctionExport { is_async: bool },
    BindingExport { count: usize },
    DefaultExport,
    Other,
}

/// Whether `shape` is the shape of `item`.
pub open spec fn is_shape_of(shape: ItemShape, item: TopLevelItemView) -> bool {
    match item {
        TopLevelItemView::FunctionExport { name, is_async } => shape
            == (ItemShape::FunctionExport { is_async }),
        TopLevelItemView::BindingExport { bindings } => shape matches ItemShape::BindingExport {
            count,
        } && count == bindings.len(),
        TopLevelItemView::DefaultExport { value } => shape == ItemShape::DefaultExport,
        TopLevelItemView::Other => shape == ItemShape::Other,
    }
}

/// Tells the variants of `swc_ecma_ast::ModuleItem`, `ModuleDecl` and `Decl`
/// apart for the item at `i`. Trusted: an export declaration of a function is a function
/// export, one of variables a binding export with that many declarators; a
/// default export, of an expression or of a declaration, is a default
/// export; everything else is another item.
#[verifier::external_body]
pub(crate) fn item_shape(m: &Module, i: usize) -> (shape: ItemShape)
    requires
        i < module_items(*m).len(),
    ensures
        is_shape_of(shape, module_items(*m)[i as int]),
{
    match &m.body[i] {
        ModuleItem::ModuleDecl(ModuleDecl::ExportDecl(e)) => match &e.decl {
            Decl::Fn(f) => ItemShape::FunctionExport { is_async: f.function.is_async },
            Decl::Var(v) => ItemShape::BindingExport { count: v.decls.len() },
            _ => ItemShape::Other,
        },
        ModuleItem::ModuleDecl(ModuleDecl::ExportDefaultExpr(_)) => ItemShape::DefaultExport,
        ModuleItem::ModuleDecl(ModuleDecl::ExportDefaultDecl(_)) => ItemShape::DefaultExport,
        _ => ItemShape::Other,
    }
}

/// Reads `swc_ecma_ast::FnDecl::ident` of the exported function at `i`. Trusted: it is the
/// name under which the function is exported.
#[verifier::external_body]
pub(crate) fn function_name(m: &Module, i: usize) -> (name: String)
    requires
        i < module_items(*m).len(),
        module_items(*m)[i as int] is FunctionExport,
    ensures
        name@ == module_items(*m)[i as int]->FunctionExport_name,
{
    match &m.body[i] {
        ModuleItem::ModuleDecl(ModuleDecl::ExportDecl(ExportDecl { decl: Decl::Fn(f), .. })) => {
            f.ident.sym.to_string()
        },
        _ => String::new(),
    }
}

/// Tells the variants of `swc_ecma_ast::Expr` and `DefaultDecl` apart for
/// the default export at `i`. Trusted: the value is an arrow function or a function
/// expression, with its `is_async`, or something else.
#[verifier::external_body]
pub(crate) fn default_value(m: &Module, i: usize) -> (value: ValueShape)
    requires
        i < module_items(*m).len(),
        module_items(*m)[i as int] is DefaultExport,
    ensures
        value == module_items(*m)[i as int]->DefaultExport_value,
{
    match &m.body[i] {
        ModuleItem::ModuleDecl(ModuleDecl::ExportDefaultExpr(e)) => match &*e.expr {
            Expr::Arrow(a) => ValueShape::Arrow { is_async: a.is_async },
            Expr::Fn(f) => ValueShape::Function { is_async: f.function.is_async },
            _ => ValueShape::Other,
        },
        ModuleItem::ModuleDecl(ModuleDecl::ExportDefaultDecl(d)) => match &d.decl {
            DefaultDecl::Fn(f) => ValueShape::Function { is_async: f.function.is_async },
            _ => ValueShape::Other,
        },
        _ => ValueShape::Other,
    }
}

/// Reads `swc_ecma_ast::VarDeclarator::name` of the declarator `j` of the
/// exported declaration at `i`. Trusted: a plain identifier gives its name, a pattern
/// gives none.
#[verifier::external_body]
pub(crate) fn binding_name(m: &Module, i: usize, j: usize) -> (name: Option<String>)
    requires
        i < module_items(*m).len(),
        module_items(*m)[i as int] is BindingExport,
        j < module_items(*m)[i as int]->BindingExport_bindings.len(),
    ensures
        opt_text(name) == module_items(*m)[i as int]->BindingExport_bindings[j as int].name,
{
    match &m.body[i] {
        ModuleItem::ModuleDecl(ModuleDecl::ExportDecl(ExportDecl { decl: Decl::Var(v), .. })) => {
            match &v.decls[j].name {
                Pat::Ident(b) => Some(b.id.sym.to_string()),
                _ => None,
            }
        },
        _ => None,
    }
}

/// Reads `swc_ecma_ast::VarDeclarator::init` of the declarator `j` of the
/// exported declaration at `i`, and tells the variants of `Expr` apart. Trusted: the
/// initial value, where there is one, is an arrow function or a function
/// expression, with its `is_async`, or something else.
#[verifier::external_body]
pub(crate) fn binding_value(m: &Module, i: usize, j: usize) -> (value: Option<ValueShape>)
    requires
        i < module_items(*m).len(),
        module_items(*m)[i as int] is BindingExport,
        j < module_items(*m)[i as int]->BindingExport_bindings.len(),
    ensures
        value == module_items(*m)[i as int]->BindingExport_bindings[j as int].value,
{
    match &m.body[i] {
        ModuleItem::ModuleDecl(ModuleDecl::ExportDecl(ExportDecl { decl: Decl::Var(v), .. })) => {
            match v.decls[j].init.as_deref() {
                Some(Expr::Arrow(a)) => Some(ValueShape::Arrow { is_async: a.is_async }),
                Some(Expr::Fn(f)) => Some(ValueShape::Function { is_async: f.function.is_async }),
                Some(_) => Some(ValueShape::Other),
                None => None,
            }
        },
        _ => None,
    }
}

/// The item at `i` of a parsed module.
fn read_item(m: &Module, i: usize) -> (item: TopLevelItem)
    requires
        i < module_items(*m).len(),
    ensures
        item@ == module_items(*m)[i as int],
{
    match item_shape(m, i) {
        ItemShape::FunctionExport { is_async } => TopLevelItem::FunctionExport {
            name: function_name(m, i),
            is_async,
        },
        ItemShape::BindingExport { count } => {
            let ghost all = module_items(*m)[i as int]->BindingExport_bindings;
            let mut bindings: Vec<Binding> = Vec::new();
            let mut j: usize = 0;
            while j < count
                invariant
                    j <= count,
                    i < module_items(*m).len(),
                    module_items(*m)[i as int] is BindingExport,
                    all == module_items(*m)[i as int]->BindingExport_bindings,
                    count == all.len(),
                    bindings.len() == j,
                    forall|k: int| 0 <= k < j ==> (#[trigger] bindings@[k])@ == all[k],
                decreases count - j,
            {
                bindings.push(Binding { name: binding_name(m, i, j), value: binding_value(m, i, j) });
                j = j + 1;
            }
            assert(binding_views(bindings@) =~= all);
            TopLevelItem::BindingExport { bindings }
        },
        ItemShape::DefaultExport => TopLevelItem::DefaultExport { value: default_value(m, i) },
        ItemShape::Other => TopLevelItem::Other,
    }
}

/// The top-level items of a parsed module.
fn read_items(m: &Module) -> (items: Vec<TopLevelItem>)
    ensures
        item_views(items@) == module_items(*m),
{
    let n = module_len(m);
    let mut items: Vec<TopLevelItem> = Vec::new();
    let mut i: usize = 0;
    while i < n
        invariant
            i <= n,
            n == module_items(*m).len(),
            items.len() == i,
            forall|k: int| 0 <= k < i ==> (#[trigger] items@[k])@ == module_items(*m)[k],
        decreases n - i,
    {
        items.push(read_item(m, i));
        i = i + 1;
    }
    assert(item_views(items@) =~= module_items(*m));
    items
}

/// The handlers that a source text exports, where it is a module that the
/// parser can take.
pub open spec fn scanned(source: Seq<char>) -> Option<Seq<HandlerView>> {
    if encode_utf8(source).len() > MAX_SOURCE_BYTES {
        None
    } else {
        match module_syntax(source) {
            Some(items) => Some(handlers_of(items)),
            None => None,
        }
    }
}

/// Parses the text of a route module and returns the handlers it exports, in
/// the order of their declarations. A text that is no valid module is a
/// `ParseError` at `path`, and so is one too long for the parser.
pub fn get_endpoint_handlers(path: &str, source: &str) -> (r: Result<
    Vec<EndpointHandler>,
    CompileError,
>)
    ensures
        match scanned(source@) {
            Some(handlers) => r matches Ok(found) && handler_views(found@) == handlers,
            None => r matches Err(e) && e.kind == ErrorKind::ParseError && e.path@ == path@,
        },
{
    if source.as_bytes().len() > MAX_SOURCE_BYTES {
        return Err(CompileError::new(ErrorKind::ParseError, path));
    }
    match parse_module(source) {
        Ok(m) => {
            let items = read_items(&m);
            Ok(collect_handlers(&items))
        },
        Err(_) => Err(CompileError::new(ErrorKind::ParseError, path)),
    }
}

} // verus!
