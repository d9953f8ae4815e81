//! The route tree: one node for the routing root and for every directory
//! inside it, with the route and middleware modules found in each.

use crate::convention::{Convention, ConventionView};
use crate::text::{
    chars_of, contains_text, lowercase, precedes_or_equals, same_text, text_le, text_of, texts,
    to_lowercase,
};
use vstd::prelude::*;

verus! {

/// The text that an optional string holds.
pub open spec fn opt_text(o: Option<String>) -> Option<Seq<char>> {
    match o {
        Some(s) => Some(s@),
        None => None,
    }
}

/// A directory of the routing tree.
#[derive(Debug)]
pub struct AppRoute {
    /// The directory's own name: one segment of a path.
    pub name: String,
    /// The path from the source root, its segments joined by `/`.
    pub relative_path: String,
    /// The file name of the route module in this directory, if there is one.
    pub route: Option<String>,
    /// The file name of the middleware module in this directory, if any.
    pub middlewares: Option<String>,
    /// The directories directly inside this one.
    pub children: Vec<AppRoute>,
}

/// A node of the route tree as plain values.
pub struct RouteNode {
    pub name: Seq<char>,
    pub relative_path: Seq<char>,
    pub route: Option<Seq<char>>,
    pub middlewares: Option<Seq<char>>,
    pub children: Seq<RouteNode>,
}

/// The tree below `n` as plain values.
pub open spec fn node_view(n: AppRoute) -> RouteNode
    decreases n,
{
    RouteNode {
        name: n.name@,
        relative_path: n.relative_path@,
        route: opt_text(n.route),
        middlewares: opt_text(n.middlewares),
        children: Seq::new(
            n.children@.len(),
            |i: int|
                if 0 <= i < n.children@.len() {
                    node_view(n.children@[i])
                } else {
                    arbitrary()
                },
        ),
    }
}

impl View for AppRoute {
    type V = RouteNode;

    open spec fn view(&self) -> RouteNode {
        node_view(*self)
    }
}

/// The trees that a sequence of nodes holds.
pub open spec fn nodes(v: Seq<AppRoute>) -> Seq<RouteNode> {
    Seq::new(v.len(), |i: int| v[i]@)
}

/// The view of a node, field by field.
pub proof fn lemma_node_view(n: AppRoute)
    ensures
        n@.name == n.name@,
        n@.relative_path == n.relative_path@,
        n@.route == opt_text(n.route),
        n@.middlewares == opt_text(n.middlewares),
        n@.children == nodes(n.children@),
{
    assert(n@.children =~= nodes(n.children@));
}

/// The number of levels of the tree below `n`, `n` itself included.
pub open spec fn height(n: RouteNode) -> nat
    decreases n,
{
    1 + max_height(n.children)
}

/// The largest height among the trees `cs`; 0 where there is none.
pub open spec fn max_height(cs: Seq<RouteNode>) -> nat
    decreases cs,
{
    if cs.len() == 0 {
        0
    } else if height(cs.last()) >= max_height(cs.drop_last()) {
        height(cs.last())
    } else {
        max_height(cs.drop_last())
    }
}

/// No tree of `cs` is higher than `max_height(cs)`.
pub proof fn lemma_max_height(cs: Seq<RouteNode>, k: int)
    requires
        0 <= k < cs.len(),
    ensures
        height(cs[k]) <= max_height(cs),
    decreases cs.len(),
{
    if k < cs.len() - 1 {
        lemma_max_height(cs.drop_last(), k);
    }
}

/// A child is lower than its parent.
pub proof fn lemma_child_height(n: RouteNode, k: int)
    requires
        0 <= k < n.children.len(),
    ensures
        height(n.children[k]) < height(n),
{
    lemma_max_height(n.children, k);
}

/// A node without files and without children.
pub open spec fn leaf(name: Seq<char>, relative_path: Seq<char>) -> RouteNode {
    RouteNode { name, relative_path, route: None, middlewares: None, children: Seq::empty() }
}

impl AppRoute {
    /// A node without files and without children.
    pub fn new(name: &str, relative_path: &str) -> (n: AppRoute)
        ensures
            n@ == leaf(name@, relative_path@),
    {
        let n = AppRoute {
            name: String::from_str(name),
            relative_path: String::from_str(relative_path),
            route: None,
            middlewares: None,
            children: Vec::new(),
        };
        proof {
            lemma_node_view(n);
            assert(n@.children =~= Seq::<RouteNode>::empty());
        }
        n
    }
}

/// Whether a directory name marks a virtual group: a name wrapped in
/// parentheses, which organises files and never shows in a URL.
pub open spec fn is_virtual_group(name: Seq<char>) -> bool {
    name.len() > 0 && name.first() == '(' && name.last() == ')'
}

/// Decides `is_virtual_group`.
pub fn is_virtual_group_name(name: &str) -> (r: bool)
    ensures
        r == is_virtual_group(name@),
{
    let v = chars_of(name);
    v.len() > 0 && v[0] == '(' && v[v.len() - 1] == ')'
}

/// The position of the last `/` of a path, or -1 where it has none.
pub open spec fn last_slash(p: Seq<char>) -> int
    decreases p.len(),
{
    if p.len() == 0 {
        -1
    } else if p.last() == '/' {
        p.len() - 1
    } else {
        last_slash(p.drop_last())
    }
}

/// The path of the directory that holds `p`: what stands before its last
/// `/`, and nothing where it has none.
pub open spec fn parent_path(p: Seq<char>) -> Seq<char> {
    if last_slash(p) < 0 {
        Seq::empty()
    } else {
        p.take(last_slash(p))
    }
}

/// The last segment of a path: what stands behind its last `/`.
pub open spec fn file_name(p: Seq<char>) -> Seq<char> {
    p.skip(last_slash(p) + 1)
}

/// The last `/` of a path lies inside the path.
pub proof fn lemma_last_slash_range(p: Seq<char>)
    ensures
        -1 <= last_slash(p) < p.len(),
        last_slash(p) >= 0 ==> p[last_slash(p)] == '/',
    decreases p.len(),
{
    if p.len() > 0 && p.last() != '/' {
        lemma_last_slash_range(p.drop_last());
    }
}

/// Splits a path into `parent_path` and `file_name`.
pub fn split_last(p: &str) -> (r: (String, String))
    ensures
        r.0@ == parent_path(p@),
        r.1@ == file_name(p@),
{
    let v = chars_of(p);
    let mut end: usize = v.len();
    assert(v@.take(end as int) == v@);
    while end > 0 && v[end - 1] != '/'
        invariant
            end <= v.len(),
            last_slash(v@) == last_slash(v@.take(end as int)),
        decreases end,
    {
        assert(v@.take(end as int).drop_last() == v@.take(end - 1));
        end = end - 1;
    }
    if end == 0 {
        assert(v@.skip(0) == v@);
        assert(v@.subrange(0, v@.len() as int) == v@);
        (String::new(), text_of(&v, 0, v.len()))
    } else {
        assert(v@.take(end as int).last() == '/');
        assert(v@.subrange(0, end - 1) == v@.take(end - 1));
        assert(v@.subrange(end as int, v@.len() as int) == v@.skip(end as int));
        (text_of(&v, 0, end - 1), text_of(&v, end, v.len()))
    }
}

/// What the builder does to the node it has found.
#[derive(Debug)]
pub enum Change {
    /// A directory was found inside the node.
    AddChild { name: String, relative_path: String },
    /// A file was found inside the node, which may be its route module, its
    /// middleware module, both or neither.
    Attach { file: String, as_route: bool, as_middlewares: bool },
}

/// A change as plain values.
pub enum ChangeView {
    AddChild { name: Seq<char>, relative_path: Seq<char> },
    Attach { file: Seq<char>, as_route: bool, as_middlewares: bool },
}

impl View for Change {
    type V = ChangeView;

    open spec fn view(&self) -> ChangeView {
        match *self {
            Change::AddChild { name, relative_path } => ChangeView::AddChild {
                name: name@,
                relative_path: relative_path@,
            },
            Change::Attach { file, as_route, as_middlewares } => ChangeView::Attach {
                file: file@,
                as_route,
                as_middlewares,
            },
        }
    }
}

/// The node after a change. A new directory becomes its last child. A file
/// is recorded in the roles it plays, unless the node is a virtual group,
/// which holds neither a route nor middleware.
pub open spec fn apply(n: RouteNode, c: ChangeView) -> RouteNode {
    match c {
        ChangeView::AddChild { name, relative_path } => RouteNode {
            children: n.children.push(leaf(name, relative_path)),
            ..n
        },
        ChangeView::Attach { file, as_route, as_middlewares } => if is_virtual_group(n.name) {
            n
        } else {
            RouteNode {
                route: if as_route {
                    Some(file)
                } else {
                    n.route
                },
                middlewares: if as_middlewares {
                    Some(file)
                } else {
                    n.middlewares
                },
                ..n
            }
        },
    }
}

/// Whether the tree below `n` holds a node with the relative path `p`.
pub open spec fn has_path(n: RouteNode, p: Seq<char>) -> bool
    decreases n,
{
    n.relative_path == p || any_has_path(n.children, p)
}

/// Whether one of the trees `cs` holds a node with the relative path `p`.
pub open spec fn any_has_path(cs: Seq<RouteNode>, p: Seq<char>) -> bool
    decreases cs,
{
    cs.len() > 0 && (any_has_path(cs.drop_last(), p) || has_path(cs.last(), p))
}

/// One of the trees holds the path exactly when the tree at some index does.
pub proof fn lemma_any_has_path(cs: Seq<RouteNode>, p: Seq<char>)
    ensures
        any_has_path(cs, p) <==> exists|k: int| 0 <= k < cs.len() && has_path(#[trigger] cs[k], p),
    decreases cs.len(),
{
    if cs.len() > 0 {
        let init = cs.drop_last();
        lemma_any_has_path(init, p);
        if any_has_path(init, p) {
            let k = choose|k: int| 0 <= k < init.len() && has_path(#[trigger] init[k], p);
            assert(has_path(cs[k], p));
        }
        if exists|k: int| 0 <= k < cs.len() && has_path(#[trigger] cs[k], p) {
            let k = choose|k: int| 0 <= k < cs.len() && has_path(#[trigger] cs[k], p);
            if k < cs.len() - 1 {
                assert(has_path(init[k], p));
            }
        }
    }
}

/// Whether `k` is the first of the trees `cs` that holds the path `p`.
pub open spec fn is_first_with_path(cs: Seq<RouteNode>, p: Seq<char>, k: int) -> bool {
    &&& 0 <= k < cs.len()
    &&& has_path(cs[k], p)
    &&& forall|j: int| 0 <= j < k ==> !has_path(#[trigger] cs[j], p)
}

/// The tree after a change to its first node with the relative path `p`,
/// going from a node to its children in their order. Without such a node the
/// tree stays as it is.
pub open spec fn changed(n: RouteNode, p: Seq<char>, c: ChangeView) -> RouteNode
    decreases n,
{
    if n.relative_path == p {
        apply(n, c)
    } else {
        RouteNode {
            children: Seq::new(
                n.children.len(),
                |k: int|
                    if 0 <= k < n.children.len() && is_first_with_path(n.children, p, k) {
                        changed(n.children[k], p, c)
                    } else {
                        n.children[k]
                    },
            ),
            ..n
        }
    }
}

/// A tree without the path stays as it is.
pub proof fn lemma_changed_without_path(n: RouteNode, p: Seq<char>, c: ChangeView)
    requires
        !has_path(n, p),
    ensures
        changed(n, p, c) == n,
{
    lemma_any_has_path(n.children, p);
    assert forall|k: int| 0 <= k < n.children.len() implies !is_first_with_path(
        n.children,
        p,
        k,
    ) by {
        assert(!has_path(n.children[k], p));
    }
    assert(changed(n, p, c).children =~= n.children);
}

impl AppRoute {
    /// Applies a change to this node.
    fn apply_change(&mut self, change: &Change)
        ensures
            final(self)@ == apply(old(self)@, change@),
    {
        proof {
            lemma_node_view(*self);
        }
        match change {
            Change::AddChild { name, relative_path } => {
                let child = AppRoute::new(name.as_str(), relative_path.as_str());
                self.children.push(child);
                proof {
                    lemma_node_view(*self);
                    assert(self@.children =~= old(self)@.children.push(
                        leaf(name@, relative_path@),
                    ));
                }
            },
            Change::Attach { file, as_route, as_middlewares } => {
                if !is_virtual_group_name(self.name.as_str()) {
                    if *as_route {
                        self.route = Some(file.clone());
                    }
                    if *as_middlewares {
                        self.middlewares = Some(file.clone());
                    }
                }
                proof {
                    lemma_node_view(*self);
                }
            },
        }
    }

    /// Changes the first node with the relative path `p` in the tree below
    /// this node, and tells whether there was one.
    pub fn update_at(&mut self, p: &str, change: &Change) -> (found: bool)
        ensures
            found == has_path(old(self)@, p@),
            final(self)@ == changed(old(self)@, p@, change@),
        decreases height(old(self)@),
    {
        proof {
            lemma_node_view(*self);
            lemma_any_has_path(old(self)@.children, p@);
        }
        if same_text(self.relative_path.as_str(), p) {
            self.apply_change(change);
            return true;
        }
        let mut i: usize = 0;
        while i < self.children.len()
            invariant
                i <= self.children.len(),
                self.name == old(self).name,
                self.relative_path == old(self).relative_path,
                self.route == old(self).route,
                self.middlewares == old(self).middlewares,
                self.children@.len() == old(self).children@.len(),
                nodes(self.children@) == old(self)@.children,
                self.relative_path@ != p@,
                forall|j: int| 0 <= j < i ==> !has_path(#[trigger] old(self)@.children[j], p@),
            decreases self.children.len() - i,
        {
            let ghost before = nodes(self.children@);
            proof {
                assert(before[i as int] == self.children@[i as int]@);
                lemma_child_height(old(self)@, i as int);
                lemma_any_has_path(old(self)@.children, p@);
            }
            let found = self.children[i].update_at(p, change);
            if found {
                proof {
                    lemma_node_view(*self);
                    assert(has_path(old(self)@.children[i as int], p@));
                    assert(is_first_with_path(old(self)@.children, p@, i as int));
                    assert(self@.children =~= changed(old(self)@, p@, change@).children);
                }
                return true;
            }
            proof {
                lemma_changed_without_path(old(self)@.children[i as int], p@, change@);
                assert(nodes(self.children@) =~= before);
            }
            i = i + 1;
        }
        proof {
            lemma_node_view(*self);
            lemma_changed_without_path(old(self)@, p@, change@);
        }
        false
    }
}

/// One entry of a walk through the source tree: a directory or a file, by
/// its path from the source root.
#[derive(Debug)]
pub struct TreeEntry {
    pub relative_path: String,
    pub is_dir: bool,
}

/// An entry as plain values.
pub struct EntryView {
    pub relative_path: Seq<char>,
    pub is_dir: bool,
}

impl View for TreeEntry {
    type V = EntryView;

    open spec fn view(&self) -> EntryView {
        EntryView { relative_path: self.relative_path@, is_dir: self.is_dir }
    }
}

/// The entries that a sequence holds.
pub open spec fn entry_views(v: Seq<TreeEntry>) -> Seq<EntryView> {
    Seq::new(v.len(), |i: int| v[i]@)
}

/// What a walk through a source tree has found: the route tree and the
/// modules that apply to the whole application.
#[derive(Debug)]
pub struct AppStruct {
    /// The source directory as the user named it.
    pub src_dir: String,
    /// The path that leads from the output directory to the source root.
    pub dist_to_src_relpath: String,
    /// The route tree, from the routing root.
    pub app: AppRoute,
    pub top_level_middlewares: Option<String>,
    pub tail_middlewares: Option<String>,
    pub settings: Option<String>,
}

/// An application structure as plain values.
pub struct AppStructView {
    pub src_dir: Seq<char>,
    pub dist_to_src_relpath: Seq<char>,
    pub app: RouteNode,
    pub top_level_middlewares: Option<Seq<char>>,
    pub tail_middlewares: Option<Seq<char>>,
    pub settings: Option<Seq<char>>,
}

impl View for AppStruct {
    type V = AppStructView;

    open spec fn view(&self) -> AppStructView {
        AppStructView {
            src_dir: self.src_dir@,
            dist_to_src_relpath: self.dist_to_src_relpath@,
            app: self.app@,
            top_level_middlewares: opt_text(self.top_level_middlewares),
            tail_middlewares: opt_text(self.tail_middlewares),
            settings: opt_text(self.settings),
        }
    }
}

/// The structure before the walk: the routing root alone, named after the
/// routing-root directory.
pub open spec fn empty_app(
    src_dir: Seq<char>,
    dist_to_src_relpath: Seq<char>,
    conv: ConventionView,
) -> AppStructView {
    AppStructView {
        src_dir,
        dist_to_src_relpath,
        app: leaf(conv.app_dir_name, conv.app_dir_name),
        top_level_middlewares: None,
        tail_middlewares: None,
        settings: None,
    }
}

/// A module of the whole application is recorded once: the first file whose
/// path from the source root is one of the role's file names stays.
pub open spec fn first_match(
    current: Option<Seq<char>>,
    names: Seq<Seq<char>>,
    path: Seq<char>,
) -> Option<Seq<char>> {
    if current is None && names.contains(path) {
        Some(path)
    } else {
        current
    }
}

/// The change that an entry brings to the node of the directory that holds
/// it.
pub open spec fn change_of(e: EntryView, conv: ConventionView) -> ChangeView {
    if e.is_dir {
        ChangeView::AddChild { name: file_name(e.relative_path), relative_path: e.relative_path }
    } else {
        ChangeView::Attach {
            file: file_name(e.relative_path),
            as_route: conv.route_filenames().contains(file_name(e.relative_path)),
            as_middlewares: conv.middlewares_filenames().contains(file_name(e.relative_path)),
        }
    }
}

/// The structure after one more entry. A directory becomes a child of the
/// node of the directory that holds it. A file is first held against the
/// roles of the whole application, by its path from the source root, and
/// then against the roles of a directory, by its name.
pub open spec fn step(s: AppStructView, e: EntryView, conv: ConventionView) -> AppStructView {
    let app = changed(s.app, parent_path(e.relative_path), change_of(e, conv));
    if e.is_dir {
        AppStructView { app, ..s }
    } else {
        AppStructView {
            app,
            top_level_middlewares: first_match(
                s.top_level_middlewares,
                conv.middlewares_filenames(),
                e.relative_path,
            ),
            tail_middlewares: first_match(
                s.tail_middlewares,
                conv.tail_middlewares_filenames(),
                e.relative_path,
            ),
            settings: first_match(s.settings, conv.settings_filenames(), e.relative_path),
            ..s
        }
    }
}

/// The structure after all the entries, taken in their order.
pub open spec fn built(
    init: AppStructView,
    es: Seq<EntryView>,
    conv: ConventionView,
) -> AppStructView
    decreases es.len(),
{
    if es.len() == 0 {
        init
    } else {
        step(built(init, es.drop_last(), conv), es.last(), conv)
    }
}

/// Records `path` under a role of the whole application, unless the role is
/// taken or `path` is none of its file names.
fn record_first(current: &mut Option<String>, names: &Vec<String>, path: &str)
    ensures
        opt_text(*final(current)) == first_match(
            opt_text(*old(current)),
            texts(names@),
            path@,
        ),
{
    if current.is_none() && contains_text(names, path) {
        *current = Some(String::from_str(path));
    }
}

/// Builds the application structure from the entries of a walk through the
/// source tree, in one pass and in the order of the walk.
pub fn build_app_struct(
    src_dir: &str,
    dist_to_src_relpath: &str,
    entries: &Vec<TreeEntry>,
    convention: &Convention,
) -> (r: AppStruct)
    ensures
        r@ == built(
            empty_app(src_dir@, dist_to_src_relpath@, convention@),
            entry_views(entries@),
            convention@,
        ),
{
    let ghost init = empty_app(src_dir@, dist_to_src_relpath@, convention@);
    let ghost es = entry_views(entries@);
    let mut s = AppStruct {
        src_dir: String::from_str(src_dir),
        dist_to_src_relpath: String::from_str(dist_to_src_relpath),
        app: AppRoute::new(convention.app_dir_name.as_str(), convention.app_dir_name.as_str()),
        top_level_middlewares: None,
        tail_middlewares: None,
        settings: None,
    };
    let middlewares_names = convention.get_middlewares_filenames();
    let tail_names = convention.get_tail_middlewares_filenames();
    let settings_names = convention.get_settings_filenames();
    let route_names = convention.get_route_filenames();
    let mut i: usize = 0;
    while i < entries.len()
        invariant
            i <= entries.len(),
            es == entry_views(entries@),
            texts(middlewares_names@) == convention@.middlewares_filenames(),
            texts(tail_names@) == convention@.tail_middlewares_filenames(),
            texts(settings_names@) == convention@.settings_filenames(),
            texts(route_names@) == convention@.route_filenames(),
            s@ == built(init, es.take(i as int), convention@),
        decreases entries.len() - i,
    {
        let entry = &entries[i];
        let ghost before = s@;
        proof {
            assert(es.take(i + 1).drop_last() == es.take(i as int));
            assert(es.take(i + 1).last() == entry@);
        }
        let (parent, name) = split_last(entry.relative_path.as_str());
        if entry.is_dir {
            let change = Change::AddChild {
                name,
                relative_path: String::from_str(entry.relative_path.as_str()),
            };
            s.app.update_at(parent.as_str(), &change);
        } else {
            record_first(
                &mut s.top_level_middlewares,
                &middlewares_names,
                entry.relative_path.as_str(),
            );
            record_first(&mut s.tail_middlewares, &tail_names, entry.relative_path.as_str());
            record_first(&mut s.settings, &settings_names, entry.relative_path.as_str());
            let as_route = contains_text(&route_names, name.as_str());
            let as_middlewares = contains_text(&middlewares_names, name.as_str());
            let change = Change::Attach { file: name, as_route, as_middlewares };
            s.app.update_at(parent.as_str(), &change);
        }
        assert(s@ == step(before, entry@, convention@));
        i = i + 1;
    }
    assert(es.take(i as int) == es);
    s
}

/// The order of siblings: by name, without regard to case.
pub open spec fn name_le(a: RouteNode, b: RouteNode) -> bool {
    text_le(lowercase(a.name), lowercase(b.name))
}

/// Where `x` goes into `sorted`: behind the last node that does not stand
/// after it, so that nodes of equal rank keep the order in which they came.
pub open spec fn insert_position(sorted: Seq<RouteNode>, x: RouteNode) -> int
    decreases sorted.len(),
{
    if sorted.len() == 0 {
        0
    } else if name_le(sorted.last(), x) {
        sorted.len() as int
    } else {
        insert_position(sorted.drop_last(), x)
    }
}

/// The nodes `cs` in the order of siblings, each put in its place in turn.
pub open spec fn sorted_by_name(cs: Seq<RouteNode>) -> Seq<RouteNode>
    decreases cs.len(),
{
    if cs.len() == 0 {
        cs
    } else {
        let init = sorted_by_name(cs.drop_last());
        init.insert(insert_position(init, cs.last()), cs.last())
    }
}

/// The tree with the children of every node in the order of siblings.
pub open spec fn sorted_tree(n: RouteNode) -> RouteNode
    decreases n,
{
    RouteNode { children: sorted_by_name(sorted_each(n.children)), ..n }
}

/// The trees `cs`, each with the children of every node in the order of
/// siblings, the trees themselves in the order in which they stand.
pub open spec fn sorted_each(cs: Seq<RouteNode>) -> Seq<RouteNode>
    decreases cs,
{
    if cs.len() == 0 {
        cs
    } else {
        sorted_each(cs.drop_last()).push(sorted_tree(cs.last()))
    }
}

/// `sorted_each` sorts tree by tree.
pub proof fn lemma_sorted_each(cs: Seq<RouteNode>)
    ensures
        sorted_each(cs).len() == cs.len(),
        forall|k: int| 0 <= k < cs.len() ==> #[trigger] sorted_each(cs)[k] == sorted_tree(cs[k]),
    decreases cs.len(),
{
    if cs.len() > 0 {
        lemma_sorted_each(cs.drop_last());
    }
}

/// The place of a node lies within the sequence or at its end.
pub proof fn lemma_insert_position_range(sorted: Seq<RouteNode>, x: RouteNode)
    ensures
        0 <= insert_position(sorted, x) <= sorted.len(),
    decreases sorted.len(),
{
    if sorted.len() > 0 && !name_le(sorted.last(), x) {
        lemma_insert_position_range(sorted.drop_last(), x);
    }
}

/// Sorting keeps the number of nodes.
pub proof fn lemma_sorted_len(cs: Seq<RouteNode>)
    ensures
        sorted_by_name(cs).len() == cs.len(),
    decreases cs.len(),
{
    if cs.len() > 0 {
        lemma_sorted_len(cs.drop_last());
        lemma_insert_position_range(sorted_by_name(cs.drop_last()), cs.last());
    }
}

/// Puts `x` in its place among the sorted nodes `out`, whose lower-case
/// names `keys` holds.
fn insert_sorted(out: &mut Vec<AppRoute>, keys: &mut Vec<String>, x: AppRoute)
    requires
        old(keys).len() == old(out).len(),
        forall|k: int|
            0 <= k < old(out).len() ==> (#[trigger] old(keys)@[k])@ == lowercase(
                old(out)@[k]@.name,
            ),
    ensures
        final(keys).len() == final(out).len(),
        forall|k: int|
            0 <= k < final(out).len() ==> (#[trigger] final(keys)@[k])@ == lowercase(
                final(out)@[k]@.name,
            ),
        nodes(final(out)@) == nodes(old(out)@).insert(
            insert_position(nodes(old(out)@), x@),
            x@,
        ),
{
    let ghost sorted = nodes(out@);
    proof {
        lemma_node_view(x);
    }
    let key = to_lowercase(x.name.as_str());
    let mut j: usize = out.len();
    assert(sorted.take(j as int) == sorted);
    while j > 0 && !precedes_or_equals(keys[j - 1].as_str(), key.as_str())
        invariant
            j <= out.len(),
            keys.len() == out.len(),
            sorted == nodes(out@),
            key@ == lowercase(x@.name),
            forall|k: int|
                0 <= k < out.len() ==> (#[trigger] keys@[k])@ == lowercase(out@[k]@.name),
            insert_position(sorted, x@) == insert_position(sorted.take(j as int), x@),
        decreases j,
    {
        assert(sorted.take(j as int).drop_last() == sorted.take(j - 1));
        assert(sorted.take(j as int).last() == out@[j - 1]@);
        j = j - 1;
    }
    proof {
        if j > 0 {
            assert(sorted.take(j as int).last() == out@[j - 1]@);
        }
        assert(insert_position(sorted, x@) == j);
    }
    out.insert(j, x);
    keys.insert(j, key);
    assert(nodes(out@) =~= sorted.insert(j as int, x@));
}

/// Sorts siblings by name, without regard to case. Siblings whose names
/// differ in case alone keep their order.
pub fn sort_children(children: &mut Vec<AppRoute>)
    ensures
        nodes(final(children)@) == sorted_by_name(nodes(old(children)@)),
{
    let ghost all = nodes(children@);
    let mut rest: Vec<AppRoute> = Vec::new();
    std::mem::swap(children, &mut rest);
    let mut keys: Vec<String> = Vec::new();
    let mut done: usize = 0;
    let total = rest.len();
    assert(nodes(children@) =~= sorted_by_name(all.take(0)));
    assert(nodes(rest@) =~= all.skip(0));
    while done < total
        invariant
            done <= total,
            total == all.len(),
            rest.len() == total - done,
            nodes(rest@) == all.skip(done as int),
            keys.len() == children.len(),
            forall|k: int|
                0 <= k < children.len() ==> (#[trigger] keys@[k])@ == lowercase(
                    children@[k]@.name,
                ),
            nodes(children@) == sorted_by_name(all.take(done as int)),
        decreases total - done,
    {
        let ghost before = nodes(rest@);
        let x = rest.remove(0);
        proof {
            assert(x@ == before[0]);
            assert forall|k: int| 0 <= k < rest@.len() implies nodes(rest@)[k] == all.skip(
                done + 1,
            )[k] by {
                assert(nodes(rest@)[k] == before[k + 1]);
            }
            assert(nodes(rest@) =~= all.skip(done + 1));
            assert(all.take(done + 1).drop_last() == all.take(done as int));
            assert(all.take(done + 1).last() == x@);
        }
        insert_sorted(children, &mut keys, x);
        done = done + 1;
    }
    assert(all.take(done as int) == all);
}

impl AppRoute {
    /// Brings the children of every node of the tree into the order of
    /// siblings, so that what is generated from the tree does not depend on
    /// the order in which the directories were walked.
    pub fn sort_app_route(&mut self)
        ensures
            final(self)@ == sorted_tree(old(self)@),
        decreases height(old(self)@),
    {
        proof {
            lemma_node_view(*self);
        }
        let ghost unsorted = old(self)@.children;
        let mut i: usize = 0;
        while i < self.children.len()
            invariant
                i <= self.children.len(),
                self.name == old(self).name,
                self.relative_path == old(self).relative_path,
                self.route == old(self).route,
                self.middlewares == old(self).middlewares,
                self.children@.len() == unsorted.len(),
                unsorted == old(self)@.children,
                forall|k: int| 0 <= k < i ==> nodes(self.children@)[k] == sorted_tree(unsorted[k]),
                forall|k: int| i <= k < unsorted.len() ==> nodes(self.children@)[k] == unsorted[k],
            decreases self.children.len() - i,
        {
            let ghost before = nodes(self.children@);
            proof {
                assert(before[i as int] == self.children@[i as int]@);
                lemma_child_height(old(self)@, i as int);
            }
            self.children[i].sort_app_route();
            proof {
                assert forall|k: int| 0 <= k < i + 1 implies nodes(self.children@)[k]
                    == sorted_tree(unsorted[k]) by {
                    if k < i {
                        assert(nodes(self.children@)[k] == before[k]);
                    }
                }
                assert forall|k: int| i + 1 <= k < unsorted.len() implies nodes(
                    self.children@,
                )[k] == unsorted[k] by {
                    assert(nodes(self.children@)[k] == before[k]);
                }
            }
            i = i + 1;
        }
        let ghost inner = nodes(self.children@);
        sort_children(&mut self.children);
        proof {
            lemma_node_view(*self);
            lemma_sorted_each(unsorted);
            assert(inner =~= sorted_each(unsorted));
        }
    }
}

} // verus!
