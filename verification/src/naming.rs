//! From paths and names of the route tree to what the generated code calls
//! things: identifiers of routers, aliases of handlers, endpoint paths,
//! mount paths and module specifiers.

use crate::error::{CompileError, ErrorKind};
use crate::text::{
    chars_of, lemma_split_nonempty, push_char, replace, replace_all, same_text, split,
    split_text, starts_with, strip_prefix, texts, trim, trimmed,
};
use crate::tree::{is_virtual_group, is_virtual_group_name};
use vstd::prelude::*;

verus! {

/// Whether a character is a letter or a digit of ASCII.
pub open spec fn is_alphanumeric(c: char) -> bool {
    ('a' <= c && c <= 'z') || ('A' <= c && c <= 'Z') || ('0' <= c && c <= '9')
}

/// Whether a character can stand anywhere in an identifier of the generated
/// code, behind its first character: a letter or a digit of ASCII, an
/// underscore or a dollar sign.
pub open spec fn is_identifier_char(c: char) -> bool {
    is_alphanumeric(c) || c == '_' || c == '$'
}

/// Decides `is_alphanumeric`.
pub fn is_alphanumeric_char(c: char) -> (r: bool)
    ensures
        r == is_alphanumeric(c),
{
    (c >= 'a' && c <= 'z') || (c >= 'A' && c <= 'Z') || (c >= '0' && c <= '9')
}

/// What a character of a name becomes in an identifier. Parentheses leave
/// no trace. A character that can stand in an identifier stays. Every other
/// character becomes an underscore.
pub open spec fn safe_char(c: char) -> Seq<char> {
    if c == '(' || c == ')' {
        Seq::empty()
    } else if is_identifier_char(c) {
        seq![c]
    } else {
        seq!['_']
    }
}

/// A name with each character replaced by its `safe_char`.
pub open spec fn safe_chars(s: Seq<char>) -> Seq<char>
    decreases s.len(),
{
    if s.len() == 0 {
        Seq::empty()
    } else {
        safe_chars(s.drop_last()) + safe_char(s.last())
    }
}

/// Computes `safe_chars`.
pub fn normalize(s: &str) -> (r: String)
    ensures
        r@ == safe_chars(s@),
{
    let v = chars_of(s);
    let mut out = String::new();
    let mut i: usize = 0;
    assert(out@ =~= safe_chars(v@.take(0)));
    while i < v.len()
        invariant
            i <= v.len(),
            out@ == safe_chars(v@.take(i as int)),
        decreases v.len() - i,
    {
        let c = v[i];
        let ghost before = out@;
        proof {
            assert(v@.take(i + 1).drop_last() == v@.take(i as int));
        }
        if c == '(' || c == ')' {
            assert(out@ =~= before + safe_char(c));
        } else if is_alphanumeric_char(c) || c == '_' || c == '$' {
            push_char(&mut out, c);
            assert(out@ =~= before + safe_char(c));
        } else {
            push_char(&mut out, '_');
            assert(out@ =~= before + safe_char(c));
        }
        i = i + 1;
    }
    assert(v@.take(i as int) == v@);
    out
}

/// The identifier that stands for a directory whose name, without the white
/// space around it, is `name`. A virtual group has none.
pub open spec fn identifier_of(name: Seq<char>) -> Option<Seq<char>> {
    if is_virtual_group(name) {
        None
    } else {
        Some(safe_chars(name))
    }
}

/// Derives the identifier of a directory from its name, taken as it stands.
/// Fails with `InvalidRouteName` exactly where the name is a virtual group.
pub fn identifier_from(name: &str) -> (r: Result<String, CompileError>)
    ensures
        match identifier_of(name@) {
            Some(id) => r matches Ok(s) && s@ == id,
            None => r matches Err(e) && e.kind == ErrorKind::InvalidRouteName && e.path@ == name@,
        },
{
    if is_virtual_group_name(name) {
        Err(CompileError::new(ErrorKind::InvalidRouteName, name))
    } else {
        Ok(normalize(name))
    }
}

/// Derives the identifier of a directory from its name: the white space
/// around the name is dropped, then the name is made safe. Fails with
/// `InvalidRouteName` exactly where the name without that white space is a
/// virtual group.
pub fn route_name_to_identifier(name: &str) -> (r: Result<String, CompileError>)
    ensures
        match identifier_of(trimmed(name@)) {
            Some(id) => r matches Ok(s) && s@ == id,
            None => r matches Err(e) && e.kind == ErrorKind::InvalidRouteName && e.path@
                == trimmed(name@),
        },
{
    let bare = trim(name);
    identifier_from(bare.as_str())
}

/// The digit of base sixteen for a number below sixteen.
#[verifier::opaque]
pub open spec fn hex(d: int) -> char {
    if d == 0 {
        '0'
    } else if d == 1 {
        '1'
    } else if d == 2 {
        '2'
    } else if d == 3 {
        '3'
    } else if d == 4 {
        '4'
    } else if d == 5 {
        '5'
    } else if d == 6 {
        '6'
    } else if d == 7 {
        '7'
    } else if d == 8 {
        '8'
    } else if d == 9 {
        '9'
    } else if d == 10 {
        'a'
    } else if d == 11 {
        'b'
    } else if d == 12 {
        'c'
    } else if d == 13 {
        'd'
    } else if d == 14 {
        'e'
    } else {
        'f'
    }
}

/// The code point of a character.
pub open spec fn code_point(c: char) -> int {
    c as u32 as int
}

/// A character written with the characters of an identifier: a dollar sign
/// and the code point of the character in base sixteen, in two digits for a
/// character of ASCII, and behind a `u` in six digits for any other.
pub open spec fn escape(c: char) -> Seq<char> {
    let n = code_point(c);
    if n < 128 {
        seq!['$', hex(n / 16), hex(n % 16)]
    } else {
        seq![
            '$',
            'u',
            hex(n / 0x100000 % 16),
            hex(n / 0x10000 % 16),
            hex(n / 0x1000 % 16),
            hex(n / 0x100 % 16),
            hex(n / 0x10 % 16),
            hex(n % 16),
        ]
    }
}

/// What stands for a character in an alias. A letter or a digit of ASCII
/// stands for itself. In a path, an underscore stands for a slash. Every
/// other character is escaped.
pub open spec fn code_word(c: char, in_path: bool) -> Seq<char> {
    if is_alphanumeric(c) {
        seq![c]
    } else if in_path && c == '/' {
        seq!['_']
    } else {
        escape(c)
    }
}

/// A text with each character replaced by its `code_word`.
pub open spec fn encoded(s: Seq<char>, in_path: bool) -> Seq<char>
    decreases s.len(),
{
    if s.len() == 0 {
        Seq::empty()
    } else {
        code_word(s[0], in_path) + encoded(s.skip(1), in_path)
    }
}

/// Computes `hex`.
fn hex_digit(d: u32) -> (r: char)
    requires
        d < 16,
    ensures
        r == hex(d as int),
{
    reveal(hex);
    if d == 0 {
        '0'
    } else if d == 1 {
        '1'
    } else if d == 2 {
        '2'
    } else if d == 3 {
        '3'
    } else if d == 4 {
        '4'
    } else if d == 5 {
        '5'
    } else if d == 6 {
        '6'
    } else if d == 7 {
        '7'
    } else if d == 8 {
        '8'
    } else if d == 9 {
        '9'
    } else if d == 10 {
        'a'
    } else if d == 11 {
        'b'
    } else if d == 12 {
        'c'
    } else if d == 13 {
        'd'
    } else if d == 14 {
        'e'
    } else {
        'f'
    }
}

/// Appends the `code_word` of a character.
fn push_code_word(out: &mut String, c: char, in_path: bool)
    ensures
        final(out)@ == old(out)@ + code_word(c, in_path),
{
    let ghost before = out@;
    if is_alphanumeric_char(c) {
        push_char(out, c);
        assert(out@ =~= before + code_word(c, in_path));
    } else if in_path && c == '/' {
        push_char(out, '_');
        assert(out@ =~= before + code_word(c, in_path));
    } else {
        let n: u32 = c as u32;
        push_char(out, '$');
        if n < 128 {
            push_char(out, hex_digit(n / 16));
            push_char(out, hex_digit(n % 16));
        } else {
            push_char(out, 'u');
            push_char(out, hex_digit(n / 0x100000 % 16));
            push_char(out, hex_digit(n / 0x10000 % 16));
            push_char(out, hex_digit(n / 0x1000 % 16));
            push_char(out, hex_digit(n / 0x100 % 16));
            push_char(out, hex_digit(n / 0x10 % 16));
            push_char(out, hex_digit(n % 16));
        }
        assert(out@ =~= before + code_word(c, in_path));
    }
}

/// Computes `encoded`.
pub fn encode(s: &str, in_path: bool) -> (r: String)
    ensures
        r@ == encoded(s@, in_path),
{
    let v = chars_of(s);
    let mut out = String::new();
    let mut i: usize = 0;
    assert(v@.skip(0) == v@);
    assert(encoded(v@, in_path) =~= out@ + encoded(v@, in_path));
    while i < v.len()
        invariant
            i <= v.len(),
            encoded(v@, in_path) == out@ + encoded(v@.skip(i as int), in_path),
        decreases v.len() - i,
    {
        let ghost before = out@;
        let ghost rest = v@.skip(i as int);
        proof {
            assert(rest[0] == v@[i as int]);
            assert(rest.skip(1) == v@.skip(i + 1));
        }
        push_code_word(&mut out, v[i], in_path);
        assert(before + (code_word(v@[i as int], in_path) + encoded(v@.skip(i + 1), in_path))
            =~= out@ + encoded(v@.skip(i + 1), in_path));
        i = i + 1;
    }
    assert(out@ + encoded(v@.skip(i as int), in_path) =~= out@);
    out
}

/// The beginning of every handler alias of a route: the path of its node,
/// its letters and digits as they are, an underscore for every slash, and
/// every other character escaped.
pub open spec fn alias_base(relative_path: Seq<char>) -> Seq<char> {
    encoded(relative_path, true)
}

/// The alias under which a handler is imported: the path of its node as in
/// `alias_base`, an underscore, and the name under which the module exports
/// the handler, its letters and digits as they are and every other
/// character escaped. No two pairs of a path and a name share an alias.
pub open spec fn handler_alias(relative_path: Seq<char>, export_name: Seq<char>) -> Seq<char> {
    alias_base(relative_path).push('_') + encoded(export_name, false)
}

/// Computes `alias_base`.
pub fn unique_route_handler_alias(relative_path: &str) -> (r: String)
    ensures
        r@ == alias_base(relative_path@),
{
    encode(relative_path, true)
}

/// Computes `handler_alias`.
pub fn handler_alias_of(relative_path: &str, export_name: &str) -> (r: String)
    ensures
        r@ == handler_alias(relative_path@, export_name@),
{
    let mut alias = unique_route_handler_alias(relative_path);
    push_char(&mut alias, '_');
    let name = encode(export_name, false);
    alias.append(name.as_str());
    alias
}

/// The module that an import names for a file: the file name without `.ts`
/// and without `.js`, wherever they stand in it.
pub open spec fn module_specifier(file: Seq<char>) -> Seq<char> {
    replace_all(replace_all(file, ".ts"@, Seq::empty()), ".js"@, Seq::empty())
}

/// Computes `module_specifier`.
pub fn strip_extensions(file: &str) -> (r: String)
    ensures
        r@ == module_specifier(file@),
{
    let empty = String::new();
    let first = replace(file, ".ts", empty.as_str());
    replace(first.as_str(), ".js", empty.as_str())
}

/// The real segments among `segs`, each behind a slash: virtual groups are
/// left out.
pub open spec fn joined_real(segs: Seq<Seq<char>>) -> Seq<char>
    decreases segs.len(),
{
    if segs.len() == 0 {
        Seq::empty()
    } else if is_virtual_group(segs.last()) {
        joined_real(segs.drop_last())
    } else {
        joined_real(segs.drop_last()) + seq!['/'] + segs.last()
    }
}

/// The endpoint path of the route file whose path below the routing root
/// has the segments `segs`: the real directories, each behind a slash, and
/// a closing slash for the file itself.
pub open spec fn endpoint_of_segments(segs: Seq<Seq<char>>) -> Seq<char> {
    joined_real(segs.drop_last()).push('/')
}

/// The endpoint path of a route file, by its path from the source root:
/// `None` where the file does not lie below the routing root `root`.
pub open spec fn endpoint(path: Seq<char>, root: Seq<char>) -> Option<Seq<char>> {
    if root.push('/').is_prefix_of(path) {
        Some(endpoint_of_segments(split(path.skip(root.len() as int + 1), '/')))
    } else {
        None
    }
}

/// Derives the endpoint path of a route file from its path from the source
/// root. Fails with `PathResolutionError` exactly where the file does not
/// lie below the routing root.
pub fn rel_path_to_endpoint(rel_path: &str, root: &str) -> (r: Result<String, CompileError>)
    ensures
        match endpoint(rel_path@, root@) {
            Some(ep) => r matches Ok(s) && s@ == ep,
            None => r matches Err(e) && e.kind == ErrorKind::PathResolutionError && e.path@
                == rel_path@,
        },
{
    let mut prefix = String::from_str(root);
    push_char(&mut prefix, '/');
    if !starts_with(rel_path, prefix.as_str()) {
        return Err(CompileError::new(ErrorKind::PathResolutionError, rel_path));
    }
    let rest = strip_prefix(rel_path, prefix.as_str());
    let segs = split_text(rest.as_str(), '/');
    let ghost all = texts(segs@);
    proof {
        lemma_split_nonempty(rest@, '/');
    }
    let mut out = String::new();
    let mut i: usize = 0;
    assert(out@ =~= joined_real(all.drop_last().take(0)));
    while i + 1 < segs.len()
        invariant
            segs.len() >= 1,
            i + 1 <= segs.len(),
            all == texts(segs@),
            out@ == joined_real(all.drop_last().take(i as int)),
        decreases segs.len() - i,
    {
        let seg = &segs[i];
        proof {
            assert(all.drop_last().take(i + 1).drop_last() == all.drop_last().take(i as int));
            assert(all.drop_last().take(i + 1).last() == seg@);
        }
        if !is_virtual_group_name(seg.as_str()) {
            let ghost before = out@;
            push_char(&mut out, '/');
            out.append(seg.as_str());
            assert(out@ =~= before + seq!['/'] + seg@);
        }
        i = i + 1;
    }
    assert(all.drop_last().take(i as int) == all.drop_last());
    push_char(&mut out, '/');
    Ok(out)
}

/// The path at which the sub-router of a node is mounted, seen from the
/// application: the node's path without the routing root before it. A path
/// that does not lie below the routing root is taken whole, behind a slash.
pub open spec fn mount_path(relative_path: Seq<char>, root: Seq<char>) -> Seq<char> {
    if relative_path == root {
        Seq::empty()
    } else if root.push('/').is_prefix_of(relative_path) {
        relative_path.skip(root.len() as int)
    } else {
        seq!['/'] + relative_path
    }
}

/// Computes `mount_path`.
pub fn full_router_path(relative_path: &str, root: &str) -> (r: String)
    ensures
        r@ == mount_path(relative_path@, root@),
{
    if same_text(relative_path, root) {
        return String::new();
    }
    let mut prefix = String::from_str(root);
    push_char(&mut prefix, '/');
    if starts_with(relative_path, prefix.as_str()) {
        let r = strip_prefix(relative_path, root);
        proof {
            assert(root@.is_prefix_of(relative_path@)) by {
                assert(relative_path@.subrange(0, root@.len() as int) =~= root@.push(
                    '/',
                ).subrange(0, root@.len() as int));
            }
        }
        r
    } else {
        let mut r = String::new();
        push_char(&mut r, '/');
        r.append(relative_path);
        assert(r@ =~= seq!['/'] + relative_path@);
        r
    }
}

} // verus!
