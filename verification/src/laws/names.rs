//! Identifiers and aliases: which characters they are made of, and that no
//! two handlers share an alias.

use crate::naming::{
    alias_base, code_point, code_word, encoded, escape, handler_alias, hex, identifier_of,
    is_alphanumeric, is_identifier_char, safe_char, safe_chars,
};
use vstd::prelude::*;

verus! {

/// Whether every character of a text can stand in an identifier.
pub open spec fn is_safe(s: Seq<char>) -> bool {
    forall|i: int| 0 <= i < s.len() ==> is_identifier_char(#[trigger] s[i])
}

/// A name made safe holds only characters that can stand in an identifier.
pub proof fn lemma_safe_chars_are_safe(name: Seq<char>)
    ensures
        is_safe(safe_chars(name)),
    decreases name.len(),
{
    if name.len() > 0 {
        lemma_safe_chars_are_safe(name.drop_last());
        let init = safe_chars(name.drop_last());
        let last = safe_char(name.last());
        assert forall|i: int| 0 <= i < safe_chars(name).len() implies is_identifier_char(
            #[trigger] safe_chars(name)[i],
        ) by {
            if i < init.len() {
                assert(safe_chars(name)[i] == init[i]);
            } else {
                assert(safe_chars(name)[i] == last[i - init.len()]);
            }
        }
    }
}

/// The identifier of a directory holds only letters and digits of ASCII,
/// underscores and dollar signs, whatever the name of the directory holds.
pub proof fn law_identifier_is_safe(name: Seq<char>)
    requires
        identifier_of(name) is Some,
    ensures
        is_safe(identifier_of(name)->0),
{
    lemma_safe_chars_are_safe(name);
}

/// A digit of base sixteen is a letter or a digit of ASCII, and no `u`.
pub proof fn lemma_hex_is_alphanumeric(d: int)
    ensures
        is_alphanumeric(hex(d)),
        hex(d) != 'u',
        hex(d) != '_',
        hex(d) != '$',
{
    reveal(hex);
}

/// A digit of base sixteen tells its number.
pub proof fn lemma_hex_tells(d: int, e: int)
    requires
        0 <= d < 16,
        0 <= e < 16,
        hex(d) == hex(e),
    ensures
        d == e,
{
    reveal(hex);
}

/// The escape of a character begins with a dollar sign; it holds only
/// characters that can stand in an identifier, and no underscore.
pub proof fn lemma_escape_is_safe(c: char)
    ensures
        escape(c).len() >= 3,
        escape(c)[0] == '$',
        is_safe(escape(c)),
        forall|i: int| 0 <= i < escape(c).len() ==> escape(c)[i] != '_',
{
    let n = code_point(c);
    lemma_hex_is_alphanumeric(n / 16);
    lemma_hex_is_alphanumeric(n % 16);
    lemma_hex_is_alphanumeric(n / 0x100000 % 16);
    lemma_hex_is_alphanumeric(n / 0x10000 % 16);
    lemma_hex_is_alphanumeric(n / 0x1000 % 16);
    lemma_hex_is_alphanumeric(n / 0x100 % 16);
    lemma_hex_is_alphanumeric(n / 0x10 % 16);
}

/// What stands for a character is not empty and holds only characters that
/// can stand in an identifier.
pub proof fn lemma_code_word_is_safe(c: char, in_path: bool)
    ensures
        code_word(c, in_path).len() > 0,
        is_safe(code_word(c, in_path)),
        !in_path ==> forall|i: int|
            0 <= i < code_word(c, in_path).len() ==> code_word(c, in_path)[i] != '_',
{
    lemma_escape_is_safe(c);
}

/// An encoded text holds only characters that can stand in an identifier;
/// outside a path it holds no underscore.
pub proof fn lemma_encoded_is_safe(s: Seq<char>, in_path: bool)
    ensures
        is_safe(encoded(s, in_path)),
        !in_path ==> forall|i: int|
            0 <= i < encoded(s, in_path).len() ==> encoded(s, in_path)[i] != '_',
    decreases s.len(),
{
    if s.len() > 0 {
        lemma_encoded_is_safe(s.skip(1), in_path);
        lemma_code_word_is_safe(s[0], in_path);
        let word = code_word(s[0], in_path);
        let rest = encoded(s.skip(1), in_path);
        assert forall|i: int| 0 <= i < encoded(s, in_path).len() implies is_identifier_char(
            #[trigger] encoded(s, in_path)[i],
        ) && (!in_path ==> encoded(s, in_path)[i] != '_') by {
            if i < word.len() {
                assert(encoded(s, in_path)[i] == word[i]);
            } else {
                assert(encoded(s, in_path)[i] == rest[i - word.len()]);
            }
        }
    }
}

/// An alias holds only letters and digits of ASCII, underscores and dollar
/// signs, whatever the path and the name hold.
pub proof fn law_alias_is_safe(relative_path: Seq<char>, export_name: Seq<char>)
    ensures
        is_safe(handler_alias(relative_path, export_name)),
{
    lemma_encoded_is_safe(relative_path, true);
    lemma_encoded_is_safe(export_name, false);
    let base = alias_base(relative_path).push('_');
    let name = encoded(export_name, false);
    assert forall|i: int|
        0 <= i < handler_alias(relative_path, export_name).len() implies is_identifier_char(
        #[trigger] handler_alias(relative_path, export_name)[i],
    ) by {
        if i < base.len() - 1 {
            assert(handler_alias(relative_path, export_name)[i] == alias_base(relative_path)[i]);
        } else if i == base.len() - 1 {
            assert(handler_alias(relative_path, export_name)[i] == '_');
        } else {
            assert(handler_alias(relative_path, export_name)[i] == name[i - base.len()]);
        }
    }
}

/// Two characters whose escapes begin two equal texts are one character,
/// and what follows the escapes is equal.
pub proof fn lemma_escape_tells(a: char, b: char, x: Seq<char>, y: Seq<char>)
    requires
        escape(a) + x == escape(b) + y,
    ensures
        a == b,
        x == y,
{
    let left = escape(a) + x;
    let right = escape(b) + y;
    let m = code_point(a);
    let n = code_point(b);
    assert(0 <= m < 0x110000 && 0 <= n < 0x110000);
    assert(left[1] == escape(a)[1] && right[1] == escape(b)[1]);
    assert(left[2] == escape(a)[2] && right[2] == escape(b)[2]);
    lemma_hex_is_alphanumeric(m / 16);
    lemma_hex_is_alphanumeric(n / 16);
    if m < 128 {
        assert(n < 128);
        lemma_hex_tells(m / 16, n / 16);
        lemma_hex_tells(m % 16, n % 16);
        assert(m == n);
        assert(x =~= left.skip(3));
        assert(y =~= right.skip(3));
    } else {
        assert(n >= 128);
        assert(left[3] == escape(a)[3] && right[3] == escape(b)[3]);
        assert(left[4] == escape(a)[4] && right[4] == escape(b)[4]);
        assert(left[5] == escape(a)[5] && right[5] == escape(b)[5]);
        assert(left[6] == escape(a)[6] && right[6] == escape(b)[6]);
        assert(left[7] == escape(a)[7] && right[7] == escape(b)[7]);
        lemma_hex_tells(m / 0x100000 % 16, n / 0x100000 % 16);
        lemma_hex_tells(m / 0x10000 % 16, n / 0x10000 % 16);
        lemma_hex_tells(m / 0x1000 % 16, n / 0x1000 % 16);
        lemma_hex_tells(m / 0x100 % 16, n / 0x100 % 16);
        lemma_hex_tells(m / 0x10 % 16, n / 0x10 % 16);
        lemma_hex_tells(m % 16, n % 16);
        assert(m == n);
        assert(x =~= left.skip(8));
        assert(y =~= right.skip(8));
    }
}

/// Two characters whose code words begin two equal texts are one
/// character, and what follows the code words is equal.
pub proof fn lemma_code_word_tells(a: char, b: char, in_path: bool, x: Seq<char>, y: Seq<char>)
    requires
        code_word(a, in_path) + x == code_word(b, in_path) + y,
    ensures
        a == b,
        x == y,
{
    let left = code_word(a, in_path) + x;
    let right = code_word(b, in_path) + y;
    lemma_escape_is_safe(a);
    lemma_escape_is_safe(b);
    assert(left[0] == code_word(a, in_path)[0]);
    assert(right[0] == code_word(b, in_path)[0]);
    if is_alphanumeric(a) {
        assert(left[0] == a);
        assert(is_alphanumeric(b));
        assert(x =~= left.skip(1));
        assert(y =~= right.skip(1));
    } else if in_path && a == '/' {
        assert(left[0] == '_');
        assert(!is_alphanumeric(b));
        assert(b == '/');
        assert(x =~= left.skip(1));
        assert(y =~= right.skip(1));
    } else {
        assert(left[0] == '$');
        assert(!is_alphanumeric(b));
        assert(!(in_path && b == '/'));
        lemma_escape_tells(a, b, x, y);
    }
}

/// The encoding loses nothing: two texts with one encoding are one text.
pub proof fn lemma_encoded_tells(s: Seq<char>, t: Seq<char>, in_path: bool)
    requires
        encoded(s, in_path) == encoded(t, in_path),
    ensures
        s == t,
    decreases s.len(),
{
    if s.len() == 0 || t.len() == 0 {
        if t.len() > 0 {
            lemma_code_word_is_safe(t[0], in_path);
            assert(encoded(t, in_path).len() >= code_word(t[0], in_path).len());
        }
        if s.len() > 0 {
            lemma_code_word_is_safe(s[0], in_path);
            assert(encoded(s, in_path).len() >= code_word(s[0], in_path).len());
        }
        assert(s =~= t);
    } else {
        lemma_code_word_tells(
            s[0],
            t[0],
            in_path,
            encoded(s.skip(1), in_path),
            encoded(t.skip(1), in_path),
        );
        lemma_encoded_tells(s.skip(1), t.skip(1), in_path);
        assert(s =~= seq![s[0]] + s.skip(1));
        assert(t =~= seq![t[0]] + t.skip(1));
    }
}

/// The text of an alias from a path on: the rest of the path, the
/// underscore, the name.
pub open spec fn alias_from(path: Seq<char>, name: Seq<char>) -> Seq<char> {
    encoded(path, true).push('_') + encoded(name, false)
}

/// Two pairs of a path and a name with one alias are one pair.
pub proof fn lemma_alias_tells(p: Seq<char>, n: Seq<char>, q: Seq<char>, m: Seq<char>)
    requires
        alias_from(p, n) == alias_from(q, m),
    ensures
        p == q,
        n == m,
    decreases p.len() + q.len(),
{
    let left = alias_from(p, n);
    let right = alias_from(q, m);
    if p.len() == 0 && q.len() == 0 {
        assert(encoded(n, false) =~= left.skip(1));
        assert(encoded(m, false) =~= right.skip(1));
        lemma_encoded_tells(n, m, false);
        assert(p =~= q);
    } else if p.len() == 0 {
        lemma_alias_begins_a_path(n, q, m);
    } else if q.len() == 0 {
        lemma_alias_begins_a_path(m, p, n);
    } else {
        let x = alias_from(p.skip(1), n);
        let y = alias_from(q.skip(1), m);
        assert(left =~= code_word(p[0], true) + x);
        assert(right =~= code_word(q[0], true) + y);
        lemma_code_word_tells(p[0], q[0], true, x, y);
        lemma_alias_tells(p.skip(1), n, q.skip(1), m);
        assert(p =~= seq![p[0]] + p.skip(1));
        assert(q =~= seq![q[0]] + q.skip(1));
    }
}

/// An alias without a path is no alias with a path: behind its underscore
/// stands the name, which holds no underscore, while an alias with a path
/// holds one more.
proof fn lemma_alias_begins_a_path(n: Seq<char>, q: Seq<char>, m: Seq<char>)
    requires
        q.len() > 0,
    ensures
        alias_from(Seq::empty(), n) != alias_from(q, m),
{
    let left = alias_from(Seq::empty(), n);
    let right = alias_from(q, m);
    if left == right {
        lemma_code_word_is_safe(q[0], true);
        lemma_escape_is_safe(q[0]);
        lemma_encoded_is_safe(n, false);
        let word = code_word(q[0], true);
        let rest = alias_from(q.skip(1), m);
        assert(right =~= word + rest);
        assert(left[0] == '_');
        assert(right[0] == word[0]);
        assert(q[0] == '/');
        assert(encoded(n, false) =~= left.skip(1));
        assert(rest =~= right.skip(1));
        let at = encoded(q.skip(1), true).len() as int;
        assert(rest[at] == '_');
        assert(encoded(n, false)[at] == '_');
    }
}

/// No two handlers share an alias: the alias tells the path of the node
/// and the name of the handler.
pub proof fn law_alias_is_injective(p: Seq<char>, n: Seq<char>, q: Seq<char>, m: Seq<char>)
    ensures
        handler_alias(p, n) == handler_alias(q, m) ==> p == q && n == m,
        alias_base(p) == alias_base(q) ==> p == q,
{
    if handler_alias(p, n) == handler_alias(q, m) {
        lemma_alias_tells(p, n, q, m);
    }
    if alias_base(p) == alias_base(q) {
        lemma_encoded_tells(p, q, true);
    }
}

} // verus!
