//! Replacing the markers of a template.

use crate::assemble::{assembled, IMPORTS_MARKER};
use crate::compile::CompiledView;
use crate::text::{occurs_at, replace_all};
use vstd::prelude::*;

verus! {

/// Whether `pat` stands somewhere in `s`.
pub open spec fn occurs(s: Seq<char>, pat: Seq<char>) -> bool {
    exists|at: int| occurs_at(s, at, pat)
}

/// A pattern that stands nowhere in a text is replaced nowhere.
pub proof fn lemma_replace_absent(s: Seq<char>, pat: Seq<char>, with: Seq<char>)
    requires
        !occurs(s, pat),
    ensures
        replace_all(s, pat, with) == s,
    decreases s.len(),
{
    if pat.len() > 0 && s.len() >= pat.len() {
        assert(!occurs_at(s, 0, pat));
        assert(!pat.is_prefix_of(s));
        let rest = s.skip(1);
        assert(!occurs(rest, pat)) by {
            assert forall|at: int| !occurs_at(rest, at, pat) by {
                if occurs_at(rest, at, pat) {
                    assert(s.subrange(at + 1, at + 1 + pat.len()) =~= rest.subrange(
                        at,
                        at + pat.len(),
                    ));
                    assert(occurs_at(s, at + 1, pat));
                }
            }
        }
        lemma_replace_absent(rest, pat, with);
        assert(seq![s[0]] + rest =~= s);
    }
}

/// A pattern that stands at one place of a text, and at no other, is
/// replaced there, and the text around it stays.
pub proof fn law_single_marker_is_replaced(
    before: Seq<char>,
    pat: Seq<char>,
    after: Seq<char>,
    with: Seq<char>,
)
    requires
        pat.len() > 0,
        forall|at: int| occurs_at(before + pat + after, at, pat) ==> at == before.len(),
    ensures
        replace_all(before + pat + after, pat, with) == before + with + after,
    decreases before.len(),
{
    let s = before + pat + after;
    if before.len() == 0 {
        assert(s.subrange(0, pat.len() as int) =~= pat);
        assert(s.skip(pat.len() as int) =~= after);
        assert(!occurs(after, pat)) by {
            assert forall|at: int| !occurs_at(after, at, pat) by {
                if occurs_at(after, at, pat) {
                    assert(s.subrange(at + pat.len(), at + pat.len() + pat.len())
                        =~= after.subrange(at, at + pat.len()));
                    assert(occurs_at(s, at + pat.len(), pat));
                }
            }
        }
        lemma_replace_absent(after, pat, with);
        assert(with + after =~= before + with + after);
    } else {
        assert(!occurs_at(s, 0, pat));
        assert(!pat.is_prefix_of(s));
        let rest = before.skip(1) + pat + after;
        assert(s.skip(1) =~= rest);
        assert forall|at: int| occurs_at(rest, at, pat) implies at == before.skip(1).len() by {
            assert(s.subrange(at + 1, at + 1 + pat.len()) =~= rest.subrange(at, at + pat.len()));
            assert(occurs_at(s, at + 1, pat));
        }
        law_single_marker_is_replaced(before.skip(1), pat, after, with);
        assert(seq![s[0]] + (before.skip(1) + with + after) =~= before + with + after);
    }
}

/// A template without the marker of the imports drops the imports: the
/// generated module is the same whatever they are.
pub proof fn law_missing_marker_drops_its_part(
    template: Seq<char>,
    code: CompiledView,
    imports: Seq<char>,
)
    requires
        !occurs(template, IMPORTS_MARKER@),
    ensures
        assembled(template, code) == assembled(template, CompiledView { imports, ..code }),
{
    lemma_replace_absent(template, IMPORTS_MARKER@, code.imports);
    lemma_replace_absent(template, IMPORTS_MARKER@, imports);
}

} // verus!
