//! The dispatch among the handlers of a route.

use crate::emit::{dispatch_clause, wait_marker};
use vstd::prelude::*;

verus! {

/// The call of a deferred handler stands behind its wait marker, and the
/// call of another handler does not: in the clause of a handler, the alias
/// of the handler follows the text `await ` exactly where the handler is
/// deferred.
pub proof fn law_deferred_handlers_are_awaited(
    method: Seq<char>,
    alias: Seq<char>,
    is_deferred: bool,
)
    ensures
        ({
            let clause = dispatch_clause(method, alias, is_deferred);
            let at = clause.len() - "(req, res); return; }\n"@.len() - alias.len();
            &&& 0 <= at
            &&& clause.subrange(at, at + alias.len()) == alias
            &&& "await "@.is_suffix_of(clause.take(at)) <==> is_deferred
        }),
{
    reveal_strlit("await ");
    reveal_strlit("\") { ");
    let head = "if (req.method === \""@ + method + "\") { "@;
    let call = "(req, res); return; }\n"@;
    let clause = dispatch_clause(method, alias, is_deferred);
    let before = head + wait_marker(is_deferred);
    assert(clause == before + alias + call);
    let at = clause.len() - call.len() - alias.len();
    assert(at == before.len());
    assert(clause.subrange(at, at + alias.len()) =~= alias);
    assert(clause.take(at) =~= before);
    if is_deferred {
        assert(before.subrange(before.len() - "await "@.len(), before.len() as int) =~= "await "@);
    } else {
        assert(before =~= head);
        assert(head[head.len() - 2] == '{');
        if "await "@.is_suffix_of(head) {
            assert(head.subrange(head.len() - 6, head.len() as int)[4] == 't');
        }
    }
}

} // verus!
