//! The order of siblings after sorting.

use crate::text::{lowercase, text_le};
use crate::tree::{
    insert_position, lemma_insert_position_range, name_le, sorted_by_name, RouteNode,
};
use vstd::prelude::*;
use vstd::seq_lib::{to_multiset_build, to_multiset_insert};

verus! {

/// Of two texts one stands before the other, or they are equal.
pub proof fn lemma_text_le_total(a: Seq<char>, b: Seq<char>)
    ensures
        text_le(a, b) || text_le(b, a),
    decreases a.len(),
{
    if a.len() > 0 && b.len() > 0 && a[0] == b[0] {
        lemma_text_le_total(a.skip(1), b.skip(1));
    }
}

/// The order of texts is transitive.
pub proof fn lemma_text_le_transitive(a: Seq<char>, b: Seq<char>, c: Seq<char>)
    requires
        text_le(a, b),
        text_le(b, c),
    ensures
        text_le(a, c),
    decreases a.len(),
{
    if a.len() > 0 && b.len() > 0 && c.len() > 0 && a[0] == b[0] && b[0] == c[0] {
        lemma_text_le_transitive(a.skip(1), b.skip(1), c.skip(1));
    }
}

/// Whether the nodes `cs` stand in the order of siblings.
pub open spec fn is_ordered(cs: Seq<RouteNode>) -> bool {
    forall|i: int, j: int| 0 <= i < j < cs.len() ==> name_le(#[trigger] cs[i], #[trigger] cs[j])
}

/// The place of a node among ordered nodes: no node before it stands after
/// the node, and every node from it on does.
pub proof fn lemma_insert_position_splits(sorted: Seq<RouteNode>, x: RouteNode)
    requires
        is_ordered(sorted),
    ensures
        0 <= insert_position(sorted, x) <= sorted.len(),
        forall|k: int| 0 <= k < insert_position(sorted, x) ==> name_le(#[trigger] sorted[k], x),
        forall|k: int|
            insert_position(sorted, x) <= k < sorted.len() ==> !name_le(#[trigger] sorted[k], x),
    decreases sorted.len(),
{
    if sorted.len() > 0 {
        let last = sorted.last();
        if name_le(last, x) {
            assert forall|k: int| 0 <= k < sorted.len() implies name_le(
                #[trigger] sorted[k],
                x,
            ) by {
                if k < sorted.len() - 1 {
                    assert(name_le(sorted[k], sorted[sorted.len() - 1]));
                    lemma_text_le_transitive(
                        lowercase(sorted[k].name),
                        lowercase(last.name),
                        lowercase(x.name),
                    );
                }
            }
        } else {
            let init = sorted.drop_last();
            assert(is_ordered(init)) by {
                assert forall|i: int, j: int| 0 <= i < j < init.len() implies name_le(
                    #[trigger] init[i],
                    #[trigger] init[j],
                ) by {
                    assert(name_le(sorted[i], sorted[j]));
                }
            }
            lemma_insert_position_splits(init, x);
            assert forall|k: int| 0 <= k < insert_position(sorted, x) implies name_le(
                #[trigger] sorted[k],
                x,
            ) by {
                assert(sorted[k] == init[k]);
            }
            assert forall|k: int| insert_position(sorted, x) <= k < sorted.len() implies !name_le(
                #[trigger] sorted[k],
                x,
            ) by {
                if k < sorted.len() - 1 {
                    assert(sorted[k] == init[k]);
                }
            }
        }
    }
}

/// After sorting, siblings stand in the order of their names, taken
/// without regard to case.
pub proof fn law_sorted_is_ordered(cs: Seq<RouteNode>)
    ensures
        is_ordered(sorted_by_name(cs)),
    decreases cs.len(),
{
    if cs.len() > 0 {
        let init = sorted_by_name(cs.drop_last());
        let x = cs.last();
        law_sorted_is_ordered(cs.drop_last());
        lemma_insert_position_splits(init, x);
        let at = insert_position(init, x);
        let all = init.insert(at, x);
        assert forall|i: int, j: int| 0 <= i < j < all.len() implies name_le(
            #[trigger] all[i],
            #[trigger] all[j],
        ) by {
            if j < at {
                assert(all[i] == init[i] && all[j] == init[j]);
            } else if j == at {
                assert(all[i] == init[i]);
            } else if i == at {
                assert(all[j] == init[j - 1]);
                lemma_text_le_total(
                    lowercase(init[j - 1].name),
                    lowercase(x.name),
                );
            } else if i < at {
                assert(all[i] == init[i] && all[j] == init[j - 1]);
            } else {
                assert(all[i] == init[i - 1] && all[j] == init[j - 1]);
            }
        }
    }
}

/// Sorting neither adds a sibling nor loses one.
pub proof fn law_sorted_is_permutation(cs: Seq<RouteNode>)
    ensures
        sorted_by_name(cs).to_multiset() == cs.to_multiset(),
    decreases cs.len(),
{
    if cs.len() > 0 {
        let init = sorted_by_name(cs.drop_last());
        law_sorted_is_permutation(cs.drop_last());
        lemma_insert_position_range(init, cs.last());
        to_multiset_insert(init, insert_position(init, cs.last()), cs.last());
        to_multiset_build(cs.drop_last(), cs.last());
        assert(cs.drop_last().push(cs.last()) == cs);
    }
}

/// Sorting leaves siblings that stand in order as they are.
pub proof fn law_sorting_keeps_ordered_siblings(cs: Seq<RouteNode>)
    requires
        is_ordered(cs),
    ensures
        sorted_by_name(cs) == cs,
    decreases cs.len(),
{
    if cs.len() > 0 {
        let init = cs.drop_last();
        assert(is_ordered(init)) by {
            assert forall|i: int, j: int| 0 <= i < j < init.len() implies name_le(
                #[trigger] init[i],
                #[trigger] init[j],
            ) by {
                assert(name_le(cs[i], cs[j]));
            }
        }
        law_sorting_keeps_ordered_siblings(init);
        if init.len() > 0 {
            assert(name_le(cs[init.len() - 1], cs[cs.len() - 1]));
        }
        assert(init.insert(init.len() as int, cs.last()) == cs);
    }
}

/// Whether a node has the rank of `x` in the order of siblings: neither
/// stands after the other.
pub open spec fn has_rank_of(x: RouteNode) -> spec_fn(RouteNode) -> bool {
    |n: RouteNode| name_le(n, x) && name_le(x, n)
}

/// Of nodes of which none has a rank, none is kept for it.
pub proof fn lemma_no_node_of_rank(s: Seq<RouteNode>, x: RouteNode)
    requires
        forall|k: int| 0 <= k < s.len() ==> !has_rank_of(x)(#[trigger] s[k]),
    ensures
        s.filter(has_rank_of(x)) == Seq::<RouteNode>::empty(),
    decreases s.len(),
{
    if s.len() == 0 {
        s.lemma_filter_len(has_rank_of(x));
        assert(s.filter(has_rank_of(x)) =~= Seq::<RouteNode>::empty());
    } else {
        let init = s.drop_last();
        assert forall|k: int| 0 <= k < init.len() implies !has_rank_of(x)(#[trigger] init[k]) by {
            assert(init[k] == s[k]);
        }
        lemma_no_node_of_rank(init, x);
        init.lemma_filter_push(s.last(), has_rank_of(x));
        assert(init.push(s.last()) == s);
        assert(!has_rank_of(x)(s[s.len() - 1]));
    }
}

/// Sorting is stable: siblings of one rank, such as those whose names
/// differ in case alone, keep the order in which they came.
pub proof fn law_sorting_is_stable(cs: Seq<RouteNode>, x: RouteNode)
    ensures
        sorted_by_name(cs).filter(has_rank_of(x)) == cs.filter(has_rank_of(x)),
    decreases cs.len(),
{
    if cs.len() > 0 {
        let rank = has_rank_of(x);
        let init = sorted_by_name(cs.drop_last());
        let y = cs.last();
        let at = insert_position(init, y);
        law_sorting_is_stable(cs.drop_last(), x);
        law_sorted_is_ordered(cs.drop_last());
        lemma_insert_position_splits(init, y);
        let a = init.take(at);
        let b = init.skip(at);
        assert(init == a + b);
        assert(init.insert(at, y) == a.push(y) + b);
        assert(cs.drop_last().push(y) == cs);
        Seq::filter_distributes_over_add(a, b, rank);
        Seq::filter_distributes_over_add(a.push(y), b, rank);
        a.lemma_filter_push(y, rank);
        cs.drop_last().lemma_filter_push(y, rank);
        if rank(y) {
            assert forall|k: int| 0 <= k < b.len() implies !rank(#[trigger] b[k]) by {
                assert(b[k] == init[at + k]);
                if rank(b[k]) {
                    lemma_text_le_transitive(
                        lowercase(b[k].name),
                        lowercase(x.name),
                        lowercase(y.name),
                    );
                }
            }
            lemma_no_node_of_rank(b, x);
            assert(a.filter(rank).push(y) + Seq::<RouteNode>::empty() == a.filter(rank).push(y));
            assert(a.filter(rank) + Seq::<RouteNode>::empty() == a.filter(rank));
        }
    }
}

} // verus!
