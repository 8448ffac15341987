//! Which items of a dictionary answer contribute to the entry of a query:
//! only those whose word is exactly the query.

use vstd::prelude::*;
use crate::search::{
    answer_entry, answer_texts, child_texts, first_child_from, has_child_tag, is_named_child,
    item_texts, item_tag, sense_tag, sense_texts, trans_dfn_tag, trans_word_tag, translation_tag,
    word_tag, NodeView,
};

verus! {

/// An element matches a query through its child `tag` exactly when, among
/// the first `upto` nodes, its last child named `tag` has the query as its
/// whole text.
pub proof fn lemma_word_match_is_exact(
    ns: Seq<NodeView>,
    upto: int,
    p: u32,
    tag: Seq<char>,
    query: Seq<char>,
)
    requires
        0 <= upto <= ns.len(),
    ensures
        has_child_tag(ns, upto, p, tag, query) <==> exists|k: int|
            0 <= k < upto && #[trigger] is_named_child(ns[k], p, tag) && ns[k].4 == Some(query)
                && forall|j: int| k < j < upto ==> !is_named_child(ns[j], p, tag),
    decreases upto,
{
    if upto > 0 {
        lemma_word_match_is_exact(ns, upto - 1, p, tag, query);
        let last = upto - 1;
        if is_named_child(ns[last], p, tag) {
            if exists|k: int|
                0 <= k < upto && #[trigger] is_named_child(ns[k], p, tag) && ns[k].4 == Some(query)
                    && forall|j: int| k < j < upto ==> !is_named_child(ns[j], p, tag) {
                let k = choose|k: int|
                    0 <= k < upto && #[trigger] is_named_child(ns[k], p, tag) && ns[k].4 == Some(query)
                        && forall|j: int| k < j < upto ==> !is_named_child(ns[j], p, tag);
                if k < last {
                    assert(!is_named_child(ns[last], p, tag));
                }
            }
            if ns[last].4 == Some(query) {
                assert(is_named_child(ns[last], p, tag));
            }
        } else {
            if exists|k: int|
                0 <= k < upto && #[trigger] is_named_child(ns[k], p, tag) && ns[k].4 == Some(query)
                    && forall|j: int| k < j < upto ==> !is_named_child(ns[j], p, tag) {
                let k = choose|k: int|
                    0 <= k < upto && #[trigger] is_named_child(ns[k], p, tag) && ns[k].4 == Some(query)
                        && forall|j: int| k < j < upto ==> !is_named_child(ns[j], p, tag);
                assert(k < last);
                assert(forall|j: int| k < j < last ==> !is_named_child(ns[j], p, tag));
            }
            if exists|k: int|
                0 <= k < last && #[trigger] is_named_child(ns[k], p, tag) && ns[k].4 == Some(query)
                    && forall|j: int| k < j < last ==> !is_named_child(ns[j], p, tag) {
                let k = choose|k: int|
                    0 <= k < last && #[trigger] is_named_child(ns[k], p, tag) && ns[k].4 == Some(query)
                        && forall|j: int| k < j < last ==> !is_named_child(ns[j], p, tag);
                assert(forall|j: int| k < j < upto ==> !is_named_child(ns[j], p, tag));
            }
        }
    }
}

/// An element matches at most one query: two queries that both match the
/// same element are the same text.
pub proof fn lemma_word_match_unique(
    ns: Seq<NodeView>,
    upto: int,
    p: u32,
    tag: Seq<char>,
    q1: Seq<char>,
    q2: Seq<char>,
)
    requires
        has_child_tag(ns, upto, p, tag, q1),
        has_child_tag(ns, upto, p, tag, q2),
    ensures
        q1 == q2,
    decreases upto,
{
    if upto > 0 && !is_named_child(ns[upto - 1], p, tag) {
        lemma_word_match_unique(ns, upto - 1, p, tag, q1, q2);
    }
}

proof fn lemma_no_word_no_texts(
    ns: Seq<NodeView>,
    upto: int,
    root: u32,
    query: Seq<char>,
    leaf: Seq<char>,
)
    requires
        upto <= ns.len(),
        forall|k: int|
            0 <= k < ns.len() && (#[trigger] ns[k]).2 && ns[k].3 == word_tag() ==> ns[k].4 != Some(
                query,
            ),
    ensures
        answer_texts(ns, upto, root, query, leaf) == Seq::<Seq<char>>::empty(),
    decreases upto,
{
    if upto > 0 {
        lemma_no_word_no_texts(ns, upto - 1, root, query, leaf);
        let n = ns[upto - 1];
        lemma_word_match_is_exact(ns, ns.len() as int, n.0, word_tag(), query);
        if has_child_tag(ns, ns.len() as int, n.0, word_tag(), query) {
            let k = choose|k: int|
                0 <= k < ns.len() && #[trigger] is_named_child(ns[k], n.0, word_tag()) && ns[k].4
                    == Some(query) && forall|j: int|
                    k < j < ns.len() ==> !is_named_child(ns[j], n.0, word_tag());
            assert(ns[k].2 && ns[k].3 == word_tag());
        }
    }
}

/// A query that is not exactly the text of any `word` element gets an
/// empty entry: no item whose word merely starts, ends or overlaps with the
/// query contributes a translation or an explanation.
pub proof fn lemma_entry_needs_exact_word(ns: Seq<NodeView>, query: Seq<char>)
    requires
        forall|k: int|
            0 <= k < ns.len() && (#[trigger] ns[k]).2 && ns[k].3 == word_tag() ==> ns[k].4 != Some(
                query,
            ),
    ensures
        answer_entry(ns, query).0 == Seq::<Seq<char>>::empty(),
        answer_entry(ns, query).1 == Seq::<Seq<char>>::empty(),
{
    let top = ns[crate::search::first_child_from(ns, ns[0].0, 0)->0].0;
    lemma_no_word_no_texts(ns, ns.len() as int, top, query, crate::search::trans_word_tag());
    lemma_no_word_no_texts(ns, ns.len() as int, top, query, crate::search::trans_dfn_tag());
}

/// `ns2` is `ns` with the item at `m` turned into a node that is no element.
pub open spec fn item_removed(ns: Seq<NodeView>, ns2: Seq<NodeView>, m: int) -> bool {
    &&& 0 <= m < ns.len()
    &&& ns2.len() == ns.len()
    &&& ns[m].3 == item_tag()
    &&& ns2[m].0 == ns[m].0
    &&& ns2[m].1 == ns[m].1
    &&& !ns2[m].2
    &&& forall|j: int| 0 <= j < ns.len() && j != m ==> ns2[j] == ns[j]
}

proof fn lemma_child_texts_same(
    ns: Seq<NodeView>,
    ns2: Seq<NodeView>,
    m: int,
    upto: int,
    p: u32,
    name: Seq<char>,
)
    requires
        item_removed(ns, ns2, m),
        name != item_tag(),
        0 <= upto <= ns.len(),
    ensures
        child_texts(ns, upto, p, name) == child_texts(ns2, upto, p, name),
    decreases upto,
{
    if upto > 0 {
        lemma_child_texts_same(ns, ns2, m, upto - 1, p, name);
        if upto - 1 != m {
            assert(ns2[upto - 1] == ns[upto - 1]);
        }
    }
}

proof fn lemma_has_child_tag_same(
    ns: Seq<NodeView>,
    ns2: Seq<NodeView>,
    m: int,
    upto: int,
    p: u32,
    name: Seq<char>,
    query: Seq<char>,
)
    requires
        item_removed(ns, ns2, m),
        name != item_tag(),
        0 <= upto <= ns.len(),
    ensures
        has_child_tag(ns, upto, p, name, query) == has_child_tag(ns2, upto, p, name, query),
    decreases upto,
{
    if upto > 0 {
        lemma_has_child_tag_same(ns, ns2, m, upto - 1, p, name, query);
        if upto - 1 != m {
            assert(ns2[upto - 1] == ns[upto - 1]);
        }
    }
}

proof fn lemma_tags_differ()
    ensures
        word_tag() != item_tag(),
        sense_tag() != item_tag(),
        translation_tag() != item_tag(),
        trans_word_tag() != item_tag(),
        trans_dfn_tag() != item_tag(),
{
    assert(word_tag()[0] != item_tag()[0]);
    assert(sense_tag().len() != item_tag().len());
    assert(translation_tag().len() != item_tag().len());
    assert(trans_word_tag().len() != item_tag().len());
    assert(trans_dfn_tag().len() != item_tag().len());
}

proof fn lemma_sense_texts_same(
    ns: Seq<NodeView>,
    ns2: Seq<NodeView>,
    m: int,
    upto: int,
    s: u32,
    leaf: Seq<char>,
)
    requires
        item_removed(ns, ns2, m),
        leaf != item_tag(),
        0 <= upto <= ns.len(),
    ensures
        sense_texts(ns, upto, s, leaf) == sense_texts(ns2, upto, s, leaf),
    decreases upto,
{
    if upto > 0 {
        lemma_tags_differ();
        lemma_sense_texts_same(ns, ns2, m, upto - 1, s, leaf);
        if upto - 1 != m {
            assert(ns2[upto - 1] == ns[upto - 1]);
        }
        lemma_child_texts_same(ns, ns2, m, ns.len() as int, ns[upto - 1].0, leaf);
    }
}

proof fn lemma_item_texts_same(
    ns: Seq<NodeView>,
    ns2: Seq<NodeView>,
    m: int,
    upto: int,
    i: u32,
    leaf: Seq<char>,
)
    requires
        item_removed(ns, ns2, m),
        leaf != item_tag(),
        0 <= upto <= ns.len(),
    ensures
        item_texts(ns, upto, i, leaf) == item_texts(ns2, upto, i, leaf),
    decreases upto,
{
    if upto > 0 {
        lemma_tags_differ();
        lemma_item_texts_same(ns, ns2, m, upto - 1, i, leaf);
        if upto - 1 != m {
            assert(ns2[upto - 1] == ns[upto - 1]);
        }
        lemma_sense_texts_same(ns, ns2, m, ns.len() as int, ns[upto - 1].0, leaf);
    }
}

proof fn lemma_answer_texts_same(
    ns: Seq<NodeView>,
    ns2: Seq<NodeView>,
    m: int,
    upto: int,
    root: u32,
    query: Seq<char>,
    leaf: Seq<char>,
)
    requires
        item_removed(ns, ns2, m),
        leaf != item_tag(),
        0 <= upto <= ns.len(),
        !has_child_tag(ns, ns.len() as int, ns[m].0, word_tag(), query),
    ensures
        answer_texts(ns, upto, root, query, leaf) == answer_texts(ns2, upto, root, query, leaf),
    decreases upto,
{
    if upto > 0 {
        lemma_tags_differ();
        lemma_answer_texts_same(ns, ns2, m, upto - 1, root, query, leaf);
        if upto - 1 != m {
            assert(ns2[upto - 1] == ns[upto - 1]);
        }
        let id = ns[upto - 1].0;
        lemma_has_child_tag_same(ns, ns2, m, ns.len() as int, id, word_tag(), query);
        lemma_item_texts_same(ns, ns2, m, ns.len() as int, id, leaf);
    }
}

/// An item whose word is not exactly the query adds nothing to the entry:
/// when the last `word` child of the item at `m` (if any) has another text,
/// the entry is the same as for the answer without that item. (The answer
/// has a top element, as every document that parses does.)
pub proof fn lemma_other_items_add_nothing(
    ns: Seq<NodeView>,
    ns2: Seq<NodeView>,
    m: int,
    query: Seq<char>,
)
    requires
        item_removed(ns, ns2, m),
        first_child_from(ns, ns[0].0, 0) is Some,
        forall|k: int|
            0 <= k < ns.len() && #[trigger] is_named_child(ns[k], ns[m].0, word_tag()) && (forall|
                j: int,
            | k < j < ns.len() ==> !is_named_child(ns[j], ns[m].0, word_tag())) ==> ns[k].4 != Some(
                query,
            ),
    ensures
        answer_entry(ns2, query) == answer_entry(ns, query),
{
    lemma_word_match_is_exact(ns, ns.len() as int, ns[m].0, word_tag(), query);
    lemma_tags_differ();
    let top = ns[first_child_from(ns, ns[0].0, 0)->0].0;
    lemma_first_child_same(ns, ns2, m, ns[0].0, 0);
    assert(ns2[0].0 == ns[0].0) by {
        if m != 0 {
            assert(ns2[0] == ns[0]);
        }
    }
    let f = first_child_from(ns, ns[0].0, 0);
    lemma_first_child_in_range(ns, ns[0].0, 0);
    if f->0 != m {
        assert(ns2[f->0] == ns[f->0]);
    }
    lemma_answer_texts_same(ns, ns2, m, ns.len() as int, top, query, trans_word_tag());
    lemma_answer_texts_same(ns, ns2, m, ns.len() as int, top, query, trans_dfn_tag());
}

proof fn lemma_first_child_same(ns: Seq<NodeView>, ns2: Seq<NodeView>, m: int, p: u32, k: int)
    requires
        item_removed(ns, ns2, m),
    ensures
        first_child_from(ns, p, k) == first_child_from(ns2, p, k),
    decreases ns.len() - k,
{
    if 0 <= k < ns.len() {
        if k != m {
            assert(ns2[k] == ns[k]);
        }
        lemma_first_child_same(ns, ns2, m, p, k + 1);
    }
}

proof fn lemma_first_child_in_range(ns: Seq<NodeView>, p: u32, k: int)
    ensures
        first_child_from(ns, p, k) matches Some(j) ==> 0 <= j < ns.len(),
    decreases ns.len() - k,
{
    if 0 <= k < ns.len() {
        lemma_first_child_in_range(ns, p, k + 1);
    }
}

} // verus!
