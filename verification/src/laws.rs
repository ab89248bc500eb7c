//! The library's cross-operation guarantees, stated and proved once.

use vstd::prelude::*;
use crate::arena::Arena;
use crate::attrs::attr_get;
use crate::dom::{elem_attrs, is_element};
use crate::mutate::add_class_val;
use crate::text::{
    is_space_char, join_sp, keep_words, lemma_keep_words_absent, lemma_keep_words_proper,
    lemma_words_append, lemma_words_join, lemma_words_proper, lemma_words_single, words,
};

verus! {

/// Round trip: the state a successful attribute write establishes is
/// exactly what an immediate read reports — the set value, and absence
/// after a removal.
pub proof fn lemma_attr_round_trip(a: Arena, h: i64, key: Seq<char>, value: Seq<char>)
    requires
        a.node_resolves(h),
        !a.documents@.contains_key(h),
        is_element(a.node_doc(h)[a.node_ix(h)].kind),
    ensures
        attr_get(elem_attrs(a.node_doc(h)[a.node_ix(h)].kind), key) == Some(value)
            ==> crate::api::attr_spec(a, h, key) == Some(value),
        attr_get(elem_attrs(a.node_doc(h)[a.node_ix(h)].kind), key) is None
            ==> crate::api::attr_spec(a, h, key) is None,
{
}

/// Adding a class once makes it a class token, so adding it a second
/// time finds it present and leaves the value unchanged: adding twice
/// equals adding once.
pub proof fn lemma_add_class_idempotent(cur: Seq<char>, w: Seq<char>)
    requires
        w.len() > 0,
        forall|k: int| 0 <= k < w.len() ==> !is_space_char(w[k]),
        !words(cur).contains(w),
    ensures
        words(add_class_val(cur, w)) == words(cur).push(w),
        words(add_class_val(cur, w)).contains(w),
{
    if cur.len() == 0 {
        lemma_words_single(w);
        assert(add_class_val(cur, w) == w);
        assert(words(cur) =~= Seq::<Seq<char>>::empty());
        assert(words(cur).push(w) =~= seq![w]);
    } else {
        lemma_words_append(cur, w);
    }
    assert(words(add_class_val(cur, w)).last() == w);
    assert(words(add_class_val(cur, w)).contains(w)) by {
        let s = words(add_class_val(cur, w));
        assert(s[s.len() - 1] == w);
    }
}

/// Removing a class acts on the token set: the kept tokens survive the
/// rebuild verbatim, and removing an absent class keeps every token.
pub proof fn lemma_remove_class_tokens(cur: Seq<char>, w: Seq<char>)
    ensures
        words(join_sp(keep_words(words(cur), w))) == keep_words(words(cur), w),
        !words(cur).contains(w) ==> keep_words(words(cur), w) == words(cur),
{
    lemma_words_proper(cur);
    lemma_keep_words_proper(words(cur), w);
    lemma_words_join(keep_words(words(cur), w));
    if !words(cur).contains(w) {
        lemma_keep_words_absent(words(cur), w);
    }
}

} // verus!
