//! The mutation surface: attribute and class edits, text and markup
//! replacement, fragment splicing, and node removal.
//!
//! Every edit resolves its handle, takes the owning document out of the
//! arena, edits the tree through the verified operations, and puts the
//! document back.  A dangling or mistyped handle leaves the arena
//! untouched.

use vstd::prelude::*;
use crate::arena::Arena;
use crate::attrs::attr_get;
use crate::dom::{
    elem_attrs, elem_name, is_element, is_text_node, node_ok, nodes_ok, text_of, NodeData,
    NodeKind,
};
use crate::edit::{content_selection, g_count, roots_seq, GraftNode};
use crate::provider::fragment_flat_of;
use crate::text::{chars_vec, clone_chars, join_sp, keep_words, words};

verus! {

broadcast use vstd::std_specs::vec::group_vec_axioms;

/// The arena's four components are unchanged.
pub open spec fn arena_unchanged(a0: Arena, a1: Arena) -> bool {
    &&& a1.documents@ == a0.documents@
    &&& a1.nodes@ == a0.nodes@
    &&& a1.node_lists@ == a0.node_lists@
    &&& a1.next == a0.next
}

/// Only the document under `dh` may differ, and its base URI is kept.
pub open spec fn same_but_doc(a0: Arena, a1: Arena, dh: i64) -> bool {
    &&& a1.nodes@ == a0.nodes@
    &&& a1.node_lists@ == a0.node_lists@
    &&& a1.next == a0.next
    &&& a1.documents@.dom() =~= a0.documents@.dom()
    &&& forall|k: i64| #[trigger] a0.documents@.contains_key(k) && k != dh
        ==> a1.documents@[k] == a0.documents@[k]
    &&& a0.documents@.contains_key(dh) ==> a1.documents@[dh].base_uri
        == a0.documents@[dh].base_uri
}

/// How many content nodes a fragment parse of `html` grafts after
/// wrapper unwrapping.
pub open spec fn graft_count(html: Seq<char>) -> int {
    g_count(fragment_flat_of(html), fragment_flat_of(html).len() as int)
}

/// The grafted image under node `ix`: some content selection of the
/// fragment parse of `html` was appended at the end of the old vector,
/// and its top-level roots stand in `ix`'s child list as `spliced` says.
#[verifier::opaque]
pub open spec fn grafted(
    html: Seq<char>,
    ns0: Seq<NodeData>,
    ns1: Seq<NodeData>,
    ix: int,
    spliced: Seq<usize>,
) -> bool {
    exists|items: Seq<GraftNode>|
        #[trigger] content_selection(fragment_flat_of(html), items) && spliced == roots_seq(
            items,
            ns0.len() as int,
            items.len() as int,
        ) && (forall|i: int|
            0 <= i < items.len() ==> #[trigger] ns1[ns0.len() + i].kind == items[i].kind
                && ns1[ns0.len() + i].parent == Some(
                (match items[i].parent {
                    Some(p) => ns0.len() + p,
                    None => ix,
                }) as usize,
            ))
}

/// Grafted fragment content stands among `ix`'s children: some content
/// selection of the fragment parse of `html` was appended at the end of
/// the old vector, and `ix`'s new child list is its top-level roots
/// before (`front`) or after the old children.
#[verifier::opaque]
pub open spec fn grafted_children(
    html: Seq<char>,
    ns0: Seq<NodeData>,
    ns1: Seq<NodeData>,
    ix: int,
    front: bool,
) -> bool {
    exists|spliced: Seq<usize>|
        #[trigger] grafted(html, ns0, ns1, ix, spliced) && ns1[ix].children@ == (if front {
            spliced + ns0[ix].children@
        } else {
            ns0[ix].children@ + spliced
        })
}

/// The tree under node handle `h` keeps all its links, and every kind
/// except node `h`'s own.
pub open spec fn same_links_but(ns0: Seq<NodeData>, ns1: Seq<NodeData>, ix: int) -> bool {
    &&& ns1.len() == ns0.len()
    &&& forall|j: int| 0 <= j < ns0.len() ==> #[trigger] ns1[j].parent == ns0[j].parent
        && ns1[j].children == ns0[j].children
    &&& forall|j: int| 0 <= j < ns0.len() && j != ix ==> #[trigger] ns1[j].kind == ns0[j].kind
}

impl Arena {
    /// Sets or inserts an attribute on the element a node handle names;
    /// no effect on any other handle.
    pub fn scraper_set_attr(&mut self, handle: i64, key: &str, value: &str)
        requires
            old(self).wf(),
        ensures
            final(self).wf(),
            !(old(self).node_resolves(handle) && is_element(
                old(self).node_doc(handle)[old(self).node_ix(handle)].kind,
            )) ==> arena_unchanged(*old(self), *final(self)),
            old(self).node_resolves(handle) && is_element(
                old(self).node_doc(handle)[old(self).node_ix(handle)].kind,
            ) ==> {
                let dh = old(self).nodes@[handle].doc_handle;
                let ix = old(self).node_ix(handle);
                let ns0 = old(self).node_doc(handle);
                let ns1 = final(self).node_doc(handle);
                &&& same_but_doc(*old(self), *final(self), dh)
                &&& same_links_but(ns0, ns1, ix)
                &&& is_element(ns1[ix].kind)
                &&& elem_name(ns1[ix].kind) == elem_name(ns0[ix].kind)
                &&& attr_get(elem_attrs(ns1[ix].kind), key@) == Some(value@)
                &&& forall|k: Seq<char>|
                    k != key@ ==> attr_get(elem_attrs(ns1[ix].kind), k) == attr_get(
                        elem_attrs(ns0[ix].kind),
                        k,
                    )
            },
    {
        let entry = match self.get_node(handle) {
            Some(e) => e,
            None => {
                return ;
            },
        };
        let mut de = match self.take_doc(entry.doc_handle) {
            Some(d) => d,
            None => {
                return ;
            },
        };
        if entry.node_id < de.doc.nodes.len() && crate::api::kind_is_element(
            &de.doc.nodes[entry.node_id].kind,
        ) {
            crate::edit::node_set_attr(
                &mut de.doc.nodes,
                entry.node_id,
                chars_vec(key),
                chars_vec(value),
            );
        }
        self.put_doc(entry.doc_handle, de);
        proof {
            if !(old(self).node_resolves(handle) && is_element(
                old(self).node_doc(handle)[old(self).node_ix(handle)].kind,
            )) {
                assert(self.documents@ =~= old(self).documents@);
            }
        }
    }

    /// Removes an attribute from the element a node handle names.
    pub fn scraper_remove_attr(&mut self, handle: i64, key: &str)
        requires
            old(self).wf(),
        ensures
            final(self).wf(),
            !(old(self).node_resolves(handle) && is_element(
                old(self).node_doc(handle)[old(self).node_ix(handle)].kind,
            )) ==> arena_unchanged(*old(self), *final(self)),
            old(self).node_resolves(handle) && is_element(
                old(self).node_doc(handle)[old(self).node_ix(handle)].kind,
            ) ==> {
                let dh = old(self).nodes@[handle].doc_handle;
                let ix = old(self).node_ix(handle);
                let ns0 = old(self).node_doc(handle);
                let ns1 = final(self).node_doc(handle);
                &&& same_but_doc(*old(self), *final(self), dh)
                &&& same_links_but(ns0, ns1, ix)
                &&& is_element(ns1[ix].kind)
                &&& elem_name(ns1[ix].kind) == elem_name(ns0[ix].kind)
                &&& attr_get(elem_attrs(ns1[ix].kind), key@) is None
                &&& forall|k: Seq<char>|
                    k != key@ ==> attr_get(elem_attrs(ns1[ix].kind), k) == attr_get(
                        elem_attrs(ns0[ix].kind),
                        k,
                    )
            },
    {
        let entry = match self.get_node(handle) {
            Some(e) => e,
            None => {
                return ;
            },
        };
        let mut de = match self.take_doc(entry.doc_handle) {
            Some(d) => d,
            None => {
                return ;
            },
        };
        if entry.node_id < de.doc.nodes.len() && crate::api::kind_is_element(
            &de.doc.nodes[entry.node_id].kind,
        ) {
            let kv = chars_vec(key);
            crate::edit::node_remove_attr(&mut de.doc.nodes, entry.node_id, &kv);
        }
        self.put_doc(entry.doc_handle, de);
        proof {
            if !(old(self).node_resolves(handle) && is_element(
                old(self).node_doc(handle)[old(self).node_ix(handle)].kind,
            )) {
                assert(self.documents@ =~= old(self).documents@);
            }
        }
    }
}


/// The class value after adding `w`: unchanged shape, or `w` appended
/// after a single space.
pub open spec fn add_class_val(cur: Seq<char>, w: Seq<char>) -> Seq<char> {
    if cur.len() == 0 {
        w
    } else {
        cur + seq![' '] + w
    }
}

/// Whether `w` is one of the whitespace-separated words of `cur`.
fn has_word(cur: &Vec<char>, w: &Vec<char>) -> (r: bool)
    ensures
        r == words(cur@).contains(w@),
{
    let ws = crate::text::split_words(cur);
    let ghost wsv = words(cur@);
    let mut k: usize = 0;
    while k < ws.len()
        invariant
            wsv == words(cur@),
            ws.deep_view() == wsv,
            ws.len() == wsv.len(),
            k <= wsv.len(),
            forall|j: int| 0 <= j < k ==> wsv[j] != w@,
        decreases wsv.len() - k,
    {
        proof {
            assert(ws.deep_view()[k as int] == ws@[k as int].deep_view());
            assert(ws@[k as int].deep_view() =~= ws@[k as int]@);
        }
        if crate::text::chars_eq(&ws[k], w) {
            proof {
                assert(wsv[k as int] == w@);
                assert(wsv.contains(w@));
            }
            return true;
        }
        k = k + 1;
    }
    proof {
        if wsv.contains(w@) {
            let j = choose|j: int| 0 <= j < wsv.len() && wsv[j] == w@;
            assert(false);
        }
    }
    false
}

impl Arena {
    /// Adds a class to the element a node handle names; a no-op when
    /// the class is already present.
    pub fn scraper_add_class(&mut self, handle: i64, name: &str)
        requires
            old(self).wf(),
        ensures
            final(self).wf(),
            !(old(self).node_resolves(handle) && is_element(
                old(self).node_doc(handle)[old(self).node_ix(handle)].kind,
            )) ==> arena_unchanged(*old(self), *final(self)),
            old(self).node_resolves(handle) && is_element(
                old(self).node_doc(handle)[old(self).node_ix(handle)].kind,
            ) ==> {
                let dh = old(self).nodes@[handle].doc_handle;
                let ix = old(self).node_ix(handle);
                let ns0 = old(self).node_doc(handle);
                let ns1 = final(self).node_doc(handle);
                let cur = crate::query::class_val(ns0[ix].kind);
                &&& words(cur).contains(name@) ==> arena_unchanged(*old(self), *final(self))
                &&& !words(cur).contains(name@) ==> {
                    &&& same_but_doc(*old(self), *final(self), dh)
                    &&& same_links_but(ns0, ns1, ix)
                    &&& is_element(ns1[ix].kind)
                    &&& elem_name(ns1[ix].kind) == elem_name(ns0[ix].kind)
                    &&& attr_get(elem_attrs(ns1[ix].kind), "class"@) == Some(
                        add_class_val(cur, name@),
                    )
                    &&& forall|k: Seq<char>|
                        k != "class"@ ==> attr_get(elem_attrs(ns1[ix].kind), k) == attr_get(
                            elem_attrs(ns0[ix].kind),
                            k,
                        )
                }
            },
    {
        let entry = match self.get_node(handle) {
            Some(e) => e,
            None => {
                return ;
            },
        };
        let mut de = match self.take_doc(entry.doc_handle) {
            Some(d) => d,
            None => {
                return ;
            },
        };
        let nv = chars_vec(name);
        if entry.node_id < de.doc.nodes.len() {
            let step: Option<Vec<char>> = match &de.doc.nodes[entry.node_id].kind {
                NodeKind::Element { attrs, .. } => {
                    proof {
                        assert(node_ok(de.doc.nodes@, entry.node_id as int));
                    }
                    let ck = chars_vec("class");
                    let cur: Vec<char> = match crate::attrs::attrs_lookup(attrs, &ck) {
                        Some(v) => clone_chars(v),
                        None => Vec::new(),
                    };
                    if has_word(&cur, &nv) {
                        None
                    } else {
                        let mut newv: Vec<char>;
                        if cur.len() == 0 {
                            newv = clone_chars(&nv);
                        } else {
                            newv = cur;
                            newv.push(' ');
                            crate::text::push_vec(&mut newv, &nv);
                            proof {
                                assert(newv@ =~= add_class_val(
                                    crate::query::class_val(
                                        de.doc.nodes@[entry.node_id as int].kind,
                                    ),
                                    name@,
                                ));
                            }
                        }
                        Some(newv)
                    }
                },
                _ => None,
            };
            match step {
                Some(newv) => {
                    crate::edit::node_set_attr(
                        &mut de.doc.nodes,
                        entry.node_id,
                        chars_vec("class"),
                        newv,
                    );
                },
                None => {},
            }
        }
        self.put_doc(entry.doc_handle, de);
        proof {
            if !(old(self).node_resolves(handle) && is_element(
                old(self).node_doc(handle)[old(self).node_ix(handle)].kind,
            )) {
                assert(self.documents@ =~= old(self).documents@);
            } else {
                let ns0 = old(self).node_doc(handle);
                let ix = old(self).node_ix(handle);
                let cur = crate::query::class_val(ns0[ix].kind);
                if words(cur).contains(name@) {
                    assert(self.documents@ =~= old(self).documents@);
                }
            }
        }
    }

    /// Removes a class from the element a node handle names; removing
    /// the last class removes the whole `class` attribute.
    pub fn scraper_remove_class(&mut self, handle: i64, name: &str)
        requires
            old(self).wf(),
        ensures
            final(self).wf(),
            !(old(self).node_resolves(handle) && is_element(
                old(self).node_doc(handle)[old(self).node_ix(handle)].kind,
            )) ==> arena_unchanged(*old(self), *final(self)),
            old(self).node_resolves(handle) && is_element(
                old(self).node_doc(handle)[old(self).node_ix(handle)].kind,
            ) ==> {
                let dh = old(self).nodes@[handle].doc_handle;
                let ix = old(self).node_ix(handle);
                let ns0 = old(self).node_doc(handle);
                let ns1 = final(self).node_doc(handle);
                let kept = keep_words(words(crate::query::class_val(ns0[ix].kind)), name@);
                &&& same_but_doc(*old(self), *final(self), dh)
                &&& same_links_but(ns0, ns1, ix)
                &&& is_element(ns1[ix].kind)
                &&& elem_name(ns1[ix].kind) == elem_name(ns0[ix].kind)
                &&& (kept.len() == 0 ==> attr_get(elem_attrs(ns1[ix].kind), "class"@) is None)
                &&& (kept.len() > 0 ==> attr_get(elem_attrs(ns1[ix].kind), "class"@) == Some(
                    join_sp(kept),
                ))
                &&& forall|k: Seq<char>|
                    k != "class"@ ==> attr_get(elem_attrs(ns1[ix].kind), k) == attr_get(
                        elem_attrs(ns0[ix].kind),
                        k,
                    )
            },
    {
        let entry = match self.get_node(handle) {
            Some(e) => e,
            None => {
                return ;
            },
        };
        let mut de = match self.take_doc(entry.doc_handle) {
            Some(d) => d,
            None => {
                return ;
            },
        };
        let nv = chars_vec(name);
        if entry.node_id < de.doc.nodes.len() {
            let step: Option<Option<Vec<char>>> = match &de.doc.nodes[entry.node_id].kind {
                NodeKind::Element { attrs, .. } => {
                    proof {
                        assert(node_ok(de.doc.nodes@, entry.node_id as int));
                    }
                    let ck = chars_vec("class");
                    let cur: Vec<char> = match crate::attrs::attrs_lookup(attrs, &ck) {
                        Some(v) => clone_chars(v),
                        None => Vec::new(),
                    };
                    let ws = crate::text::split_words(&cur);
                    let ghost wsv = words(cur@);
                    let mut kept: Vec<Vec<char>> = Vec::new();
                    let mut k: usize = 0;
                    while k < ws.len()
                        invariant
                            ws.deep_view() == wsv,
                            ws.len() == wsv.len(),
                            k <= wsv.len(),
                            nv@ == name@,
                            kept.deep_view() == keep_words(wsv.take(k as int), name@),
                        decreases wsv.len() - k,
                    {
                        let ghost kept0 = kept.deep_view();
                        proof {
                            assert(ws.deep_view()[k as int] == ws@[k as int].deep_view());
                            assert(ws@[k as int].deep_view() =~= ws@[k as int]@);
                        }
                        if !crate::text::chars_eq(&ws[k], &nv) {
                            let w = clone_chars(&ws[k]);
                            kept.push(w);
                            proof {
                                assert(kept.deep_view() =~~= kept0.push(wsv[k as int]));
                            }
                        }
                        k = k + 1;
                        proof {
                            assert(wsv.take(k as int).drop_last() =~= wsv.take(k - 1));
                            assert(wsv.take(k as int).last() == wsv[k - 1]);
                        }
                    }
                    proof {
                        assert(wsv.take(wsv.len() as int) =~= wsv);
                    }
                    if kept.len() == 0 {
                        Some(None)
                    } else {
                        let j = crate::text::join_words(&kept);
                        Some(Some(j))
                    }
                },
                _ => None,
            };
            match step {
                Some(Some(newv)) => {
                    crate::edit::node_set_attr(
                        &mut de.doc.nodes,
                        entry.node_id,
                        chars_vec("class"),
                        newv,
                    );
                },
                Some(None) => {
                    let ck = chars_vec("class");
                    crate::edit::node_remove_attr(&mut de.doc.nodes, entry.node_id, &ck);
                },
                None => {},
            }
        }
        self.put_doc(entry.doc_handle, de);
        proof {
            if !(old(self).node_resolves(handle) && is_element(
                old(self).node_doc(handle)[old(self).node_ix(handle)].kind,
            )) {
                assert(self.documents@ =~= old(self).documents@);
            }
        }
    }
}


impl Arena {
    /// Replaces a node's children with one text node holding `text`.
    #[verifier::rlimit(100)]
    #[verifier::spinoff_prover]
    pub fn scraper_set_text(&mut self, handle: i64, text: &str)
        requires
            old(self).wf(),
        ensures
            final(self).wf(),
            !old(self).node_resolves(handle) ==> arena_unchanged(*old(self), *final(self)),
            old(self).node_resolves(handle) && old(self).node_doc(handle).len() < usize::MAX
                ==> {
                let dh = old(self).nodes@[handle].doc_handle;
                let ix = old(self).node_ix(handle);
                let ns0 = old(self).node_doc(handle);
                let ns1 = final(self).node_doc(handle);
                let t = ns0.len() as int;
                &&& same_but_doc(*old(self), *final(self), dh)
                &&& ns1.len() == ns0.len() + 1
                &&& forall|j: int| 0 <= j < ns0.len() ==> #[trigger] ns1[j].kind == ns0[j].kind
                &&& forall|j: int| 0 <= j < ns0.len() ==> #[trigger] ns1[j].parent == (
                if ns0[j].parent == Some(ix as usize) {
                    None
                } else {
                    ns0[j].parent
                })
                &&& forall|j: int| 0 <= j < ns0.len() && j != ix ==> #[trigger] ns1[j].children
                    == ns0[j].children
                &&& ns1[ix].children@ =~= seq![t as usize]
                &&& is_text_node(ns1[t].kind)
                &&& text_of(ns1[t].kind) == text@
                &&& ns1[t].parent == Some(ix as usize)
            },
    {
        let entry = match self.get_node(handle) {
            Some(e) => e,
            None => {
                return ;
            },
        };
        let mut de = match self.take_doc(entry.doc_handle) {
            Some(d) => d,
            None => {
                return ;
            },
        };
        if entry.node_id < de.doc.nodes.len() && de.doc.nodes.len() < usize::MAX {
            let ghost nsr = de.doc.nodes@;
            crate::edit::remove_children(&mut de.doc.nodes, entry.node_id);
            let ghost nsm = de.doc.nodes@;
            let tv = chars_vec(text);
            let t = crate::edit::append_node(
                &mut de.doc.nodes,
                entry.node_id,
                NodeKind::Text { text: tv },
            );
            proof {
                let ix = entry.node_id as int;
                let ns1 = de.doc.nodes@;
                assert(ns1[ix].children@ =~= seq![t]);
                assert(ns1.len() == nsr.len() + 1);
                assert(forall|j: int| 0 <= j < nsr.len() ==> #[trigger] ns1[j].kind
                    == nsr[j].kind);
                assert forall|j: int| 0 <= j < nsr.len() implies #[trigger] ns1[j].parent == (
                if nsr[j].parent == Some(entry.node_id) {
                    None
                } else {
                    nsr[j].parent
                }) by {
                    assert(nsm[j].parent == (if nsr[j].parent == Some(entry.node_id) {
                        None
                    } else {
                        nsr[j].parent
                    }));
                    assert(ns1[j].kind == nsm[j].kind && ns1[j].parent == nsm[j].parent);
                }
                assert(forall|j: int| 0 <= j < nsr.len() && j != ix ==> #[trigger] ns1[j].children
                    == nsr[j].children);
                assert(is_text_node(ns1[t as int].kind));
                assert(text_of(ns1[t as int].kind) == text@);
                assert(ns1[t as int].parent == Some(entry.node_id));
            }
        }
        self.put_doc(entry.doc_handle, de);
        proof {
            if !old(self).node_resolves(handle) {
                assert(self.documents@ =~= old(self).documents@);
            }
        }
    }

    /// Replaces a node's children with grafted fragment content.
    #[verifier::rlimit(100)]
    #[verifier::spinoff_prover]
    fn splice_replace(&mut self, handle: i64, html: &str)
        requires
            old(self).wf(),
        ensures
            final(self).wf(),
            !old(self).node_resolves(handle) ==> arena_unchanged(*old(self), *final(self)),
            old(self).node_resolves(handle) ==> {
                let ix = old(self).node_ix(handle);
                let ns0 = old(self).node_doc(handle);
                let ns1 = final(self).node_doc(handle);
                &&& same_but_doc(*old(self), *final(self), old(self).nodes@[handle].doc_handle)
                &&& (ns0.len() + graft_count(html@) >= usize::MAX ==> ns1 == ns0)
                &&& (ns0.len() + graft_count(html@) < usize::MAX ==> {
                    &&& ns1.len() == ns0.len() + graft_count(html@)
                    &&& forall|j: int| 0 <= j < ns0.len() ==> #[trigger] ns1[j].kind
                        == ns0[j].kind
                    &&& forall|j: int| 0 <= j < ns0.len() && j != ix
                        ==> #[trigger] ns1[j].children == ns0[j].children
                    &&& forall|j: int| 0 <= j < ns0.len() ==> #[trigger] ns1[j].parent == (
                    if ns0[j].parent == Some(ix as usize) {
                        None
                    } else {
                        ns0[j].parent
                    })
                    &&& grafted(html@, ns0, ns1, ix, ns1[ix].children@)
                })
            },
    {
        let entry = match self.get_node(handle) {
            Some(e) => e,
            None => {
                return ;
            },
        };
        let mut de = match self.take_doc(entry.doc_handle) {
            Some(d) => d,
            None => {
                return ;
            },
        };
        if entry.node_id < de.doc.nodes.len() {
            let ghost nsr = de.doc.nodes@;
            let flat = crate::provider::parse_fragment_flat(html);
            let items = crate::edit::select_content(flat);
            let ghost itemsv = items@;
            proof {
                assert(items@.len() == graft_count(html@));
            }
            if items.len() < usize::MAX - de.doc.nodes.len() {
                crate::edit::remove_children(&mut de.doc.nodes, entry.node_id);
                let ghost nsb = de.doc.nodes@;
                crate::edit::attach(&mut de.doc.nodes, entry.node_id, items, false);
                proof {
                    let ix = entry.node_id as int;
                    let ns1 = de.doc.nodes@;
                    let rs = roots_seq(itemsv, nsr.len() as int, itemsv.len() as int);
                    assert(nsb.len() == nsr.len());
                    assert(nsb[ix].children@.len() == 0);
                    assert(ns1[ix].children@ =~= rs);
                    assert(content_selection(fragment_flat_of(html@), itemsv));
                    assert(grafted(html@, nsr, ns1, ix, rs)) by {
                        reveal(grafted);
                    }
                    assert(ns1.len() == nsr.len() + itemsv.len());
                    assert forall|j: int| 0 <= j < nsr.len() implies #[trigger] ns1[j].kind
                        == nsr[j].kind by {
                        assert(ns1[j].kind == nsb[j].kind);
                    }
                    assert forall|j: int|
                        0 <= j < nsr.len() implies #[trigger] ns1[j].parent == (
                    if nsr[j].parent == Some(entry.node_id) {
                        None
                    } else {
                        nsr[j].parent
                    }) by {
                        assert(nsb[j].parent == (if nsr[j].parent == Some(entry.node_id) {
                            None
                        } else {
                            nsr[j].parent
                        }));
                        assert(ns1[j].kind == nsb[j].kind && ns1[j].parent == nsb[j].parent);
                    }
                    assert forall|j: int|
                        0 <= j < nsr.len() && j != ix implies #[trigger] ns1[j].children
                        == nsr[j].children by {
                        assert(nsb[j].children == nsr[j].children);
                        assert(ns1[j].children == nsb[j].children);
                    }
                }
            } else {
                proof {
                    assert(nsr.len() + graft_count(html@) >= usize::MAX);
                }
            }
        }
        self.put_doc(entry.doc_handle, de);
        proof {
            if !old(self).node_resolves(handle) {
                assert(self.documents@ =~= old(self).documents@);
            }
        }
    }

    /// Inserts grafted fragment content among a node's children, at the
    /// front or at the back.
    #[verifier::rlimit(100)]
    #[verifier::spinoff_prover]
    fn splice_insert(&mut self, handle: i64, html: &str, front: bool)
        requires
            old(self).wf(),
        ensures
            final(self).wf(),
            !old(self).node_resolves(handle) ==> arena_unchanged(*old(self), *final(self)),
            old(self).node_resolves(handle) ==> {
                let ix = old(self).node_ix(handle);
                let ns0 = old(self).node_doc(handle);
                let ns1 = final(self).node_doc(handle);
                &&& same_but_doc(*old(self), *final(self), old(self).nodes@[handle].doc_handle)
                &&& (ns0.len() + graft_count(html@) >= usize::MAX ==> ns1 == ns0)
                &&& (ns0.len() + graft_count(html@) < usize::MAX ==> {
                    &&& ns1.len() == ns0.len() + graft_count(html@)
                    &&& forall|j: int| 0 <= j < ns0.len() ==> #[trigger] ns1[j].kind
                        == ns0[j].kind && ns1[j].parent == ns0[j].parent
                    &&& forall|j: int| 0 <= j < ns0.len() && j != ix
                        ==> #[trigger] ns1[j].children == ns0[j].children
                    &&& grafted_children(html@, ns0, ns1, ix, front)
                })
            },
    {
        let entry = match self.get_node(handle) {
            Some(e) => e,
            None => {
                return ;
            },
        };
        let mut de = match self.take_doc(entry.doc_handle) {
            Some(d) => d,
            None => {
                return ;
            },
        };
        if entry.node_id < de.doc.nodes.len() {
            let ghost nsr = de.doc.nodes@;
            let flat = crate::provider::parse_fragment_flat(html);
            let items = crate::edit::select_content(flat);
            let ghost itemsv = items@;
            proof {
                assert(items@.len() == graft_count(html@));
            }
            if items.len() < usize::MAX - de.doc.nodes.len() {
                crate::edit::attach(&mut de.doc.nodes, entry.node_id, items, front);
                proof {
                    let ix = entry.node_id as int;
                    let ns1 = de.doc.nodes@;
                    let rs = roots_seq(itemsv, nsr.len() as int, itemsv.len() as int);
                    assert(content_selection(fragment_flat_of(html@), itemsv));
                    assert(grafted(html@, nsr, ns1, ix, rs)) by {
                        reveal(grafted);
                    }
                    assert(ns1.len() == nsr.len() + itemsv.len());
                    assert(forall|j: int| 0 <= j < nsr.len() ==> #[trigger] ns1[j].kind
                        == nsr[j].kind && ns1[j].parent == nsr[j].parent);
                    assert(forall|j: int| 0 <= j < nsr.len() && j != ix
                        ==> #[trigger] ns1[j].children == nsr[j].children);
                    assert(ns1[ix].children@ == (if front {
                        rs + nsr[ix].children@
                    } else {
                        nsr[ix].children@ + rs
                    }));
                    assert(grafted_children(html@, nsr, ns1, ix, front)) by {
                        reveal(grafted_children);
                    }
                }
            } else {
                proof {
                    assert(nsr.len() + graft_count(html@) >= usize::MAX);
                }
            }
        }
        self.put_doc(entry.doc_handle, de);
        proof {
            if !old(self).node_resolves(handle) {
                assert(self.documents@ =~= old(self).documents@);
            }
        }
    }

    /// Replaces a node's children with parsed fragment content, the
    /// implicit wrappers of fragment parsing unwrapped: the old children
    /// are detached and the target's new children are exactly the
    /// content roots of the parsed fragment, in order, deep-copied into
    /// this document.
    pub fn scraper_set_html(&mut self, handle: i64, html: &str)
        requires
            old(self).wf(),
        ensures
            final(self).wf(),
            !old(self).node_resolves(handle) ==> arena_unchanged(*old(self), *final(self)),
            old(self).node_resolves(handle) ==> {
                let ix = old(self).node_ix(handle);
                let ns0 = old(self).node_doc(handle);
                let ns1 = final(self).node_doc(handle);
                &&& same_but_doc(*old(self), *final(self), old(self).nodes@[handle].doc_handle)
                &&& (ns0.len() + graft_count(html@) >= usize::MAX ==> ns1 == ns0)
                &&& (ns0.len() + graft_count(html@) < usize::MAX ==> {
                    &&& ns1.len() == ns0.len() + graft_count(html@)
                    &&& forall|j: int| 0 <= j < ns0.len() ==> #[trigger] ns1[j].kind
                        == ns0[j].kind
                    &&& forall|j: int| 0 <= j < ns0.len() && j != ix
                        ==> #[trigger] ns1[j].children == ns0[j].children
                    &&& forall|j: int| 0 <= j < ns0.len() ==> #[trigger] ns1[j].parent == (
                    if ns0[j].parent == Some(ix as usize) {
                        None
                    } else {
                        ns0[j].parent
                    })
                    &&& grafted(html@, ns0, ns1, ix, ns1[ix].children@)
                })
            },
    {
        self.splice_replace(handle, html);
    }

    /// Appends parsed fragment content after a node's children, the
    /// implicit wrappers of fragment parsing unwrapped: the new child
    /// sequence is the old children followed by the fragment's content
    /// roots, in order, deep-copied into this document.
    pub fn scraper_append(&mut self, handle: i64, html: &str)
        requires
            old(self).wf(),
        ensures
            final(self).wf(),
            !old(self).node_resolves(handle) ==> arena_unchanged(*old(self), *final(self)),
            old(self).node_resolves(handle) ==> {
                let ix = old(self).node_ix(handle);
                let ns0 = old(self).node_doc(handle);
                let ns1 = final(self).node_doc(handle);
                &&& same_but_doc(*old(self), *final(self), old(self).nodes@[handle].doc_handle)
                &&& (ns0.len() + graft_count(html@) >= usize::MAX ==> ns1 == ns0)
                &&& (ns0.len() + graft_count(html@) < usize::MAX ==> {
                    &&& ns1.len() == ns0.len() + graft_count(html@)
                    &&& forall|j: int| 0 <= j < ns0.len() ==> #[trigger] ns1[j].kind
                        == ns0[j].kind && ns1[j].parent == ns0[j].parent
                    &&& forall|j: int| 0 <= j < ns0.len() && j != ix
                        ==> #[trigger] ns1[j].children == ns0[j].children
                    &&& grafted_children(html@, ns0, ns1, ix, false)
                })
            },
    {
        self.splice_insert(handle, html, false);
    }

    /// Inserts parsed fragment content before a node's first child, the
    /// implicit wrappers of fragment parsing unwrapped: the new child
    /// sequence is the fragment's content roots, in order, followed by
    /// all previous children.
    pub fn scraper_prepend(&mut self, handle: i64, html: &str)
        requires
            old(self).wf(),
        ensures
            final(self).wf(),
            !old(self).node_resolves(handle) ==> arena_unchanged(*old(self), *final(self)),
            old(self).node_resolves(handle) ==> {
                let ix = old(self).node_ix(handle);
                let ns0 = old(self).node_doc(handle);
                let ns1 = final(self).node_doc(handle);
                &&& same_but_doc(*old(self), *final(self), old(self).nodes@[handle].doc_handle)
                &&& (ns0.len() + graft_count(html@) >= usize::MAX ==> ns1 == ns0)
                &&& (ns0.len() + graft_count(html@) < usize::MAX ==> {
                    &&& ns1.len() == ns0.len() + graft_count(html@)
                    &&& forall|j: int| 0 <= j < ns0.len() ==> #[trigger] ns1[j].kind
                        == ns0[j].kind && ns1[j].parent == ns0[j].parent
                    &&& forall|j: int| 0 <= j < ns0.len() && j != ix
                        ==> #[trigger] ns1[j].children == ns0[j].children
                    &&& grafted_children(html@, ns0, ns1, ix, true)
                })
            },
    {
        self.splice_insert(handle, html, true);
    }

    /// Detaches a node from its parent; the subtree stays reachable
    /// through its own handles until freed.
    pub fn scraper_remove_element(&mut self, handle: i64)
        requires
            old(self).wf(),
        ensures
            final(self).wf(),
            !old(self).node_resolves(handle) ==> arena_unchanged(*old(self), *final(self)),
            old(self).node_resolves(handle) ==> {
                let ix = old(self).node_ix(handle);
                let ns0 = old(self).node_doc(handle);
                let ns1 = final(self).node_doc(handle);
                &&& same_but_doc(*old(self), *final(self), old(self).nodes@[handle].doc_handle)
                &&& ns1.len() == ns0.len()
                &&& forall|j: int| 0 <= j < ns0.len() ==> #[trigger] ns1[j].kind == ns0[j].kind
                &&& ns1[ix].parent is None
                &&& forall|j: int| 0 <= j < ns0.len() && j != ix ==> #[trigger] ns1[j].parent
                    == ns0[j].parent
            },
    {
        let entry = match self.get_node(handle) {
            Some(e) => e,
            None => {
                return ;
            },
        };
        let mut de = match self.take_doc(entry.doc_handle) {
            Some(d) => d,
            None => {
                return ;
            },
        };
        if entry.node_id > 0 && entry.node_id < de.doc.nodes.len() {
            crate::edit::detach(&mut de.doc.nodes, entry.node_id);
        }
        self.put_doc(entry.doc_handle, de);
        proof {
            if !old(self).node_resolves(handle) {
                assert(self.documents@ =~= old(self).documents@);
            } else if old(self).nodes@[handle].node_id == 0 {
                assert(old(self).node_doc(handle)[0].parent is None);
            }
        }
    }

    /// Detaches a node from its parent: the raw-node variant behaves
    /// like the element variant.
    pub fn scraper_remove_node(&mut self, handle: i64)
        requires
            old(self).wf(),
        ensures
            final(self).wf(),
            !old(self).node_resolves(handle) ==> arena_unchanged(*old(self), *final(self)),
            old(self).node_resolves(handle) ==> {
                let ix = old(self).node_ix(handle);
                let ns0 = old(self).node_doc(handle);
                let ns1 = final(self).node_doc(handle);
                &&& same_but_doc(*old(self), *final(self), old(self).nodes@[handle].doc_handle)
                &&& ns1.len() == ns0.len()
                &&& forall|j: int| 0 <= j < ns0.len() ==> #[trigger] ns1[j].kind == ns0[j].kind
                &&& ns1[ix].parent is None
                &&& forall|j: int| 0 <= j < ns0.len() && j != ix ==> #[trigger] ns1[j].parent
                    == ns0[j].parent
            },
    {
        self.scraper_remove_element(handle);
    }

    /// Replaces the text of a text node.
    pub fn scraper_set_text_node_text(&mut self, handle: i64, text: &str)
        requires
            old(self).wf(),
        ensures
            final(self).wf(),
            !(old(self).node_resolves(handle) && is_text_node(
                old(self).node_doc(handle)[old(self).node_ix(handle)].kind,
            )) ==> arena_unchanged(*old(self), *final(self)),
            old(self).node_resolves(handle) && is_text_node(
                old(self).node_doc(handle)[old(self).node_ix(handle)].kind,
            ) ==> {
                let ix = old(self).node_ix(handle);
                let ns0 = old(self).node_doc(handle);
                let ns1 = final(self).node_doc(handle);
                &&& same_but_doc(*old(self), *final(self), old(self).nodes@[handle].doc_handle)
                &&& same_links_but(ns0, ns1, ix)
                &&& is_text_node(ns1[ix].kind)
                &&& text_of(ns1[ix].kind) == text@
            },
    {
        let entry = match self.get_node(handle) {
            Some(e) => e,
            None => {
                return ;
            },
        };
        let mut de = match self.take_doc(entry.doc_handle) {
            Some(d) => d,
            None => {
                return ;
            },
        };
        if entry.node_id < de.doc.nodes.len() && crate::api::kind_is_text(
            &de.doc.nodes[entry.node_id].kind,
        ) {
            let ghost ns0 = de.doc.nodes@;
            let tv = chars_vec(text);
            let mut nd = crate::dom::take_node(&mut de.doc.nodes, entry.node_id);
            nd.kind = NodeKind::Text { text: tv };
            crate::dom::set_node(&mut de.doc.nodes, entry.node_id, nd);
            proof {
                crate::edit::lemma_same_links(ns0, de.doc.nodes@, entry.node_id as int);
            }
        }
        self.put_doc(entry.doc_handle, de);
        proof {
            if !(old(self).node_resolves(handle) && is_text_node(
                old(self).node_doc(handle)[old(self).node_ix(handle)].kind,
            )) {
                assert(self.documents@ =~= old(self).documents@);
            }
        }
    }
}

} // verus!
