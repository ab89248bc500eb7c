//! The handle-based query surface.
//!
//! Every operation takes integer handles and plain strings, resolves the
//! handle through the arena, and answers with a sentinel — `-1`, `None`
//! or an empty value — when the handle is dangling, of the wrong kind,
//! or the input is rejected.  No operation panics.

use vstd::prelude::*;
use crate::arena::{Arena, DocEntry, NodeEntry};
use crate::attrs::attr_get;
use crate::dom::{
    all_text, elem_attrs, elem_name, from_flat, is_element, is_text_node, node_ok, nodes_ok,
    own_text_raw, text_of, Doc, NodeData, NodeKind,
};
use crate::text::{chars_vec, norm_ws, string_from_chars, words};

verus! {

broadcast use vstd::std_specs::vec::group_vec_axioms;

/// The index of the first element among node `i`'s children at or after
/// child position `k`.
pub open spec fn first_elem_from(ns: Seq<NodeData>, i: int, k: int) -> Option<int>
    decreases ns[i].children@.len() - k when 0 <= k
{
    if k >= ns[i].children@.len() {
        None
    } else if is_element(ns[ns[i].children@[k] as int].kind) {
        Some(ns[i].children@[k] as int)
    } else {
        first_elem_from(ns, i, k + 1)
    }
}

/// The index of the last element among node `i`'s children strictly
/// before child position `k`.
pub open spec fn last_elem_before(ns: Seq<NodeData>, i: int, k: int) -> Option<int>
    decreases (if 0 <= k { k } else { 0int }),
{
    if k <= 0 {
        None
    } else if is_element(ns[ns[i].children@[k - 1] as int].kind) {
        Some(ns[i].children@[k - 1] as int)
    } else {
        last_elem_before(ns, i, k - 1)
    }
}

/// The element children of node `i` among its first `k` children.
pub open spec fn elem_children_upto(ns: Seq<NodeData>, i: int, k: int) -> Seq<usize>
    decreases (if 0 <= k { k } else { 0int }),
{
    if k <= 0 {
        Seq::<usize>::empty()
    } else if is_element(ns[ns[i].children@[k - 1] as int].kind) {
        elem_children_upto(ns, i, k - 1).push(ns[i].children@[k - 1])
    } else {
        elem_children_upto(ns, i, k - 1)
    }
}

/// The element children of node `i`.
pub open spec fn elem_children(ns: Seq<NodeData>, i: int) -> Seq<usize> {
    elem_children_upto(ns, i, ns[i].children@.len() as int)
}

/// The text-node children of node `i` among its first `k` children.
pub open spec fn text_children_upto(ns: Seq<NodeData>, i: int, k: int) -> Seq<usize>
    decreases (if 0 <= k { k } else { 0int }),
{
    if k <= 0 {
        Seq::<usize>::empty()
    } else if is_text_node(ns[ns[i].children@[k - 1] as int].kind) {
        text_children_upto(ns, i, k - 1).push(ns[i].children@[k - 1])
    } else {
        text_children_upto(ns, i, k - 1)
    }
}

/// Collects the element children of node `i`.
pub fn elem_children_vec(ns: &Vec<NodeData>, i: usize) -> (r: Vec<usize>)
    requires
        nodes_ok(ns@),
        i < ns@.len(),
    ensures
        r@ == elem_children(ns@, i as int),
{
    proof {
        assert(node_ok(ns@, i as int));
    }
    let nd = &ns[i];
    let mut r: Vec<usize> = Vec::new();
    let mut k: usize = 0;
    while k < nd.children.len()
        invariant
            nodes_ok(ns@),
            i < ns@.len(),
            nd == ns@[i as int],
            k <= nd.children@.len(),
            r@ == elem_children_upto(ns@, i as int, k as int),
        decreases nd.children@.len() - k,
    {
        proof {
            assert(node_ok(ns@, i as int));
        }
        let c = nd.children[k];
        if kind_is_element(&ns[c].kind) {
            r.push(c);
        }
        k = k + 1;
    }
    r
}

/// Executable test for [`is_element`].
pub fn kind_is_element(k: &NodeKind) -> (r: bool)
    ensures
        r == is_element(*k),
{
    match k {
        NodeKind::Element { .. } => true,
        _ => false,
    }
}

/// Executable test for [`is_text_node`].
pub fn kind_is_text(k: &NodeKind) -> (r: bool)
    ensures
        r == is_text_node(*k),
{
    match k {
        NodeKind::Text { .. } => true,
        _ => false,
    }
}

/// What [`Arena::scraper_attr`] answers: the attribute's value on a
/// resolving element-node handle, absent otherwise and on document
/// handles.
pub open spec fn attr_spec(a: Arena, h: i64, key: Seq<char>) -> Option<Seq<char>> {
    if a.documents@.contains_key(h) {
        None
    } else if a.node_resolves(h) && is_element(a.node_doc(h)[a.node_ix(h)].kind) {
        attr_get(elem_attrs(a.node_doc(h)[a.node_ix(h)].kind), key)
    } else {
        None
    }
}

impl Arena {
    /// Parses HTML as a document and stores it under a fresh handle with
    /// the given base URI; `-1` only when no handle can be issued.
    pub fn scraper_parse(&mut self, html: &str, base_uri: &str) -> (r: i64)
        requires
            old(self).wf(),
        ensures
            final(self).wf(),
            final(self).nodes@ == old(self).nodes@,
            final(self).node_lists@ == old(self).node_lists@,
            r == -1 || r >= 1,
            old(self).next < i64::MAX ==> r >= 1,
            r >= 1 ==> final(self).documents@.contains_key(r) && !old(
                self,
            ).documents@.contains_key(r) && final(self).documents@[r].base_uri@ == base_uri@
                && final(self).documents@[r].doc.wf() && crate::dom::built_from(
                crate::provider::document_flat_of(html@),
                final(self).documents@[r].doc.nodes@,
            ) && (forall|k: i64|
                k != r ==> final(self).documents@.contains_key(k) == old(
                    self,
                ).documents@.contains_key(k) && (old(self).documents@.contains_key(k)
                    ==> final(self).documents@[k] == old(self).documents@[k])),
    {
        let flat = crate::provider::parse_document_flat(html);
        let doc = from_flat(flat);
        self.store_document(doc, base_uri.to_owned())
    }

    /// Parses HTML as a fragment and stores it under a fresh handle with
    /// the given base URI; `-1` only when no handle can be issued.
    pub fn scraper_parse_fragment(&mut self, html: &str, base_uri: &str) -> (r: i64)
        requires
            old(self).wf(),
        ensures
            final(self).wf(),
            final(self).nodes@ == old(self).nodes@,
            final(self).node_lists@ == old(self).node_lists@,
            r == -1 || r >= 1,
            old(self).next < i64::MAX ==> r >= 1,
            r >= 1 ==> final(self).documents@.contains_key(r) && !old(
                self,
            ).documents@.contains_key(r) && final(self).documents@[r].base_uri@ == base_uri@
                && final(self).documents@[r].doc.wf() && crate::dom::built_from(
                crate::provider::fragment_flat_of(html@),
                final(self).documents@[r].doc.nodes@,
            ) && (forall|k: i64|
                k != r ==> final(self).documents@.contains_key(k) == old(
                    self,
                ).documents@.contains_key(k) && (old(self).documents@.contains_key(k)
                    ==> final(self).documents@[k] == old(self).documents@[k])),
    {
        let flat = crate::provider::parse_fragment_flat(html);
        let doc = from_flat(flat);
        self.store_document(doc, base_uri.to_owned())
    }

    /// Frees one handle of any kind; a no-op for an unknown handle.
    pub fn scraper_free(&mut self, handle: i64)
        requires
            old(self).wf(),
        ensures
            final(self).wf(),
            final(self).documents@ == old(self).documents@.remove(handle),
            final(self).nodes@ == old(self).nodes@.remove(handle),
            final(self).node_lists@ == old(self).node_lists@.remove(handle),
    {
        self.free_handle(handle);
    }

    /// Releases every handle.
    pub fn scraper_release_all(&mut self)
        requires
            old(self).wf(),
        ensures
            final(self).wf(),
            final(self).documents@ == Map::<i64, DocEntry>::empty(),
            final(self).nodes@ == Map::<i64, NodeEntry>::empty(),
            final(self).node_lists@ == Map::<i64, Vec<NodeEntry>>::empty(),
    {
        self.release_all();
    }

    /// Releases every handle: whole-session teardown.
    pub fn scraper_dispose(&mut self)
        requires
            old(self).wf(),
        ensures
            final(self).wf(),
            final(self).documents@ == Map::<i64, DocEntry>::empty(),
            final(self).nodes@ == Map::<i64, NodeEntry>::empty(),
            final(self).node_lists@ == Map::<i64, Vec<NodeEntry>>::empty(),
    {
        self.release_all();
    }

    /// Reads an attribute of the element a node handle names; absent on
    /// a document handle, a non-element node, or a dangling handle.
    pub fn scraper_attr(&self, handle: i64, key: &str) -> (r: Option<String>)
        requires
            self.wf(),
        ensures
            match r {
                Some(v) => attr_spec(*self, handle, key@) == Some(v@),
                None => attr_spec(*self, handle, key@) is None,
            },
    {
        if self.is_document(handle) {
            return None;
        }
        let kv = chars_vec(key);
        match self.with_node_doc(handle) {
            Some((entry, d)) => {
                if entry.node_id < d.doc.nodes.len() {
                    let nd = &d.doc.nodes[entry.node_id];
                    match &nd.kind {
                        NodeKind::Element { attrs, .. } => {
                            proof {
                                assert(node_ok(d.doc.nodes@, entry.node_id as int));
                            }
                            match crate::attrs::attrs_lookup(attrs, &kv) {
                                Some(v) => Some(string_from_chars(v)),
                                None => None,
                            }
                        },
                        _ => None,
                    }
                } else {
                    None
                }
            },
            None => None,
        }
    }

    /// Whether the element a node handle names has the attribute.
    pub fn scraper_has_attr(&self, handle: i64, key: &str) -> (r: bool)
        requires
            self.wf(),
        ensures
            r == (attr_spec(*self, handle, key@) is Some),
    {
        if self.is_document(handle) {
            return false;
        }
        match self.scraper_attr(handle, key) {
            Some(_) => true,
            None => false,
        }
    }
}

} // verus!
