//! Read-only traversal and extraction: text, markup, names, lists and
//! sibling navigation.

use vstd::prelude::*;
use crate::arena::{Arena, NodeEntry};
use crate::api::{
    elem_children, elem_children_vec, first_elem_from, kind_is_element, kind_is_text,
    last_elem_before, text_children_upto,
};
use crate::dom::{
    all_text, elem_attrs, elem_name, is_element, is_text_node, node_ok, nodes_ok, own_text_raw,
    text_of, NodeData, NodeKind,
};
use crate::ser::{is_raw_name, ser_node, ser_upto};
use crate::text::{escape_text, norm_ws, string_from_chars, words};


verus! {

broadcast use vstd::std_specs::vec::group_vec_axioms;

/// Finds the first element child of `i` at or after position `start`.
pub fn first_elem_from_vec(ns: &Vec<NodeData>, i: usize, start: usize) -> (r: Option<usize>)
    requires
        nodes_ok(ns@),
        i < ns@.len(),
    ensures
        match r {
            Some(c) => first_elem_from(ns@, i as int, start as int) == Some(c as int) && c
                < ns@.len(),
            None => first_elem_from(ns@, i as int, start as int) is None,
        },
{
    proof {
        assert(node_ok(ns@, i as int));
    }
    let nd = &ns[i];
    let mut k: usize = start;
    while k < nd.children.len()
        invariant
            nodes_ok(ns@),
            i < ns@.len(),
            nd == ns@[i as int],
            start <= k,
            first_elem_from(ns@, i as int, start as int) == first_elem_from(
                ns@,
                i as int,
                k as int,
            ),
        decreases nd.children@.len() - k,
    {
        proof {
            assert(node_ok(ns@, i as int));
        }
        let c = nd.children[k];
        if kind_is_element(&ns[c].kind) {
            return Some(c);
        }
        k = k + 1;
    }
    None
}

/// What `text` answers on a handle: the whitespace-normalized subtree
/// text of the named element, or of a document's root element.
pub open spec fn text_spec(a: Arena, h: i64) -> Option<Seq<char>> {
    if a.documents@.contains_key(h) {
        match first_elem_from(a.documents@[h].doc.nodes@, 0, 0) {
            Some(e) => Some(norm_ws(all_text(a.documents@[h].doc.nodes@, e))),
            None => None,
        }
    } else if a.node_resolves(h) && is_element(a.node_doc(h)[a.node_ix(h)].kind) {
        Some(norm_ws(all_text(a.node_doc(h), a.node_ix(h))))
    } else {
        None
    }
}

/// What `ownText` answers: the normalized text of the element's direct
/// text children.
pub open spec fn own_text_spec(a: Arena, h: i64) -> Option<Seq<char>> {
    if !a.documents@.contains_key(h) && a.node_resolves(h) && is_element(
        a.node_doc(h)[a.node_ix(h)].kind,
    ) {
        Some(norm_ws(own_text_raw(a.node_doc(h), a.node_ix(h))))
    } else {
        None
    }
}

impl Arena {
    /// The whitespace-normalized text of an element or of a document's
    /// root element.
    pub fn scraper_text(&self, handle: i64) -> (r: Option<String>)
        requires
            self.wf(),
        ensures
            match r {
                Some(v) => text_spec(*self, handle) == Some(v@),
                None => text_spec(*self, handle) is None,
            },
    {
        match self.with_doc(handle) {
            Some(d) => {
                proof {
                    assert(self.documents@.contains_key(handle));
                    assert(d.doc.wf());
                }
                match first_elem_from_vec(&d.doc.nodes, 0, 0) {
                    Some(e) => {
                        let raw = crate::dom::subtree_text(&d.doc.nodes, e);
                        let n = crate::text::norm_ws_chars(&raw);
                        Some(string_from_chars(&n))
                    },
                    None => None,
                }
            },
            None => {
                match self.with_node_doc(handle) {
                    Some((entry, d)) => {
                        if entry.node_id < d.doc.nodes.len() {
                            if kind_is_element(&d.doc.nodes[entry.node_id].kind) {
                                let raw = crate::dom::subtree_text(&d.doc.nodes, entry.node_id);
                                let n = crate::text::norm_ws_chars(&raw);
                                Some(string_from_chars(&n))
                            } else {
                                None
                            }
                        } else {
                            None
                        }
                    },
                    None => None,
                }
            },
        }
    }

    /// The whitespace-normalized text of an element's direct text-node
    /// children.
    pub fn scraper_own_text(&self, handle: i64) -> (r: Option<String>)
        requires
            self.wf(),
        ensures
            match r {
                Some(v) => own_text_spec(*self, handle) == Some(v@),
                None => own_text_spec(*self, handle) is None,
            },
    {
        if self.is_document(handle) {
            return None;
        }
        match self.with_node_doc(handle) {
            Some((entry, d)) => {
                if entry.node_id < d.doc.nodes.len() {
                    if kind_is_element(&d.doc.nodes[entry.node_id].kind) {
                        let raw = crate::dom::own_text_vec(&d.doc.nodes, entry.node_id);
                        let n = crate::text::norm_ws_chars(&raw);
                        Some(string_from_chars(&n))
                    } else {
                        None
                    }
                } else {
                    None
                }
            },
            None => None,
        }
    }

    /// The serialized children of an element: its inner HTML.
    pub fn scraper_inner_html(&self, handle: i64) -> (r: Option<String>)
        requires
            self.wf(),
        ensures
            match r {
                Some(v) => !self.documents@.contains_key(handle) && self.node_resolves(handle)
                    && is_element(self.node_doc(handle)[self.node_ix(handle)].kind) && v@
                    == ser_upto(
                    self.node_doc(handle),
                    self.node_ix(handle),
                    self.node_doc(handle)[self.node_ix(handle)].children@.len() as int,
                    false,
                    match self.node_doc(handle)[self.node_ix(handle)].kind {
                        NodeKind::Element { name, .. } => is_raw_name(name@),
                        _ => false,
                    },
                ),
                None => self.documents@.contains_key(handle) || !self.node_resolves(handle)
                    || !is_element(self.node_doc(handle)[self.node_ix(handle)].kind),
            },
    {
        if self.is_document(handle) {
            return None;
        }
        match self.with_node_doc(handle) {
            Some((entry, d)) => {
                if entry.node_id < d.doc.nodes.len() {
                    if kind_is_element(&d.doc.nodes[entry.node_id].kind) {
                        let v = crate::ser::serialize_children(&d.doc.nodes, entry.node_id, false);
                        Some(string_from_chars(&v))
                    } else {
                        None
                    }
                } else {
                    None
                }
            },
            None => None,
        }
    }

    /// The serialized subtree of an element: its outer HTML.
    pub fn scraper_outer_html(&self, handle: i64) -> (r: Option<String>)
        requires
            self.wf(),
        ensures
            match r {
                Some(v) => !self.documents@.contains_key(handle) && self.node_resolves(handle)
                    && is_element(self.node_doc(handle)[self.node_ix(handle)].kind) && v@
                    == ser_node(self.node_doc(handle), self.node_ix(handle), false, false),
                None => self.documents@.contains_key(handle) || !self.node_resolves(handle)
                    || !is_element(self.node_doc(handle)[self.node_ix(handle)].kind),
            },
    {
        if self.is_document(handle) {
            return None;
        }
        match self.with_node_doc(handle) {
            Some((entry, d)) => {
                if entry.node_id < d.doc.nodes.len() {
                    if kind_is_element(&d.doc.nodes[entry.node_id].kind) {
                        let v = crate::ser::serialize_node(&d.doc.nodes, entry.node_id, false);
                        Some(string_from_chars(&v))
                    } else {
                        None
                    }
                } else {
                    None
                }
            },
            None => None,
        }
    }
}


/// What `tagName` answers: `#root` for a document, the tag name for an
/// element.
pub open spec fn tag_name_spec(a: Arena, h: i64) -> Option<Seq<char>> {
    if a.documents@.contains_key(h) {
        Some("#root"@)
    } else if a.node_resolves(h) && is_element(a.node_doc(h)[a.node_ix(h)].kind) {
        Some(elem_name(a.node_doc(h)[a.node_ix(h)].kind))
    } else {
        None
    }
}

/// What `nodeName` answers, DOM style: `#root`, a tag name, `#text`,
/// `#comment`, `#document` or `#unknown`.
pub open spec fn node_name_spec(a: Arena, h: i64) -> Option<Seq<char>> {
    if a.documents@.contains_key(h) {
        Some("#root"@)
    } else if a.node_resolves(h) {
        match a.node_doc(h)[a.node_ix(h)].kind {
            NodeKind::Element { name, .. } => Some(name@),
            NodeKind::Text { .. } => Some("#text"@),
            NodeKind::Comment { .. } => Some("#comment"@),
            NodeKind::Document => Some("#document"@),
            _ => Some("#unknown"@),
        }
    } else {
        None
    }
}

/// What `id` answers: a non-empty `id` attribute of an element.
pub open spec fn id_spec(a: Arena, h: i64) -> Option<Seq<char>> {
    if !a.documents@.contains_key(h) && a.node_resolves(h) && is_element(
        a.node_doc(h)[a.node_ix(h)].kind,
    ) {
        match crate::attrs::attr_get(elem_attrs(a.node_doc(h)[a.node_ix(h)].kind), "id"@) {
            Some(v) => if v.len() > 0 {
                Some(v)
            } else {
                None
            },
            None => None,
        }
    } else {
        None
    }
}

/// The element's `class` attribute value, or empty when absent.
pub open spec fn class_val(k: NodeKind) -> Seq<char> {
    match crate::attrs::attr_get(elem_attrs(k), "class"@) {
        Some(v) => v,
        None => Seq::<char>::empty(),
    }
}

/// What `className` answers: the `class` attribute of an element, empty
/// when absent.
pub open spec fn class_name_spec(a: Arena, h: i64) -> Option<Seq<char>> {
    if !a.documents@.contains_key(h) && a.node_resolves(h) && is_element(
        a.node_doc(h)[a.node_ix(h)].kind,
    ) {
        Some(class_val(a.node_doc(h)[a.node_ix(h)].kind))
    } else {
        None
    }
}

/// What `data` answers: the raw subtree text for the data-carrying
/// elements, empty for other elements and documents.
pub open spec fn data_spec(a: Arena, h: i64) -> Option<Seq<char>> {
    if a.documents@.contains_key(h) {
        Some(Seq::<char>::empty())
    } else if a.node_resolves(h) && is_element(a.node_doc(h)[a.node_ix(h)].kind) {
        let name = elem_name(a.node_doc(h)[a.node_ix(h)].kind);
        if name == "script"@ || name == "style"@ || name == "textarea"@ || name == "title"@ {
            Some(all_text(a.node_doc(h), a.node_ix(h)))
        } else {
            Some(Seq::<char>::empty())
        }
    } else {
        None
    }
}

impl Arena {
    /// `#root` for a document handle, the tag name for an element.
    pub fn scraper_tag_name(&self, handle: i64) -> (r: Option<String>)
        requires
            self.wf(),
        ensures
            match r {
                Some(v) => tag_name_spec(*self, handle) == Some(v@),
                None => tag_name_spec(*self, handle) is None,
            },
    {
        if self.is_document(handle) {
            return Some(String::from_str("#root"));
        }
        match self.with_node_doc(handle) {
            Some((entry, d)) => {
                if entry.node_id < d.doc.nodes.len() {
                    match &d.doc.nodes[entry.node_id].kind {
                        NodeKind::Element { name, .. } => Some(string_from_chars(name)),
                        _ => None,
                    }
                } else {
                    None
                }
            },
            None => None,
        }
    }

    /// The DOM-style node name.
    pub fn scraper_node_name(&self, handle: i64) -> (r: Option<String>)
        requires
            self.wf(),
        ensures
            match r {
                Some(v) => node_name_spec(*self, handle) == Some(v@),
                None => node_name_spec(*self, handle) is None,
            },
    {
        if self.is_document(handle) {
            return Some(String::from_str("#root"));
        }
        match self.with_node_doc(handle) {
            Some((entry, d)) => {
                if entry.node_id < d.doc.nodes.len() {
                    match &d.doc.nodes[entry.node_id].kind {
                        NodeKind::Element { name, .. } => Some(string_from_chars(name)),
                        NodeKind::Text { .. } => Some(String::from_str("#text")),
                        NodeKind::Comment { .. } => Some(String::from_str("#comment")),
                        NodeKind::Document => Some(String::from_str("#document")),
                        _ => Some(String::from_str("#unknown")),
                    }
                } else {
                    None
                }
            },
            None => None,
        }
    }

    /// A non-empty `id` attribute of an element.
    pub fn scraper_id(&self, handle: i64) -> (r: Option<String>)
        requires
            self.wf(),
        ensures
            match r {
                Some(v) => id_spec(*self, handle) == Some(v@),
                None => id_spec(*self, handle) is None,
            },
    {
        if self.is_document(handle) {
            return None;
        }
        match self.scraper_attr(handle, "id") {
            Some(v) => {
                if v.as_str().unicode_len() > 0 {
                    Some(v)
                } else {
                    None
                }
            },
            None => None,
        }
    }

    /// The `class` attribute of an element, empty when absent.
    pub fn scraper_class_name(&self, handle: i64) -> (r: Option<String>)
        requires
            self.wf(),
        ensures
            match r {
                Some(v) => class_name_spec(*self, handle) == Some(v@),
                None => class_name_spec(*self, handle) is None,
            },
    {
        if self.is_document(handle) {
            return None;
        }
        match self.with_node_doc(handle) {
            Some((entry, d)) => {
                if entry.node_id < d.doc.nodes.len() {
                    match &d.doc.nodes[entry.node_id].kind {
                        NodeKind::Element { attrs, .. } => {
                            proof {
                                assert(node_ok(d.doc.nodes@, entry.node_id as int));
                            }
                            let key = crate::text::chars_vec("class");
                            match crate::attrs::attrs_lookup(attrs, &key) {
                                Some(v) => Some(string_from_chars(v)),
                                None => Some(String::new()),
                            }
                        },
                        _ => None,
                    }
                } else {
                    None
                }
            },
            None => None,
        }
    }

    /// Whether the element carries `name` as one of its classes.
    pub fn scraper_has_class(&self, handle: i64, name: &str) -> (r: bool)
        requires
            self.wf(),
        ensures
            r == match class_name_spec(*self, handle) {
                Some(cv) => words(cv).contains(name@),
                None => false,
            },
    {
        match self.scraper_class_name(handle) {
            Some(cv) => {
                let cvv = crate::text::chars_vec(cv.as_str());
                let ws = crate::text::split_words(&cvv);
                let nv = crate::text::chars_vec(name);
                let mut k: usize = 0;
                let ghost wsv = words(cv@);
                proof {
                    assert(ws.deep_view() == wsv);
                }
                while k < ws.len()
                    invariant
                        class_name_spec(*self, handle) == Some(cv@),
                        wsv == words(cv@),
                        ws.deep_view() == wsv,
                        ws.len() == wsv.len(),
                        k <= wsv.len(),
                        nv@ == name@,
                        forall|j: int| 0 <= j < k ==> wsv[j] != name@,
                    decreases wsv.len() - k,
                {
                    proof {
                        assert(ws.deep_view()[k as int] == ws@[k as int].deep_view());
                        assert(ws@[k as int].deep_view() =~= ws@[k as int]@);
                        assert(wsv[k as int] == ws@[k as int]@);
                    }
                    if crate::text::chars_eq(&ws[k], &nv) {
                        proof {
                            assert(wsv[k as int] == name@);
                            assert(wsv.contains(name@));
                        }
                        return true;
                    }
                    k = k + 1;
                }
                proof {
                    if wsv.contains(name@) {
                        let w = choose|w: int| 0 <= w < wsv.len() && wsv[w] == name@;
                        assert(false);
                    }
                }
                false
            },
            None => false,
        }
    }

    /// The raw subtree text of a data-carrying element (`script`,
    /// `style`, `textarea`, `title`); empty otherwise.
    pub fn scraper_data(&self, handle: i64) -> (r: Option<String>)
        requires
            self.wf(),
        ensures
            match r {
                Some(v) => data_spec(*self, handle) == Some(v@),
                None => data_spec(*self, handle) is None,
            },
    {
        if self.is_document(handle) {
            return Some(String::new());
        }
        match self.with_node_doc(handle) {
            Some((entry, d)) => {
                if entry.node_id < d.doc.nodes.len() {
                    match &d.doc.nodes[entry.node_id].kind {
                        NodeKind::Element { name, .. } => {
                            let special = crate::text::eq_str(name, "script")
                                || crate::text::eq_str(name, "style") || crate::text::eq_str(
                                name,
                                "textarea",
                            ) || crate::text::eq_str(name, "title");
                            if special {
                                let raw = crate::dom::subtree_text(&d.doc.nodes, entry.node_id);
                                Some(string_from_chars(&raw))
                            } else {
                                Some(String::new())
                            }
                        },
                        _ => None,
                    }
                } else {
                    None
                }
            },
            None => None,
        }
    }

    /// Whether the node reference was made for a text node.
    pub fn scraper_is_text_node(&self, handle: i64) -> (r: bool)
        ensures
            r == (self.nodes@.contains_key(handle) && self.nodes@[handle].is_text),
    {
        match self.get_node(handle) {
            Some(e) => e.is_text,
            None => false,
        }
    }

    /// The normalized text of a text node.
    pub fn scraper_text_node_text(&self, handle: i64) -> (r: Option<String>)
        requires
            self.wf(),
        ensures
            match r {
                Some(v) => self.node_resolves(handle) && is_text_node(
                    self.node_doc(handle)[self.node_ix(handle)].kind,
                ) && v@ == norm_ws(text_of(self.node_doc(handle)[self.node_ix(handle)].kind)),
                None => !self.node_resolves(handle) || !is_text_node(
                    self.node_doc(handle)[self.node_ix(handle)].kind,
                ),
            },
    {
        match self.with_node_doc(handle) {
            Some((entry, d)) => {
                if entry.node_id < d.doc.nodes.len() {
                    match &d.doc.nodes[entry.node_id].kind {
                        NodeKind::Text { text } => {
                            let n = crate::text::norm_ws_chars(text);
                            Some(string_from_chars(&n))
                        },
                        _ => None,
                    }
                } else {
                    None
                }
            },
            None => None,
        }
    }

    /// The raw text of a text node.
    pub fn scraper_text_node_whole_text(&self, handle: i64) -> (r: Option<String>)
        requires
            self.wf(),
        ensures
            match r {
                Some(v) => self.node_resolves(handle) && is_text_node(
                    self.node_doc(handle)[self.node_ix(handle)].kind,
                ) && v@ == text_of(self.node_doc(handle)[self.node_ix(handle)].kind),
                None => !self.node_resolves(handle) || !is_text_node(
                    self.node_doc(handle)[self.node_ix(handle)].kind,
                ),
            },
    {
        match self.with_node_doc(handle) {
            Some((entry, d)) => {
                if entry.node_id < d.doc.nodes.len() {
                    match &d.doc.nodes[entry.node_id].kind {
                        NodeKind::Text { text } => Some(string_from_chars(text)),
                        _ => None,
                    }
                } else {
                    None
                }
            },
            None => None,
        }
    }

    /// Whether a text node holds only whitespace; `true` for anything
    /// that is not a resolving text node.
    pub fn scraper_text_node_is_blank(&self, handle: i64) -> (r: bool)
        requires
            self.wf(),
        ensures
            r == if self.node_resolves(handle) && is_text_node(
                self.node_doc(handle)[self.node_ix(handle)].kind,
            ) {
                words(text_of(self.node_doc(handle)[self.node_ix(handle)].kind)).len() == 0
            } else {
                true
            },
    {
        match self.with_node_doc(handle) {
            Some((entry, d)) => {
                if entry.node_id < d.doc.nodes.len() {
                    match &d.doc.nodes[entry.node_id].kind {
                        NodeKind::Text { text } => {
                            let ws = crate::text::split_words(text);
                            ws.len() == 0
                        },
                        _ => true,
                    }
                } else {
                    true
                }
            },
            None => true,
        }
    }
}


/// The element parent of a resolving node, if its parent is an element.
pub open spec fn parent_elem_spec(a: Arena, h: i64) -> Option<int> {
    if a.node_resolves(h) {
        match a.node_doc(h)[a.node_ix(h)].parent {
            Some(p) => if is_element(a.node_doc(h)[p as int].kind) {
                Some(p as int)
            } else {
                None
            },
            None => None,
        }
    } else {
        None
    }
}

/// The raw parent of a resolving node, unless it is a document root.
pub open spec fn parent_node_spec(a: Arena, h: i64) -> Option<int> {
    if a.node_resolves(h) {
        match a.node_doc(h)[a.node_ix(h)].parent {
            Some(p) => if (a.node_doc(h)[p as int].kind matches NodeKind::Document) {
                None
            } else {
                Some(p as int)
            },
            None => None,
        }
    } else {
        None
    }
}

/// The node-list entries for the element children of node handle `h`.
pub open spec fn children_entries(a: Arena, h: i64) -> Seq<NodeEntry> {
    entries_for(elem_children(a.node_doc(h), a.node_ix(h)), a.nodes@[h].doc_handle)
}

/// Node-list entries for the given node indices, none of them text.
pub open spec fn entries_for(ixs: Seq<usize>, dh: i64) -> Seq<NodeEntry> {
    Seq::new(ixs.len(), |k: int| (NodeEntry { node_id: ixs[k], doc_handle: dh, is_text: false }))
}

/// The entries of the node handles in `hs` that are present, in order.
pub open spec fn picked_entries(a: Arena, hs: Seq<i64>) -> Seq<NodeEntry>
    decreases hs.len(),
{
    if hs.len() == 0 {
        Seq::<NodeEntry>::empty()
    } else if a.nodes@.contains_key(hs.last()) {
        picked_entries(a, hs.drop_last()).push(a.nodes@[hs.last()])
    } else {
        picked_entries(a, hs.drop_last())
    }
}

impl Arena {
    /// The length of a node list; `-1` for anything else.
    pub fn scraper_list_size(&self, handle: i64) -> (r: i64)
        ensures
            self.node_lists@.contains_key(handle) ==> r >= 0 && (
            self.node_lists@[handle]@.len() <= i64::MAX ==> r
                == self.node_lists@[handle]@.len()),
            !self.node_lists@.contains_key(handle) ==> r == -1,
    {
        match self.get_node_list(handle) {
            Some(v) => {
                let n = v.len();
                if n as u64 <= i64::MAX as u64 {
                    n as i64
                } else {
                    i64::MAX
                }
            },
            None => -1,
        }
    }

    /// A fresh node handle for the list entry at `index`; `-1` when the
    /// list or the entry is absent.
    pub fn scraper_list_get(&mut self, handle: i64, index: usize) -> (r: i64)
        requires
            old(self).wf(),
        ensures
            final(self).wf(),
            final(self).documents@ == old(self).documents@,
            final(self).node_lists@ == old(self).node_lists@,
            !(old(self).node_lists@.contains_key(handle) && index < old(
                self,
            ).node_lists@[handle]@.len()) ==> r == -1 && final(self).nodes@ == old(
                self,
            ).nodes@,
            old(self).node_lists@.contains_key(handle) && index < old(
                self,
            ).node_lists@[handle]@.len() ==> {
                &&& (old(self).next < i64::MAX ==> r >= 1)
                &&& (r >= 1 ==> final(self).nodes@ =~= old(self).nodes@.insert(
                    r,
                    old(self).node_lists@[handle]@[index as int],
                ))
                &&& (r == -1 ==> final(self).nodes@ == old(self).nodes@)
            },
    {
        let entry_opt = match self.get_node_list(handle) {
            Some(v) => {
                if index < v.len() {
                    Some(v[index])
                } else {
                    None
                }
            },
            None => None,
        };
        match entry_opt {
            Some(e) => self.store_node(e),
            None => -1,
        }
    }

    /// A fresh node handle for the first list entry.
    pub fn scraper_list_first(&mut self, handle: i64) -> (r: i64)
        requires
            old(self).wf(),
        ensures
            final(self).wf(),
            final(self).documents@ == old(self).documents@,
            final(self).node_lists@ == old(self).node_lists@,
            !(old(self).node_lists@.contains_key(handle) && old(
                self,
            ).node_lists@[handle]@.len() > 0) ==> r == -1 && final(self).nodes@ == old(
                self,
            ).nodes@,
            old(self).node_lists@.contains_key(handle) && old(
                self,
            ).node_lists@[handle]@.len() > 0 ==> {
                &&& (old(self).next < i64::MAX ==> r >= 1)
                &&& (r >= 1 ==> final(self).nodes@ =~= old(self).nodes@.insert(
                    r,
                    old(self).node_lists@[handle]@[0],
                ))
                &&& (r == -1 ==> final(self).nodes@ == old(self).nodes@)
            },
    {
        self.scraper_list_get(handle, 0)
    }

    /// A fresh node handle for the last list entry.
    pub fn scraper_list_last(&mut self, handle: i64) -> (r: i64)
        requires
            old(self).wf(),
        ensures
            final(self).wf(),
            final(self).documents@ == old(self).documents@,
            final(self).node_lists@ == old(self).node_lists@,
            !(old(self).node_lists@.contains_key(handle) && old(
                self,
            ).node_lists@[handle]@.len() > 0) ==> r == -1 && final(self).nodes@ == old(
                self,
            ).nodes@,
            old(self).node_lists@.contains_key(handle) && old(
                self,
            ).node_lists@[handle]@.len() > 0 ==> {
                &&& (old(self).next < i64::MAX ==> r >= 1)
                &&& (r >= 1 ==> final(self).nodes@ =~= old(self).nodes@.insert(
                    r,
                    old(self).node_lists@[handle]@[old(self).node_lists@[handle]@.len() - 1],
                ))
                &&& (r == -1 ==> final(self).nodes@ == old(self).nodes@)
            },
    {
        let n = match self.get_node_list(handle) {
            Some(v) => v.len(),
            None => 0,
        };
        if n == 0 {
            return -1;
        }
        self.scraper_list_get(handle, n - 1)
    }

    /// A fresh node handle for the element parent; `-1` when the parent
    /// is absent or not an element.
    pub fn scraper_parent(&mut self, handle: i64) -> (r: i64)
        requires
            old(self).wf(),
        ensures
            final(self).wf(),
            final(self).documents@ == old(self).documents@,
            final(self).node_lists@ == old(self).node_lists@,
            parent_elem_spec(*old(self), handle) is None ==> r == -1 && final(self).nodes@
                == old(self).nodes@,
            parent_elem_spec(*old(self), handle) matches Some(p) ==> {
                &&& (old(self).next < i64::MAX ==> r >= 1)
                &&& (r >= 1 ==> final(self).nodes@ =~= old(self).nodes@.insert(
                    r,
                    NodeEntry {
                        node_id: p as usize,
                        doc_handle: old(self).nodes@[handle].doc_handle,
                        is_text: false,
                    },
                ))
                &&& (r == -1 ==> final(self).nodes@ == old(self).nodes@)
            },
    {
        let target = match self.with_node_doc(handle) {
            Some((entry, d)) => {
                if entry.node_id < d.doc.nodes.len() {
                    match d.doc.nodes[entry.node_id].parent {
                        Some(p) => {
                            proof {
                                assert(node_ok(d.doc.nodes@, entry.node_id as int));
                            }
                            if kind_is_element(&d.doc.nodes[p].kind) {
                                Some((p, entry.doc_handle))
                            } else {
                                None
                            }
                        },
                        None => None,
                    }
                } else {
                    None
                }
            },
            None => None,
        };
        match target {
            Some((p, dh)) => self.store_node(
                NodeEntry { node_id: p, doc_handle: dh, is_text: false },
            ),
            None => -1,
        }
    }

    /// A fresh node handle for the raw parent node; `-1` at a document
    /// root or a dangling handle.
    pub fn scraper_parent_node(&mut self, handle: i64) -> (r: i64)
        requires
            old(self).wf(),
        ensures
            final(self).wf(),
            final(self).documents@ == old(self).documents@,
            final(self).node_lists@ == old(self).node_lists@,
            parent_node_spec(*old(self), handle) is None ==> r == -1 && final(self).nodes@
                == old(self).nodes@,
            parent_node_spec(*old(self), handle) matches Some(p) ==> {
                &&& (old(self).next < i64::MAX ==> r >= 1)
                &&& (r >= 1 ==> final(self).nodes@ =~= old(self).nodes@.insert(
                    r,
                    NodeEntry {
                        node_id: p as usize,
                        doc_handle: old(self).nodes@[handle].doc_handle,
                        is_text: is_text_node(old(self).node_doc(handle)[p as int].kind),
                    },
                ))
                &&& (r == -1 ==> final(self).nodes@ == old(self).nodes@)
            },
    {
        let target = match self.with_node_doc(handle) {
            Some((entry, d)) => {
                if entry.node_id < d.doc.nodes.len() {
                    match d.doc.nodes[entry.node_id].parent {
                        Some(p) => {
                            proof {
                                assert(node_ok(d.doc.nodes@, entry.node_id as int));
                            }
                            match &d.doc.nodes[p].kind {
                                NodeKind::Document => None,
                                _ => Some(
                                    (p, entry.doc_handle, kind_is_text(&d.doc.nodes[p].kind)),
                                ),
                            }
                        },
                        None => None,
                    }
                } else {
                    None
                }
            },
            None => None,
        };
        match target {
            Some((p, dh, it)) => self.store_node(
                NodeEntry { node_id: p, doc_handle: dh, is_text: it },
            ),
            None => -1,
        }
    }

    /// A fresh list handle over the element children of a node; `-1` on
    /// a dangling handle.
    pub fn scraper_children(&mut self, handle: i64) -> (r: i64)
        requires
            old(self).wf(),
        ensures
            final(self).wf(),
            final(self).documents@ == old(self).documents@,
            final(self).nodes@ == old(self).nodes@,
            !old(self).node_resolves(handle) ==> r == -1 && final(self).node_lists@ == old(
                self,
            ).node_lists@,
            old(self).node_resolves(handle) ==> {
                &&& (old(self).next < i64::MAX ==> r >= 1)
                &&& (r >= 1 ==> final(self).node_lists@.contains_key(r) && final(self).node_lists@[r]@ == children_entries(*old(self), handle))
                &&& (r == -1 ==> final(self).node_lists@ == old(self).node_lists@)
            },
    {
        let items = match self.with_node_doc(handle) {
            Some((entry, d)) => {
                if entry.node_id < d.doc.nodes.len() {
                    Some((elem_children_vec(&d.doc.nodes, entry.node_id), entry.doc_handle))
                } else {
                    None
                }
            },
            None => None,
        };
        match items {
            Some((cs, dh)) => {
                let ghost csv = cs@;
                let mut entries: Vec<NodeEntry> = Vec::new();
                let mut k: usize = 0;
                while k < cs.len()
                    invariant
                        cs@ == csv,
                        k <= csv.len(),
                        entries@ == entries_for(csv.take(k as int), dh),
                    decreases csv.len() - k,
                {
                    entries.push(NodeEntry { node_id: cs[k], doc_handle: dh, is_text: false });
                    k = k + 1;
                    proof {
                        assert(entries@ =~= entries_for(csv.take(k as int), dh));
                    }
                }
                proof {
                    assert(csv.take(csv.len() as int) =~= csv);
                }
                self.store_node_list(entries)
            },
            None => -1,
        }
    }

    /// A fresh node list over the node handles that still resolve among
    /// `handles`, in order.
    pub fn scraper_create_elements(&mut self, handles: &Vec<i64>) -> (r: i64)
        requires
            old(self).wf(),
        ensures
            final(self).wf(),
            final(self).documents@ == old(self).documents@,
            final(self).nodes@ == old(self).nodes@,
            old(self).next < i64::MAX ==> r >= 1,
            r >= 1 ==> !old(self).node_lists@.contains_key(r) && final(self).node_lists@.dom() =~= old(self).node_lists@.dom().insert(r) && (forall|k: i64|
                #[trigger] old(self).node_lists@.contains_key(k) ==> final(self).node_lists@[k]
                    == old(self).node_lists@[k]) && final(self).node_lists@[r]@
                == picked_entries(*old(self), handles@),
            r == -1 ==> final(self).node_lists@ == old(self).node_lists@,
    {
        let mut entries: Vec<NodeEntry> = Vec::new();
        let mut k: usize = 0;
        while k < handles.len()
            invariant
                handles.len() == handles@.len(),
                k <= handles@.len(),
                entries@ == picked_entries(*self, handles@.take(k as int)),
            decreases handles@.len() - k,
        {
            match self.get_node(handles[k]) {
                Some(e) => {
                    entries.push(e);
                },
                None => {},
            }
            k = k + 1;
            proof {
                assert(handles@.take(k as int).drop_last() =~= handles@.take(k - 1));
                assert(handles@.take(k as int).last() == handles@[k - 1]);
            }
        }
        proof {
            assert(handles@.take(handles@.len() as int) =~= handles@);
        }
        self.store_node_list(entries)
    }
}


/// The position of child `c` in node `p`'s child list.
pub open spec fn child_pos(ns: Seq<NodeData>, p: int, c: usize) -> int {
    choose|k: int| 0 <= k < ns[p].children@.len() && ns[p].children@[k] == c
}

/// The next element sibling of a resolving node.
pub open spec fn next_sibling_spec(a: Arena, h: i64) -> Option<int> {
    if a.node_resolves(h) {
        match a.node_doc(h)[a.node_ix(h)].parent {
            Some(p) => first_elem_from(
                a.node_doc(h),
                p as int,
                child_pos(a.node_doc(h), p as int, a.nodes@[h].node_id) + 1,
            ),
            None => None,
        }
    } else {
        None
    }
}

/// The previous element sibling of a resolving node.
pub open spec fn prev_sibling_spec(a: Arena, h: i64) -> Option<int> {
    if a.node_resolves(h) {
        match a.node_doc(h)[a.node_ix(h)].parent {
            Some(p) => last_elem_before(
                a.node_doc(h),
                p as int,
                child_pos(a.node_doc(h), p as int, a.nodes@[h].node_id),
            ),
            None => None,
        }
    } else {
        None
    }
}

/// `ixs` with every occurrence of `x` dropped.
pub open spec fn except_ix(ixs: Seq<usize>, x: usize) -> Seq<usize>
    decreases ixs.len(),
{
    if ixs.len() == 0 {
        Seq::<usize>::empty()
    } else if ixs.last() == x {
        except_ix(ixs.drop_last(), x)
    } else {
        except_ix(ixs.drop_last(), x).push(ixs.last())
    }
}

impl Arena {
    /// Finds the position of a resolving node among its parent's
    /// children.
    fn find_child_pos(ns: &Vec<NodeData>, p: usize, c: usize) -> (r: usize)
        requires
            nodes_ok(ns@),
            p < ns@.len(),
            ns@[p as int].children@.contains(c),
        ensures
            r == child_pos(ns@, p as int, c),
            r < ns@[p as int].children@.len(),
            ns@[p as int].children@[r as int] == c,
    {
        proof {
            assert(node_ok(ns@, p as int));
        }
        let nd = &ns[p];
        let mut k: usize = 0;
        while k < nd.children.len()
            invariant
                nodes_ok(ns@),
                p < ns@.len(),
                nd == ns@[p as int],
                ns@[p as int].children@.contains(c),
                k <= nd.children@.len(),
                forall|j: int| 0 <= j < k ==> nd.children@[j] != c,
            decreases nd.children@.len() - k,
        {
            if nd.children[k] == c {
                proof {
                    assert(node_ok(ns@, p as int));
                    let w = child_pos(ns@, p as int, c);
                    assert(exists|j: int|
                        0 <= j < ns@[p as int].children@.len() && ns@[p as int].children@[j]
                            == c);
                    assert(0 <= w < ns@[p as int].children@.len() && ns@[p as int].children@[w]
                        == c);
                    if w != k {
                        assert(ns@[p as int].children@[w] != ns@[p as int].children@[k as int]);
                    }
                }
                return k;
            }
            k = k + 1;
        }
        proof {
            let w = choose|j: int|
                0 <= j < ns@[p as int].children@.len() && ns@[p as int].children@[j] == c;
            assert(false);
        }
        0
    }

    /// A fresh node handle for the next element sibling; `-1` when there
    /// is none.
    pub fn scraper_next_sibling(&mut self, handle: i64) -> (r: i64)
        requires
            old(self).wf(),
        ensures
            final(self).wf(),
            final(self).documents@ == old(self).documents@,
            final(self).node_lists@ == old(self).node_lists@,
            next_sibling_spec(*old(self), handle) is None ==> r == -1 && final(self).nodes@
                == old(self).nodes@,
            next_sibling_spec(*old(self), handle) matches Some(s) ==> {
                &&& (old(self).next < i64::MAX ==> r >= 1)
                &&& (r >= 1 ==> final(self).nodes@ =~= old(self).nodes@.insert(
                    r,
                    NodeEntry {
                        node_id: s as usize,
                        doc_handle: old(self).nodes@[handle].doc_handle,
                        is_text: false,
                    },
                ))
                &&& (r == -1 ==> final(self).nodes@ == old(self).nodes@)
            },
    {
        let target = match self.with_node_doc(handle) {
            Some((entry, d)) => {
                if entry.node_id < d.doc.nodes.len() {
                    match d.doc.nodes[entry.node_id].parent {
                        Some(p) => {
                            proof {
                                assert(node_ok(d.doc.nodes@, entry.node_id as int));
                            }
                            let pos = Self::find_child_pos(&d.doc.nodes, p, entry.node_id);
                            proof {
                                assert(d.doc.nodes@[p as int].children.len() == d.doc.nodes@[
                                    p as int
                                ].children@.len());
                            }
                            match first_elem_from_vec(&d.doc.nodes, p, pos + 1) {
                                Some(s) => Some((s, entry.doc_handle)),
                                None => None,
                            }
                        },
                        None => None,
                    }
                } else {
                    None
                }
            },
            None => None,
        };
        match target {
            Some((s, dh)) => self.store_node(
                NodeEntry { node_id: s, doc_handle: dh, is_text: false },
            ),
            None => -1,
        }
    }

    /// A fresh node handle for the previous element sibling; `-1` when
    /// there is none.
    pub fn scraper_prev_sibling(&mut self, handle: i64) -> (r: i64)
        requires
            old(self).wf(),
        ensures
            final(self).wf(),
            final(self).documents@ == old(self).documents@,
            final(self).node_lists@ == old(self).node_lists@,
            prev_sibling_spec(*old(self), handle) is None ==> r == -1 && final(self).nodes@
                == old(self).nodes@,
            prev_sibling_spec(*old(self), handle) matches Some(s) ==> {
                &&& (old(self).next < i64::MAX ==> r >= 1)
                &&& (r >= 1 ==> final(self).nodes@ =~= old(self).nodes@.insert(
                    r,
                    NodeEntry {
                        node_id: s as usize,
                        doc_handle: old(self).nodes@[handle].doc_handle,
                        is_text: false,
                    },
                ))
                &&& (r == -1 ==> final(self).nodes@ == old(self).nodes@)
            },
    {
        let target = match self.with_node_doc(handle) {
            Some((entry, d)) => {
                if entry.node_id < d.doc.nodes.len() {
                    match d.doc.nodes[entry.node_id].parent {
                        Some(p) => {
                            proof {
                                assert(node_ok(d.doc.nodes@, entry.node_id as int));
                            }
                            let pos = Self::find_child_pos(&d.doc.nodes, p, entry.node_id);
                            let mut k: usize = pos;
                            let mut found: Option<usize> = None;
                            proof {
                                assert(node_ok(d.doc.nodes@, p as int));
                            }
                            while k > 0
                                invariant_except_break
                                    found is None,
                                invariant
                                    nodes_ok(d.doc.nodes@),
                                    p < d.doc.nodes@.len(),
                                    k <= d.doc.nodes@[p as int].children@.len(),
                                    found is None ==> last_elem_before(
                                        d.doc.nodes@,
                                        p as int,
                                        pos as int,
                                    ) == last_elem_before(d.doc.nodes@, p as int, k as int),
                                    found matches Some(s) ==> last_elem_before(
                                        d.doc.nodes@,
                                        p as int,
                                        pos as int,
                                    ) == Some(s as int),
                                ensures
                                    match found {
                                        Some(s) => last_elem_before(
                                            d.doc.nodes@,
                                            p as int,
                                            pos as int,
                                        ) == Some(s as int),
                                        None => last_elem_before(
                                            d.doc.nodes@,
                                            p as int,
                                            pos as int,
                                        ) is None,
                                    },
                                decreases k,
                            {
                                proof {
                                    assert(node_ok(d.doc.nodes@, p as int));
                                }
                                let c = d.doc.nodes[p].children[k - 1];
                                if kind_is_element(&d.doc.nodes[c].kind) {
                                    proof {
                                        assert(d.doc.nodes@[p as int].children@[k - 1] == c);
                                        assert(last_elem_before(d.doc.nodes@, p as int, k as int)
                                            == Some(c as int));
                                    }
                                    found = Some(c);
                                    break;
                                }
                                proof {
                                    assert(last_elem_before(d.doc.nodes@, p as int, k as int)
                                        == last_elem_before(d.doc.nodes@, p as int, k - 1));
                                }
                                k = k - 1;
                            }
                            match found {
                                Some(s) => Some((s, entry.doc_handle)),
                                None => None,
                            }
                        },
                        None => None,
                    }
                } else {
                    None
                }
            },
            None => None,
        };
        match target {
            Some((s, dh)) => self.store_node(
                NodeEntry { node_id: s, doc_handle: dh, is_text: false },
            ),
            None => -1,
        }
    }

    /// A fresh list handle over the element siblings of a node, itself
    /// excluded; `-1` when the node is dangling or parentless.
    pub fn scraper_siblings(&mut self, handle: i64) -> (r: i64)
        requires
            old(self).wf(),
        ensures
            final(self).wf(),
            final(self).documents@ == old(self).documents@,
            final(self).nodes@ == old(self).nodes@,
            !(old(self).node_resolves(handle) && old(self).node_doc(handle)[old(self).node_ix(
                handle,
            )].parent is Some) ==> r == -1 && final(self).node_lists@ == old(
                self,
            ).node_lists@,
            old(self).node_resolves(handle) && old(self).node_doc(handle)[old(self).node_ix(
                handle,
            )].parent is Some ==> {
                &&& (old(self).next < i64::MAX ==> r >= 1)
                &&& (r >= 1 ==> !old(self).node_lists@.contains_key(r) && final(self).node_lists@.dom() =~= old(self).node_lists@.dom().insert(r) && (forall|k: i64|
                    #[trigger] old(self).node_lists@.contains_key(k) ==> final(self).node_lists@[k] == old(self).node_lists@[k]) && final(self).node_lists@[r]@
                    == entries_for(
                    except_ix(
                        elem_children(
                            old(self).node_doc(handle),
                            old(self).node_doc(handle)[old(self).node_ix(handle)].parent->Some_0 as int,
                        ),
                        old(self).nodes@[handle].node_id,
                    ),
                    old(self).nodes@[handle].doc_handle,
                ))
                &&& (r == -1 ==> final(self).node_lists@ == old(self).node_lists@)
            },
    {
        let items = match self.with_node_doc(handle) {
            Some((entry, d)) => {
                if entry.node_id < d.doc.nodes.len() {
                    match d.doc.nodes[entry.node_id].parent {
                        Some(p) => {
                            proof {
                                assert(node_ok(d.doc.nodes@, entry.node_id as int));
                            }
                            let cs = elem_children_vec(&d.doc.nodes, p);
                            let ghost csv = cs@;
                            let mut kept: Vec<usize> = Vec::new();
                            let mut k: usize = 0;
                            while k < cs.len()
                                invariant
                                    cs@ == csv,
                                    k <= csv.len(),
                                    kept@ == except_ix(csv.take(k as int), entry.node_id),
                                decreases csv.len() - k,
                            {
                                if cs[k] != entry.node_id {
                                    kept.push(cs[k]);
                                }
                                k = k + 1;
                                proof {
                                    assert(csv.take(k as int).drop_last() =~= csv.take(k - 1));
                                    assert(csv.take(k as int).last() == csv[k - 1]);
                                }
                            }
                            proof {
                                assert(csv.take(csv.len() as int) =~= csv);
                            }
                            Some((kept, entry.doc_handle))
                        },
                        None => None,
                    }
                } else {
                    None
                }
            },
            None => None,
        };
        match items {
            Some((cs, dh)) => {
                let ghost csv = cs@;
                let mut entries: Vec<NodeEntry> = Vec::new();
                let mut k: usize = 0;
                while k < cs.len()
                    invariant
                        cs@ == csv,
                        k <= csv.len(),
                        entries@ == entries_for(csv.take(k as int), dh),
                    decreases csv.len() - k,
                {
                    entries.push(NodeEntry { node_id: cs[k], doc_handle: dh, is_text: false });
                    k = k + 1;
                    proof {
                        assert(entries@ =~= entries_for(csv.take(k as int), dh));
                    }
                }
                proof {
                    assert(csv.take(csv.len() as int) =~= csv);
                }
                self.store_node_list(entries)
            },
            None => -1,
        }
    }
}


/// The child list a handle exposes: a document's root children, or a
/// resolving node's children.
pub open spec fn child_list_spec(a: Arena, h: i64) -> Option<(Seq<usize>, i64)> {
    if a.documents@.contains_key(h) {
        Some((a.documents@[h].doc.nodes@[0].children@, h))
    } else if a.node_resolves(h) {
        Some((a.node_doc(h)[a.node_ix(h)].children@, a.nodes@[h].doc_handle))
    } else {
        None
    }
}

impl Arena {
    /// How many child nodes a document root or a node has; `0` on a
    /// dangling handle.
    pub fn scraper_child_node_size(&self, handle: i64) -> (r: usize)
        requires
            self.wf(),
        ensures
            r == match child_list_spec(*self, handle) {
                Some(p) => p.0.len(),
                None => 0,
            },
    {
        match self.with_doc(handle) {
            Some(d) => {
                proof {
                    assert(self.documents@.contains_key(handle));
                    assert(d.doc.wf());
                }
                return d.doc.nodes[0].children.len();
            },
            None => {},
        }
        match self.with_node_doc(handle) {
            Some((entry, d)) => {
                if entry.node_id < d.doc.nodes.len() {
                    d.doc.nodes[entry.node_id].children.len()
                } else {
                    0
                }
            },
            None => 0,
        }
    }

    /// A fresh node handle for the child at `index`; `-1` when absent.
    pub fn scraper_child_node(&mut self, handle: i64, index: usize) -> (r: i64)
        requires
            old(self).wf(),
        ensures
            final(self).wf(),
            final(self).documents@ == old(self).documents@,
            final(self).node_lists@ == old(self).node_lists@,
            !(child_list_spec(*old(self), handle) matches Some(p) && index < p.0.len()) ==> r
                == -1 && final(self).nodes@ == old(self).nodes@,
            child_list_spec(*old(self), handle) matches Some(p) ==> index < p.0.len() ==> {
                &&& (old(self).next < i64::MAX ==> r >= 1)
                &&& (r >= 1 ==> final(self).nodes@ =~= old(self).nodes@.insert(
                    r,
                    NodeEntry {
                        node_id: p.0[index as int],
                        doc_handle: p.1,
                        is_text: is_text_node(
                            old(self).documents@[p.1].doc.nodes@[p.0[index as int] as int].kind,
                        ),
                    },
                ))
                &&& (r == -1 ==> final(self).nodes@ == old(self).nodes@)
            },
    {
        let target = match self.with_doc(handle) {
            Some(d) => {
                proof {
                    assert(self.documents@.contains_key(handle));
                    assert(d.doc.wf());
                }
                let nd = &d.doc.nodes[0];
                if index < nd.children.len() {
                    let c = nd.children[index];
                    proof {
                        assert(crate::dom::node_ok(d.doc.nodes@, 0));
                    }
                    Some((c, handle, kind_is_text(&d.doc.nodes[c].kind)))
                } else {
                    None
                }
            },
            None => {
                match self.with_node_doc(handle) {
                    Some((entry, d)) => {
                        if entry.node_id < d.doc.nodes.len() {
                            let nd = &d.doc.nodes[entry.node_id];
                            if index < nd.children.len() {
                                proof {
                                    assert(crate::dom::node_ok(
                                        d.doc.nodes@,
                                        entry.node_id as int,
                                    ));
                                }
                                let c = nd.children[index];
                                Some((c, entry.doc_handle, kind_is_text(&d.doc.nodes[c].kind)))
                            } else {
                                None
                            }
                        } else {
                            None
                        }
                    },
                    None => None,
                }
            },
        };
        match target {
            Some((c, dh, it)) => self.store_node(
                NodeEntry { node_id: c, doc_handle: dh, is_text: it },
            ),
            None => -1,
        }
    }

    /// Fresh node handles for every child of a document root or node, in
    /// order; empty on a dangling handle.
    pub fn scraper_child_node_handles(&mut self, handle: i64) -> (r: Vec<i64>)
        requires
            old(self).wf(),
        ensures
            final(self).wf(),
            final(self).documents@ == old(self).documents@,
            final(self).node_lists@ == old(self).node_lists@,
            match child_list_spec(*old(self), handle) {
                Some(p) => r@.len() == p.0.len() && (old(self).next + p.0.len() <= i64::MAX
                    ==> forall|k: int| 0 <= k < r@.len() ==> #[trigger] r@[k] >= 1) && forall|k: int|
                    0 <= k < r@.len() ==> r@[k] == -1 || (r@[k] >= 1 && final(self).nodes@.contains_key(r@[k]) && final(self).nodes@[r@[k]] == (NodeEntry {
                        node_id: p.0[k],
                        doc_handle: p.1,
                        is_text: is_text_node(
                            old(self).documents@[p.1].doc.nodes@[p.0[k] as int].kind,
                        ),
                    })),
                None => r@.len() == 0,
            },
    {
        let info: Option<(Vec<(usize, bool)>, i64)> = match self.with_doc(handle) {
            Some(d) => {
                proof {
                    assert(self.documents@.contains_key(handle));
                    assert(d.doc.wf());
                }
                Some((Self::child_flags(&d.doc.nodes, 0), handle))
            },
            None => {
                match self.with_node_doc(handle) {
                    Some((entry, d)) => {
                        if entry.node_id < d.doc.nodes.len() {
                            Some(
                                (
                                    Self::child_flags(&d.doc.nodes, entry.node_id),
                                    entry.doc_handle,
                                ),
                            )
                        } else {
                            None
                        }
                    },
                    None => None,
                }
            },
        };
        let ghost a0 = *self;
        match info {
            Some((cs, dh)) => {
                let ghost csv = cs@;
                let ghost ns0 = (match child_list_spec(a0, handle) {
                    Some(p) => a0.documents@[p.1].doc.nodes@,
                    None => Seq::<NodeData>::empty(),
                });
                let mut r: Vec<i64> = Vec::new();
                let mut k: usize = 0;
                while k < cs.len()
                    invariant
                        self.wf(),
                        self.documents@ == a0.documents@,
                        self.node_lists@ == a0.node_lists@,
                        a0.next == old(self).next,
                        cs@ == csv,
                        k <= csv.len(),
                        r@.len() == k,
                        old(self).next + csv.len() <= i64::MAX ==> self.next == old(self).next
                            + k && (forall|j: int| 0 <= j < k ==> #[trigger] r@[j] >= 1),
                        forall|j: int| 0 <= j < k ==> r@[j] == -1 || (r@[j] >= 1
                            && self.nodes@.contains_key(r@[j]) && self.nodes@[r@[j]] == (
                        NodeEntry {
                            node_id: csv[j].0,
                            doc_handle: dh,
                            is_text: csv[j].1,
                        })),
                    decreases csv.len() - k,
                {
                    let ghost nodes_before = self.nodes@;
                    let h = self.store_node(
                        NodeEntry { node_id: cs[k].0, doc_handle: dh, is_text: cs[k].1 },
                    );
                    r.push(h);
                    k = k + 1;
                    proof {
                        assert forall|j: int|
                            0 <= j < k implies r@[j] == -1 || (r@[j] >= 1
                            && self.nodes@.contains_key(r@[j]) && self.nodes@[r@[j]] == (
                        NodeEntry {
                            node_id: csv[j].0,
                            doc_handle: dh,
                            is_text: csv[j].1,
                        })) by {
                            if j < k - 1 && r@[j] >= 1 {
                                assert(nodes_before.contains_key(r@[j]));
                            }
                        }
                    }
                }
                r
            },
            None => Vec::new(),
        }
    }

    /// The children of node `i` with their text-node flags.
    fn child_flags(ns: &Vec<NodeData>, i: usize) -> (r: Vec<(usize, bool)>)
        requires
            nodes_ok(ns@),
            i < ns@.len(),
        ensures
            r@.len() == ns@[i as int].children@.len(),
            forall|k: int| 0 <= k < r@.len() ==> r@[k].0 == ns@[i as int].children@[k]
                && r@[k].1 == is_text_node(ns@[ns@[i as int].children@[k] as int].kind),
    {
        proof {
            assert(node_ok(ns@, i as int));
        }
        let nd = &ns[i];
        let mut r: Vec<(usize, bool)> = Vec::new();
        let mut k: usize = 0;
        while k < nd.children.len()
            invariant
                nodes_ok(ns@),
                i < ns@.len(),
                nd == ns@[i as int],
                k <= nd.children@.len(),
                r@.len() == k,
                forall|j: int| 0 <= j < k ==> r@[j].0 == ns@[i as int].children@[j] && r@[j].1
                    == is_text_node(ns@[ns@[i as int].children@[j] as int].kind),
            decreases nd.children@.len() - k,
        {
            proof {
                assert(node_ok(ns@, i as int));
            }
            let c = nd.children[k];
            r.push((c, kind_is_text(&ns[c].kind)));
            k = k + 1;
        }
        r
    }

    /// Fresh node handles for every direct text-node child, in order.
    pub fn scraper_text_node_handles(&mut self, handle: i64) -> (r: Vec<i64>)
        requires
            old(self).wf(),
        ensures
            final(self).wf(),
            final(self).documents@ == old(self).documents@,
            final(self).node_lists@ == old(self).node_lists@,
            old(self).node_resolves(handle) ==> {
                let tc = text_children_upto(
                    old(self).node_doc(handle),
                    old(self).node_ix(handle),
                    old(self).node_doc(handle)[old(self).node_ix(handle)].children@.len() as int,
                );
                r@.len() == tc.len() && (old(self).next + tc.len() <= i64::MAX ==> forall|k: int|
                    0 <= k < r@.len() ==> #[trigger] r@[k] >= 1) && forall|k: int|
                    0 <= k < r@.len() ==> r@[k] == -1 || (r@[k] >= 1 && final(self).nodes@.contains_key(r@[k]) && final(self).nodes@[r@[k]] == (NodeEntry {
                        node_id: tc[k],
                        doc_handle: old(self).nodes@[handle].doc_handle,
                        is_text: true,
                    }))
            },
            !old(self).node_resolves(handle) ==> r@.len() == 0,
    {
        let info: Option<(Vec<usize>, i64)> = match self.with_node_doc(handle) {
            Some((entry, d)) => {
                if entry.node_id < d.doc.nodes.len() {
                    proof {
                        assert(node_ok(d.doc.nodes@, entry.node_id as int));
                    }
                    let nd = &d.doc.nodes[entry.node_id];
                    let mut tc: Vec<usize> = Vec::new();
                    let mut k: usize = 0;
                    while k < nd.children.len()
                        invariant
                            nodes_ok(d.doc.nodes@),
                            entry.node_id < d.doc.nodes@.len(),
                            nd == d.doc.nodes@[entry.node_id as int],
                            k <= nd.children@.len(),
                            tc@ == text_children_upto(
                                d.doc.nodes@,
                                entry.node_id as int,
                                k as int,
                            ),
                        decreases nd.children@.len() - k,
                    {
                        proof {
                            assert(node_ok(d.doc.nodes@, entry.node_id as int));
                        }
                        let c = nd.children[k];
                        if kind_is_text(&d.doc.nodes[c].kind) {
                            tc.push(c);
                        }
                        k = k + 1;
                    }
                    Some((tc, entry.doc_handle))
                } else {
                    None
                }
            },
            None => None,
        };
        match info {
            Some((tc, dh)) => {
                let ghost tcv = tc@;
                let mut r: Vec<i64> = Vec::new();
                let mut k: usize = 0;
                while k < tc.len()
                    invariant
                        self.wf(),
                        self.documents@ == old(self).documents@,
                        self.node_lists@ == old(self).node_lists@,
                        tc@ == tcv,
                        k <= tcv.len(),
                        r@.len() == k,
                        old(self).next + tcv.len() <= i64::MAX ==> self.next == old(self).next
                            + k && (forall|j: int| 0 <= j < k ==> #[trigger] r@[j] >= 1),
                        forall|j: int| 0 <= j < k ==> r@[j] == -1 || (r@[j] >= 1
                            && self.nodes@.contains_key(r@[j]) && self.nodes@[r@[j]] == (
                        NodeEntry { node_id: tcv[j], doc_handle: dh, is_text: true })),
                    decreases tcv.len() - k,
                {
                    let ghost nodes_before = self.nodes@;
                    let h = self.store_node(
                        NodeEntry { node_id: tc[k], doc_handle: dh, is_text: true },
                    );
                    r.push(h);
                    k = k + 1;
                    proof {
                        assert forall|j: int|
                            0 <= j < k implies r@[j] == -1 || (r@[j] >= 1
                            && self.nodes@.contains_key(r@[j]) && self.nodes@[r@[j]] == (
                        NodeEntry { node_id: tcv[j], doc_handle: dh, is_text: true })) by {
                            if j < k - 1 && r@[j] >= 1 {
                                assert(nodes_before.contains_key(r@[j]));
                            }
                        }
                    }
                }
                r
            },
            None => Vec::new(),
        }
    }

    /// A fresh detached document holding one element, and a node handle
    /// for that element.
    pub fn scraper_create_element(&mut self, tag: &str) -> (r: i64)
        requires
            old(self).wf(),
        ensures
            final(self).wf(),
            final(self).node_lists@ == old(self).node_lists@,
            r == -1 || r >= 1,
            old(self).next + 1 < i64::MAX ==> r >= 1,
            r >= 1 ==> final(self).nodes@.contains_key(r) && final(self).node_resolves(r) && {
                let e = final(self).nodes@[r];
                &&& !e.is_text
                &&& e.node_id == 1
                &&& final(self).node_doc(r).len() == 2
                &&& is_element(final(self).node_doc(r)[1].kind)
                &&& elem_name(final(self).node_doc(r)[1].kind) == tag@
                &&& elem_attrs(final(self).node_doc(r)[1].kind).len() == 0
            },
    {
        let name = crate::text::chars_vec(tag);
        let mut ns: Vec<NodeData> = Vec::new();
        let mut root_children: Vec<usize> = Vec::new();
        root_children.push(1);
        ns.push(NodeData { kind: NodeKind::Document, parent: None, children: root_children });
        ns.push(
            NodeData {
                kind: NodeKind::Element { name, attrs: Vec::new() },
                parent: Some(0),
                children: Vec::new(),
            },
        );
        proof {
            assert(ns@[0].children@ =~= seq![1usize]);
            assert(node_ok(ns@, 0)) by {
                assert(ns@[0].children@[0] == 1usize);
            }
            assert(node_ok(ns@, 1)) by {
                assert(ns@[0].children@.contains(1usize)) by {
                    assert(ns@[0].children@[0] == 1usize);
                }
            }
        }
        let doc = crate::dom::Doc { nodes: ns };
        let dh = self.store_document(doc, String::new());
        if dh == -1 {
            return -1;
        }
        self.store_node(NodeEntry { node_id: 1, doc_handle: dh, is_text: false })
    }

    /// A fresh detached document holding one text node, and a node
    /// handle for that text node.
    pub fn scraper_create_text_node(&mut self, text: &str) -> (r: i64)
        requires
            old(self).wf(),
        ensures
            final(self).wf(),
            final(self).node_lists@ == old(self).node_lists@,
            r == -1 || r >= 1,
            old(self).next + 1 < i64::MAX ==> r >= 1,
            r >= 1 ==> final(self).nodes@.contains_key(r) && final(self).node_resolves(r) && {
                let e = final(self).nodes@[r];
                &&& e.is_text
                &&& e.node_id == 1
                &&& final(self).node_doc(r).len() == 2
                &&& is_text_node(final(self).node_doc(r)[1].kind)
                &&& text_of(final(self).node_doc(r)[1].kind) == text@
            },
    {
        let tv = crate::text::chars_vec(text);
        let mut ns: Vec<NodeData> = Vec::new();
        let mut root_children: Vec<usize> = Vec::new();
        root_children.push(1);
        ns.push(NodeData { kind: NodeKind::Document, parent: None, children: root_children });
        ns.push(
            NodeData { kind: NodeKind::Text { text: tv }, parent: Some(0), children: Vec::new() },
        );
        proof {
            assert(ns@[0].children@ =~= seq![1usize]);
            assert(node_ok(ns@, 0)) by {
                assert(ns@[0].children@[0] == 1usize);
            }
            assert(node_ok(ns@, 1)) by {
                assert(ns@[0].children@.contains(1usize)) by {
                    assert(ns@[0].children@[0] == 1usize);
                }
            }
        }
        let doc = crate::dom::Doc { nodes: ns };
        let dh = self.store_document(doc, String::new());
        if dh == -1 {
            return -1;
        }
        self.store_node(NodeEntry { node_id: 1, doc_handle: dh, is_text: true })
    }
}


/// What the raw-node serialization answers: an element's subtree
/// markup, a text node's escaped text, a comment's `<!--…-->` form, and
/// the empty string for any other node kind.
pub open spec fn node_outer_spec(a: Arena, h: i64) -> Option<Seq<char>> {
    if a.node_resolves(h) {
        match a.node_doc(h)[a.node_ix(h)].kind {
            NodeKind::Element { .. } => Some(
                ser_node(a.node_doc(h), a.node_ix(h), false, false),
            ),
            NodeKind::Text { text } => Some(escape_text(text@)),
            NodeKind::Comment { text } => Some("<!--"@ + text@ + "-->"@),
            _ => Some(Seq::<char>::empty()),
        }
    } else {
        None
    }
}

impl Arena {
    /// Serializes any node: element subtree, escaped text, comment, or
    /// the empty string for the remaining kinds.
    pub fn scraper_node_outer_html(&self, handle: i64) -> (r: Option<String>)
        requires
            self.wf(),
        ensures
            match r {
                Some(v) => node_outer_spec(*self, handle) == Some(v@),
                None => node_outer_spec(*self, handle) is None,
            },
    {
        match self.with_node_doc(handle) {
            Some((entry, d)) => {
                if entry.node_id < d.doc.nodes.len() {
                    match &d.doc.nodes[entry.node_id].kind {
                        NodeKind::Element { .. } => {
                            let v = crate::ser::serialize_node(&d.doc.nodes, entry.node_id, false);
                            Some(string_from_chars(&v))
                        },
                        NodeKind::Text { text } => {
                            let mut out: Vec<char> = Vec::new();
                            crate::text::push_escaped_chars(&mut out, text);
                            proof {
                                assert(Seq::<char>::empty() + escape_text(text@) =~= escape_text(
                                    text@,
                                ));
                            }
                            Some(string_from_chars(&out))
                        },
                        NodeKind::Comment { text } => {
                            let mut out: Vec<char> = Vec::new();
                            crate::text::push_chars(&mut out, "<!--");
                            crate::text::push_vec(&mut out, text);
                            crate::text::push_chars(&mut out, "-->");
                            proof {
                                assert(out@ =~= "<!--"@ + text@ + "-->"@);
                            }
                            Some(string_from_chars(&out))
                        },
                        _ => Some(String::new()),
                    }
                } else {
                    None
                }
            },
            None => None,
        }
    }
}

} // verus!
