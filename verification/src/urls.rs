//! Base URIs and URL resolution against them.

use vstd::prelude::*;
use crate::arena::Arena;
use crate::attrs::attr_get;
use crate::dom::{elem_attrs, is_element};
use crate::provider::{url_join_ok, url_joined, url_normal, url_ok};
use crate::text::string_from_chars;

verus! {

broadcast use vstd::std_specs::vec::group_vec_axioms;

/// What `absUrl` answers: empty for a missing or empty attribute or a
/// non-element; with an empty base URI only an already absolute value,
/// normalized; otherwise the join, or the raw value when the base does
/// not parse or the join fails.
pub open spec fn abs_url_spec(a: Arena, h: i64, key: Seq<char>) -> Seq<char> {
    if a.node_resolves(h) && is_element(a.node_doc(h)[a.node_ix(h)].kind) {
        match attr_get(elem_attrs(a.node_doc(h)[a.node_ix(h)].kind), key) {
            Some(v) => if v.len() == 0 {
                Seq::<char>::empty()
            } else {
                let base = a.documents@[a.nodes@[h].doc_handle].base_uri@;
                if base.len() == 0 {
                    if url_ok(v) {
                        url_normal(v)
                    } else {
                        Seq::<char>::empty()
                    }
                } else {
                    if url_join_ok(base, v) {
                        url_joined(base, v)
                    } else {
                        v
                    }
                }
            },
            None => Seq::<char>::empty(),
        }
    } else {
        Seq::<char>::empty()
    }
}

impl Arena {
    /// The base URI of a document, or of a node's owning document.
    pub fn scraper_node_base_uri(&self, handle: i64) -> (r: Option<String>)
        ensures
            match r {
                Some(v) => (self.documents@.contains_key(handle) && v@
                    == self.documents@[handle].base_uri@) || (!self.documents@.contains_key(
                    handle,
                ) && self.nodes@.contains_key(handle) && self.documents@.contains_key(
                    self.nodes@[handle].doc_handle,
                ) && v@ == self.documents@[self.nodes@[handle].doc_handle].base_uri@),
                None => !self.documents@.contains_key(handle) && (!self.nodes@.contains_key(
                    handle,
                ) || !self.documents@.contains_key(self.nodes@[handle].doc_handle)),
            },
    {
        match self.with_doc(handle) {
            Some(d) => {
                return Some(d.base_uri.clone());
            },
            None => {},
        }
        match self.get_node(handle) {
            Some(e) => match self.with_doc(e.doc_handle) {
                Some(d) => Some(d.base_uri.clone()),
                None => None,
            },
            None => None,
        }
    }

    /// Sets the base URI of a document, or of a node's owning document.
    pub fn scraper_set_node_base_uri(&mut self, handle: i64, value: &str)
        requires
            old(self).wf(),
        ensures
            final(self).wf(),
            final(self).nodes@ == old(self).nodes@,
            final(self).node_lists@ == old(self).node_lists@,
            final(self).next == old(self).next,
            old(self).documents@.contains_key(handle) ==> final(self).documents@.dom() =~= old(
                self,
            ).documents@.dom() && final(self).documents@[handle].base_uri@ == value@ && final(self).documents@[handle].doc == old(self).documents@[handle].doc && (forall|k: i64|
                #[trigger] old(self).documents@.contains_key(k) && k != handle ==> final(self).documents@[k] == old(self).documents@[k]),
            !old(self).documents@.contains_key(handle) && old(self).nodes@.contains_key(handle)
                && old(self).documents@.contains_key(old(self).nodes@[handle].doc_handle) ==> {
                let dh = old(self).nodes@[handle].doc_handle;
                &&& final(self).documents@.dom() =~= old(self).documents@.dom()
                &&& final(self).documents@[dh].base_uri@ == value@
                &&& final(self).documents@[dh].doc == old(self).documents@[dh].doc
                &&& forall|k: i64|
                    #[trigger] old(self).documents@.contains_key(k) && k != dh ==> final(self).documents@[k] == old(self).documents@[k]
            },
            !old(self).documents@.contains_key(handle) && !(old(self).nodes@.contains_key(
                handle,
            ) && old(self).documents@.contains_key(old(self).nodes@[handle].doc_handle))
                ==> final(self).documents@ == old(self).documents@,
    {
        let dh: i64 = if self.is_document(handle) {
            handle
        } else {
            match self.get_node(handle) {
                Some(e) => e.doc_handle,
                None => {
                    return ;
                },
            }
        };
        let mut de = match self.take_doc(dh) {
            Some(d) => d,
            None => {
                return ;
            },
        };
        de.base_uri = value.to_owned();
        self.put_doc(dh, de);
    }

    /// Resolves an element attribute against the owning document's base
    /// URI; the empty string reports every failure.
    pub fn scraper_node_abs_url(&self, handle: i64, key: &str) -> (r: String)
        requires
            self.wf(),
        ensures
            r@ == abs_url_spec(*self, handle, key@),
    {
        let attr_val = match self.with_node_doc(handle) {
            Some((entry, d)) => {
                if entry.node_id < d.doc.nodes.len() {
                    match &d.doc.nodes[entry.node_id].kind {
                        crate::dom::NodeKind::Element { attrs, .. } => {
                            proof {
                                assert(crate::dom::node_ok(d.doc.nodes@, entry.node_id as int));
                            }
                            let kv = crate::text::chars_vec(key);
                            match crate::attrs::attrs_lookup(attrs, &kv) {
                                Some(v) => Some(
                                    (string_from_chars(v), d.base_uri.clone()),
                                ),
                                None => None,
                            }
                        },
                        _ => None,
                    }
                } else {
                    None
                }
            },
            None => None,
        };
        match attr_val {
            Some((v, base)) => {
                if v.as_str().unicode_len() == 0 {
                    return String::new();
                }
                if base.as_str().unicode_len() == 0 {
                    match crate::provider::parse_url_abs(v.as_str()) {
                        Some(u) => u,
                        None => String::new(),
                    }
                } else {
                    match crate::provider::join_url(base.as_str(), v.as_str()) {
                        Some(u) => u,
                        None => v,
                    }
                }
            },
            None => String::new(),
        }
    }
}

} // verus!
