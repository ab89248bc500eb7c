//! The handle arena.
//!
//! Three stores — documents, single node references, node lists — share
//! one monotonically increasing counter, so a handle names exactly one
//! entry of exactly one kind.  Handles are positive; `-1` is the
//! universal failure sentinel.  Freeing is always safe: a free of an
//! unknown or already-freed handle is a no-op, and a node reference whose
//! owning document was freed simply stops resolving.

use vstd::prelude::*;
use std::collections::HashMap;
use crate::dom::Doc;

verus! {

broadcast use {
    vstd::std_specs::hash::group_hash_axioms,
    vstd::std_specs::hash::axiom_i64_obeys_hash_table_key_model,
};

/// A stored document: its tree and its base URI.
pub struct DocEntry {
    /// The document tree.
    pub doc: Doc,
    /// The document's base URI.
    pub base_uri: String,
}

/// A node reference: a node index inside an owning document, plus a
/// cached text-node flag.
#[derive(Clone, Copy)]
pub struct NodeEntry {
    /// The node's index in the owning document's tree.
    pub node_id: usize,
    /// The handle of the owning document.
    pub doc_handle: i64,
    /// Whether the node was a text node when the reference was made.
    pub is_text: bool,
}

/// The arena: three handle stores and the shared counter.
pub struct Arena {
    /// Documents by handle.
    pub documents: HashMap<i64, DocEntry>,
    /// Node references by handle.
    pub nodes: HashMap<i64, NodeEntry>,
    /// Node lists by handle.
    pub node_lists: HashMap<i64, Vec<NodeEntry>>,
    /// The next handle to issue.
    pub next: i64,
}

impl Arena {
    /// The arena's well-formedness: issued handles are positive and below
    /// the counter, no handle names two entries, and every stored
    /// document tree is well-formed.
    pub open spec fn wf(self) -> bool {
        &&& 1 <= self.next
        &&& forall|h: i64| #[trigger] self.documents@.contains_key(h) ==> 1 <= h < self.next
            && self.documents@[h].doc.wf()
        &&& forall|h: i64| #[trigger] self.nodes@.contains_key(h) ==> 1 <= h < self.next
        &&& forall|h: i64| #[trigger] self.node_lists@.contains_key(h) ==> 1 <= h < self.next
        &&& forall|h: i64| #[trigger] self.documents@.contains_key(h)
            ==> !self.nodes@.contains_key(h) && !self.node_lists@.contains_key(h)
        &&& forall|h: i64| #[trigger] self.nodes@.contains_key(h)
            ==> !self.node_lists@.contains_key(h)
    }

    /// A node handle resolves when its entry exists, the owning document
    /// is live, and the node index lies inside the document's tree.
    pub open spec fn node_resolves(self, h: i64) -> bool {
        &&& self.nodes@.contains_key(h)
        &&& self.documents@.contains_key(self.nodes@[h].doc_handle)
        &&& self.nodes@[h].node_id < self.documents@[self.nodes@[h].doc_handle].doc.nodes@.len()
    }

    /// The tree nodes of the document owning node handle `h`.
    pub open spec fn node_doc(self, h: i64) -> Seq<crate::dom::NodeData> {
        self.documents@[self.nodes@[h].doc_handle].doc.nodes@
    }

    /// The node index of node handle `h`.
    pub open spec fn node_ix(self, h: i64) -> int {
        self.nodes@[h].node_id as int
    }

    /// A fresh, empty arena.
    pub fn new() -> (r: Arena)
        ensures
            r.wf(),
            r.documents@ == Map::<i64, DocEntry>::empty(),
            r.nodes@ == Map::<i64, NodeEntry>::empty(),
            r.node_lists@ == Map::<i64, Vec<NodeEntry>>::empty(),
            r.next == 1,
    {
        Arena {
            documents: HashMap::new(),
            nodes: HashMap::new(),
            node_lists: HashMap::new(),
            next: 1,
        }
    }

    /// Issues the next handle; `-1` when the counter is exhausted.
    pub fn next_handle(&mut self) -> (r: i64)
        requires
            old(self).wf(),
        ensures
            final(self).wf(),
            final(self).documents@ == old(self).documents@,
            final(self).nodes@ == old(self).nodes@,
            final(self).node_lists@ == old(self).node_lists@,
            old(self).next < i64::MAX ==> r == old(self).next && final(self).next == old(
                self,
            ).next + 1,
            old(self).next == i64::MAX ==> r == -1 && final(self).next == old(self).next,
    {
        if self.next == i64::MAX {
            return -1;
        }
        let h = self.next;
        self.next = self.next + 1;
        h
    }

    /// Stores a document, returning its new handle; `-1` when no handle
    /// can be issued.
    pub fn store_document(&mut self, doc: Doc, base_uri: String) -> (r: i64)
        requires
            old(self).wf(),
            doc.wf(),
        ensures
            final(self).wf(),
            final(self).nodes@ == old(self).nodes@,
            final(self).node_lists@ == old(self).node_lists@,
            r == -1 || r >= 1,
            old(self).next < i64::MAX ==> r == old(self).next && final(self).next == old(
                self,
            ).next + 1,
            old(self).next == i64::MAX ==> r == -1,
            r >= 1 ==> final(self).documents@ =~= old(self).documents@.insert(
                r,
                DocEntry { doc, base_uri },
            ) && !old(self).documents@.contains_key(r) && !old(self).nodes@.contains_key(r)
                && !old(self).node_lists@.contains_key(r),
            r == -1 ==> final(self).documents@ == old(self).documents@,
    {
        let h = self.next_handle();
        if h == -1 {
            return -1;
        }
        self.documents.insert(h, DocEntry { doc, base_uri });
        h
    }

    /// Stores a node reference, returning its new handle; `-1` when no
    /// handle can be issued.
    pub fn store_node(&mut self, entry: NodeEntry) -> (r: i64)
        requires
            old(self).wf(),
        ensures
            final(self).wf(),
            final(self).documents@ == old(self).documents@,
            final(self).node_lists@ == old(self).node_lists@,
            r == -1 || r >= 1,
            old(self).next < i64::MAX ==> r == old(self).next && final(self).next == old(
                self,
            ).next + 1,
            old(self).next == i64::MAX ==> r == -1,
            r >= 1 ==> final(self).nodes@ =~= old(self).nodes@.insert(r, entry) && !old(
                self,
            ).nodes@.contains_key(r),
            r == -1 ==> final(self).nodes@ == old(self).nodes@,
    {
        let h = self.next_handle();
        if h == -1 {
            return -1;
        }
        self.nodes.insert(h, entry);
        h
    }

    /// Stores a node list, returning its new handle; `-1` when no handle
    /// can be issued.
    pub fn store_node_list(&mut self, entries: Vec<NodeEntry>) -> (r: i64)
        requires
            old(self).wf(),
        ensures
            final(self).wf(),
            final(self).documents@ == old(self).documents@,
            final(self).nodes@ == old(self).nodes@,
            r == -1 || r >= 1,
            old(self).next < i64::MAX ==> r == old(self).next && final(self).next == old(
                self,
            ).next + 1,
            old(self).next == i64::MAX ==> r == -1,
            r >= 1 ==> final(self).node_lists@ =~= old(self).node_lists@.insert(r, entries)
                && !old(self).node_lists@.contains_key(r),
            r == -1 ==> final(self).node_lists@ == old(self).node_lists@,
    {
        let h = self.next_handle();
        if h == -1 {
            return -1;
        }
        self.node_lists.insert(h, entries);
        h
    }

    /// Looks a document up by handle.
    pub fn with_doc(&self, handle: i64) -> (r: Option<&DocEntry>)
        ensures
            match r {
                Some(d) => self.documents@.contains_key(handle) && *d
                    == self.documents@[handle],
                None => !self.documents@.contains_key(handle),
            },
    {
        self.documents.get(&handle)
    }

    /// Looks a node reference up by handle.
    pub fn get_node(&self, handle: i64) -> (r: Option<NodeEntry>)
        ensures
            match r {
                Some(e) => self.nodes@.contains_key(handle) && e == self.nodes@[handle],
                None => !self.nodes@.contains_key(handle),
            },
    {
        match self.nodes.get(&handle) {
            Some(e) => Some(*e),
            None => None,
        }
    }

    /// Looks a node reference and its live owning document up together.
    pub fn with_node_doc(&self, handle: i64) -> (r: Option<(NodeEntry, &DocEntry)>)
        ensures
            match r {
                Some(p) => self.nodes@.contains_key(handle) && p.0 == self.nodes@[handle]
                    && self.documents@.contains_key(p.0.doc_handle) && *p.1
                    == self.documents@[p.0.doc_handle],
                None => !self.nodes@.contains_key(handle) || !self.documents@.contains_key(
                    self.nodes@[handle].doc_handle,
                ),
            },
    {
        match self.get_node(handle) {
            Some(e) => match self.with_doc(e.doc_handle) {
                Some(d) => Some((e, d)),
                None => None,
            },
            None => None,
        }
    }

    /// Looks a node list up by handle.
    pub fn get_node_list(&self, handle: i64) -> (r: Option<&Vec<NodeEntry>>)
        ensures
            match r {
                Some(v) => self.node_lists@.contains_key(handle) && *v
                    == self.node_lists@[handle],
                None => !self.node_lists@.contains_key(handle),
            },
    {
        self.node_lists.get(&handle)
    }

    /// Takes a document entry out for editing; [`Self::put_doc`] puts it
    /// back under the same handle.
    pub(crate) fn take_doc(&mut self, handle: i64) -> (r: Option<DocEntry>)
        requires
            old(self).wf(),
        ensures
            final(self).wf(),
            final(self).nodes@ == old(self).nodes@,
            final(self).node_lists@ == old(self).node_lists@,
            final(self).next == old(self).next,
            match r {
                Some(d) => old(self).documents@.contains_key(handle) && d == old(
                    self,
                ).documents@[handle] && final(self).documents@ == old(
                    self,
                ).documents@.remove(handle),
                None => !old(self).documents@.contains_key(handle) && final(self).documents@
                    == old(self).documents@,
            },
    {
        self.documents.remove(&handle)
    }

    /// Puts an edited document entry back under its handle.
    pub(crate) fn put_doc(&mut self, handle: i64, entry: DocEntry)
        requires
            old(self).wf(),
            1 <= handle < old(self).next,
            !old(self).nodes@.contains_key(handle),
            !old(self).node_lists@.contains_key(handle),
            entry.doc.wf(),
        ensures
            final(self).wf(),
            final(self).documents@ =~= old(self).documents@.insert(handle, entry),
            final(self).nodes@ == old(self).nodes@,
            final(self).node_lists@ == old(self).node_lists@,
            final(self).next == old(self).next,
    {
        self.documents.insert(handle, entry);
    }

    /// Frees a handle from whichever store holds it; a no-op for an
    /// unknown handle.
    pub fn free_handle(&mut self, handle: i64)
        requires
            old(self).wf(),
        ensures
            final(self).wf(),
            final(self).documents@ == old(self).documents@.remove(handle),
            final(self).nodes@ == old(self).nodes@.remove(handle),
            final(self).node_lists@ == old(self).node_lists@.remove(handle),
            final(self).next == old(self).next,
    {
        self.documents.remove(&handle);
        self.nodes.remove(&handle);
        self.node_lists.remove(&handle);
    }

    /// Empties all three stores, invalidating every outstanding handle.
    pub fn release_all(&mut self)
        requires
            old(self).wf(),
        ensures
            final(self).wf(),
            final(self).documents@ == Map::<i64, DocEntry>::empty(),
            final(self).nodes@ == Map::<i64, NodeEntry>::empty(),
            final(self).node_lists@ == Map::<i64, Vec<NodeEntry>>::empty(),
            final(self).next == old(self).next,
    {
        self.documents.clear();
        self.nodes.clear();
        self.node_lists.clear();
    }

    /// Whether a handle names a live document.
    pub fn is_document(&self, handle: i64) -> (r: bool)
        ensures
            r == self.documents@.contains_key(handle),
    {
        self.documents.contains_key(&handle)
    }

    /// Whether a handle names a node list.
    pub fn is_node_list(&self, handle: i64) -> (r: bool)
        ensures
            r == self.node_lists@.contains_key(handle),
    {
        self.node_lists.contains_key(&handle)
    }
}

/// Disposal safety: after a document handle is freed, every node
/// reference that named that document stops resolving — no operation can
/// reach the freed tree again, while other documents are untouched.
pub proof fn lemma_free_doc_invalidates(a0: Arena, a1: Arena, d: i64, h: i64)
    requires
        a1.documents@ == a0.documents@.remove(d),
        a1.nodes@ == a0.nodes@.remove(d),
        a0.nodes@.contains_key(h),
        a0.nodes@[h].doc_handle == d,
    ensures
        !a1.node_resolves(h),
{
    if h == d {
        assert(!a1.nodes@.contains_key(h));
    } else {
        assert(!a1.documents@.contains_key(d));
    }
}

} // verus!
