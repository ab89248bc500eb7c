//! The document tree.
//!
//! A document owns its nodes in one vector; a node names its parent and
//! children by index.  Nodes are never deleted from the vector: detaching
//! only unlinks, so node indices held by outside callers stay in range for
//! the document's whole life.  Every edit appends new nodes at the end and
//! links them under older nodes, so a parent's index is always smaller
//! than its children's — which bounds every walk down the tree.

use vstd::prelude::*;
use crate::attrs::{sorted_attrs, Attr};

verus! {

broadcast use vstd::std_specs::vec::group_vec_axioms;

/// What a node is.
pub enum NodeKind {
    /// The root of a parsed document.
    Document,
    /// The root of a parsed fragment.
    Fragment,
    /// An element with a tag name and attributes.
    Element { name: Vec<char>, attrs: Vec<Attr> },
    /// A text node.
    Text { text: Vec<char> },
    /// A comment.
    Comment { text: Vec<char> },
    /// A doctype declaration.
    Doctype { name: Vec<char> },
    /// Anything else a parser may produce (a processing instruction).
    Other,
}

/// One node of a parsed tree in flattened form: its kind and the index of
/// its parent among the flattened nodes.  The root stands at index 0.
pub struct FlatNode {
    /// The node's kind.
    pub kind: NodeKind,
    /// The index of the node's parent.
    pub parent: usize,
}

/// One node of a document: its kind and its links.
pub struct NodeData {
    /// The node's kind.
    pub kind: NodeKind,
    /// The parent's index; `None` for the root and for detached nodes.
    pub parent: Option<usize>,
    /// The children's indices, in document order.
    pub children: Vec<usize>,
}

/// A document: the tree nodes, rooted at index 0.
pub struct Doc {
    /// The nodes; index 0 is the root.
    pub nodes: Vec<NodeData>,
}

/// A kind is well-formed when element attributes are strictly sorted.
pub open spec fn kind_ok(k: NodeKind) -> bool {
    match k {
        NodeKind::Element { attrs, .. } => sorted_attrs(attrs@),
        _ => true,
    }
}

/// Links and kind of node `i` are consistent: children lie behind `i`,
/// point back to it and appear once; a parent lies before `i` and lists
/// `i` as a child.
pub open spec fn node_ok(ns: Seq<NodeData>, i: int) -> bool {
    let n = ns[i];
    &&& kind_ok(n.kind)
    &&& forall|k: int|
        0 <= k < n.children@.len() ==> i < #[trigger] n.children@[k] < ns.len()
            && ns[n.children@[k] as int].parent == Some(i as usize)
    &&& forall|k1: int, k2: int|
        0 <= k1 < k2 < n.children@.len() ==> n.children@[k1] != n.children@[k2]
    &&& match n.parent {
        Some(p) => p < i && ns[p as int].children@.contains(i as usize),
        None => true,
    }
}

/// The whole node vector is a well-formed forest rooted at 0.
pub open spec fn nodes_ok(ns: Seq<NodeData>) -> bool {
    &&& 1 <= ns.len()
    &&& ns[0].parent is None
    &&& forall|i: int| 0 <= i < ns.len() ==> #[trigger] node_ok(ns, i)
}

impl Doc {
    /// The document's well-formedness.
    pub open spec fn wf(self) -> bool {
        nodes_ok(self.nodes@)
    }
}

/// `b` is `a` with element attributes sorted, first binding kept; all
/// other kinds are unchanged.
pub open spec fn kind_rel(a: NodeKind, b: NodeKind) -> bool {
    match a {
        NodeKind::Element { name: an, attrs: aa } => match b {
            NodeKind::Element { name: bn, attrs: ba } => an@ == bn@ && forall|k: Seq<char>|
                crate::attrs::attr_get(ba@, k) == crate::attrs::attr_first(aa@, k),
            _ => false,
        },
        _ => b == a,
    }
}

/// Normalizes a parsed kind: sorts element attributes, keeping the first
/// binding of each name.
pub fn norm_kind(k: NodeKind) -> (r: NodeKind)
    ensures
        kind_ok(r),
        kind_rel(k, r),
{
    match k {
        NodeKind::Element { name, attrs } => {
            let na = crate::attrs::normalize_attrs(attrs);
            NodeKind::Element { name, attrs: na }
        },
        other => other,
    }
}

/// Replaces node `p` of the vector.
pub fn set_node(ns: &mut Vec<NodeData>, p: usize, nd: NodeData)
    requires
        p < old(ns)@.len(),
    ensures
        final(ns)@ == old(ns)@.update(p as int, nd),
{
    let ghost ns0 = ns@;
    ns[p] = nd;
}

/// Takes node `p` out of the vector, leaving a placeholder root in its
/// place; the caller puts a node back with [`set_node`].
pub fn take_node(ns: &mut Vec<NodeData>, p: usize) -> (r: NodeData)
    requires
        p < old(ns)@.len(),
    ensures
        r == old(ns)@[p as int],
        final(ns)@.len() == old(ns)@.len(),
        forall|j: int| 0 <= j < old(ns)@.len() && j != p ==> final(ns)@[j] == old(ns)@[j],
{
    let placeholder = NodeData { kind: NodeKind::Other, parent: None, children: Vec::new() };
    let ghost ns0 = ns@;
    let r = ns.remove(p);
    ns.insert(p, placeholder);
    proof {
        assert(forall|j: int| 0 <= j < ns0.len() && j != p ==> ns@[j] == ns0[j]);
    }
    r
}

/// Appends a child index to node `p`'s child list.
fn push_child(ns: &mut Vec<NodeData>, p: usize, c: usize)
    requires
        p < old(ns)@.len(),
    ensures
        final(ns)@.len() == old(ns)@.len(),
        forall|j: int| 0 <= j < old(ns)@.len() && j != p ==> final(ns)@[j] == old(ns)@[j],
        final(ns)@[p as int].kind == old(ns)@[p as int].kind,
        final(ns)@[p as int].parent == old(ns)@[p as int].parent,
        final(ns)@[p as int].children@ == old(ns)@[p as int].children@.push(c),
{
    let mut nd = take_node(ns, p);
    nd.children.push(c);
    set_node(ns, p, nd);
}

/// A document tree is the build of a flattened parse: node `i` of the
/// flat list became node `i` of the tree, with normalized attributes,
/// its parent reference honoured (a malformed one falling back to the
/// root), and each node's children in index order.  Together with
/// [`nodes_ok`] this pins the tree uniquely up to attribute sorting.
pub open spec fn built_from(flat: Seq<FlatNode>, ns: Seq<NodeData>) -> bool {
    &&& nodes_ok(ns)
    &&& ns.len() == (if flat.len() == 0 { 1int } else { flat.len() as int })
    &&& (flat.len() > 0 ==> kind_rel(flat[0].kind, ns[0].kind))
    &&& forall|i: int| 1 <= i < flat.len() ==> kind_rel(flat[i].kind, #[trigger] ns[i].kind)
        && ns[i].parent == Some(
        (if flat[i].parent < i { flat[i].parent as int } else { 0int }) as usize,
    )
    &&& forall|p: int, k1: int, k2: int|
        0 <= p < ns.len() && 0 <= k1 < k2 < ns[p].children@.len() ==> #[trigger] ns[p].children@[k1]
            < #[trigger] ns[p].children@[k2]
}

/// Builds a document from a flattened parse.  Node `i` of the flat list
/// becomes node `i` of the document; a malformed parent reference (one
/// not pointing at an earlier node) falls back to the root.
pub fn from_flat(flat: Vec<FlatNode>) -> (r: Doc)
    ensures
        r.wf(),
        built_from(flat@, r.nodes@),
{
    let ghost orig = flat@;
    let mut flat = flat;
    let mut ns: Vec<NodeData> = Vec::new();
    if flat.len() == 0 {
        ns.push(NodeData { kind: NodeKind::Document, parent: None, children: Vec::new() });
        assert(node_ok(ns@, 0));
        return Doc { nodes: ns };
    }
    assert(orig.len() == flat.len());
    let root = flat.remove(0);
    ns.push(NodeData { kind: norm_kind(root.kind), parent: None, children: Vec::new() });
    let mut i: usize = 1;
    while flat.len() > 0
        invariant
            1 <= i,
            orig.len() <= usize::MAX,
            i + flat@.len() == orig.len(),
            flat@ == orig.skip(i as int),
            ns@.len() == i,
            ns@[0].parent is None,
            forall|j: int| 0 <= j < i ==> #[trigger] node_ok(ns@, j),
            kind_rel(orig[0].kind, ns@[0].kind),
            forall|j: int| 1 <= j < i ==> kind_rel(orig[j].kind, #[trigger] ns@[j].kind)
                && ns@[j].parent == Some(
                (if orig[j].parent < j { orig[j].parent as int } else { 0int }) as usize,
            ),
            forall|p: int, k1: int, k2: int|
                0 <= p < ns@.len() && 0 <= k1 < k2 < ns@[p].children@.len()
                    ==> #[trigger] ns@[p].children@[k1] < #[trigger] ns@[p].children@[k2],
        decreases flat@.len(),
    {
        let f = flat.remove(0);
        proof {
            assert(f == orig[i as int]);
            assert(flat@ =~= orig.skip(i + 1));
        }
        let p: usize = if f.parent < i {
            f.parent
        } else {
            0
        };
        let ghost ns0 = ns@;
        ns.push(NodeData { kind: norm_kind(f.kind), parent: Some(p), children: Vec::new() });
        push_child(&mut ns, p, i);
        proof {
            let iv = i as int;
            assert(ns@.len() == ns0.len() + 1);
            assert(forall|t: int| 0 <= t < ns0.len() ==> #[trigger] ns@[t].parent == ns0[t].parent
                && ns@[t].kind == ns0[t].kind);
            assert(forall|t: int| 0 <= t < ns0.len() && t != p ==> #[trigger] ns@[t] == ns0[t]);
            assert(ns@[iv].parent == Some(p));
            assert(ns@[p as int].children@ == ns0[p as int].children@.push(i));
            assert(ns@[p as int].children@.contains(i)) by {
                assert(ns@[p as int].children@.last() == i);
            }
            assert forall|j: int| 0 <= j < i + 1 implies #[trigger] node_ok(ns@, j) by {
                if j < iv {
                    assert(node_ok(ns0, j));
                    let ch = ns@[j].children@;
                    let ch0 = ns0[j].children@;
                    assert(j != p ==> ch == ch0);
                    assert forall|k: int| 0 <= k < ch.len() implies j < #[trigger] ch[k]
                        < ns@.len() && ns@[ch[k] as int].parent == Some(j as usize) by {
                        if j == p as int && k == ch0.len() as int {
                            assert(ch[k] == i);
                        } else {
                            assert(ch[k] == ch0[k]);
                            assert(ch0[k] < ns0.len());
                            assert(ns@[ch0[k] as int].parent == ns0[ch0[k] as int].parent);
                        }
                    }
                    assert forall|k1: int, k2: int| 0 <= k1 < k2 < ch.len() implies ch[k1]
                        != ch[k2] by {
                        if j == p as int && k2 == ch0.len() as int {
                            assert(ch[k1] == ch0[k1]);
                            assert(ch0[k1] < ns0.len());
                        }
                    }
                    match ns@[j].parent {
                        Some(q) => {
                            assert(ns0[q as int].children@.contains(j as usize));
                            let k = choose|k: int|
                                0 <= k < ns0[q as int].children@.len() && ns0[q as int].children@[k]
                                    == j as usize;
                            assert(ns@[q as int].children@[k] == j as usize);
                        },
                        None => {},
                    }
                } else {
                    assert(ns@[iv].children@.len() == 0);
                    assert(ns@[p as int].children@.contains(i));
                }
            }
            assert forall|pp: int, k1: int, k2: int|
                0 <= pp < ns@.len() && 0 <= k1 < k2 < ns@[pp].children@.len() implies
                #[trigger] ns@[pp].children@[k1] < #[trigger] ns@[pp].children@[k2] by {
                if pp < iv {
                    let ch = ns@[pp].children@;
                    let ch0 = ns0[pp].children@;
                    if pp == p as int && k2 == ch0.len() as int {
                        assert(ch[k1] == ch0[k1]);
                        assert(node_ok(ns0, pp));
                        assert(ch0[k1] < ns0.len());
                    } else {
                        assert(ch[k1] == ch0[k1] && ch[k2] == ch0[k2]);
                    }
                }
            }
        }
        i = i + 1;
    }
    proof {
        assert(orig.skip(i as int).len() == 0);
        assert(i == orig.len());
    }
    Doc { nodes: ns }
}

/// The node is an element.
pub open spec fn is_element(k: NodeKind) -> bool {
    k matches NodeKind::Element { .. }
}

/// The node is a text node.
pub open spec fn is_text_node(k: NodeKind) -> bool {
    k matches NodeKind::Text { .. }
}

/// The node is a parse root (document or fragment).
pub open spec fn is_root_kind(k: NodeKind) -> bool {
    k matches NodeKind::Document || k matches NodeKind::Fragment
}

/// An element's tag name; the empty sequence for other kinds.
pub open spec fn elem_name(k: NodeKind) -> Seq<char> {
    match k {
        NodeKind::Element { name, .. } => name@,
        _ => Seq::<char>::empty(),
    }
}

/// An element's attribute list; empty for other kinds.
pub open spec fn elem_attrs(k: NodeKind) -> Seq<Attr> {
    match k {
        NodeKind::Element { attrs, .. } => attrs@,
        _ => Seq::<Attr>::empty(),
    }
}

/// A text node's text; the empty sequence for other kinds.
pub open spec fn text_of(k: NodeKind) -> Seq<char> {
    match k {
        NodeKind::Text { text } => text@,
        _ => Seq::<char>::empty(),
    }
}

/// The concatenated text of the subtrees of node `i`'s first `k`
/// children.
pub open spec fn text_upto(ns: Seq<NodeData>, i: int, k: int) -> Seq<char>
    decreases ns.len() - i, (if 0 <= k { k } else { 0int }) when nodes_ok(ns) && 0 <= i
        < ns.len() && k <= ns[i].children@.len() via text_upto_dec
{
    if k <= 0 {
        Seq::<char>::empty()
    } else {
        text_upto(ns, i, k - 1) + all_text(ns, ns[i].children@[k - 1] as int)
    }
}

#[via_fn]
proof fn text_upto_dec(ns: Seq<NodeData>, i: int, k: int) {
    if nodes_ok(ns) && 0 <= i < ns.len() && k <= ns[i].children@.len() && k > 0 {
        assert(node_ok(ns, i));
    }
}

/// The concatenated text of every descendant text node of node `i`, in
/// document order; a text node yields its own text.
pub open spec fn all_text(ns: Seq<NodeData>, i: int) -> Seq<char>
    decreases ns.len() - i, ns[i].children@.len() + 1 when nodes_ok(ns) && 0 <= i < ns.len()
{
    match ns[i].kind {
        NodeKind::Text { text } => text@,
        _ => text_upto(ns, i, ns[i].children@.len() as int),
    }
}

/// The concatenated raw text of node `i`'s first `k` children, counting
/// only direct text-node children.
pub open spec fn own_text_upto(ns: Seq<NodeData>, i: int, k: int) -> Seq<char>
    decreases (if 0 <= k { k } else { 0int }) when nodes_ok(ns) && 0 <= i < ns.len() && k
        <= ns[i].children@.len()
{
    if k <= 0 {
        Seq::<char>::empty()
    } else {
        own_text_upto(ns, i, k - 1) + text_of(ns[ns[i].children@[k - 1] as int].kind)
    }
}

/// The concatenated raw text of node `i`'s direct text-node children.
pub open spec fn own_text_raw(ns: Seq<NodeData>, i: int) -> Seq<char> {
    own_text_upto(ns, i, ns[i].children@.len() as int)
}

/// Appends the subtree text of node `i` to `out`.
pub fn push_all_text(ns: &Vec<NodeData>, i: usize, out: &mut Vec<char>)
    requires
        nodes_ok(ns@),
        i < ns@.len(),
    ensures
        final(out)@ == old(out)@ + all_text(ns@, i as int),
    decreases ns@.len() - i,
{
    let nd = &ns[i];
    match &nd.kind {
        NodeKind::Text { text } => {
            crate::text::push_vec(out, text);
        },
        _ => {
            proof {
                assert(node_ok(ns@, i as int));
            }
            let mut k: usize = 0;
            while k < nd.children.len()
                invariant
                    nodes_ok(ns@),
                    i < ns@.len(),
                    nd == ns@[i as int],
                    k <= nd.children@.len(),
                    out@ == old(out)@ + text_upto(ns@, i as int, k as int),
                decreases nd.children@.len() - k,
            {
                proof {
                    assert(node_ok(ns@, i as int));
                }
                let c = nd.children[k];
                push_all_text(ns, c, out);
                k = k + 1;
            }
            proof {
                assert(!(ns@[i as int].kind matches NodeKind::Text { .. }));
            }
        },
    }
}

/// The subtree text of node `i`.
pub fn subtree_text(ns: &Vec<NodeData>, i: usize) -> (r: Vec<char>)
    requires
        nodes_ok(ns@),
        i < ns@.len(),
    ensures
        r@ == all_text(ns@, i as int),
{
    let mut out: Vec<char> = Vec::new();
    push_all_text(ns, i, &mut out);
    proof {
        assert(Seq::<char>::empty() + all_text(ns@, i as int) =~= all_text(ns@, i as int));
    }
    out
}

/// The raw text of node `i`'s direct text-node children.
pub fn own_text_vec(ns: &Vec<NodeData>, i: usize) -> (r: Vec<char>)
    requires
        nodes_ok(ns@),
        i < ns@.len(),
    ensures
        r@ == own_text_raw(ns@, i as int),
{
    let nd = &ns[i];
    proof {
        assert(node_ok(ns@, i as int));
    }
    let mut out: Vec<char> = Vec::new();
    let mut k: usize = 0;
    while k < nd.children.len()
        invariant
            nodes_ok(ns@),
            i < ns@.len(),
            nd == ns@[i as int],
            k <= nd.children@.len(),
            out@ == own_text_upto(ns@, i as int, k as int),
        decreases nd.children@.len() - k,
    {
        proof {
            assert(node_ok(ns@, i as int));
        }
        let c = nd.children[k];
        let cd = &ns[c];
        match &cd.kind {
            NodeKind::Text { text } => {
                crate::text::push_vec(&mut out, text);
            },
            _ => {
                proof {
                    assert(out@ + text_of(ns@[c as int].kind) =~= out@);
                }
            },
        }
        k = k + 1;
    }
    out
}

/// A node that fragment parsing introduces around caller content: a parse
/// root, or an implicit `html`/`head`/`body` wrapper element.
pub open spec fn is_wrapper_kind(k: NodeKind) -> bool {
    ||| is_root_kind(k)
    ||| (match k {
        NodeKind::Element { name, .. } => name@ == "html"@ || name@ == "head"@ || name@
            == "body"@,
        _ => false,
    })
}

/// Executable test for [`is_wrapper_kind`].
pub fn kind_is_wrapper(k: &NodeKind) -> (r: bool)
    ensures
        r == is_wrapper_kind(*k),
{
    match k {
        NodeKind::Document => true,
        NodeKind::Fragment => true,
        NodeKind::Element { name, .. } => crate::text::eq_str(name, "html") || crate::text::eq_str(
            name,
            "head",
        ) || crate::text::eq_str(name, "body"),
        _ => false,
    }
}

} // verus!
