//! Structural edits on a document tree.
//!
//! All edits preserve well-formedness.  Nodes are never deleted: a detach
//! unlinks a subtree, which stays in the vector as an orphan; new content
//! is always appended at the end of the vector and linked under its
//! parent.

use vstd::prelude::*;
use crate::dom::{
    is_element, is_wrapper_kind, kind_ok, kind_rel, node_ok, nodes_ok, set_node, take_node,
    FlatNode, NodeData, NodeKind,
};
use crate::attrs::attr_get;

verus! {

broadcast use vstd::std_specs::vec::group_vec_axioms;

/// Unlinks node `i` from its parent; a no-op if it has none.
pub fn detach(ns: &mut Vec<NodeData>, i: usize)
    requires
        nodes_ok(old(ns)@),
        0 < i < old(ns)@.len(),
    ensures
        nodes_ok(final(ns)@),
        final(ns)@.len() == old(ns)@.len(),
        forall|j: int| 0 <= j < old(ns)@.len() ==> #[trigger] final(ns)@[j].kind == old(
            ns,
        )@[j].kind,
        final(ns)@[i as int].parent is None,
        forall|j: int| 0 <= j < old(ns)@.len() && j != i ==> #[trigger] final(ns)@[j].parent
            == old(ns)@[j].parent,
        final(ns)@[i as int].children == old(ns)@[i as int].children,
        match old(ns)@[i as int].parent {
            None => final(ns)@ == old(ns)@,
            Some(p) => {
                &&& (forall|j: int| 0 <= j < old(ns)@.len() && j != p
                    ==> #[trigger] final(ns)@[j].children == old(ns)@[j].children)
                &&& exists|pos: int|
                    0 <= pos < old(ns)@[p as int].children@.len() && old(
                        ns,
                    )@[p as int].children@[pos] == i && final(ns)@[p as int].children@ == old(
                        ns,
                    )@[p as int].children@.remove(pos)
            },
        },
{
    let ghost ns0 = ns@;
    let parent = ns[i].parent;
    match parent {
        None => {},
        Some(p) => {
            proof {
                assert(node_ok(ns0, i as int));
            }
            let mut pd = take_node(ns, p);
            let ghost pch = pd.children@;
            let mut pos: usize = 0;
            while pos < pd.children.len()
                invariant
                    pd.children@ == pch,
                    pos <= pch.len(),
                    forall|k: int| 0 <= k < pos ==> pch[k] != i,
                ensures
                    pos <= pch.len(),
                    pos < pch.len() ==> pch[pos as int] == i,
                    forall|k: int| 0 <= k < pos ==> pch[k] != i,
                decreases pch.len() - pos,
            {
                if pd.children[pos] == i {
                    break;
                }
                pos = pos + 1;
            }
            proof {
                assert(pch.contains(i));
                if pos == pch.len() {
                    let w = choose|w: int| 0 <= w < pch.len() && pch[w] == i;
                    assert(false);
                }
            }
            pd.children.remove(pos);
            set_node(ns, p, pd);
            let mut nd = take_node(ns, i);
            nd.parent = None;
            set_node(ns, i, nd);
            proof {
                let nsf = ns@;
                assert(nsf[p as int].children@ == pch.remove(pos as int));
                assert forall|j: int| 0 <= j < nsf.len() implies #[trigger] node_ok(nsf, j) by {
                    assert(node_ok(ns0, j));
                    let ch = nsf[j].children@;
                    let ch0 = ns0[j].children@;
                    assert(nsf[j].kind == ns0[j].kind);
                    if j == p {
                        assert(ch == ch0.remove(pos as int));
                        assert forall|k: int| 0 <= k < ch.len() implies j < #[trigger] ch[k]
                            < nsf.len() && nsf[ch[k] as int].parent == Some(j as usize) by {
                            let k0: int = if k < pos { k } else { k + 1 };
                            assert(ch[k] == ch0[k0]);
                            assert(ch0[k0] != i) by {
                                if ch0[k0] == i {
                                    assert(node_ok(ns0, i as int));
                                    assert(ns0[i as int].parent == Some(p));
                                    if k0 != pos {
                                        assert(ch0[k0 as int] != ch0[pos as int]);
                                    }
                                }
                            }
                            assert(nsf[ch[k] as int].parent == ns0[ch0[k0] as int].parent);
                        }
                        assert forall|k1: int, k2: int| 0 <= k1 < k2 < ch.len() implies ch[k1]
                            != ch[k2] by {
                            let k10: int = if k1 < pos { k1 } else { k1 + 1 };
                            let k20: int = if k2 < pos { k2 } else { k2 + 1 };
                            assert(ch[k1] == ch0[k10] && ch[k2] == ch0[k20]);
                        }
                    } else {
                        assert(ch == ch0);
                        assert forall|k: int| 0 <= k < ch.len() implies j < #[trigger] ch[k]
                            < nsf.len() && nsf[ch[k] as int].parent == Some(j as usize) by {
                            assert(ch0[k] != i) by {
                                if ch0[k] == i {
                                    assert(node_ok(ns0, i as int));
                                    assert(ns0[i as int].parent == Some(j as usize));
                                    assert(j == p);
                                }
                            }
                            assert(nsf[ch[k] as int].parent == ns0[ch0[k] as int].parent);
                        }
                    }
                    match nsf[j].parent {
                        Some(q) => {
                            assert(nsf[i as int].parent is None);
                            assert(j != i);
                            assert(nsf[j].parent == ns0[j].parent);
                            assert(ns0[j].parent == Some(q));
                            assert(node_ok(ns0, j));
                            assert(ns0[q as int].children@.contains(j as usize));
                            if q == p {
                                assert(ns0[q as int].children@ == pch);
                                assert(pch[pos as int] == i);
                                assert(exists|w: int| 0 <= w < pch.len() && pch[w] == j as usize);
                                let w = choose|w: int|
                                    0 <= w < pch.len() && pch[w] == j as usize;
                                assert(0 <= w < pch.len() && pch[w] == j as usize);
                                assert(0 <= j < nsf.len());
                                assert(nsf.len() == ns.len());
                                assert(j as usize != i);
                                assert(w != pos);
                                let wf: int = if w < pos {
                                    w
                                } else {
                                    w - 1
                                };
                                assert(nsf[q as int].children@[wf] == j as usize);
                                assert(nsf[q as int].children@.contains(j as usize));
                            }
                        },
                        None => {},
                    }
                }
            }
        },
    }
}

/// Detaches every child of node `i`: the children become orphan roots and
/// `i` becomes childless.
pub fn remove_children(ns: &mut Vec<NodeData>, i: usize)
    requires
        nodes_ok(old(ns)@),
        i < old(ns)@.len(),
    ensures
        nodes_ok(final(ns)@),
        final(ns)@.len() == old(ns)@.len(),
        forall|j: int| 0 <= j < old(ns)@.len() ==> #[trigger] final(ns)@[j].kind == old(
            ns,
        )@[j].kind,
        forall|j: int| 0 <= j < old(ns)@.len() ==> #[trigger] final(ns)@[j].parent == (
        if old(ns)@[j].parent == Some(i) {
            None
        } else {
            old(ns)@[j].parent
        }),
        final(ns)@[i as int].children@.len() == 0,
        forall|j: int| 0 <= j < old(ns)@.len() && j != i ==> #[trigger] final(ns)@[j].children
            == old(ns)@[j].children,
{
    let ghost ns0 = ns@;
    proof {
        assert(node_ok(ns0, i as int));
        assert(ns0.len() == ns.len());
    }
    let mut nd = take_node(ns, i);
    let ghost ch0 = nd.children@;
    let mut k: usize = 0;
    while k < nd.children.len()
        invariant
            nodes_ok(ns0),
            i < ns0.len(),
            nd.children@ == ch0,
            ch0 == ns0[i as int].children@,
            k <= ch0.len(),
            ns0.len() <= usize::MAX,
            ns@.len() == ns0.len(),
            forall|j: int| 0 <= j < ns0.len() && j != i ==> #[trigger] ns@[j].kind
                == ns0[j].kind,
            forall|j: int| 0 <= j < ns0.len() && j != i ==> #[trigger] ns@[j].children
                == ns0[j].children,
            forall|j: int|
                0 <= j < ns0.len() && j != i ==> #[trigger] ns@[j].parent == (
                if ns0[j].parent == Some(i) && (exists|m: int|
                    0 <= m < k && ch0[m] == j as usize) {
                    None
                } else {
                    ns0[j].parent
                }),
        decreases ch0.len() - k,
    {
        proof {
            assert(node_ok(ns0, i as int));
            assert(i < ch0[k as int] < ns0.len());
        }
        let c = nd.children[k];
        let mut cd = take_node(ns, c);
        cd.parent = None;
        set_node(ns, c, cd);
        k = k + 1;
        proof {
            assert forall|j: int|
                0 <= j < ns0.len() && j != i implies #[trigger] ns@[j].parent == (
            if ns0[j].parent == Some(i) && (exists|m: int| 0 <= m < k && ch0[m] == j as usize) {
                None
            } else {
                ns0[j].parent
            }) by {
                assert(ch0[k - 1] == c);
                if j == c {
                    assert(ns0[c as int].parent == Some(i));
                } else {
                    if exists|m: int| 0 <= m < k && ch0[m] == j as usize {
                        let m = choose|m: int| 0 <= m < k && ch0[m] == j as usize;
                        assert(0 <= m < k && ch0[m] == j as usize);
                        if m == k - 1 {
                            assert(j as usize == c);
                            assert(j == c);
                            assert(false);
                        }
                        assert(exists|m2: int| 0 <= m2 < k - 1 && ch0[m2] == j as usize);
                    }
                }
            }
        }
    }
    nd.children = Vec::new();
    set_node(ns, i, nd);
    proof {
        let nsf = ns@;
        assert forall|j: int|
            0 <= j < ns0.len() implies #[trigger] nsf[j].parent == (
        if ns0[j].parent == Some(i) {
            None
        } else {
            ns0[j].parent
        }) by {
            if j != i {
                if ns0[j].parent == Some(i) {
                    assert(node_ok(ns0, j));
                    assert(ns0[i as int].children@.contains(j as usize));
                }
            } else {
                assert(!(ns0[i as int].parent == Some(i)));
            }
        }
        assert forall|j: int| 0 <= j < nsf.len() implies #[trigger] node_ok(nsf, j) by {
            assert(node_ok(ns0, j));
            let ch = nsf[j].children@;
            if j == i {
                assert(ch.len() == 0);
            } else {
                assert(ch == ns0[j].children@);
                assert forall|m: int| 0 <= m < ch.len() implies j < #[trigger] ch[m] < nsf.len()
                    && nsf[ch[m] as int].parent == Some(j as usize) by {
                    assert(ns0[ch[m] as int].parent == Some(j as usize));
                    assert(j as usize != i || false == true || ns0[ch[m] as int].parent != Some(
                        i,
                    )) by {}
                    if ns0[ch[m] as int].parent == Some(i) {
                        assert(j as usize == i);
                        assert(j == i);
                        assert(false);
                    }
                }
            }
            match nsf[j].parent {
                Some(q) => {
                    assert(ns0[j].parent == Some(q));
                    assert(ns0[q as int].children@.contains(j as usize));
                    assert(q != i) by {
                        if q == i {
                            assert(nsf[j].parent == (if ns0[j].parent == Some(i) {
                                None
                            } else {
                                ns0[j].parent
                            }));
                        }
                    }
                    assert(nsf[q as int].children@ == ns0[q as int].children@);
                },
                None => {},
            }
        }
    }
}

/// Appends a fresh node of kind `kind` as the last child of `p`; returns
/// the new node's index.
pub fn append_node(ns: &mut Vec<NodeData>, p: usize, kind: NodeKind) -> (r: usize)
    requires
        nodes_ok(old(ns)@),
        p < old(ns)@.len(),
        old(ns)@.len() < usize::MAX,
        kind_ok(kind),
    ensures
        nodes_ok(final(ns)@),
        r == old(ns)@.len(),
        final(ns)@.len() == old(ns)@.len() + 1,
        forall|j: int| 0 <= j < old(ns)@.len() ==> #[trigger] final(ns)@[j].kind == old(
            ns,
        )@[j].kind && final(ns)@[j].parent == old(ns)@[j].parent,
        forall|j: int| 0 <= j < old(ns)@.len() && j != p ==> #[trigger] final(ns)@[j].children
            == old(ns)@[j].children,
        final(ns)@[p as int].children@ == old(ns)@[p as int].children@.push(r),
        final(ns)@[r as int].kind == kind,
        final(ns)@[r as int].parent == Some(p),
        final(ns)@[r as int].children@.len() == 0,
{
    let ghost ns0 = ns@;
    let r = ns.len();
    ns.push(NodeData { kind, parent: Some(p), children: Vec::new() });
    let ghost ns1 = ns@;
    let mut pd = take_node(ns, p);
    pd.children.push(r);
    set_node(ns, p, pd);
    proof {
        let nsf = ns@;
        assert(nsf[p as int].children@ == ns0[p as int].children@.push(r));
        assert(nsf[p as int].children@.last() == r);
        assert(nsf[p as int].children@.contains(r));
        assert forall|j: int| 0 <= j < nsf.len() implies #[trigger] node_ok(nsf, j) by {
            if j < ns0.len() {
                assert(node_ok(ns0, j));
                let ch = nsf[j].children@;
                let ch0 = ns0[j].children@;
                assert(j != p ==> ch == ch0);
                assert forall|m: int| 0 <= m < ch.len() implies j < #[trigger] ch[m] < nsf.len()
                    && nsf[ch[m] as int].parent == Some(j as usize) by {
                    if j == p && m == ch0.len() as int {
                        assert(ch[m] == r);
                    } else {
                        assert(ch[m] == ch0[m]);
                        assert(ch0[m] < ns0.len());
                        assert(nsf[ch0[m] as int].parent == ns0[ch0[m] as int].parent);
                    }
                }
                assert forall|k1: int, k2: int| 0 <= k1 < k2 < ch.len() implies ch[k1] != ch[k2] by {
                    if j == p && k2 == ch0.len() as int {
                        assert(ch[k1] == ch0[k1]);
                        assert(ch0[k1] < ns0.len());
                    }
                }
                match nsf[j].parent {
                    Some(q) => {
                        assert(ns0[q as int].children@.contains(j as usize));
                        let w = choose|w: int|
                            0 <= w < ns0[q as int].children@.len() && ns0[q as int].children@[w]
                                == j as usize;
                        assert(nsf[q as int].children@[w] == j as usize);
                    },
                    None => {},
                }
            } else {
                assert(j == r);
                assert(nsf[j].children@.len() == 0);
                assert(nsf[p as int].children@.contains(r));
            }
        }
    }
    r
}

/// Rewrites an element node's attribute list by setting one attribute.
pub fn node_set_attr(ns: &mut Vec<NodeData>, i: usize, key: Vec<char>, value: Vec<char>)
    requires
        nodes_ok(old(ns)@),
        i < old(ns)@.len(),
    ensures
        nodes_ok(final(ns)@),
        final(ns)@.len() == old(ns)@.len(),
        forall|j: int| 0 <= j < old(ns)@.len() ==> #[trigger] final(ns)@[j].parent == old(
            ns,
        )@[j].parent && final(ns)@[j].children == old(ns)@[j].children,
        forall|j: int| 0 <= j < old(ns)@.len() && j != i ==> #[trigger] final(ns)@[j].kind
            == old(ns)@[j].kind,
        !is_element(old(ns)@[i as int].kind) ==> final(ns)@ == old(ns)@,
        is_element(old(ns)@[i as int].kind) ==> {
            &&& is_element(final(ns)@[i as int].kind)
            &&& crate::dom::elem_name(final(ns)@[i as int].kind) == crate::dom::elem_name(
                old(ns)@[i as int].kind,
            )
            &&& attr_get(crate::dom::elem_attrs(final(ns)@[i as int].kind), key@) == Some(
                value@,
            )
            &&& forall|k: Seq<char>|
                k != key@ ==> attr_get(crate::dom::elem_attrs(final(ns)@[i as int].kind), k)
                    == attr_get(crate::dom::elem_attrs(old(ns)@[i as int].kind), k)
        },
{
    let ghost ns0 = ns@;
    proof {
        assert(node_ok(ns0, i as int));
    }
    let mut nd = take_node(ns, i);
    match nd.kind {
        NodeKind::Element { name, mut attrs } => {
            crate::attrs::attrs_upsert(&mut attrs, key, value);
            nd.kind = NodeKind::Element { name, attrs };
            set_node(ns, i, nd);
            proof {
                lemma_same_links(ns0, ns@, i as int);
            }
        },
        other => {
            nd.kind = other;
            set_node(ns, i, nd);
            proof {
                assert(ns@ =~= ns0);
            }
        },
    }
}

/// Rewrites an element node's attribute list by removing one attribute.
pub fn node_remove_attr(ns: &mut Vec<NodeData>, i: usize, key: &Vec<char>)
    requires
        nodes_ok(old(ns)@),
        i < old(ns)@.len(),
    ensures
        nodes_ok(final(ns)@),
        final(ns)@.len() == old(ns)@.len(),
        forall|j: int| 0 <= j < old(ns)@.len() ==> #[trigger] final(ns)@[j].parent == old(
            ns,
        )@[j].parent && final(ns)@[j].children == old(ns)@[j].children,
        forall|j: int| 0 <= j < old(ns)@.len() && j != i ==> #[trigger] final(ns)@[j].kind
            == old(ns)@[j].kind,
        !is_element(old(ns)@[i as int].kind) ==> final(ns)@ == old(ns)@,
        is_element(old(ns)@[i as int].kind) ==> {
            &&& is_element(final(ns)@[i as int].kind)
            &&& crate::dom::elem_name(final(ns)@[i as int].kind) == crate::dom::elem_name(
                old(ns)@[i as int].kind,
            )
            &&& attr_get(crate::dom::elem_attrs(final(ns)@[i as int].kind), key@) is None
            &&& forall|k: Seq<char>|
                k != key@ ==> attr_get(crate::dom::elem_attrs(final(ns)@[i as int].kind), k)
                    == attr_get(crate::dom::elem_attrs(old(ns)@[i as int].kind), k)
        },
{
    let ghost ns0 = ns@;
    proof {
        assert(node_ok(ns0, i as int));
    }
    let mut nd = take_node(ns, i);
    match nd.kind {
        NodeKind::Element { name, mut attrs } => {
            crate::attrs::attrs_remove(&mut attrs, key);
            nd.kind = NodeKind::Element { name, attrs };
            set_node(ns, i, nd);
            proof {
                lemma_same_links(ns0, ns@, i as int);
            }
        },
        other => {
            nd.kind = other;
            set_node(ns, i, nd);
            proof {
                assert(ns@ =~= ns0);
            }
        },
    }
}

/// Two node vectors with the same links, where only node `i`'s kind
/// changed to another well-formed kind, are both well-formed.
pub(crate) proof fn lemma_same_links(ns0: Seq<NodeData>, nsf: Seq<NodeData>, i: int)
    requires
        nodes_ok(ns0),
        nsf.len() == ns0.len(),
        0 <= i < ns0.len(),
        forall|j: int| 0 <= j < ns0.len() ==> #[trigger] nsf[j].parent == ns0[j].parent,
        forall|j: int| 0 <= j < ns0.len() ==> #[trigger] nsf[j].children == ns0[j].children,
        forall|j: int| 0 <= j < ns0.len() && j != i ==> #[trigger] nsf[j].kind == ns0[j].kind,
        kind_ok(nsf[i].kind),
    ensures
        nodes_ok(nsf),
{
    assert forall|j: int| 0 <= j < nsf.len() implies #[trigger] node_ok(nsf, j) by {
        assert(node_ok(ns0, j));
        let ch = nsf[j].children@;
        assert(ch == ns0[j].children@);
        assert forall|m: int| 0 <= m < ch.len() implies j < #[trigger] ch[m] < nsf.len()
            && nsf[ch[m] as int].parent == Some(j as usize) by {
            assert(ch[m] < ns0.len());
            assert(nsf[ch[m] as int].parent == ns0[ch[m] as int].parent);
        }
        match nsf[j].parent {
            Some(q) => {
                assert(ns0[q as int].children@.contains(j as usize));
                assert(nsf[q as int].children@ == ns0[q as int].children@);
            },
            None => {},
        }
    }
}

/// One node of content to graft: its kind and the index of its parent
/// among the grafted nodes, or `None` for a top-level content root.
pub struct GraftNode {
    /// The node's kind.
    pub kind: NodeKind,
    /// The parent among the grafted nodes; `None` at top level.
    pub parent: Option<usize>,
}

/// Every grafted kind is well-formed and every parent reference points at
/// an earlier grafted node.
pub open spec fn graft_ok(items: Seq<GraftNode>) -> bool {
    forall|i: int| 0 <= i < items.len() ==> kind_ok(#[trigger] items[i].kind) && match items[i].parent {
        Some(p) => p < i,
        None => true,
    }
}

/// The indices (offset by `base`) of the top-level roots among the first
/// `upto` grafted nodes, in order.
pub open spec fn roots_seq(items: Seq<GraftNode>, base: int, upto: int) -> Seq<usize>
    decreases (if 0 <= upto { upto } else { 0int }),
{
    if upto <= 0 {
        Seq::<usize>::empty()
    } else if items[upto - 1].parent is None {
        roots_seq(items, base, upto - 1).push((base + upto - 1) as usize)
    } else {
        roots_seq(items, base, upto - 1)
    }
}

/// Appends a fresh node of kind `kind` under `p`, inserting it at
/// position `pos` of `p`'s child list; returns the new node's index.
pub fn insert_node_at(ns: &mut Vec<NodeData>, p: usize, pos: usize, kind: NodeKind) -> (r: usize)
    requires
        nodes_ok(old(ns)@),
        p < old(ns)@.len(),
        pos <= old(ns)@[p as int].children@.len(),
        old(ns)@.len() < usize::MAX,
        kind_ok(kind),
    ensures
        nodes_ok(final(ns)@),
        r == old(ns)@.len(),
        final(ns)@.len() == old(ns)@.len() + 1,
        forall|j: int| 0 <= j < old(ns)@.len() ==> #[trigger] final(ns)@[j].kind == old(
            ns,
        )@[j].kind && final(ns)@[j].parent == old(ns)@[j].parent,
        forall|j: int| 0 <= j < old(ns)@.len() && j != p ==> #[trigger] final(ns)@[j].children
            == old(ns)@[j].children,
        final(ns)@[p as int].children@ == old(ns)@[p as int].children@.insert(pos as int, r),
        final(ns)@[r as int].kind == kind,
        final(ns)@[r as int].parent == Some(p),
        final(ns)@[r as int].children@.len() == 0,
{
    let ghost ns0 = ns@;
    let r = ns.len();
    ns.push(NodeData { kind, parent: Some(p), children: Vec::new() });
    let mut pd = take_node(ns, p);
    pd.children.insert(pos, r);
    set_node(ns, p, pd);
    proof {
        let nsf = ns@;
        let ch = nsf[p as int].children@;
        let ch0 = ns0[p as int].children@;
        assert(ch == ch0.insert(pos as int, r));
        assert(ch[pos as int] == r);
        assert(ch.contains(r));
        assert forall|j: int| 0 <= j < nsf.len() implies #[trigger] node_ok(nsf, j) by {
            if j < ns0.len() {
                assert(node_ok(ns0, j));
                let cj = nsf[j].children@;
                let cj0 = ns0[j].children@;
                assert(j != p ==> cj == cj0);
                assert forall|m: int| 0 <= m < cj.len() implies j < #[trigger] cj[m] < nsf.len()
                    && nsf[cj[m] as int].parent == Some(j as usize) by {
                    if j == p && m == pos {
                        assert(cj[m] == r);
                    } else {
                        let m0: int = if j == p && m > pos {
                            m - 1
                        } else {
                            m
                        };
                        assert(cj[m] == cj0[m0]);
                        assert(cj0[m0] < ns0.len());
                        assert(nsf[cj0[m0] as int].parent == ns0[cj0[m0] as int].parent);
                    }
                }
                assert forall|k1: int, k2: int| 0 <= k1 < k2 < cj.len() implies cj[k1]
                    != cj[k2] by {
                    if j == p {
                        let k10: int = if k1 > pos {
                            k1 - 1
                        } else {
                            k1
                        };
                        let k20: int = if k2 > pos {
                            k2 - 1
                        } else {
                            k2
                        };
                        if k1 == pos {
                            assert(cj[k1] == r);
                            assert(cj[k2] == cj0[k20]);
                            assert(cj0[k20] < ns0.len());
                        } else if k2 == pos {
                            assert(cj[k2] == r);
                            assert(cj[k1] == cj0[k10]);
                            assert(cj0[k10] < ns0.len());
                        } else {
                            assert(cj[k1] == cj0[k10] && cj[k2] == cj0[k20]);
                        }
                    }
                }
                match nsf[j].parent {
                    Some(q) => {
                        assert(ns0[q as int].children@.contains(j as usize));
                        assert(exists|w: int|
                            0 <= w < ns0[q as int].children@.len() && ns0[q as int].children@[w]
                                == j as usize);
                        let w = choose|w: int|
                            0 <= w < ns0[q as int].children@.len() && ns0[q as int].children@[w]
                                == j as usize;
                        if q == p {
                            let wf: int = if w < pos {
                                w
                            } else {
                                w + 1
                            };
                            assert(nsf[q as int].children@[wf] == j as usize);
                        } else {
                            assert(nsf[q as int].children@[w] == j as usize);
                        }
                    },
                    None => {},
                }
            } else {
                assert(j == r);
                assert(nsf[j].children@.len() == 0);
                assert(nsf[p as int].children@.contains(r));
            }
        }
    }
    r
}

/// Splices grafted content under `target`: top-level roots become
/// children of `target`, at the front (before the old children, in graft
/// order) or at the back; inner grafted nodes keep their structure.
pub fn attach(ns: &mut Vec<NodeData>, target: usize, items: Vec<GraftNode>, front: bool)
    requires
        nodes_ok(old(ns)@),
        target < old(ns)@.len(),
        graft_ok(items@),
        old(ns)@.len() + items@.len() < usize::MAX,
    ensures
        nodes_ok(final(ns)@),
        final(ns)@.len() == old(ns)@.len() + items@.len(),
        forall|j: int| 0 <= j < old(ns)@.len() ==> #[trigger] final(ns)@[j].kind == old(
            ns,
        )@[j].kind && final(ns)@[j].parent == old(ns)@[j].parent,
        forall|j: int| 0 <= j < old(ns)@.len() && j != target
            ==> #[trigger] final(ns)@[j].children == old(ns)@[j].children,
        final(ns)@[target as int].children@ == (if front {
            roots_seq(items@, old(ns)@.len() as int, items@.len() as int) + old(
                ns,
            )@[target as int].children@
        } else {
            old(ns)@[target as int].children@ + roots_seq(
                items@,
                old(ns)@.len() as int,
                items@.len() as int,
            )
        }),
        forall|i: int| 0 <= i < items@.len() ==> {
            &&& #[trigger] final(ns)@[old(ns)@.len() + i].kind == items@[i].kind
            &&& final(ns)@[old(ns)@.len() + i].parent == Some(
                (match items@[i].parent {
                    Some(p) => old(ns)@.len() + p,
                    None => target as int,
                }) as usize,
            )
        },
{
    let ghost ns0 = ns@;
    let ghost itemsv = items@;
    let base = ns.len();
    let mut items = items;
    let mut i: usize = 0;
    let mut rc: usize = 0;
    while items.len() > 0
        invariant
            nodes_ok(ns@),
            nodes_ok(ns0),
            graft_ok(itemsv),
            target < ns0.len(),
            base == ns0.len(),
            ns0.len() + itemsv.len() < usize::MAX,
            i + items@.len() == itemsv.len(),
            items@ == itemsv.skip(i as int),
            ns@.len() == base + i,
            rc == roots_seq(itemsv, base as int, i as int).len(),
            forall|j: int| 0 <= j < ns0.len() ==> #[trigger] ns@[j].kind == ns0[j].kind
                && ns@[j].parent == ns0[j].parent,
            forall|j: int| 0 <= j < ns0.len() && j != target ==> #[trigger] ns@[j].children
                == ns0[j].children,
            ns@[target as int].children@ == (if front {
                roots_seq(itemsv, base as int, i as int) + ns0[target as int].children@
            } else {
                ns0[target as int].children@ + roots_seq(itemsv, base as int, i as int)
            }),
            forall|k: int| 0 <= k < i ==> {
                &&& #[trigger] ns@[base + k].kind == itemsv[k].kind
                &&& ns@[base + k].parent == Some(
                    (match itemsv[k].parent {
                        Some(p) => base + p,
                        None => target as int,
                    }) as usize,
                )
            },
        decreases items@.len(),
    {
        let it = items.remove(0);
        proof {
            assert(it == itemsv[i as int]);
            assert(items@ =~= itemsv.skip(i + 1));
            assert(roots_seq(itemsv, base as int, i as int).len() <= i) by {
                lemma_roots_len(itemsv, base as int, i as int);
            }
        }
        let ghost nsb = ns@;
        match it.parent {
            Some(p) => {
                let m = append_node(ns, base + p, it.kind);
                proof {
                    assert(roots_seq(itemsv, base as int, i + 1) == roots_seq(
                        itemsv,
                        base as int,
                        i as int,
                    ));
                    assert(base + p >= base);
                    assert(ns@[target as int].children == nsb[target as int].children);
                }
            },
            None => {
                if front {
                    let m = insert_node_at(ns, target, rc, it.kind);
                    proof {
                        let rs = roots_seq(itemsv, base as int, i as int);
                        assert(ns@[target as int].children@ == nsb[target as int].children@.insert(
                            rc as int,
                            m,
                        ));
                        assert(roots_seq(itemsv, base as int, i + 1) == rs.push(m));
                        assert((rs + ns0[target as int].children@).insert(rc as int, m) =~= rs.push(
                            m,
                        ) + ns0[target as int].children@);
                    }
                } else {
                    let m = append_node(ns, target, it.kind);
                    proof {
                        let rs = roots_seq(itemsv, base as int, i as int);
                        assert(roots_seq(itemsv, base as int, i + 1) == rs.push(m));
                        assert((ns0[target as int].children@ + rs).push(m) =~= ns0[target as int].children@
                            + rs.push(m));
                    }
                }
                rc = rc + 1;
            },
        }
        i = i + 1;
    }
    proof {
        assert(itemsv.skip(i as int).len() == 0);
        assert(i == itemsv.len());
    }
}

/// There are at most `upto` roots among the first `upto` grafted nodes.
proof fn lemma_roots_len(items: Seq<GraftNode>, base: int, upto: int)
    ensures
        roots_seq(items, base, upto).len() <= (if 0 <= upto { upto } else { 0int }),
    decreases (if 0 <= upto { upto } else { 0int }),
{
    if upto > 0 {
        lemma_roots_len(items, base, upto - 1);
    }
}

/// The fate of one flattened fragment node under wrapper unwrapping.
pub enum GStat {
    /// A parse root or implicit wrapper on the chain from the root: not
    /// copied, but its children are considered.
    Trans,
    /// Content: copied into the target.
    Copied,
    /// Unreachable or malformed: dropped with its subtree.
    Skip,
}

/// The fate of flattened node `i`: the root chain of parse roots and
/// implicit wrappers is transparent, everything below the first content
/// node is copied, and malformed nodes are dropped.
pub open spec fn g_stat(flat: Seq<FlatNode>, i: int) -> GStat
    decreases i,
{
    if i <= 0 {
        GStat::Trans
    } else if !(flat[i].parent < i) {
        GStat::Skip
    } else {
        match g_stat(flat, flat[i].parent as int) {
            GStat::Trans => if is_wrapper_kind(flat[i].kind) {
                GStat::Trans
            } else {
                GStat::Copied
            },
            GStat::Copied => GStat::Copied,
            GStat::Skip => GStat::Skip,
        }
    }
}

/// How many of the first `i` flattened nodes are copied.
pub open spec fn g_count(flat: Seq<FlatNode>, i: int) -> int
    decreases (if 0 <= i { i } else { 0int }),
{
    if i <= 0 {
        0
    } else {
        g_count(flat, i - 1) + (if g_stat(flat, i - 1) is Copied {
            1int
        } else {
            0int
        })
    }
}

/// The copied-node count never decreases.
proof fn lemma_gcount_mono(flat: Seq<FlatNode>, a: int, b: int)
    requires
        a <= b,
    ensures
        g_count(flat, a) <= g_count(flat, b),
    decreases (if 0 <= b { b } else { 0int }),
{
    if a < b && b > 0 {
        lemma_gcount_mono(flat, a, b - 1);
    }
}

/// The exec-side fate of a flattened node, carrying the output position
/// of a copied node.
enum EStat {
    Trans,
    Copied(usize),
    Skip,
}

/// The recorded fate of flattened node `j` agrees with [`g_stat`] and,
/// for a copied node, with [`g_count`].
spec fn stat_inv(st: Seq<EStat>, flat: Seq<FlatNode>, j: int) -> bool {
    match st[j] {
        EStat::Trans => g_stat(flat, j) is Trans,
        EStat::Skip => g_stat(flat, j) is Skip,
        EStat::Copied(v) => g_stat(flat, j) is Copied && v == g_count(flat, j),
    }
}

/// The copied output for flattened node `j` has the right kind and
/// parent.
spec fn out_inv(out: Seq<GraftNode>, flat: Seq<FlatNode>, j: int) -> bool {
    g_stat(flat, j) is Copied ==> {
        &&& 0 <= g_count(flat, j) < out.len()
        &&& kind_rel(flat[j].kind, out[g_count(flat, j)].kind)
        &&& out[g_count(flat, j)].parent == (if g_stat(flat, flat[j].parent as int) is Trans {
            Option::<usize>::None
        } else {
            Some(g_count(flat, flat[j].parent as int) as usize)
        })
    }
}

/// `items` is the content selection of the flattened fragment `flat`:
/// one grafted node per copied flat node, in order, each with the
/// normalized kind and with its parent reference reindexed — `None` for
/// a content root found under the transparent wrapper chain.
#[verifier::opaque]
pub open spec fn content_selection(flat: Seq<FlatNode>, items: Seq<GraftNode>) -> bool {
    &&& graft_ok(items)
    &&& items.len() == g_count(flat, flat.len() as int)
    &&& forall|i: int| 0 <= i < flat.len() && #[trigger] g_stat(flat, i) is Copied ==> {
        &&& kind_rel(flat[i].kind, items[g_count(flat, i)].kind)
        &&& items[g_count(flat, i)].parent == (if g_stat(flat, flat[i].parent as int)
            is Trans {
            Option::<usize>::None
        } else {
            Some(g_count(flat, flat[i].parent as int) as usize)
        })
    }
}

/// Selects the content of a flattened fragment parse: parse roots and
/// implicit wrappers on the chain from the root are unwrapped, and every
/// content subtree below them is kept, reindexed for grafting.
pub fn select_content(flat: Vec<FlatNode>) -> (r: Vec<GraftNode>)
    ensures
        content_selection(flat@, r@),
        graft_ok(r@),
        r@.len() == g_count(flat@, flat@.len() as int),
{
    let ghost flatv = flat@;
    let mut flat = flat;
    let mut out: Vec<GraftNode> = Vec::new();
    let mut statuses: Vec<EStat> = Vec::new();
    let mut i: usize = 0;
    proof {
        assert(flatv.len() == flat.len());
    }
    while flat.len() > 0
        invariant
            flatv.len() <= usize::MAX,
            i + flat@.len() == flatv.len(),
            flat@ == flatv.skip(i as int),
            statuses@.len() == i,
            out@.len() == g_count(flatv, i as int),
            graft_ok(out@),
            forall|j: int| 0 <= j < i ==> #[trigger] stat_inv(statuses@, flatv, j),
            forall|j: int| 0 <= j < i ==> #[trigger] out_inv(out@, flatv, j),
        decreases flat@.len(),
    {
        let it = flat.remove(0);
        proof {
            assert(it == flatv[i as int]);
            assert(flat@ =~= flatv.skip(i + 1));
        }
        let ghost out0 = out@;
        let ghost stat0 = statuses@;
        let ghost iv = i as int;
        if i == 0 {
            statuses.push(EStat::Trans);
            proof {
                assert(g_stat(flatv, 0) is Trans);
            }
        } else if it.parent >= i {
            statuses.push(EStat::Skip);
            proof {
                assert(g_stat(flatv, iv) is Skip);
            }
        } else {
            let wrap = crate::dom::kind_is_wrapper(&it.kind);
            let pstat = &statuses[it.parent];
            proof {
                assert(stat_inv(stat0, flatv, it.parent as int));
            }
            match pstat {
                EStat::Trans => {
                    proof {
                        assert(g_stat(flatv, it.parent as int) is Trans);
                    }
                    if wrap {
                        statuses.push(EStat::Trans);
                        proof {
                            assert(g_stat(flatv, iv) is Trans);
                        }
                    } else {
                        let v = out.len();
                        out.push(GraftNode { kind: crate::dom::norm_kind(it.kind), parent: None });
                        statuses.push(EStat::Copied(v));
                        proof {
                            assert(g_stat(flatv, iv) is Copied);
                        }
                    }
                },
                EStat::Copied(pv) => {
                    let pv = *pv;
                    let v = out.len();
                    proof {
                        assert(g_stat(flatv, it.parent as int) is Copied);
                        assert(pv == g_count(flatv, it.parent as int));
                        lemma_gcount_mono(flatv, it.parent + 1, iv);
                        assert(pv < v);
                    }
                    out.push(GraftNode { kind: crate::dom::norm_kind(it.kind), parent: Some(pv) });
                    statuses.push(EStat::Copied(v));
                    proof {
                        assert(g_stat(flatv, iv) is Copied);
                    }
                },
                EStat::Skip => {
                    statuses.push(EStat::Skip);
                    proof {
                        assert(g_stat(flatv, iv) is Skip);
                    }
                },
            }
        }
        proof {
            assert(statuses@.len() == iv + 1);
            assert(forall|j: int| 0 <= j < iv ==> #[trigger] statuses@[j] == stat0[j]);
            assert(forall|j: int| 0 <= j < out0.len() ==> #[trigger] out@[j] == out0[j]);
            assert(g_count(flatv, iv + 1) == g_count(flatv, iv) + (if g_stat(flatv, iv)
                is Copied {
                1int
            } else {
                0int
            }));
            assert(out@.len() == g_count(flatv, iv + 1));
            assert forall|j: int| 0 <= j < iv + 1 implies #[trigger] stat_inv(
                statuses@,
                flatv,
                j,
            ) by {
                if j < iv {
                    assert(stat_inv(stat0, flatv, j));
                    assert(statuses@[j] == stat0[j]);
                }
            }
            assert forall|j: int| 0 <= j < iv + 1 implies #[trigger] out_inv(out@, flatv, j) by {
                if j < iv {
                    assert(out_inv(out0, flatv, j));
                    if g_stat(flatv, j) is Copied {
                        assert(out@[g_count(flatv, j)] == out0[g_count(flatv, j)]);
                    }
                }
            }
        }
        i = i + 1;
    }
    proof {
        assert(flatv.skip(i as int).len() == 0);
        assert(i == flatv.len());
        assert(forall|j: int| 0 <= j < flatv.len() ==> #[trigger] out_inv(out@, flatv, j));
        assert forall|j: int| 0 <= j < flatv.len() && #[trigger] g_stat(flatv, j) is Copied
            implies {
            &&& kind_rel(flatv[j].kind, out@[g_count(flatv, j)].kind)
            &&& out@[g_count(flatv, j)].parent == (if g_stat(flatv, flatv[j].parent as int)
                is Trans {
                Option::<usize>::None
            } else {
                Some(g_count(flatv, flatv[j].parent as int) as usize)
            })
        } by {
            assert(out_inv(out@, flatv, j));
        }
        assert(content_selection(flatv, out@)) by {
            reveal(content_selection);
        }
    }
    out
}

} // verus!
