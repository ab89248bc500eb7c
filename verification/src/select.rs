//! Selection: the base selector goes to the outside engine, the
//! `:contains` filters are evaluated here.
//!
//! The document is serialized with a synthetic key attribute on every
//! element; the engine reports matches by key, and the keys lead back to
//! tree nodes, which are then held against every stripped filter.

use vstd::prelude::*;
use crate::arena::{Arena, NodeEntry};
use crate::query::entries_for;
use crate::dom::{all_text, is_element, node_ok, nodes_ok, own_text_raw, NodeData};
use crate::provider::{matched_keys, sel_ok};
use crate::selector::{filter_pairs, strip_spec, ContainsFilter, ContainsKind};
use crate::ser::{key_value, ser_node};
use crate::text::{contains_seq, lower_of, norm_ws, words};

verus! {

broadcast use vstd::std_specs::vec::group_vec_axioms;

/// Whether element `i` satisfies one text-content filter.
pub open spec fn filter_holds(ns: Seq<NodeData>, i: int, kind: ContainsKind, search: Seq<char>) -> bool {
    match kind {
        ContainsKind::Contains => contains_seq(lower_of(norm_ws(all_text(ns, i))), search),
        ContainsKind::ContainsOwn => contains_seq(
            lower_of(norm_ws(own_text_raw(ns, i))),
            search,
        ),
        ContainsKind::WholeText => contains_seq(all_text(ns, i), search),
        ContainsKind::WholeOwnText => contains_seq(own_text_raw(ns, i), search),
        ContainsKind::ContainsData => contains_seq(lower_of(own_text_raw(ns, i)), search),
    }
}

/// Evaluates one text-content filter against node `i`.
pub fn matches_filter(filter: &ContainsFilter, ns: &Vec<NodeData>, i: usize) -> (r: bool)
    requires
        nodes_ok(ns@),
        i < ns@.len(),
    ensures
        r == filter_holds(ns@, i as int, filter.kind, filter.search_text@),
{
    let search = crate::text::chars_vec(filter.search_text.as_str());
    match filter.kind {
        ContainsKind::Contains => {
            let raw = crate::dom::subtree_text(ns, i);
            let n = crate::text::norm_ws_chars(&raw);
            let l = crate::text::to_lower_chars(&n);
            crate::text::contains_chars(&l, &search)
        },
        ContainsKind::ContainsOwn => {
            let raw = crate::dom::own_text_vec(ns, i);
            let n = crate::text::norm_ws_chars(&raw);
            let l = crate::text::to_lower_chars(&n);
            crate::text::contains_chars(&l, &search)
        },
        ContainsKind::WholeText => {
            let raw = crate::dom::subtree_text(ns, i);
            crate::text::contains_chars(&raw, &search)
        },
        ContainsKind::WholeOwnText => {
            let raw = crate::dom::own_text_vec(ns, i);
            crate::text::contains_chars(&raw, &search)
        },
        ContainsKind::ContainsData => {
            let raw = crate::dom::own_text_vec(ns, i);
            let l = crate::text::to_lower_chars(&raw);
            crate::text::contains_chars(&l, &search)
        },
    }
}

/// Whether `v` is `anc` itself or lies below it, following parent
/// links.
pub open spec fn in_subtree_spec(ns: Seq<NodeData>, anc: int, v: int) -> bool
    decreases (if 0 <= v { v } else { 0int }) when nodes_ok(ns) && 0 <= v < ns.len()
        via in_subtree_dec
{
    if v == anc {
        true
    } else {
        match ns[v].parent {
            Some(p) => in_subtree_spec(ns, anc, p as int),
            None => false,
        }
    }
}

#[via_fn]
proof fn in_subtree_dec(ns: Seq<NodeData>, anc: int, v: int) {
    if nodes_ok(ns) && 0 <= v < ns.len() && v != anc {
        assert(node_ok(ns, v));
    }
}

/// Whether `v` is `anc` itself or lies in `anc`'s subtree.
fn in_subtree(ns: &Vec<NodeData>, anc: usize, v: usize) -> (r: bool)
    requires
        nodes_ok(ns@),
        anc < ns@.len(),
        v < ns@.len(),
    ensures
        r == in_subtree_spec(ns@, anc as int, v as int),
{
    let mut cur = v;
    loop
        invariant
            nodes_ok(ns@),
            cur < ns@.len(),
            in_subtree_spec(ns@, anc as int, v as int) == in_subtree_spec(
                ns@,
                anc as int,
                cur as int,
            ),
        decreases cur,
    {
        if cur == anc {
            return true;
        }
        proof {
            assert(node_ok(ns@, cur as int));
        }
        match ns[cur].parent {
            Some(p) => {
                cur = p;
            },
            None => {
                return false;
            },
        }
    }
}

/// The scope test: no scope, or a valid scope node whose subtree holds
/// `v`.
pub open spec fn scope_ok(ns: Seq<NodeData>, scope: Option<int>, v: int) -> bool {
    match scope {
        Some(a) => 0 <= a < ns.len() && in_subtree_spec(ns, a, v),
        None => true,
    }
}

/// A reported key value names a selected node: in bounds, an element,
/// inside the scope, and satisfying every stripped filter.
pub open spec fn passes(
    ns: Seq<NodeData>,
    scope: Option<int>,
    fs: Seq<(ContainsKind, Seq<char>)>,
    v: int,
) -> bool {
    &&& 0 <= v < ns.len()
    &&& is_element(ns[v].kind)
    &&& scope_ok(ns, scope, v)
    &&& forall|j: int| 0 <= j < fs.len() ==> #[trigger] filter_holds(ns, v, fs[j].0, fs[j].1)
}

/// The selected node indices: the reported keys in order, each read as
/// a decimal index, kept when it passes the scope and filter tests.
pub open spec fn select_cands(
    ns: Seq<NodeData>,
    scope: Option<int>,
    keys: Seq<Seq<char>>,
    fs: Seq<(ContainsKind, Seq<char>)>,
) -> Seq<usize>
    decreases keys.len(),
{
    if keys.len() == 0 {
        Seq::<usize>::empty()
    } else {
        let rest = select_cands(ns, scope, keys.drop_last(), fs);
        match key_value(keys.last()) {
            Some(v) => if passes(ns, scope, fs, v) {
                rest.push(v as usize)
            } else {
                rest
            },
            None => rest,
        }
    }
}

/// The base selector handed to the engine: the stripped selector, or
/// the universal selector when nothing but whitespace remains.
pub open spec fn effective_sel(s: Seq<char>) -> Seq<char> {
    if words(strip_spec(s).0).len() == 0 {
        "*"@
    } else {
        strip_spec(s).0
    }
}

/// The document a select on `h` works in.
pub open spec fn select_doc_of(a: Arena, h: i64) -> i64 {
    if a.documents@.contains_key(h) {
        h
    } else {
        a.nodes@[h].doc_handle
    }
}

/// Select serves a live document handle, or a node handle of a live
/// document.
pub open spec fn select_serves(a: Arena, h: i64) -> bool {
    ||| a.documents@.contains_key(h)
    ||| (a.nodes@.contains_key(h) && a.documents@.contains_key(a.nodes@[h].doc_handle))
}

/// What a select on `h` stores: the document-wide matches, the matches
/// in an element node's subtree (the node itself included), or nothing
/// for any other node handle.
pub open spec fn select_result_ixs(a: Arena, h: i64, sel: Seq<char>) -> Seq<usize> {
    let dh = select_doc_of(a, h);
    let ns = a.documents@[dh].doc.nodes@;
    let keys = matched_keys(ser_node(ns, 0, true, false), effective_sel(sel));
    let fs = strip_spec(sel).1;
    if a.documents@.contains_key(h) {
        select_cands(ns, None, keys, fs)
    } else if a.node_resolves(h) && is_element(ns[a.node_ix(h)].kind) {
        select_cands(ns, Some(a.node_ix(h)), keys, fs)
    } else {
        Seq::<usize>::empty()
    }
}

impl Arena {
    /// The matching node indices for a selector over one document, in
    /// the engine's match order; `None` when the selector is rejected.
    fn select_ixs(&self, dh: i64, scope: Option<usize>, selector: &str) -> (r: Option<
        (Vec<usize>, Vec<ContainsFilter>)>)
        requires
            self.wf(),
            self.documents@.contains_key(dh),
        ensures
            r is Some <==> sel_ok(effective_sel(selector@)),
            r matches Some(p) ==> {
                let ns = self.documents@[dh].doc.nodes@;
                let keys = matched_keys(ser_node(ns, 0, true, false), effective_sel(selector@));
                let sscope = match scope {
                    Some(a) => Some(a as int),
                    None => None,
                };
                &&& p.0@ == select_cands(ns, sscope, keys, strip_spec(selector@).1)
                &&& filter_pairs(p.1@) == strip_spec(selector@).1
                &&& forall|j: int|
                    0 <= j < p.0@.len() ==> #[trigger] p.0@[j] < ns.len() && is_element(
                        ns[p.0@[j] as int].kind,
                    )
            },
    {
        let ghost sscope: Option<int> = match scope {
            Some(a) => Some(a as int),
            None => None,
        };
        let (base, filters) = crate::selector::strip_contains(selector);
        let ghost fsv = strip_spec(selector@).1;
        proof {
            assert(fsv == filter_pairs(filters@));
        }
        let bv = crate::text::chars_vec(base.as_str());
        let ws = crate::text::split_words(&bv);
        let eff: String = if ws.len() == 0 {
            String::from_str("*")
        } else {
            base
        };
        proof {
            assert(eff@ == effective_sel(selector@));
        }
        let d = match self.with_doc(dh) {
            Some(d) => d,
            None => {
                return None;
            },
        };
        proof {
            assert(self.documents@.contains_key(dh));
            assert(d.doc.wf());
        }
        let keyed = crate::ser::serialize_node(&d.doc.nodes, 0, true);
        let src = crate::text::string_from_chars(&keyed);
        let keys = match crate::provider::query_keys(src.as_str(), eff.as_str()) {
            Some(ks) => ks,
            None => {
                return None;
            },
        };
        let ghost nsv = self.documents@[dh].doc.nodes@;
        let ghost keysv = keys.deep_view();
        proof {
            assert(keysv == matched_keys(ser_node(nsv, 0, true, false), effective_sel(
                selector@,
            )));
        }
        let mut out: Vec<usize> = Vec::new();
        let mut k: usize = 0;
        while k < keys.len()
            invariant
                self.wf(),
                self.documents@.contains_key(dh),
                d == self.documents@[dh],
                nsv == self.documents@[dh].doc.nodes@,
                sscope == (match scope {
                    Some(a) => Some(a as int),
                    None => None,
                }),
                keysv == keys.deep_view(),
                keys.len() == keysv.len(),
                fsv == filter_pairs(filters@),
                k <= keysv.len(),
                out@ == select_cands(nsv, sscope, keysv.take(k as int), fsv),
                forall|j: int| 0 <= j < out@.len() ==> #[trigger] out@[j] < nsv.len()
                    && is_element(nsv[out@[j] as int].kind),
            decreases keysv.len() - k,
        {
            let ghost out0 = out@;
            let kv = crate::text::chars_vec(keys[k].as_str());
            proof {
                assert(keysv[k as int] == keys@[k as int].deep_view());
                assert(kv@ == keysv[k as int]);
            }
            match crate::ser::parse_key(&kv) {
                Some(v) => {
                    if v < d.doc.nodes.len() {
                        if crate::api::kind_is_element(&d.doc.nodes[v].kind) {
                            let in_scope = match scope {
                                Some(anc) => {
                                    if anc < d.doc.nodes.len() {
                                        in_subtree(&d.doc.nodes, anc, v)
                                    } else {
                                        false
                                    }
                                },
                                None => true,
                            };
                            proof {
                                assert(in_scope == scope_ok(nsv, sscope, v as int));
                            }
                            if in_scope {
                                let mut ok = true;
                                let mut f: usize = 0;
                                while f < filters.len()
                                    invariant_except_break
                                        ok,
                                    invariant
                                        self.wf(),
                                        self.documents@.contains_key(dh),
                                        d == self.documents@[dh],
                                        nsv == self.documents@[dh].doc.nodes@,
                                        fsv == filter_pairs(filters@),
                                        filters.len() == fsv.len(),
                                        v < nsv.len(),
                                        f <= fsv.len(),
                                        forall|j: int|
                                            0 <= j < f ==> #[trigger] filter_holds(
                                                nsv,
                                                v as int,
                                                fsv[j].0,
                                                fsv[j].1,
                                            ),
                                    ensures
                                        ok == (forall|j: int|
                                            0 <= j < fsv.len() ==> #[trigger] filter_holds(
                                                nsv,
                                                v as int,
                                                fsv[j].0,
                                                fsv[j].1,
                                            )),
                                    decreases fsv.len() - f,
                                {
                                    if !matches_filter(&filters[f], &d.doc.nodes, v) {
                                        proof {
                                            assert(!filter_holds(
                                                nsv,
                                                v as int,
                                                fsv[f as int].0,
                                                fsv[f as int].1,
                                            ));
                                        }
                                        ok = false;
                                        break ;
                                    }
                                    f = f + 1;
                                }
                                proof {
                                    assert(ok == passes(nsv, sscope, fsv, v as int));
                                }
                                if ok {
                                    out.push(v);
                                }
                            }
                        }
                    }
                },
                None => {},
            }
            k = k + 1;
            proof {
                assert(keysv.take(k as int).drop_last() =~= keysv.take(k - 1));
                assert(keysv.take(k as int).last() == keysv[k - 1]);
                assert(out@ == select_cands(nsv, sscope, keysv.take(k as int), fsv));
            }
        }
        proof {
            assert(keysv.take(keysv.len() as int) =~= keysv);
        }
        Some((out, filters))
    }

    pub fn scraper_select(&mut self, handle: i64, selector: &str) -> (r: i64)
        requires
            old(self).wf(),
        ensures
            final(self).wf(),
            final(self).documents@ == old(self).documents@,
            final(self).nodes@ == old(self).nodes@,
            r == -1 || r >= 1,
            !select_serves(*old(self), handle) ==> r == -1 && final(self).node_lists@ == old(
                self,
            ).node_lists@,
            select_serves(*old(self), handle) && !sel_ok(effective_sel(selector@)) ==> r == -1
                && final(self).node_lists@ == old(self).node_lists@,
            select_serves(*old(self), handle) && sel_ok(effective_sel(selector@)) ==> {
                &&& (old(self).next < i64::MAX ==> r >= 1)
                &&& (r >= 1 ==> !old(self).node_lists@.contains_key(r) && final(self).node_lists@.dom() =~= old(self).node_lists@.dom().insert(r) && (forall|k: i64|
                    #[trigger] old(self).node_lists@.contains_key(k) ==> final(self).node_lists@[k] == old(self).node_lists@[k]) && final(self).node_lists@[r]@
                    == entries_for(
                    select_result_ixs(*old(self), handle, selector@),
                    select_doc_of(*old(self), handle),
                ))
                &&& (r == -1 ==> final(self).node_lists@ == old(self).node_lists@)
            },
    {
        let picked: Option<(Vec<usize>, i64)> = if self.is_document(handle) {
            match self.select_ixs(handle, None, selector) {
                Some((ixs, _)) => Some((ixs, handle)),
                None => None,
            }
        } else {
            match self.get_node(handle) {
                Some(entry) => {
                    if self.is_document(entry.doc_handle) {
                        let is_elem = match self.with_node_doc(handle) {
                            Some((e2, d)) => {
                                if e2.node_id < d.doc.nodes.len() {
                                    crate::api::kind_is_element(&d.doc.nodes[e2.node_id].kind)
                                } else {
                                    false
                                }
                            },
                            None => false,
                        };
                        if is_elem {
                            match self.select_ixs(
                                entry.doc_handle,
                                Some(entry.node_id),
                                selector,
                            ) {
                                Some((ixs, _)) => Some((ixs, entry.doc_handle)),
                                None => None,
                            }
                        } else {
                            match self.select_ixs(entry.doc_handle, None, selector) {
                                Some(_) => Some((Vec::new(), entry.doc_handle)),
                                None => None,
                            }
                        }
                    } else {
                        None
                    }
                },
                None => None,
            }
        };
        let ghost a0 = *self;
        let ghost ixs_spec = select_result_ixs(a0, handle, selector@);
        let ghost dh_spec = select_doc_of(a0, handle);
        match picked {
            Some((ixs, dh)) => {
                proof {
                    assert(dh == dh_spec);
                    assert(ixs@ == ixs_spec);
                }
                let ghost ixsv = ixs@;
                let mut entries: Vec<NodeEntry> = Vec::new();
                let mut k: usize = 0;
                while k < ixs.len()
                    invariant
                        ixs@ == ixsv,
                        k <= ixsv.len(),
                        entries@ == entries_for(ixsv.take(k as int), dh),
                    decreases ixsv.len() - k,
                {
                    entries.push(NodeEntry { node_id: ixs[k], doc_handle: dh, is_text: false });
                    k = k + 1;
                    proof {
                        assert(entries@ =~= entries_for(ixsv.take(k as int), dh));
                    }
                }
                proof {
                    assert(ixsv.take(ixsv.len() as int) =~= ixsv);
                }
                let r = self.store_node_list(entries);
                proof {
                    if r >= 1 {
                        assert(self.node_lists@.dom() =~= a0.node_lists@.dom().insert(r));
                    }
                }
                r
            },
            None => -1,
        }
    }

    /// Select serves a first-match query on a live document handle or a
    /// resolving element-node handle; any other node answers `-1`.
    pub open spec fn select_first_serves(self, h: i64) -> bool {
        ||| self.documents@.contains_key(h)
        ||| (self.nodes@.contains_key(h) && self.documents@.contains_key(
            self.nodes@[h].doc_handle,
        ) && self.node_resolves(h) && is_element(self.node_doc(h)[self.node_ix(h)].kind))
    }

    /// Selects the first match of the composite selector as a fresh node
    /// handle; `-1` when nothing matches, the selector is rejected, or
    /// the handle is dangling or not selectable.
    pub fn scraper_select_first(&mut self, handle: i64, selector: &str) -> (r: i64)
        requires
            old(self).wf(),
        ensures
            final(self).wf(),
            final(self).documents@ == old(self).documents@,
            final(self).node_lists@ == old(self).node_lists@,
            r == -1 || r >= 1,
            !old(self).select_first_serves(handle) ==> r == -1 && final(self).nodes@ == old(
                self,
            ).nodes@,
            old(self).select_first_serves(handle) && !sel_ok(effective_sel(selector@)) ==> r
                == -1 && final(self).nodes@ == old(self).nodes@,
            old(self).select_first_serves(handle) && sel_ok(effective_sel(selector@)) ==> {
                let ixs = select_result_ixs(*old(self), handle, selector@);
                &&& (ixs.len() == 0 ==> r == -1 && final(self).nodes@ == old(self).nodes@)
                &&& (ixs.len() > 0 ==> {
                    &&& (old(self).next < i64::MAX ==> r >= 1)
                    &&& (r >= 1 ==> !old(self).nodes@.contains_key(r) && final(self).nodes@
                        =~= old(self).nodes@.insert(
                        r,
                        NodeEntry {
                            node_id: ixs[0],
                            doc_handle: select_doc_of(*old(self), handle),
                            is_text: false,
                        },
                    ) && final(self).node_resolves(r) && is_element(
                        final(self).node_doc(r)[final(self).node_ix(r)].kind,
                    ))
                    &&& (r == -1 ==> final(self).nodes@ == old(self).nodes@)
                })
            },
    {
        let picked: Option<(Vec<usize>, i64)> = if self.is_document(handle) {
            match self.select_ixs(handle, None, selector) {
                Some((ixs, _)) => Some((ixs, handle)),
                None => None,
            }
        } else {
            match self.get_node(handle) {
                Some(entry) => {
                    if self.is_document(entry.doc_handle) {
                        let is_elem = match self.with_node_doc(handle) {
                            Some((e2, d)) => {
                                if e2.node_id < d.doc.nodes.len() {
                                    crate::api::kind_is_element(&d.doc.nodes[e2.node_id].kind)
                                } else {
                                    false
                                }
                            },
                            None => false,
                        };
                        if is_elem {
                            match self.select_ixs(
                                entry.doc_handle,
                                Some(entry.node_id),
                                selector,
                            ) {
                                Some((ixs, _)) => Some((ixs, entry.doc_handle)),
                                None => None,
                            }
                        } else {
                            None
                        }
                    } else {
                        None
                    }
                },
                None => None,
            }
        };
        let ghost a0 = *self;
        match picked {
            Some((ixs, dh)) => {
                proof {
                    assert(dh == select_doc_of(a0, handle));
                    assert(ixs@ == select_result_ixs(a0, handle, selector@));
                }
                if ixs.len() > 0 {
                    let v = ixs[0];
                    self.store_node(NodeEntry { node_id: v, doc_handle: dh, is_text: false })
                } else {
                    -1
                }
            },
            None => -1,
        }
    }

}

} // verus!
