//! The outside collaborators: HTML parsing and base-selector matching
//! from the `scraper` crate, URL joining from the `url` crate.
//!
//! Each wrapper makes one call and converts its result to plain values;
//! everything that decides or transforms afterwards is verified code
//! that takes these results as arguments.

use vstd::prelude::*;
use crate::attrs::Attr;
use crate::dom::{FlatNode, NodeKind};

verus! {

#[verifier::external_type_specification]
#[verifier::external_body]
#[verifier::reject_recursive_types(T)]
pub struct ExNodeRef<'a, T: 'a>(ego_tree::NodeRef<'a, T>);

#[verifier::external_type_specification]
#[verifier::external_body]
pub struct ExScraperNode(scraper::Node);

#[verifier::external_type_specification]
#[verifier::external_body]
pub struct ExScraperElement(scraper::node::Element);

/// Relies on `scraper::node::Element`: reads the tag name and the
/// attribute pairs out of a parsed element, converting each to plain
/// characters.
#[verifier::external_body]
fn convert_element(e: &scraper::node::Element) -> NodeKind {
    NodeKind::Element {
        name: e.name().chars().collect(),
        attrs: e.attrs().map(
            |(k, v)| Attr { name: k.chars().collect(), value: v.chars().collect() },
        ).collect(),
    }
}

/// Relies on `scraper::Node`: tells the parser's node variants apart,
/// moving each field into the library's own kind.
#[verifier::external_body]
fn convert_node(v: &scraper::Node) -> NodeKind {
    match v {
        scraper::Node::Document => NodeKind::Document,
        scraper::Node::Fragment => NodeKind::Fragment,
        scraper::Node::Doctype(d) => NodeKind::Doctype { name: d.name().chars().collect() },
        scraper::Node::Comment(c) => NodeKind::Comment { text: c.comment.chars().collect() },
        scraper::Node::Text(t) => NodeKind::Text { text: t.text.chars().collect() },
        scraper::Node::Element(e) => convert_element(e),
        scraper::Node::ProcessingInstruction(_) => NodeKind::Other,
    }
}

/// Relies on `ego_tree::NodeRef`: walks a parsed tree depth-first with
/// an explicit work list — the input's nesting depth must not bound the
/// machine stack — converting every node and recording each parent's
/// position.
#[verifier::external_body]
fn flatten_into(n: ego_tree::NodeRef<'_, scraper::Node>, parent: usize, out: &mut Vec<FlatNode>) {
    let mut work = vec![(n, parent)];
    while let Some((cur, par)) = work.pop() {
        let idx = out.len();
        out.push(FlatNode { kind: convert_node(cur.value()), parent: par });
        for c in cur.children().rev() {
            work.push((c, idx));
        }
    }
}

/// What document parsing yields for a given input, flattened: a
/// function of the HTML text alone.
pub uninterp spec fn document_flat_of(html: Seq<char>) -> Seq<FlatNode>;

/// What fragment parsing yields for a given input, flattened: a
/// function of the HTML text alone.
pub uninterp spec fn fragment_flat_of(html: Seq<char>) -> Seq<FlatNode>;

/// Relies on `scraper::Html::parse_document`: parses HTML and hands the
/// tree over in flattened form, the root first; parsing is a function
/// of the input text alone.
#[verifier::external_body]
pub fn parse_document_flat(html: &str) -> (r: Vec<FlatNode>)
    ensures
        r@ == document_flat_of(html@),
{
    let doc = scraper::Html::parse_document(html);
    let mut out = Vec::new();
    flatten_into(doc.tree.root(), 0, &mut out);
    out
}

/// Relies on `scraper::Html::parse_fragment`: parses an HTML fragment
/// and hands the tree over in flattened form, the root first; parsing
/// is a function of the input text alone.
#[verifier::external_body]
pub fn parse_fragment_flat(html: &str) -> (r: Vec<FlatNode>)
    ensures
        r@ == fragment_flat_of(html@),
{
    let doc = scraper::Html::parse_fragment(html);
    let mut out = Vec::new();
    flatten_into(doc.tree.root(), 0, &mut out);
    out
}

/// Whether `scraper::Selector::parse` accepts a selector text.
pub uninterp spec fn sel_ok(sel: Seq<char>) -> bool;

/// What the selector engine reports for a keyed document: the key
/// attribute values of the matching elements, in the engine's match
/// order (node-creation order of the parsed copy).
pub uninterp spec fn matched_keys(src: Seq<char>, sel: Seq<char>) -> Seq<Seq<char>>;

/// Relies on `scraper::Selector::parse` and `scraper::Html::select`:
/// parses `src`, matches `sel` against every element, and reports each
/// match by its synthetic key attribute.  `None` exactly when the
/// selector text is rejected.
#[verifier::external_body]
pub fn query_keys(src: &str, sel: &str) -> (r: Option<Vec<String>>)
    ensures
        r is Some <==> sel_ok(sel@),
        r matches Some(v) ==> v.deep_view() == matched_keys(src@, sel@),
{
    let s = match scraper::Selector::parse(sel) {
        Ok(s) => s,
        Err(_) => return None,
    };
    let doc = scraper::Html::parse_document(src);
    let mut out = Vec::new();
    for el in doc.select(&s) {
        if let Some(v) = el.attr("data-vkey") {
            out.push(v.to_string());
        }
    }
    Some(out)
}

/// Whether `url::Url::parse` accepts a text as an absolute URL.
pub uninterp spec fn url_ok(s: Seq<char>) -> bool;

/// The normalized form `url::Url::parse` gives an accepted URL.
pub uninterp spec fn url_normal(s: Seq<char>) -> Seq<char>;

/// Whether `base` parses as a URL and `rel` joins against it.
pub uninterp spec fn url_join_ok(base: Seq<char>, rel: Seq<char>) -> bool;

/// The result of joining `rel` against `base`.
pub uninterp spec fn url_joined(base: Seq<char>, rel: Seq<char>) -> Seq<char>;

/// Relies on `url::Url::parse`: `Some` of the normalized URL exactly
/// when the text parses as an absolute URL.
#[verifier::external_body]
pub fn parse_url_abs(s: &str) -> (r: Option<String>)
    ensures
        r is Some <==> url_ok(s@),
        r matches Some(u) ==> u@ == url_normal(s@),
{
    match url::Url::parse(s) {
        Ok(u) => Some(u.as_str().to_string()),
        Err(_) => None,
    }
}

/// Relies on `url::Url::parse` and `url::Url::join`: `Some` of the
/// resolved URL exactly when the base parses and the join succeeds.
#[verifier::external_body]
pub fn join_url(base: &str, rel: &str) -> (r: Option<String>)
    ensures
        r is Some <==> url_join_ok(base@, rel@),
        r matches Some(u) ==> u@ == url_joined(base@, rel@),
{
    match url::Url::parse(base) {
        Ok(b) => match b.join(rel) {
            Ok(j) => Some(j.as_str().to_string()),
            Err(_) => None,
        },
        Err(_) => None,
    }
}

} // verus!
