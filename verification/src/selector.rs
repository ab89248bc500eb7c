//! The `:contains`-family selector extension.
//!
//! A selector string may carry text-content pseudo-selectors that the base
//! selector engine does not know.  [`strip_contains`] removes every such
//! occurrence, longest prefix first, and returns the remaining base selector
//! together with the extracted filters.

use vstd::prelude::*;
use crate::text::{
    chars_vec, contains_seq, find_chars, is_sub_at, lower_of, norm_ws, norm_ws_chars,
    string_from_chars, to_lower_chars,
};

verus! {

broadcast use vstd::std_specs::vec::group_vec_axioms;

/// The kind of a text-content pseudo-selector.
#[derive(Clone, Copy, Debug, PartialEq, Eq, Structural)]
pub enum ContainsKind {
    /// `:contains(text)`: case-insensitive, whitespace-normalized, all text.
    Contains,
    /// `:containsOwn(text)`: case-insensitive, whitespace-normalized, own text.
    ContainsOwn,
    /// `:containsWholeText(text)`: case-sensitive, raw, all text.
    WholeText,
    /// `:containsWholeOwnText(text)`: case-sensitive, raw, own text.
    WholeOwnText,
    /// `:containsData(text)`: case-insensitive, raw, own data.
    ContainsData,
}

/// A parsed text-content pseudo-selector: its kind and the already
/// normalized search text.
pub struct ContainsFilter {
    /// The search text, normalized as the kind demands.
    pub search_text: String,
    /// Which pseudo-selector this came from.
    pub kind: ContainsKind,
}

impl ContainsFilter {
    /// The filter as a pair of plain values.
    pub open spec fn view_pair(&self) -> (ContainsKind, Seq<char>) {
        (self.kind, self.search_text@)
    }
}

/// The pseudo-selector prefixes, longest-matching first, so that a longer
/// name is never shadowed by a shorter prefix of itself.
pub open spec fn prefix_seq(k: int) -> Seq<char> {
    if k == 0 {
        ":containsWholeOwnText("@
    } else if k == 1 {
        ":containsWholeText("@
    } else if k == 2 {
        ":containsData("@
    } else if k == 3 {
        ":containsOwn("@
    } else {
        ":contains("@
    }
}

/// The filter kind belonging to prefix `k`.
pub open spec fn kind_seq(k: int) -> ContainsKind {
    if k == 0 {
        ContainsKind::WholeOwnText
    } else if k == 1 {
        ContainsKind::WholeText
    } else if k == 2 {
        ContainsKind::ContainsData
    } else if k == 3 {
        ContainsKind::ContainsOwn
    } else {
        ContainsKind::Contains
    }
}

/// The search text of a filter of kind `kind`, normalized from the raw
/// text between the parentheses.
pub open spec fn filter_text(kind: ContainsKind, raw: Seq<char>) -> Seq<char> {
    match kind {
        ContainsKind::Contains => lower_of(norm_ws(raw)),
        ContainsKind::ContainsOwn => lower_of(norm_ws(raw)),
        ContainsKind::ContainsData => lower_of(raw),
        ContainsKind::WholeText => raw,
        ContainsKind::WholeOwnText => raw,
    }
}

/// The position of the first occurrence of `p` in `s`, if any.
pub open spec fn find_first(s: Seq<char>, p: Seq<char>) -> Option<int> {
    if contains_seq(s, p) {
        Some(
            choose|i: int|
                is_sub_at(s, p, i) && (forall|k: int| 0 <= k < i ==> !is_sub_at(s, p, k)),
        )
    } else {
        None
    }
}

/// A position that matches and is minimal is the first occurrence.
pub proof fn lemma_find_first(s: Seq<char>, p: Seq<char>, i: int)
    requires
        is_sub_at(s, p, i),
        forall|k: int| 0 <= k < i ==> !is_sub_at(s, p, k),
    ensures
        find_first(s, p) == Some(i),
{
    let j = choose|j: int|
        is_sub_at(s, p, j) && (forall|k: int| 0 <= k < j ==> !is_sub_at(s, p, k));
    assert(is_sub_at(s, p, i));
    assert(!(j < i) && !(i < j));
}

/// The position of the parenthesis that closes the text starting at `i`,
/// tracking nesting depth.
pub open spec fn find_close(s: Seq<char>, i: int, depth: int) -> Option<int>
    decreases s.len() - i,
{
    if i < 0 || i >= s.len() {
        None
    } else if s[i] == '(' {
        find_close(s, i + 1, depth + 1)
    } else if s[i] == ')' && depth > 0 {
        find_close(s, i + 1, depth - 1)
    } else if s[i] == ')' {
        Some(i)
    } else {
        find_close(s, i + 1, depth)
    }
}

/// A found closing parenthesis lies at or after the start, inside the text.
pub proof fn lemma_find_close_bounds(s: Seq<char>, i: int, depth: int)
    requires
        find_close(s, i, depth) is Some,
    ensures
        i <= find_close(s, i, depth)->Some_0 < s.len(),
    decreases s.len() - i,
{
    if 0 <= i < s.len() {
        if s[i] == '(' {
            lemma_find_close_bounds(s, i + 1, depth + 1);
        } else if s[i] == ')' && depth > 0 {
            lemma_find_close_bounds(s, i + 1, depth - 1);
        } else if s[i] == ')' {
        } else {
            lemma_find_close_bounds(s, i + 1, depth);
        }
    }
}

/// Finds the closing parenthesis in a character vector, scanning from
/// `from` with nesting depth 0.
pub fn find_close_chars(s: &Vec<char>, from: usize) -> (r: Option<usize>)
    ensures
        match r {
            Some(e) => find_close(s@, from as int, 0) == Some(e as int),
            None => find_close(s@, from as int, 0) is None,
        },
{
    let mut i: usize = from;
    let mut depth: usize = 0;
    while i < s.len()
        invariant
            s.len() == s@.len(),
            from <= i,
            depth <= i,
            find_close(s@, from as int, 0) == find_close(s@, i as int, depth as int),
        decreases s@.len() - i,
    {
        let c = s[i];
        if c == '(' {
            depth = depth + 1;
        } else if c == ')' {
            if depth == 0 {
                return Some(i);
            }
            depth = depth - 1;
        }
        i = i + 1;
    }
    None
}

/// Finds the parenthesis that closes the text beginning at the start of
/// `s`, honouring nested parentheses inside the text.
pub fn find_closing_paren(s: &str) -> (r: Option<usize>)
    ensures
        match r {
            Some(e) => find_close(s@, 0, 0) == Some(e as int),
            None => find_close(s@, 0, 0) is None,
        },
{
    let v = chars_vec(s);
    find_close_chars(&v, 0)
}

/// The first pseudo-selector occurrence to strip: tries the prefixes in
/// order and yields the prefix index, its position, and the position of
/// the balancing close paren.
pub open spec fn strip_find(s: Seq<char>, k: int) -> Option<(int, int, int)>
    decreases 5 - k,
{
    if k < 0 || k >= 5 {
        None
    } else {
        match find_first(s, prefix_seq(k)) {
            Some(st) => match find_close(s, st + prefix_seq(k).len(), 0) {
                Some(e) => Some((k, st, e)),
                None => strip_find(s, k + 1),
            },
            None => strip_find(s, k + 1),
        }
    }
}

/// The result of stripping every text-content pseudo-selector from `s`:
/// the remaining base selector and the extracted filters, in extraction
/// order.
pub open spec fn strip_spec(s: Seq<char>) -> (Seq<char>, Seq<(ContainsKind, Seq<char>)>)
    decreases s.len(),
{
    match strip_find(s, 0) {
        None => (s, Seq::<(ContainsKind, Seq<char>)>::empty()),
        Some((k, st, e)) => {
            let raw = s.subrange(st + prefix_seq(k).len(), e);
            let base = s.subrange(0, st) + s.subrange(e + 1, s.len() as int);
            let f = (kind_seq(k), filter_text(kind_seq(k), raw));
            if base.len() < s.len() {
                let rest = strip_spec(base);
                (rest.0, seq![f] + rest.1)
            } else {
                (base, seq![f])
            }
        },
    }
}

/// The filters of a filter vector, as pairs of plain values.
pub open spec fn filter_pairs(fs: Seq<ContainsFilter>) -> Seq<(ContainsKind, Seq<char>)> {
    Seq::new(fs.len(), |i: int| fs[i].view_pair())
}

/// A copy of `s[from..to]`.
fn sub_chars(s: &Vec<char>, from: usize, to: usize) -> (r: Vec<char>)
    requires
        from <= to <= s@.len(),
    ensures
        r@ == s@.subrange(from as int, to as int),
{
    let mut r: Vec<char> = Vec::new();
    let mut i: usize = from;
    while i < to
        invariant
            s.len() == s@.len(),
            from <= i <= to <= s@.len(),
            r@ == s@.subrange(from as int, i as int),
        decreases to - i,
    {
        r.push(s[i]);
        i = i + 1;
        proof {
            assert(s@.subrange(from as int, i as int) =~= s@.subrange(from as int, i - 1).push(
                s@[i - 1],
            ));
        }
    }
    r
}

/// One executable search step: mirrors [`strip_find`] over the prefix list.
fn strip_find_chars(s: &Vec<char>) -> (r: Option<(usize, usize, usize)>)
    ensures
        match r {
            Some(t) => {
                &&& strip_find(s@, 0) == Some((t.0 as int, t.1 as int, t.2 as int))
                &&& t.0 < 5
                &&& t.1 + prefix_seq(t.0 as int).len() <= s@.len()
                &&& find_close(s@, t.1 + prefix_seq(t.0 as int).len(), 0) == Some(t.2 as int)
            },
            None => strip_find(s@, 0) is None,
        },
{
    let mut k: usize = 0;
    while k < 5
        invariant
            k <= 5,
            strip_find(s@, 0) == strip_find(s@, k as int),
        decreases 5 - k,
    {
        let prefix: Vec<char> = if k == 0 {
            chars_vec(":containsWholeOwnText(")
        } else if k == 1 {
            chars_vec(":containsWholeText(")
        } else if k == 2 {
            chars_vec(":containsData(")
        } else if k == 3 {
            chars_vec(":containsOwn(")
        } else {
            chars_vec(":contains(")
        };
        assert(prefix@ == prefix_seq(k as int));
        match find_chars(s, &prefix) {
            Some(st) => {
                proof {
                    lemma_find_first(s@, prefix@, st as int);
                    assert(st + prefix@.len() <= s.len());
                }
                match find_close_chars(s, st + prefix.len()) {
                    Some(e) => {
                        return Some((k, st, e));
                    },
                    None => {},
                }
            },
            None => {},
        }
        k = k + 1;
    }
    None
}

/// Strips every `:contains`-family pseudo-selector from a CSS selector
/// string.  Returns the remaining base selector and the filters, in
/// extraction order; an element matches the composite selector only if it
/// matches the base selector and every filter.
pub fn strip_contains(sel_str: &str) -> (r: (String, Vec<ContainsFilter>))
    ensures
        r.0@ == strip_spec(sel_str@).0,
        filter_pairs(r.1@) == strip_spec(sel_str@).1,
{
    let ghost s0 = sel_str@;
    let mut remaining = chars_vec(sel_str);
    let mut filters: Vec<ContainsFilter> = Vec::new();
    loop
        invariant
            strip_spec(s0).0 == strip_spec(remaining@).0,
            strip_spec(s0).1 == filter_pairs(filters@) + strip_spec(remaining@).1,
        ensures
            strip_spec(s0).0 == remaining@,
            strip_spec(s0).1 == filter_pairs(filters@),
        decreases remaining@.len(),
    {
        let ghost rem0 = remaining@;
        match strip_find_chars(&remaining) {
            None => {
                proof {
                    assert(strip_spec(rem0).0 == rem0);
                    assert(filter_pairs(filters@) + strip_spec(rem0).1 =~= filter_pairs(
                        filters@,
                    ));
                }
                break;
            },
            Some((k, st, e)) => {
                proof {
                    lemma_find_close_bounds(rem0, st + prefix_seq(k as int).len(), 0);
                }
                let plen: usize = if k == 0 {
                    22
                } else if k == 1 {
                    19
                } else if k == 2 {
                    14
                } else if k == 3 {
                    13
                } else {
                    10
                };
                proof {
                    reveal_strlit(":containsWholeOwnText(");
                    reveal_strlit(":containsWholeText(");
                    reveal_strlit(":containsData(");
                    reveal_strlit(":containsOwn(");
                    reveal_strlit(":contains(");
                    assert(plen == prefix_seq(k as int).len());
                }
                let raw = sub_chars(&remaining, st + plen, e);
                let kind = if k == 0 {
                    ContainsKind::WholeOwnText
                } else if k == 1 {
                    ContainsKind::WholeText
                } else if k == 2 {
                    ContainsKind::ContainsData
                } else if k == 3 {
                    ContainsKind::ContainsOwn
                } else {
                    ContainsKind::Contains
                };
                assert(kind == kind_seq(k as int));
                let search: Vec<char> = match kind {
                    ContainsKind::Contains => to_lower_chars(&norm_ws_chars(&raw)),
                    ContainsKind::ContainsOwn => to_lower_chars(&norm_ws_chars(&raw)),
                    ContainsKind::ContainsData => to_lower_chars(&raw),
                    ContainsKind::WholeText => raw,
                    ContainsKind::WholeOwnText => raw,
                };
                assert(search@ == filter_text(kind, rem0.subrange(st + plen, e as int)));
                proof {
                    assert(remaining@.len() == remaining.len());
                    assert(e < remaining@.len());
                }
                let mut base = sub_chars(&remaining, 0, st);
                let tail = sub_chars(&remaining, e + 1, remaining.len());
                let mut tail = tail;
                base.append(&mut tail);
                let ghost fs0 = filters@;
                filters.push(ContainsFilter { search_text: string_from_chars(&search), kind });
                remaining = base;
                proof {
                    assert(remaining@ == rem0.subrange(0, st as int) + rem0.subrange(
                        e + 1,
                        rem0.len() as int,
                    ));
                    assert(remaining@.len() < rem0.len());
                    let f = (kind_seq(k as int), filter_text(
                        kind_seq(k as int),
                        rem0.subrange(st + plen, e as int),
                    ));
                    assert(strip_spec(rem0).0 == strip_spec(remaining@).0);
                    assert(strip_spec(rem0).1 == seq![f] + strip_spec(remaining@).1);
                    assert(filter_pairs(filters@) =~= filter_pairs(fs0).push(f));
                    assert(filter_pairs(fs0) + (seq![f] + strip_spec(remaining@).1) =~= (
                    filter_pairs(fs0).push(f)) + strip_spec(remaining@).1);
                }
            },
        }
    }
    let base_str = string_from_chars(&remaining);
    (base_str, filters)
}

} // verus!
