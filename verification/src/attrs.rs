//! Sorted attribute lists.
//!
//! An element's attributes are kept sorted by name, so lookup, insertion
//! and removal can binary-search for the position.  The model of a list is
//! the partial function [`attr_get`] from names to values; strict sorting
//! makes names unique.

use vstd::prelude::*;

verus! {

broadcast use vstd::std_specs::vec::group_vec_axioms;

/// One attribute: a name and a value.
pub struct Attr {
    /// The attribute name.
    pub name: Vec<char>,
    /// The attribute value.
    pub value: Vec<char>,
}

/// Strict lexicographic order on character sequences, by code point.
pub open spec fn lex_lt(a: Seq<char>, b: Seq<char>) -> bool
    decreases a.len(),
{
    if b.len() == 0 {
        false
    } else if a.len() == 0 {
        true
    } else if a[0] != b[0] {
        a[0] < b[0]
    } else {
        lex_lt(a.skip(1), b.skip(1))
    }
}

/// Of two distinct sequences, exactly one is lexicographically smaller.
pub proof fn lemma_lex_connex(a: Seq<char>, b: Seq<char>)
    ensures
        lex_lt(a, b) || lex_lt(b, a) || a == b,
        lex_lt(a, b) ==> !lex_lt(b, a) && a != b,
        lex_lt(b, a) ==> !lex_lt(a, b) && a != b,
    decreases a.len(),
{
    if a.len() == 0 && b.len() == 0 {
        assert(a =~= b);
    } else if a.len() == 0 {
        assert(lex_lt(a, b));
    } else if b.len() == 0 {
        assert(lex_lt(b, a));
    } else {
        lemma_lex_connex(a.skip(1), b.skip(1));
        if a[0] == b[0] {
            if a.skip(1) == b.skip(1) {
                assert(a =~= seq![a[0]] + a.skip(1));
                assert(b =~= seq![b[0]] + b.skip(1));
                assert(a == b);
            }
            if a == b {
                assert(a.skip(1) =~= b.skip(1));
            }
        } else {
            assert(a != b) by {
                if a == b {
                    assert(a[0] == b[0]);
                }
            }
        }
    }
}

/// Lexicographic order is transitive.
pub proof fn lemma_lex_trans(a: Seq<char>, b: Seq<char>, c: Seq<char>)
    requires
        lex_lt(a, b),
        lex_lt(b, c),
    ensures
        lex_lt(a, c),
    decreases a.len(),
{
    if a.len() == 0 {
        assert(b.len() > 0);
    } else {
        assert(b.len() > 0 && c.len() > 0);
        if a[0] == b[0] && b[0] == c[0] {
            lemma_lex_trans(a.skip(1), b.skip(1), c.skip(1));
        }
    }
}

/// Compares two character vectors lexicographically: `-1`, `0` or `1`.
pub fn lex_cmp(a: &Vec<char>, b: &Vec<char>) -> (r: i8)
    ensures
        r == -1i8 || r == 0i8 || r == 1i8,
        r == -1i8 <==> lex_lt(a@, b@),
        r == 0i8 <==> a@ == b@,
        r == 1i8 <==> lex_lt(b@, a@),
{
    proof {
        lemma_lex_connex(a@, b@);
        assert(a@.skip(0) =~= a@);
        assert(b@.skip(0) =~= b@);
    }
    let mut i: usize = 0;
    loop
        invariant
            i <= a@.len(),
            i <= b@.len(),
            forall|k: int| 0 <= k < i ==> a@[k] == b@[k],
            lex_lt(a@, b@) == lex_lt(a@.skip(i as int), b@.skip(i as int)),
            lex_lt(b@, a@) == lex_lt(b@.skip(i as int), a@.skip(i as int)),
            (a@ == b@) == (a@.skip(i as int) == b@.skip(i as int) && a@.len() - i == b@.len()
                - i),
        ensures
            ({
                let ra = a@.skip(i as int);
                let rb = b@.skip(i as int);
                lex_lt(a@, b@) == lex_lt(ra, rb) && lex_lt(b@, a@) == lex_lt(rb, ra) && (a@
                    == b@) == (ra == rb) && (i >= a@.len() || i >= b@.len() || a@[i as int]
                    != b@[i as int])
            }),
        decreases a@.len() - i,
    {
        if i >= a.len() || i >= b.len() {
            proof {
                if i >= a@.len() && i >= b@.len() {
                    assert(a@.skip(i as int) =~= b@.skip(i as int));
                }
            }
            break;
        }
        if a[i] != b[i] {
            proof {
                if a@.skip(i as int) == b@.skip(i as int) {
                    assert(a@.skip(i as int)[0] == b@.skip(i as int)[0]);
                }
            }
            break;
        }
        proof {
            let ra = a@.skip(i as int);
            let rb = b@.skip(i as int);
            assert(ra.skip(1) =~= a@.skip(i + 1));
            assert(rb.skip(1) =~= b@.skip(i + 1));
            if a@.len() - i == b@.len() - i && a@.skip(i + 1) == b@.skip(i + 1) {
                assert forall|k: int| 0 <= k < ra.len() implies ra[k] == rb[k] by {
                    if k >= 1 {
                        assert(ra[k] == a@.skip(i + 1)[k - 1]);
                        assert(rb[k] == b@.skip(i + 1)[k - 1]);
                    } else {
                        assert(ra[0] == a@[i as int] && rb[0] == b@[i as int]);
                    }
                }
                assert(ra =~= rb);
            }
            if ra == rb {
                assert(ra.skip(1) =~= rb.skip(1));
            }
        }
        i = i + 1;
    }
    let ghost ra = a@.skip(i as int);
    let ghost rb = b@.skip(i as int);
    if i >= a.len() {
        if i >= b.len() {
            proof {
                assert(ra =~= rb);
            }
            return 0;
        }
        assert(lex_lt(ra, rb));
        return -1;
    }
    if i >= b.len() {
        assert(lex_lt(rb, ra));
        return 1;
    }
    let ca = a[i];
    let cb = b[i];
    proof {
        assert(ra[0] == a@[i as int] && rb[0] == b@[i as int]);
        assert(ra.len() > 0 && rb.len() > 0);
        lemma_lex_connex(ra, rb);
    }
    if ca < cb {
        return -1;
    }
    assert(lex_lt(rb, ra));
    1
}

/// The attribute list is strictly sorted by name.
pub open spec fn sorted_attrs(s: Seq<Attr>) -> bool {
    forall|i: int, j: int| 0 <= i < j < s.len() ==> lex_lt(s[i].name@, s[j].name@)
}

/// In a strictly sorted list, names are unique.
pub proof fn lemma_sorted_unique(s: Seq<Attr>, i: int, j: int)
    requires
        sorted_attrs(s),
        0 <= i < s.len(),
        0 <= j < s.len(),
        s[i].name@ == s[j].name@,
    ensures
        i == j,
{
    if i < j {
        lemma_lex_connex(s[i].name@, s[j].name@);
    }
    if j < i {
        lemma_lex_connex(s[j].name@, s[i].name@);
    }
}

/// The value bound to `key`, if any: the model of an attribute list.
pub open spec fn attr_get(s: Seq<Attr>, key: Seq<char>) -> Option<Seq<char>> {
    if exists|i: int| 0 <= i < s.len() && s[i].name@ == key {
        Some(s[choose|i: int| 0 <= i < s.len() && s[i].name@ == key].value@)
    } else {
        None
    }
}

/// Under sortedness, a position with a matching name decides `attr_get`.
pub proof fn lemma_attr_get_at(s: Seq<Attr>, key: Seq<char>, at: int)
    requires
        sorted_attrs(s),
        0 <= at < s.len(),
        s[at].name@ == key,
    ensures
        attr_get(s, key) == Some(s[at].value@),
{
    assert forall|a: int, b: int|
        0 <= a < s.len() && 0 <= b < s.len() && s[a].name@ == s[b].name@ implies a == b by {
        lemma_sorted_unique(s, a, b);
    }
    assert(exists|i: int| 0 <= i < s.len() && s[i].name@ == key);
}

/// Binary search for `key`: whether it is present, and the position where
/// it is or belongs.
pub fn attr_search(s: &Vec<Attr>, key: &Vec<char>) -> (r: (bool, usize))
    requires
        sorted_attrs(s@),
    ensures
        r.1 <= s@.len(),
        r.0 ==> r.1 < s@.len() && s@[r.1 as int].name@ == key@,
        !r.0 ==> forall|j: int| 0 <= j < s@.len() ==> s@[j].name@ != key@,
        !r.0 ==> forall|j: int| 0 <= j < r.1 ==> lex_lt(s@[j].name@, key@),
        !r.0 ==> forall|j: int| r.1 <= j < s@.len() ==> lex_lt(key@, s@[j].name@),
{
    let mut lo: usize = 0;
    let mut hi: usize = s.len();
    while lo < hi
        invariant
            s.len() == s@.len(),
            sorted_attrs(s@),
            lo <= hi <= s@.len(),
            forall|j: int| 0 <= j < lo ==> lex_lt(s@[j].name@, key@),
            forall|j: int| hi <= j < s@.len() ==> lex_lt(key@, s@[j].name@),
        decreases hi - lo,
    {
        let mid = lo + (hi - lo) / 2;
        let c = lex_cmp(&s[mid].name, key);
        if c == 0 {
            return (true, mid);
        } else if c == -1 {
            proof {
                assert forall|j: int| 0 <= j < mid + 1 implies lex_lt(s@[j].name@, key@) by {
                    if j < mid {
                        lemma_lex_trans(s@[j].name@, s@[mid as int].name@, key@);
                    }
                }
            }
            lo = mid + 1;
        } else {
            proof {
                assert forall|j: int| mid <= j < s@.len() implies lex_lt(key@, s@[j].name@) by {
                    if j > mid {
                        lemma_lex_trans(key@, s@[mid as int].name@, s@[j].name@);
                    }
                }
            }
            hi = mid;
        }
    }
    proof {
        assert forall|j: int| 0 <= j < s@.len() implies s@[j].name@ != key@ by {
            lemma_lex_connex(s@[j].name@, key@);
        }
    }
    (false, lo)
}

/// Looks an attribute up by name.
pub fn attrs_lookup<'a>(s: &'a Vec<Attr>, key: &Vec<char>) -> (r: Option<&'a Vec<char>>)
    requires
        sorted_attrs(s@),
    ensures
        match r {
            Some(v) => attr_get(s@, key@) == Some(v@),
            None => attr_get(s@, key@) is None,
        },
{
    let (found, idx) = attr_search(s, key);
    if found {
        proof {
            lemma_attr_get_at(s@, key@, idx as int);
        }
        Some(&s[idx].value)
    } else {
        None
    }
}


/// Replacing the attribute at a position with one of the same name leaves
/// every other lookup unchanged.
proof fn lemma_attr_get_update(s0: Seq<Attr>, idx: int, a: Attr, k: Seq<char>)
    requires
        sorted_attrs(s0),
        0 <= idx < s0.len(),
        s0[idx].name@ == a.name@,
        k != a.name@,
        sorted_attrs(s0.update(idx, a)),
    ensures
        attr_get(s0.update(idx, a), k) == attr_get(s0, k),
{
    let s1 = s0.update(idx, a);
    if exists|i: int| 0 <= i < s1.len() && s1[i].name@ == k {
        let i = choose|i: int| 0 <= i < s1.len() && s1[i].name@ == k;
        assert(i != idx);
        assert(s1[i] == s0[i]);
        lemma_attr_get_at(s1, k, i);
        lemma_attr_get_at(s0, k, i);
    } else {
        if exists|j: int| 0 <= j < s0.len() && s0[j].name@ == k {
            let j = choose|j: int| 0 <= j < s0.len() && s0[j].name@ == k;
            assert(j != idx);
            assert(s1[j] == s0[j]);
        }
    }
}

/// Inserting an attribute with a fresh name leaves every other lookup
/// unchanged.
proof fn lemma_attr_get_insert(s0: Seq<Attr>, idx: int, a: Attr, k: Seq<char>)
    requires
        sorted_attrs(s0),
        0 <= idx <= s0.len(),
        k != a.name@,
        sorted_attrs(s0.insert(idx, a)),
    ensures
        attr_get(s0.insert(idx, a), k) == attr_get(s0, k),
{
    let s1 = s0.insert(idx, a);
    if exists|i: int| 0 <= i < s1.len() && s1[i].name@ == k {
        let i = choose|i: int| 0 <= i < s1.len() && s1[i].name@ == k;
        assert(i != idx);
        let i0: int = if i < idx { i } else { i - 1 };
        assert(s1[i] == s0[i0]);
        lemma_attr_get_at(s1, k, i);
        lemma_attr_get_at(s0, k, i0);
    } else {
        if exists|j: int| 0 <= j < s0.len() && s0[j].name@ == k {
            let j = choose|j: int| 0 <= j < s0.len() && s0[j].name@ == k;
            let i: int = if j < idx { j } else { j + 1 };
            assert(s1[i] == s0[j]);
        }
    }
}

/// Removing the attribute at a position leaves every other lookup
/// unchanged.
proof fn lemma_attr_get_remove(s0: Seq<Attr>, idx: int, k: Seq<char>)
    requires
        sorted_attrs(s0),
        0 <= idx < s0.len(),
        k != s0[idx].name@,
        sorted_attrs(s0.remove(idx)),
    ensures
        attr_get(s0.remove(idx), k) == attr_get(s0, k),
{
    let s1 = s0.remove(idx);
    if exists|i: int| 0 <= i < s1.len() && s1[i].name@ == k {
        let i = choose|i: int| 0 <= i < s1.len() && s1[i].name@ == k;
        let i0: int = if i < idx { i } else { i + 1 };
        assert(s1[i] == s0[i0]);
        lemma_attr_get_at(s1, k, i);
        lemma_attr_get_at(s0, k, i0);
    } else {
        if exists|j: int| 0 <= j < s0.len() && s0[j].name@ == k {
            let j = choose|j: int| 0 <= j < s0.len() && s0[j].name@ == k;
            assert(j != idx);
            let i: int = if j < idx { j } else { j - 1 };
            assert(s1[i] == s0[j]);
        }
    }
}

/// Sets or inserts an attribute, keeping the list sorted.
pub fn attrs_upsert(s: &mut Vec<Attr>, key: Vec<char>, value: Vec<char>)
    requires
        sorted_attrs(old(s)@),
    ensures
        sorted_attrs(final(s)@),
        attr_get(final(s)@, key@) == Some(value@),
        forall|k: Seq<char>| k != key@ ==> attr_get(final(s)@, k) == attr_get(old(s)@, k),
        final(s)@.len() <= old(s)@.len() + 1,
{
    let ghost s0 = s@;
    let ghost keyv = key@;
    let (found, idx) = attr_search(s, &key);
    let a = Attr { name: key, value };
    let ghost av = a;
    if found {
        s[idx] = a;
        proof {
            assert(s@ =~= s0.update(idx as int, av));
            assert forall|i: int, j: int| 0 <= i < j < s@.len() implies lex_lt(
                s@[i].name@,
                s@[j].name@,
            ) by {
                assert(s@[i].name@ == s0[i].name@ && s@[j].name@ == s0[j].name@);
            }
            lemma_attr_get_at(s@, keyv, idx as int);
            assert forall|k: Seq<char>| k != keyv implies attr_get(s@, k) == attr_get(s0, k) by {
                lemma_attr_get_update(s0, idx as int, av, k);
            }
        }
    } else {
        s.insert(idx, a);
        proof {
            assert(s@ =~= s0.insert(idx as int, av));
            assert forall|i: int, j: int| 0 <= i < j < s@.len() implies lex_lt(
                s@[i].name@,
                s@[j].name@,
            ) by {
                if j < idx {
                    assert(s@[i] == s0[i] && s@[j] == s0[j]);
                } else if i > idx {
                    assert(s@[i] == s0[i - 1] && s@[j] == s0[j - 1]);
                } else if i < idx && j == idx {
                    assert(s@[i] == s0[i]);
                } else if i == idx && j > idx {
                    assert(s@[j] == s0[j - 1]);
                } else if i < idx && j > idx {
                    assert(s@[i] == s0[i] && s@[j] == s0[j - 1]);
                    lemma_lex_trans(s@[i].name@, keyv, s@[j].name@);
                }
            }
            lemma_attr_get_at(s@, keyv, idx as int);
            assert forall|k: Seq<char>| k != keyv implies attr_get(s@, k) == attr_get(s0, k) by {
                lemma_attr_get_insert(s0, idx as int, av, k);
            }
        }
    }
}

/// Removes an attribute by name if present, keeping the list sorted.
pub fn attrs_remove(s: &mut Vec<Attr>, key: &Vec<char>)
    requires
        sorted_attrs(old(s)@),
    ensures
        sorted_attrs(final(s)@),
        attr_get(final(s)@, key@) is None,
        forall|k: Seq<char>| k != key@ ==> attr_get(final(s)@, k) == attr_get(old(s)@, k),
        final(s)@.len() <= old(s)@.len(),
{
    let ghost s0 = s@;
    let ghost keyv = key@;
    let (found, idx) = attr_search(s, key);
    if found {
        s.remove(idx);
        proof {
            assert(s@ =~= s0.remove(idx as int));
            assert forall|i: int, j: int| 0 <= i < j < s@.len() implies lex_lt(
                s@[i].name@,
                s@[j].name@,
            ) by {
                assert(s@[i] == if i < idx { s0[i] } else { s0[i + 1] });
                assert(s@[j] == if j < idx { s0[j] } else { s0[j + 1] });
            }
            assert forall|i: int| 0 <= i < s@.len() implies s@[i].name@ != keyv by {
                let i0: int = if i < idx { i } else { i + 1 };
                assert(s@[i] == s0[i0]);
                if s@[i].name@ == keyv {
                    lemma_sorted_unique(s0, i0, idx as int);
                }
            }
            assert forall|k: Seq<char>| k != keyv implies attr_get(s@, k) == attr_get(s0, k) by {
                lemma_attr_get_remove(s0, idx as int, k);
            }
        }
    }
}

/// The first binding for `key` in an arbitrary, possibly unsorted list:
/// what a parser that keeps the first duplicate would report.
pub open spec fn attr_first(s: Seq<Attr>, key: Seq<char>) -> Option<Seq<char>>
    decreases s.len(),
{
    if s.len() == 0 {
        None
    } else {
        match attr_first(s.drop_last(), key) {
            Some(v) => Some(v),
            None => if s.last().name@ == key {
                Some(s.last().value@)
            } else {
                None
            },
        }
    }
}

/// Sorts an arbitrary attribute list, keeping the first binding of every
/// name.
pub fn normalize_attrs(input: Vec<Attr>) -> (r: Vec<Attr>)
    ensures
        sorted_attrs(r@),
        forall|k: Seq<char>| attr_get(r@, k) == attr_first(input@, k),
        r@.len() <= input@.len(),
{
    let ghost orig = input@;
    let mut input = input;
    let mut out: Vec<Attr> = Vec::new();
    let ghost done = 0int;
    while input.len() > 0
        invariant
            0 <= done <= orig.len(),
            input@ == orig.skip(done),
            sorted_attrs(out@),
            out@.len() <= done,
            forall|k: Seq<char>| attr_get(out@, k) == attr_first(orig.take(done), k),
        decreases input@.len(),
    {
        let a = input.remove(0);
        proof {
            assert(a == orig[done]);
            assert(input@ =~= orig.skip(done + 1));
            assert(orig.take(done + 1).drop_last() =~= orig.take(done));
            assert(orig.take(done + 1).last() == a);
        }
        let ghost out0 = out@;
        let present = match attrs_lookup(&out, &a.name) {
            Some(_) => true,
            None => false,
        };
        if !present {
            let ghost av = a;
            attrs_upsert(&mut out, a.name, a.value);
            proof {
                assert(attr_get(out@, av.name@) == Some(av.value@));
            }
        }
        proof {
            done = done + 1;
            assert forall|k: Seq<char>| attr_get(out@, k) == attr_first(orig.take(done), k) by {
                if k != orig[done - 1].name@ {
                    assert(attr_get(out@, k) == attr_get(out0, k));
                }
            }
        }
    }
    proof {
        assert(orig.take(done) =~= orig);
    }
    out
}

} // verus!
