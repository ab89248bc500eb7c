//! Character-level text utilities: whitespace handling, word splitting,
//! substring search, HTML escaping and case folding.
//!
//! All text is modelled as `Seq<char>`; the executable code works on
//! `Vec<char>` and converts to and from `String` at the crate boundary.

use vstd::prelude::*;
use vstd::string::StrSliceExecFns;
use vstd::string::StringExecFns;

verus! {

broadcast use vstd::std_specs::vec::group_vec_axioms;

/// A character with the Unicode `White_Space` property, the set that
/// `str::split_whitespace` and `str::trim` split on.
pub open spec fn is_space_char(c: char) -> bool {
    ||| c == ' '
    ||| c == '\u{9}'
    ||| c == '\n'
    ||| c == '\u{b}'
    ||| c == '\u{c}'
    ||| c == '\r'
    ||| c == '\u{85}'
    ||| c == '\u{a0}'
    ||| c == '\u{1680}'
    ||| ('\u{2000}' <= c && c <= '\u{200a}')
    ||| c == '\u{2028}'
    ||| c == '\u{2029}'
    ||| c == '\u{202f}'
    ||| c == '\u{205f}'
    ||| c == '\u{3000}'
}

/// Executable test for [`is_space_char`].
pub fn is_space(c: char) -> (r: bool)
    ensures
        r == is_space_char(c),
{
    c == ' ' || c == '\u{9}' || c == '\n' || c == '\u{b}' || c == '\u{c}' || c == '\r'
        || c == '\u{85}' || c == '\u{a0}' || c == '\u{1680}'
        || ('\u{2000}' <= c && c <= '\u{200a}') || c == '\u{2028}' || c == '\u{2029}'
        || c == '\u{202f}' || c == '\u{205f}' || c == '\u{3000}'
}

/// The characters of a string slice, as a vector.
pub fn chars_vec(s: &str) -> (r: Vec<char>)
    ensures
        r@ == s@,
{
    let n = s.unicode_len();
    let mut r: Vec<char> = Vec::new();
    let mut i: usize = 0;
    while i < n
        invariant
            n == s@.len(),
            i <= n,
            r@ == s@.subrange(0, i as int),
        decreases n - i,
    {
        r.push(s.get_char(i));
        i = i + 1;
    }
    assert(r@ =~= s@);
    r
}

/// Relies on `core::iter::Iterator::collect` for `String`: collecting
/// characters yields the string with exactly those characters in order.
#[verifier::external_body]
pub fn string_from_chars(v: &Vec<char>) -> (r: String)
    ensures
        r@ == v@,
{
    v.iter().collect()
}

/// Compares a character vector with a string slice.
pub fn eq_str(v: &Vec<char>, s: &str) -> (r: bool)
    ensures
        r == (v@ == s@),
{
    let n = s.unicode_len();
    if v.len() != n {
        return false;
    }
    let mut i: usize = 0;
    while i < n
        invariant
            n == s@.len(),
            v@.len() == n,
            i <= n,
            forall|k: int| 0 <= k < i ==> v@[k] == s@[k],
        decreases n - i,
    {
        if v[i] != s.get_char(i) {
            return false;
        }
        i = i + 1;
    }
    assert(v@ =~= s@);
    true
}

/// Compares two character vectors.
pub fn chars_eq(a: &Vec<char>, b: &Vec<char>) -> (r: bool)
    ensures
        r == (a@ == b@),
{
    if a.len() != b.len() {
        return false;
    }
    let mut i: usize = 0;
    while i < a.len()
        invariant
            a@.len() == b@.len(),
            i <= a@.len(),
            forall|k: int| 0 <= k < i ==> a@[k] == b@[k],
        decreases a@.len() - i,
    {
        if a[i] != b[i] {
            return false;
        }
        i = i + 1;
    }
    assert(a@ =~= b@);
    true
}

/// `needle` occurs in `hay` starting at position `i`.
pub open spec fn is_sub_at(hay: Seq<char>, needle: Seq<char>, i: int) -> bool {
    0 <= i && i + needle.len() <= hay.len() && hay.subrange(i, i + needle.len()) == needle
}

/// Substring containment: `needle` occurs somewhere in `hay`.
pub open spec fn contains_seq(hay: Seq<char>, needle: Seq<char>) -> bool {
    exists|i: int| is_sub_at(hay, needle, i)
}

/// Whether `needle` occurs at position `i` of `hay`; a helper for the
/// substring searches below.
fn matches_at(hay: &Vec<char>, needle: &Vec<char>, i: usize) -> (r: bool)
    requires
        i + needle@.len() <= hay@.len(),
    ensures
        r == is_sub_at(hay@, needle@, i as int),
{
    let mut j: usize = 0;
    while j < needle.len()
        invariant
            hay.len() == hay@.len(),
            i + needle@.len() <= hay@.len(),
            j <= needle@.len(),
            forall|k: int| 0 <= k < j ==> hay@[i + k] == needle@[k],
        decreases needle@.len() - j,
    {
        if hay[i + j] != needle[j] {
            assert(hay@.subrange(i as int, i + needle@.len())[j as int] != needle@[j as int]);
            return false;
        }
        j = j + 1;
    }
    assert(hay@.subrange(i as int, i + needle@.len()) =~= needle@);
    true
}

/// The position of the first occurrence of `needle` in `hay`, if any.
pub fn find_chars(hay: &Vec<char>, needle: &Vec<char>) -> (r: Option<usize>)
    ensures
        match r {
            Some(i) => is_sub_at(hay@, needle@, i as int) && forall|k: int|
                0 <= k < i ==> !is_sub_at(hay@, needle@, k),
            None => !contains_seq(hay@, needle@),
        },
{
    if needle.len() > hay.len() {
        return None;
    }
    if needle.len() == 0 {
        assert(is_sub_at(hay@, needle@, 0)) by {
            assert(hay@.subrange(0, 0) =~= needle@);
        }
        return Some(0);
    }
    let last = hay.len() - needle.len();
    let mut i: usize = 0;
    while i <= last
        invariant
            hay.len() == hay@.len(),
            1 <= needle@.len() <= hay@.len(),
            last == hay@.len() - needle@.len(),
            i <= last + 1,
            forall|k: int| 0 <= k < i ==> !is_sub_at(hay@, needle@, k),
        decreases last + 1 - i,
    {
        if matches_at(hay, needle, i) {
            return Some(i);
        }
        i = i + 1;
    }
    None
}

/// Substring containment test.
pub fn contains_chars(hay: &Vec<char>, needle: &Vec<char>) -> (r: bool)
    ensures
        r == contains_seq(hay@, needle@),
{
    match find_chars(hay, needle) {
        Some(_) => true,
        None => false,
    }
}

/// One step of the whitespace scanner: the state is the word collected so
/// far and the finished words before it.
pub open spec fn scan_step(st: (Seq<char>, Seq<Seq<char>>), c: char) -> (Seq<char>, Seq<Seq<char>>) {
    if is_space_char(c) {
        if st.0.len() > 0 {
            (Seq::<char>::empty(), st.1.push(st.0))
        } else {
            st
        }
    } else {
        (st.0.push(c), st.1)
    }
}

/// Runs the whitespace scanner over `s` starting from state `st`.
pub open spec fn scan_from(st: (Seq<char>, Seq<Seq<char>>), s: Seq<char>) -> (Seq<char>, Seq<Seq<char>>)
    decreases s.len(),
{
    if s.len() == 0 {
        st
    } else {
        scan_step(scan_from(st, s.drop_last()), s.last())
    }
}

/// Closes the scanner state: a pending non-empty word becomes the last word.
pub open spec fn scan_flush(st: (Seq<char>, Seq<Seq<char>>)) -> Seq<Seq<char>> {
    if st.0.len() > 0 {
        st.1.push(st.0)
    } else {
        st.1
    }
}

/// The empty scanner state.
pub open spec fn scan_init() -> (Seq<char>, Seq<Seq<char>>) {
    (Seq::<char>::empty(), Seq::<Seq<char>>::empty())
}

/// The maximal whitespace-free words of `s`, in order: what
/// `str::split_whitespace` yields.
pub open spec fn words(s: Seq<char>) -> Seq<Seq<char>> {
    scan_flush(scan_from(scan_init(), s))
}

/// The scanner distributes over concatenation.
pub proof fn lemma_scan_concat(st: (Seq<char>, Seq<Seq<char>>), a: Seq<char>, b: Seq<char>)
    ensures
        scan_from(st, a + b) == scan_from(scan_from(st, a), b),
    decreases b.len(),
{
    if b.len() == 0 {
        assert(a + b =~= a);
    } else {
        lemma_scan_concat(st, a, b.drop_last());
        assert((a + b).drop_last() =~= a + b.drop_last());
        assert((a + b).last() == b.last());
    }
}

/// Scanning whitespace-free text only extends the pending word.
pub proof fn lemma_scan_nonspace(st: (Seq<char>, Seq<Seq<char>>), w: Seq<char>)
    requires
        forall|k: int| 0 <= k < w.len() ==> !is_space_char(w[k]),
    ensures
        scan_from(st, w) == (st.0 + w, st.1),
    decreases w.len(),
{
    if w.len() == 0 {
        assert(st.0 + w =~= st.0);
    } else {
        lemma_scan_nonspace(st, w.drop_last());
        assert(st.0 + w =~= (st.0 + w.drop_last()).push(w.last()));
    }
}

/// A single whitespace-free non-empty token is its own word list.
pub proof fn lemma_words_single(w: Seq<char>)
    requires
        w.len() > 0,
        forall|k: int| 0 <= k < w.len() ==> !is_space_char(w[k]),
    ensures
        words(w) == seq![w],
{
    lemma_scan_nonspace(scan_init(), w);
    assert(scan_init().0 + w =~= w);
    assert(scan_flush((w, Seq::<Seq<char>>::empty())) =~= seq![w]);
}

/// Appending a space and a whitespace-free non-empty token appends exactly
/// that token to the word list.
pub proof fn lemma_words_append(s: Seq<char>, w: Seq<char>)
    requires
        w.len() > 0,
        forall|k: int| 0 <= k < w.len() ==> !is_space_char(w[k]),
    ensures
        words(s + seq![' '] + w) == words(s).push(w),
{
    let st = scan_from(scan_init(), s);
    lemma_scan_concat(scan_init(), s, seq![' ']);
    lemma_scan_concat(scan_init(), s + seq![' '], w);
    assert(scan_from(st, seq![' ']) == scan_step(scan_from(st, seq![' '].drop_last()), ' ')) by {
        assert(seq![' '].last() == ' ');
    }
    assert(seq![' '].drop_last() =~= Seq::<char>::empty());
    let st2 = scan_step(st, ' ');
    assert(st2.0 =~= Seq::<char>::empty() || st.0.len() == 0);
    assert(st2 == (Seq::<char>::empty(), words(s)));
    lemma_scan_nonspace(st2, w);
    assert(st2.0 + w =~= w);
    assert(scan_flush((w, words(s))) =~= words(s).push(w));
}

/// Splits a character vector into its whitespace-separated words.
pub fn split_words(s: &Vec<char>) -> (r: Vec<Vec<char>>)
    ensures
        r.deep_view() == words(s@),
{
    let mut out: Vec<Vec<char>> = Vec::new();
    let mut cur: Vec<char> = Vec::new();
    let mut i: usize = 0;
    while i < s.len()
        invariant
            s.len() == s@.len(),
            i <= s@.len(),
            (cur@, out.deep_view()) == scan_from(scan_init(), s@.take(i as int)),
        decreases s@.len() - i,
    {
        let ghost pre = s@.take(i as int);
        let ghost st = scan_from(scan_init(), pre);
        let ghost out0 = out.deep_view();
        let ghost cur0 = cur@;
        let c = s[i];
        if is_space(c) {
            if cur.len() > 0 {
                out.push(cur);
                cur = Vec::new();
                proof {
                    assert(out.deep_view() =~~= out0.push(cur0));
                }
            }
        } else {
            cur.push(c);
        }
        i = i + 1;
        proof {
            assert(s@.take(i as int).drop_last() =~= pre);
            assert(s@.take(i as int).last() == c);
            assert(scan_from(scan_init(), s@.take(i as int)) == scan_step(st, c));
            assert((cur@, out.deep_view()) == scan_step(st, c));
        }
    }
    proof {
        assert(s@.take(s@.len() as int) =~= s@);
    }
    let ghost out1 = out.deep_view();
    let ghost cur1 = cur@;
    if cur.len() > 0 {
        out.push(cur);
        proof {
            assert(out.deep_view() =~~= out1.push(cur1));
        }
    }
    out
}

/// Words joined by single spaces.
pub open spec fn join_sp(ws: Seq<Seq<char>>) -> Seq<char>
    decreases ws.len(),
{
    if ws.len() == 0 {
        Seq::<char>::empty()
    } else if ws.len() == 1 {
        ws[0]
    } else {
        join_sp(ws.drop_last()) + seq![' '] + ws.last()
    }
}

/// Joins words with single spaces.
pub fn join_words(ws: &Vec<Vec<char>>) -> (r: Vec<char>)
    ensures
        r@ == join_sp(ws.deep_view()),
{
    let mut r: Vec<char> = Vec::new();
    let mut k: usize = 0;
    while k < ws.len()
        invariant
            ws.len() == ws.deep_view().len(),
            k <= ws.deep_view().len(),
            r@ == join_sp(ws.deep_view().take(k as int)),
        decreases ws.deep_view().len() - k,
    {
        let ghost pre = ws.deep_view().take(k as int);
        if k > 0 {
            r.push(' ');
        }
        let w = &ws[k];
        let mut j: usize = 0;
        while j < w.len()
            invariant
                w.len() == w@.len(),
                j <= w@.len(),
                r@ == (if k > 0 { join_sp(pre) + seq![' '] } else { join_sp(pre) }) + w@.take(j as int),
            decreases w@.len() - j,
        {
            r.push(w[j]);
            j = j + 1;
            proof {
                assert(w@.take(j as int) =~= w@.take(j - 1).push(w@[j - 1]));
            }
        }
        k = k + 1;
        proof {
            let post = ws.deep_view().take(k as int);
            assert(post.drop_last() =~= pre);
            assert(post.last() == ws.deep_view()[k - 1]);
            assert(ws.deep_view()[k - 1] == w@);
            assert(w@.take(w@.len() as int) =~= w@);
            if k == 1 {
                assert(join_sp(post) == post[0]);
                assert(post[0] == w@);
                assert(r@ =~= join_sp(pre) + w@);
                assert(join_sp(pre) =~= Seq::<char>::empty());
                assert(r@ =~= w@);
            } else {
                assert(join_sp(post) == join_sp(pre) + seq![' '] + w@);
                assert(r@ =~= join_sp(pre) + seq![' '] + w@);
            }
        }
    }
    proof {
        assert(ws.deep_view().take(ws.deep_view().len() as int) =~= ws.deep_view());
    }
    r
}

/// Whitespace normalization: runs of whitespace collapse to single spaces
/// and the ends are trimmed.
pub open spec fn norm_ws(s: Seq<char>) -> Seq<char> {
    join_sp(words(s))
}

/// Normalizes whitespace in `s`: words joined by single spaces.
pub fn normalise_whitespace(s: &str) -> (r: String)
    ensures
        r@ == norm_ws(s@),
{
    let v = chars_vec(s);
    let ws = split_words(&v);
    let j = join_words(&ws);
    string_from_chars(&j)
}

/// Normalizes whitespace in a character vector.
pub fn norm_ws_chars(v: &Vec<char>) -> (r: Vec<char>)
    ensures
        r@ == norm_ws(v@),
{
    let ws = split_words(v);
    join_words(&ws)
}

/// A word list is proper when every word is non-empty and whitespace-free.
pub open spec fn proper_words(ws: Seq<Seq<char>>) -> bool {
    forall|i: int| 0 <= i < ws.len() ==> #[trigger] ws[i].len() > 0 && forall|k: int|
        0 <= k < ws[i].len() ==> !is_space_char(ws[i][k])
}

/// The scanner keeps the pending word whitespace-free and every finished
/// word proper.
proof fn lemma_scan_proper(st: (Seq<char>, Seq<Seq<char>>), s: Seq<char>)
    requires
        forall|k: int| 0 <= k < st.0.len() ==> !is_space_char(st.0[k]),
        proper_words(st.1),
    ensures
        forall|k: int| 0 <= k < scan_from(st, s).0.len() ==> !is_space_char(scan_from(st, s).0[k]),
        proper_words(scan_from(st, s).1),
    decreases s.len(),
{
    if s.len() > 0 {
        lemma_scan_proper(st, s.drop_last());
        let st1 = scan_from(st, s.drop_last());
        let c = s.last();
        if is_space_char(c) && st1.0.len() > 0 {
            assert(proper_words(st1.1.push(st1.0)));
        }
    }
}

/// The words of any text are proper.
pub proof fn lemma_words_proper(s: Seq<char>)
    ensures
        proper_words(words(s)),
{
    lemma_scan_proper(scan_init(), s);
    let st = scan_from(scan_init(), s);
    if st.0.len() > 0 {
        assert(proper_words(st.1.push(st.0)));
    }
}

/// Splitting a proper word list joined by single spaces gives the list back.
pub proof fn lemma_words_join(ws: Seq<Seq<char>>)
    requires
        proper_words(ws),
    ensures
        words(join_sp(ws)) == ws,
    decreases ws.len(),
{
    if ws.len() == 0 {
        assert(words(join_sp(ws)) =~= ws);
    } else if ws.len() == 1 {
        lemma_words_single(ws[0]);
        assert(words(join_sp(ws)) =~= ws);
    } else {
        assert(proper_words(ws.drop_last())) by {
            assert(forall|i: int| 0 <= i < ws.drop_last().len() ==> ws.drop_last()[i] == ws[i]);
        }
        lemma_words_join(ws.drop_last());
        lemma_words_append(join_sp(ws.drop_last()), ws.last());
        assert(words(join_sp(ws)) =~= ws.drop_last().push(ws.last()));
        assert(ws.drop_last().push(ws.last()) =~= ws);
    }
}

/// HTML escape of one character: `&`, `<` and `>` become entities.
pub open spec fn escape_char(c: char) -> Seq<char> {
    if c == '&' {
        "&amp;"@
    } else if c == '<' {
        "&lt;"@
    } else if c == '>' {
        "&gt;"@
    } else {
        seq![c]
    }
}

/// HTML escape of a text: each character escaped in order.
pub open spec fn escape_text(s: Seq<char>) -> Seq<char>
    decreases s.len(),
{
    if s.len() == 0 {
        Seq::<char>::empty()
    } else {
        escape_text(s.drop_last()) + escape_char(s.last())
    }
}

/// Escape of one character for an attribute value: also `"` becomes an
/// entity, so the value can stand inside double quotes.
pub open spec fn escape_attr_char(c: char) -> Seq<char> {
    if c == '"' {
        "&quot;"@
    } else {
        escape_char(c)
    }
}

/// Attribute-value escape of a text.
pub open spec fn escape_attr(s: Seq<char>) -> Seq<char>
    decreases s.len(),
{
    if s.len() == 0 {
        Seq::<char>::empty()
    } else {
        escape_attr(s.drop_last()) + escape_attr_char(s.last())
    }
}

/// Appends all characters of `src` to `dst`.
pub fn push_chars(dst: &mut Vec<char>, src: &str)
    ensures
        final(dst)@ == old(dst)@ + src@,
{
    let n = src.unicode_len();
    let mut i: usize = 0;
    while i < n
        invariant
            n == src@.len(),
            i <= n,
            dst@ == old(dst)@ + src@.subrange(0, i as int),
        decreases n - i,
    {
        dst.push(src.get_char(i));
        i = i + 1;
        proof {
            assert(old(dst)@ + src@.subrange(0, i as int) =~= (old(dst)@ + src@.subrange(
                0,
                i - 1,
            )).push(src@[i - 1]));
        }
    }
    proof {
        assert(src@.subrange(0, src@.len() as int) =~= src@);
    }
}

/// Appends all characters of `src` to `dst`.
pub fn push_vec(dst: &mut Vec<char>, src: &Vec<char>)
    ensures
        final(dst)@ == old(dst)@ + src@,
{
    let mut i: usize = 0;
    while i < src.len()
        invariant
            src.len() == src@.len(),
            i <= src@.len(),
            dst@ == old(dst)@ + src@.take(i as int),
        decreases src@.len() - i,
    {
        dst.push(src[i]);
        i = i + 1;
        proof {
            assert(old(dst)@ + src@.take(i as int) =~= (old(dst)@ + src@.take(i - 1)).push(
                src@[i - 1],
            ));
        }
    }
    proof {
        assert(src@.take(src@.len() as int) =~= src@);
    }
}

/// Appends the HTML escape of `c` to `dst`.
fn push_escaped(dst: &mut Vec<char>, c: char)
    ensures
        final(dst)@ == old(dst)@ + escape_char(c),
{
    if c == '&' {
        push_chars(dst, "&amp;");
    } else if c == '<' {
        push_chars(dst, "&lt;");
    } else if c == '>' {
        push_chars(dst, "&gt;");
    } else {
        dst.push(c);
        proof {
            assert(dst@ =~= old(dst)@ + seq![c]);
        }
    }
}

/// Appends the attribute-value escape of `c` to `dst`.
fn push_attr_escaped(dst: &mut Vec<char>, c: char)
    ensures
        final(dst)@ == old(dst)@ + escape_attr_char(c),
{
    if c == '"' {
        push_chars(dst, "&quot;");
    } else {
        push_escaped(dst, c);
    }
}

/// Appends the HTML escape of all of `src` to `dst`.
pub fn push_escaped_chars(dst: &mut Vec<char>, src: &Vec<char>)
    ensures
        final(dst)@ == old(dst)@ + escape_text(src@),
{
    let mut i: usize = 0;
    while i < src.len()
        invariant
            src.len() == src@.len(),
            i <= src@.len(),
            dst@ == old(dst)@ + escape_text(src@.take(i as int)),
        decreases src@.len() - i,
    {
        push_escaped(dst, src[i]);
        i = i + 1;
        proof {
            assert(src@.take(i as int).drop_last() =~= src@.take(i - 1));
            assert(src@.take(i as int).last() == src@[i - 1]);
        }
    }
    proof {
        assert(src@.take(src@.len() as int) =~= src@);
    }
}

/// Appends the attribute-value escape of all of `src` to `dst`.
pub fn push_attr_escaped_chars(dst: &mut Vec<char>, src: &Vec<char>)
    ensures
        final(dst)@ == old(dst)@ + escape_attr(src@),
{
    let mut i: usize = 0;
    while i < src.len()
        invariant
            src.len() == src@.len(),
            i <= src@.len(),
            dst@ == old(dst)@ + escape_attr(src@.take(i as int)),
        decreases src@.len() - i,
    {
        push_attr_escaped(dst, src[i]);
        i = i + 1;
        proof {
            assert(src@.take(i as int).drop_last() =~= src@.take(i - 1));
            assert(src@.take(i as int).last() == src@[i - 1]);
        }
    }
    proof {
        assert(src@.take(src@.len() as int) =~= src@);
    }
}

/// Escapes `&`, `<` and `>` in a text as HTML entities.
pub fn html_escape(s: &str) -> (r: String)
    ensures
        r@ == escape_text(s@),
{
    let v = chars_vec(s);
    let mut out: Vec<char> = Vec::new();
    push_escaped_chars(&mut out, &v);
    string_from_chars(&out)
}

/// A copy of a character vector.
pub fn clone_chars(v: &Vec<char>) -> (r: Vec<char>)
    ensures
        r@ == v@,
{
    let mut r: Vec<char> = Vec::new();
    push_vec(&mut r, v);
    proof {
        assert(Seq::<char>::empty() + v@ =~= v@);
    }
    r
}

/// The words of `ws` that differ from `w`, in order.
pub open spec fn keep_words(ws: Seq<Seq<char>>, w: Seq<char>) -> Seq<Seq<char>>
    decreases ws.len(),
{
    if ws.len() == 0 {
        Seq::<Seq<char>>::empty()
    } else if ws.last() == w {
        keep_words(ws.drop_last(), w)
    } else {
        keep_words(ws.drop_last(), w).push(ws.last())
    }
}

/// Dropping an absent word keeps the list unchanged.
pub proof fn lemma_keep_words_absent(ws: Seq<Seq<char>>, w: Seq<char>)
    requires
        !ws.contains(w),
    ensures
        keep_words(ws, w) == ws,
    decreases ws.len(),
{
    if ws.len() > 0 {
        assert(ws.last() != w) by {
            if ws.last() == w {
                assert(ws[ws.len() - 1] == w);
            }
        }
        assert(!ws.drop_last().contains(w)) by {
            if ws.drop_last().contains(w) {
                let i = choose|i: int| 0 <= i < ws.drop_last().len() && ws.drop_last()[i] == w;
                assert(ws[i] == w);
            }
        }
        lemma_keep_words_absent(ws.drop_last(), w);
        assert(keep_words(ws, w) =~= ws);
    } else {
        assert(keep_words(ws, w) =~= ws);
    }
}

/// Kept words of a proper list stay proper.
pub proof fn lemma_keep_words_proper(ws: Seq<Seq<char>>, w: Seq<char>)
    requires
        proper_words(ws),
    ensures
        proper_words(keep_words(ws, w)),
        !keep_words(ws, w).contains(w),
    decreases ws.len(),
{
    if ws.len() > 0 {
        assert(proper_words(ws.drop_last())) by {
            assert(forall|i: int| 0 <= i < ws.drop_last().len() ==> ws.drop_last()[i] == ws[i]);
        }
        lemma_keep_words_proper(ws.drop_last(), w);
        if ws.last() != w {
            let kept = keep_words(ws.drop_last(), w).push(ws.last());
            assert(ws.last() == ws[ws.len() - 1]);
            assert(proper_words(kept)) by {
                assert(forall|i: int|
                    0 <= i < kept.len() - 1 ==> kept[i] == keep_words(ws.drop_last(), w)[i]);
                assert(kept.last() == ws.last());
            }
            assert(!kept.contains(w)) by {
                if kept.contains(w) {
                    let i = choose|i: int| 0 <= i < kept.len() && kept[i] == w;
                    if i < kept.len() - 1 {
                        assert(keep_words(ws.drop_last(), w).contains(w)) by {
                            assert(keep_words(ws.drop_last(), w)[i] == w);
                        }
                    }
                }
            }
        }
    }
}

/// What `str::to_lowercase` returns: a function of the characters alone.
pub uninterp spec fn lower_of(s: Seq<char>) -> Seq<char>;

/// Relies on `str::to_lowercase`: the result depends only on the input
/// characters, and an empty input stays empty.
#[verifier::external_body]
pub fn to_lower_chars(v: &Vec<char>) -> (r: Vec<char>)
    ensures
        r@ == lower_of(v@),
        v@.len() == 0 ==> r@.len() == 0,
{
    v.iter().collect::<String>().to_lowercase().chars().collect()
}

} // verus!
