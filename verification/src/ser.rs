//! Serialization of a document tree back to HTML text.
//!
//! The serializer follows the common HTML rules: void elements take no
//! end tag, text inside raw-text elements (`script`, `style`, ...) is not
//! escaped, other text and attribute values are.  In keyed mode every
//! element carries a synthetic attribute holding its node index in
//! decimal, which lets an outside selector engine report matches by a
//! stable identity; a genuine attribute of that name is dropped so the
//! report stays unambiguous.

use vstd::prelude::*;
use crate::attrs::Attr;
use crate::dom::{node_ok, nodes_ok, NodeData, NodeKind};
use crate::text::{escape_attr, escape_text, push_attr_escaped_chars, push_chars, push_escaped_chars, push_vec};

verus! {

broadcast use vstd::std_specs::vec::group_vec_axioms;

/// The synthetic attribute that carries a node index in keyed mode.
pub open spec fn key_attr_name() -> Seq<char> {
    "data-vkey"@
}

/// A void element: serialized as a single tag, without children or an
/// end tag.
pub open spec fn is_void_name(name: Seq<char>) -> bool {
    ||| name == "area"@
    ||| name == "base"@
    ||| name == "basefont"@
    ||| name == "bgsound"@
    ||| name == "br"@
    ||| name == "col"@
    ||| name == "embed"@
    ||| name == "frame"@
    ||| name == "hr"@
    ||| name == "img"@
    ||| name == "input"@
    ||| name == "keygen"@
    ||| name == "link"@
    ||| name == "meta"@
    ||| name == "param"@
    ||| name == "source"@
    ||| name == "track"@
    ||| name == "wbr"@
}

/// A raw-text element: its text children are serialized unescaped.
pub open spec fn is_raw_name(name: Seq<char>) -> bool {
    ||| name == "style"@
    ||| name == "script"@
    ||| name == "xmp"@
    ||| name == "iframe"@
    ||| name == "noembed"@
    ||| name == "noframes"@
    ||| name == "plaintext"@
}

/// Executable test for [`is_void_name`].
pub fn name_is_void(name: &Vec<char>) -> (r: bool)
    ensures
        r == is_void_name(name@),
{
    crate::text::eq_str(name, "area") || crate::text::eq_str(name, "base") || crate::text::eq_str(
        name,
        "basefont",
    ) || crate::text::eq_str(name, "bgsound") || crate::text::eq_str(name, "br")
        || crate::text::eq_str(name, "col") || crate::text::eq_str(name, "embed")
        || crate::text::eq_str(name, "frame") || crate::text::eq_str(name, "hr")
        || crate::text::eq_str(name, "img") || crate::text::eq_str(name, "input")
        || crate::text::eq_str(name, "keygen") || crate::text::eq_str(name, "link")
        || crate::text::eq_str(name, "meta") || crate::text::eq_str(name, "param")
        || crate::text::eq_str(name, "source") || crate::text::eq_str(name, "track")
        || crate::text::eq_str(name, "wbr")
}

/// Executable test for [`is_raw_name`].
pub fn name_is_raw(name: &Vec<char>) -> (r: bool)
    ensures
        r == is_raw_name(name@),
{
    crate::text::eq_str(name, "style") || crate::text::eq_str(name, "script")
        || crate::text::eq_str(name, "xmp") || crate::text::eq_str(name, "iframe")
        || crate::text::eq_str(name, "noembed") || crate::text::eq_str(name, "noframes")
        || crate::text::eq_str(name, "plaintext")
}

/// The decimal digits of `n`, most significant first.
pub open spec fn dec_digits(n: nat) -> Seq<char>
    decreases n,
{
    if n < 10 {
        seq![digit_char(n)]
    } else {
        dec_digits(n / 10).push(digit_char(n % 10))
    }
}

/// The digit character for one decimal digit.
pub open spec fn digit_char(d: nat) -> char {
    if d == 0 {
        '0'
    } else if d == 1 {
        '1'
    } else if d == 2 {
        '2'
    } else if d == 3 {
        '3'
    } else if d == 4 {
        '4'
    } else if d == 5 {
        '5'
    } else if d == 6 {
        '6'
    } else if d == 7 {
        '7'
    } else if d == 8 {
        '8'
    } else {
        '9'
    }
}

/// Appends the decimal form of `n` to `out`.
pub fn push_dec(n: usize, out: &mut Vec<char>)
    ensures
        final(out)@ == old(out)@ + dec_digits(n as nat),
    decreases n,
{
    if n >= 10 {
        push_dec(n / 10, out);
    }
    let d = n % 10;
    let c: char = if d == 0 {
        '0'
    } else if d == 1 {
        '1'
    } else if d == 2 {
        '2'
    } else if d == 3 {
        '3'
    } else if d == 4 {
        '4'
    } else if d == 5 {
        '5'
    } else if d == 6 {
        '6'
    } else if d == 7 {
        '7'
    } else if d == 8 {
        '8'
    } else {
        '9'
    };
    out.push(c);
    proof {
        if n < 10 {
            assert(old(out)@ + dec_digits(n as nat) =~= old(out)@.push(c));
        } else {
            assert(old(out)@ + dec_digits(n as nat) =~= (old(out)@ + dec_digits(
                (n / 10) as nat,
            )).push(c));
        }
    }
}

/// The value of a canonical decimal key of at most 9 digits, or `None`.
/// This is the exact acceptance condition of [`parse_key`].
pub open spec fn key_value(s: Seq<char>) -> Option<int> {
    if 1 <= s.len() <= 9 && !(s.len() > 1 && s[0] == '0') {
        digits_value(s)
    } else {
        None
    }
}

/// Folds decimal digits into a value; `None` on a non-digit.
pub open spec fn digits_value(s: Seq<char>) -> Option<int>
    decreases s.len(),
{
    if s.len() == 0 {
        Some(0int)
    } else {
        match digits_value(s.drop_last()) {
            Some(v) => match digit_value(s.last()) {
                Some(d) => Some(v * 10 + d),
                None => None,
            },
            None => None,
        }
    }
}

/// The value of one digit character.
pub open spec fn digit_value(c: char) -> Option<int> {
    if c == '0' {
        Some(0int)
    } else if c == '1' {
        Some(1int)
    } else if c == '2' {
        Some(2int)
    } else if c == '3' {
        Some(3int)
    } else if c == '4' {
        Some(4int)
    } else if c == '5' {
        Some(5int)
    } else if c == '6' {
        Some(6int)
    } else if c == '7' {
        Some(7int)
    } else if c == '8' {
        Some(8int)
    } else if c == '9' {
        Some(9int)
    } else {
        None
    }
}

/// Reads a canonical decimal key.
pub fn parse_key(s: &Vec<char>) -> (r: Option<usize>)
    ensures
        match r {
            Some(v) => key_value(s@) == Some(v as int),
            None => key_value(s@) is None,
        },
{
    if s.len() == 0 || s.len() > 9 {
        return None;
    }
    if s.len() > 1 && s[0] == '0' {
        return None;
    }
    let mut acc: usize = 0;
    let mut i: usize = 0;
    while i < s.len()
        invariant
            s.len() == s@.len(),
            1 <= s@.len() <= 9,
            i <= s@.len(),
            digits_value(s@.take(i as int)) == Some(acc as int),
            acc < pow10(i as nat),
            i <= 9,
        decreases s@.len() - i,
    {
        let c = s[i];
        let d: usize = if c == '0' {
            0
        } else if c == '1' {
            1
        } else if c == '2' {
            2
        } else if c == '3' {
            3
        } else if c == '4' {
            4
        } else if c == '5' {
            5
        } else if c == '6' {
            6
        } else if c == '7' {
            7
        } else if c == '8' {
            8
        } else if c == '9' {
            9
        } else {
            proof {
                lemma_digits_value_none(s@, i as int);
                assert(s@.take(s@.len() as int) =~= s@);
            }
            return None;
        };
        proof {
            lemma_pow10_9();
            lemma_pow10_mono(i as nat);
            assert(acc * 10 + d < pow10((i + 1) as nat)) by {
                assert(pow10((i + 1) as nat) == pow10(i as nat) * 10);
                assert(acc + 1 <= pow10(i as nat));
                assert((acc + 1) * 10 <= pow10(i as nat) * 10) by (nonlinear_arith)
                    requires
                        acc + 1 <= pow10(i as nat),
                ;
                assert(acc * 10 + 10 == (acc + 1) * 10) by (nonlinear_arith);
            }
            assert(acc * 10 + d <= usize::MAX as int);
        }
        acc = acc * 10 + d;
        i = i + 1;
        proof {
            assert(s@.take(i as int).drop_last() =~= s@.take(i - 1));
            assert(s@.take(i as int).last() == c);
        }
    }
    proof {
        assert(s@.take(s@.len() as int) =~= s@);
    }
    Some(acc)
}

/// Ten to the `n`.
pub open spec fn pow10(n: nat) -> int
    decreases n,
{
    if n == 0 {
        1int
    } else {
        pow10((n - 1) as nat) * 10
    }
}

/// `pow10` grows monotonically up to the 9th power, which fits a
/// machine word.
proof fn lemma_pow10_mono(n: nat)
    requires
        n < 9,
    ensures
        pow10(n) <= pow10(8),
    decreases 9 - n,
{
    if n < 8 {
        lemma_pow10_mono(n + 1);
        assert(pow10(n + 1) == pow10(n) * 10);
        assert(pow10(n) >= 1) by {
            lemma_pow10_pos(n);
        }
        assert(pow10(n) <= pow10(n) * 10) by (nonlinear_arith)
            requires
                pow10(n) >= 1,
        ;
    }
}

/// `pow10` is positive.
proof fn lemma_pow10_pos(n: nat)
    ensures
        pow10(n) >= 1,
    decreases n,
{
    if n > 0 {
        lemma_pow10_pos((n - 1) as nat);
    }
}

/// The 9th power of ten fits a machine word.
proof fn lemma_pow10_9()
    ensures
        pow10(9) <= usize::MAX as int + 1,
{
    reveal_with_fuel(pow10, 11);
    assert(pow10(9) == 1000000000int);
}

/// A non-digit anywhere makes the whole fold fail.
proof fn lemma_digits_value_none(s: Seq<char>, i: int)
    requires
        0 <= i < s.len(),
        digit_value(s[i]) is None,
    ensures
        digits_value(s.take(s.len() as int)) is None,
    decreases s.len(),
{
    lemma_digits_value_none_upto(s, i, s.len() as int)
}

/// A non-digit at `i` fails every fold of a prefix that covers it.
proof fn lemma_digits_value_none_upto(s: Seq<char>, i: int, k: int)
    requires
        0 <= i < k <= s.len(),
        digit_value(s[i]) is None,
    ensures
        digits_value(s.take(k)) is None,
    decreases k,
{
    if i == k - 1 {
        assert(s.take(k).last() == s[i]);
    } else {
        lemma_digits_value_none_upto(s, i, k - 1);
        assert(s.take(k).drop_last() =~= s.take(k - 1));
    }
}

/// The serialized form of the first `k` attributes: a space, the name,
/// `="`, the escaped value and a closing quote each.  In keyed mode a
/// genuine attribute named like the key attribute is dropped.
pub open spec fn attrs_ser_upto(attrs: Seq<Attr>, k: int, keyed: bool) -> Seq<char>
    decreases (if 0 <= k { k } else { 0int }),
{
    if k <= 0 {
        Seq::<char>::empty()
    } else {
        attrs_ser_upto(attrs, k - 1, keyed) + (if keyed && attrs[k - 1].name@
            == key_attr_name() {
            Seq::<char>::empty()
        } else {
            " "@ + attrs[k - 1].name@ + "=\""@ + escape_attr(attrs[k - 1].value@) + "\""@
        })
    }
}

/// The serialized synthetic key attribute for node `i`.
pub open spec fn key_attr_ser(i: int) -> Seq<char> {
    " data-vkey=\""@ + dec_digits((if 0 <= i { i } else { 0int }) as nat) + "\""@
}

/// The serialized form of the subtrees of node `i`'s first `k` children.
pub open spec fn ser_upto(ns: Seq<NodeData>, i: int, k: int, keyed: bool, raw: bool) -> Seq<char>
    decreases ns.len() - i, (if 0 <= k { k } else { 0int }) when nodes_ok(ns) && 0 <= i
        < ns.len() && k <= ns[i].children@.len() via ser_upto_dec
{
    if k <= 0 {
        Seq::<char>::empty()
    } else {
        ser_upto(ns, i, k - 1, keyed, raw) + ser_node(
            ns,
            ns[i].children@[k - 1] as int,
            keyed,
            raw,
        )
    }
}

#[via_fn]
proof fn ser_upto_dec(ns: Seq<NodeData>, i: int, k: int, keyed: bool, raw: bool) {
    if nodes_ok(ns) && 0 <= i < ns.len() && k <= ns[i].children@.len() && k > 0 {
        assert(node_ok(ns, i));
    }
}

/// The serialized form of the subtree of node `i`.  `raw` says whether a
/// text node stands in a raw-text element; `keyed` adds the synthetic
/// index attribute to every element.
pub open spec fn ser_node(ns: Seq<NodeData>, i: int, keyed: bool, raw: bool) -> Seq<char>
    decreases ns.len() - i, ns[i].children@.len() + 1 when nodes_ok(ns) && 0 <= i < ns.len()
{
    match ns[i].kind {
        NodeKind::Text { text } => if raw {
            text@
        } else {
            escape_text(text@)
        },
        NodeKind::Comment { text } => "<!--"@ + text@ + "-->"@,
        NodeKind::Doctype { name } => "<!DOCTYPE "@ + name@ + ">"@,
        NodeKind::Element { name, attrs } => {
            let open_tag = "<"@ + name@ + attrs_ser_upto(attrs@, attrs@.len() as int, keyed) + (
            if keyed {
                key_attr_ser(i)
            } else {
                Seq::<char>::empty()
            }) + ">"@;
            if is_void_name(name@) {
                open_tag
            } else {
                open_tag + ser_upto(ns, i, ns[i].children@.len() as int, keyed, is_raw_name(name@))
                    + "</"@ + name@ + ">"@
            }
        },
        NodeKind::Other => Seq::<char>::empty(),
        _ => ser_upto(ns, i, ns[i].children@.len() as int, keyed, false),
    }
}

/// Appends the serialized form of node `i`'s subtree to `out`.
#[verifier::rlimit(100)]
#[verifier::spinoff_prover]
pub fn push_ser(ns: &Vec<NodeData>, i: usize, keyed: bool, raw: bool, out: &mut Vec<char>)
    requires
        nodes_ok(ns@),
        i < ns@.len(),
    ensures
        final(out)@ == old(out)@ + ser_node(ns@, i as int, keyed, raw),
    decreases ns@.len() - i,
{
    let nd = &ns[i];
    match &nd.kind {
        NodeKind::Text { text } => {
            if raw {
                push_vec(out, text);
            } else {
                push_escaped_chars(out, text);
            }
        },
        NodeKind::Comment { text } => {
            push_chars(out, "<!--");
            push_vec(out, text);
            push_chars(out, "-->");
        },
        NodeKind::Doctype { name } => {
            push_chars(out, "<!DOCTYPE ");
            push_vec(out, name);
            push_chars(out, ">");
        },
        NodeKind::Element { name, attrs } => {
            push_chars(out, "<");
            push_vec(out, name);
            proof {
                assert(out@ =~= old(out)@ + "<"@ + name@ + attrs_ser_upto(attrs@, 0, keyed));
            }
            let mut k: usize = 0;
            while k < attrs.len()
                invariant
                    attrs.len() == attrs@.len(),
                    k <= attrs@.len(),
                    out@ == old(out)@ + "<"@ + name@ + attrs_ser_upto(attrs@, k as int, keyed),
                decreases attrs@.len() - k,
            {
                let ghost out_k = out@;
                let a = &attrs[k];
                let ghost av = *a;
                let skip_key = if keyed {
                    crate::text::eq_str(&a.name, "data-vkey")
                } else {
                    false
                };
                if !skip_key {
                    push_chars(out, " ");
                    push_vec(out, &a.name);
                    push_chars(out, "=\"");
                    push_attr_escaped_chars(out, &a.value);
                    push_chars(out, "\"");
                }
                k = k + 1;
                proof {
                    if skip_key {
                        assert(av.name@ == key_attr_name());
                        assert(out@ =~= old(out)@ + "<"@ + name@ + attrs_ser_upto(
                            attrs@,
                            k as int,
                            keyed,
                        ));
                    } else {
                        assert(attrs_ser_upto(attrs@, k as int, keyed) == attrs_ser_upto(
                            attrs@,
                            k - 1,
                            keyed,
                        ) + (" "@ + av.name@ + "=\""@ + escape_attr(av.value@) + "\""@));
                        assert(out@ =~= old(out)@ + "<"@ + name@ + attrs_ser_upto(
                            attrs@,
                            k as int,
                            keyed,
                        ));
                    }
                }
            }
            if keyed {
                push_chars(out, " data-vkey=\"");
                push_dec(i, out);
                push_chars(out, "\"");
            }
            push_chars(out, ">");
            proof {
                let open_tag0 = "<"@ + name@ + attrs_ser_upto(attrs@, attrs@.len() as int, keyed)
                    + (if keyed {
                    key_attr_ser(i as int)
                } else {
                    Seq::<char>::empty()
                }) + ">"@;
                assert(out@ =~= old(out)@ + open_tag0);
            }
            let void = name_is_void(name);
            if !void {
                let child_raw = name_is_raw(name);
                proof {
                    assert(node_ok(ns@, i as int));
                }
                let mut c: usize = 0;
                let ghost open_tag = "<"@ + name@ + attrs_ser_upto(
                    attrs@,
                    attrs@.len() as int,
                    keyed,
                ) + (if keyed {
                    key_attr_ser(i as int)
                } else {
                    Seq::<char>::empty()
                }) + ">"@;
                while c < nd.children.len()
                    invariant
                        nodes_ok(ns@),
                        i < ns@.len(),
                        nd == ns@[i as int],
                        ns@[i as int].kind matches NodeKind::Element { .. },
                        child_raw == (match ns@[i as int].kind {
                            NodeKind::Element { name, .. } => is_raw_name(name@),
                            _ => false,
                        }),
                        c <= nd.children@.len(),
                        out@ == old(out)@ + open_tag + ser_upto(
                            ns@,
                            i as int,
                            c as int,
                            keyed,
                            child_raw,
                        ),
                    decreases nd.children@.len() - c,
                {
                    proof {
                        assert(node_ok(ns@, i as int));
                    }
                    let ch = nd.children[c];
                    push_ser(ns, ch, keyed, child_raw, out);
                    c = c + 1;
                }
                push_chars(out, "</");
                push_vec(out, name);
                push_chars(out, ">");
                proof {
                    assert(out@ =~= old(out)@ + (open_tag + ser_upto(
                        ns@,
                        i as int,
                        ns@[i as int].children@.len() as int,
                        keyed,
                        child_raw,
                    ) + "</"@ + name@ + ">"@));
                }
            }
        },
        NodeKind::Other => {
            proof {
                assert(out@ =~= old(out)@ + Seq::<char>::empty());
            }
        },
        _ => {
            proof {
                assert(node_ok(ns@, i as int));
                assert(out@ =~= old(out)@ + ser_upto(ns@, i as int, 0, keyed, false));
            }
            let mut c: usize = 0;
            while c < nd.children.len()
                invariant
                    nodes_ok(ns@),
                    i < ns@.len(),
                    nd == ns@[i as int],
                    !(ns@[i as int].kind matches NodeKind::Element { .. }),
                    c <= nd.children@.len(),
                    out@ == old(out)@ + ser_upto(ns@, i as int, c as int, keyed, false),
                decreases nd.children@.len() - c,
            {
                proof {
                    assert(node_ok(ns@, i as int));
                }
                let ch = nd.children[c];
                push_ser(ns, ch, keyed, false, out);
                c = c + 1;
            }
        },
    }
}

/// The serialized form of node `i`'s subtree.
pub fn serialize_node(ns: &Vec<NodeData>, i: usize, keyed: bool) -> (r: Vec<char>)
    requires
        nodes_ok(ns@),
        i < ns@.len(),
    ensures
        r@ == ser_node(ns@, i as int, keyed, false),
{
    let mut out: Vec<char> = Vec::new();
    push_ser(ns, i, keyed, false, &mut out);
    proof {
        assert(Seq::<char>::empty() + ser_node(ns@, i as int, keyed, false) =~= ser_node(
            ns@,
            i as int,
            keyed,
            false,
        ));
    }
    out
}

/// The serialized form of node `i`'s children, in order: its inner HTML.
pub fn serialize_children(ns: &Vec<NodeData>, i: usize, keyed: bool) -> (r: Vec<char>)
    requires
        nodes_ok(ns@),
        i < ns@.len(),
    ensures
        r@ == ser_upto(
            ns@,
            i as int,
            ns@[i as int].children@.len() as int,
            keyed,
            match ns@[i as int].kind {
                NodeKind::Element { name, .. } => is_raw_name(name@),
                _ => false,
            },
        ),
{
    let nd = &ns[i];
    let child_raw = match &nd.kind {
        NodeKind::Element { name, .. } => name_is_raw(name),
        _ => false,
    };
    proof {
        assert(node_ok(ns@, i as int));
    }
    let mut out: Vec<char> = Vec::new();
    let mut c: usize = 0;
    while c < nd.children.len()
        invariant
            nodes_ok(ns@),
            i < ns@.len(),
            nd == ns@[i as int],
            child_raw == (match ns@[i as int].kind {
                NodeKind::Element { name, .. } => is_raw_name(name@),
                _ => false,
            }),
            c <= nd.children@.len(),
            out@ == ser_upto(ns@, i as int, c as int, keyed, child_raw),
        decreases nd.children@.len() - c,
    {
        proof {
            assert(node_ok(ns@, i as int));
        }
        let ch = nd.children[c];
        let ghost pre = out@;
        push_ser(ns, ch, keyed, child_raw, &mut out);
        c = c + 1;
    }
    out
}

} // verus!
