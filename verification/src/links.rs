//! Resolution of relative link and image addresses against the base
//! address, applied to the accepted container during cleaning.
//!
//! The join is the simple one: an address with a scheme, a fragment or a
//! protocol-relative prefix is left alone; a root-relative address is hung
//! off the base's origin; anything else off the base's directory. Dot
//! segments are not folded.

use vstd::prelude::*;
use crate::dom::{Attr, AttrV, Elem, Node, NodeV, attrs_view, nodes_view, node_view,
    lemma_nodes_view, copy_chars};

verus! {

/// `p` is a prefix of `s`.
pub open spec fn starts_with(s: Seq<char>, p: Seq<char>) -> bool {
    p.len() <= s.len() && s.take(p.len() as int) == p
}

/// Addresses left alone by resolution.
pub open spec fn is_absolute_url(s: Seq<char>) -> bool {
    ||| starts_with(s, "http://"@)
    ||| starts_with(s, "https://"@)
    ||| starts_with(s, "//"@)
    ||| starts_with(s, "#"@)
    ||| starts_with(s, "mailto:"@)
    ||| starts_with(s, "data:"@)
}

/// Index of the first occurrence of `c` at or after `i`; the length when
/// there is none.
pub open spec fn find_from(s: Seq<char>, c: char, i: int) -> int
    decreases s.len() - i,
{
    if i < 0 || i >= s.len() {
        s.len() as int
    } else if s[i] == c {
        i
    } else {
        find_from(s, c, i + 1)
    }
}

/// Index just past the scheme of a base address.
pub open spec fn scheme_len(base: Seq<char>) -> int {
    if starts_with(base, "https://"@) {
        8
    } else if starts_with(base, "http://"@) {
        7
    } else {
        0
    }
}

/// The base address up to the end of its host.
pub open spec fn origin_v(base: Seq<char>) -> Seq<char> {
    base.take(find_from(base, '/', scheme_len(base)))
}

/// Index of the last slash of `s`; minus one when there is none.
pub open spec fn rfind_slash(s: Seq<char>) -> int
    decreases s.len(),
{
    if s.len() == 0 {
        -1
    } else if s[s.len() - 1] == '/' {
        s.len() - 1
    } else {
        rfind_slash(s.drop_last())
    }
}

/// The base address up to and including its last slash, the whole base
/// plus a slash when it has none.
pub open spec fn base_dir_v(base: Seq<char>) -> Seq<char> {
    if rfind_slash(base) >= 0 {
        base.take(rfind_slash(base) + 1)
    } else {
        base + seq!['/']
    }
}

/// The resolved address.
pub open spec fn resolve_v(href: Seq<char>, base: Seq<char>) -> Seq<char> {
    if base.len() == 0 || href.len() == 0 || is_absolute_url(href) {
        href
    } else if href[0] == '/' {
        origin_v(base) + href
    } else {
        base_dir_v(base) + href
    }
}

/// Whether the literal `p` is a prefix of `v`.
fn starts_with_str(v: &Vec<char>, p: &str) -> (r: bool)
    ensures
        r == starts_with(v@, p@),
{
    let n = p.unicode_len();
    if n > v.len() {
        return false;
    }
    let mut i: usize = 0;
    while i < n
        invariant
            i <= n,
            n == p@.len(),
            n <= v@.len(),
            forall|k: int| 0 <= k < i ==> v@[k] == p@[k],
        decreases n - i,
    {
        if v[i] != p.get_char(i) {
            return false;
        }
        i = i + 1;
    }
    assert(v@.take(n as int) =~= p@);
    true
}

/// Index of the first occurrence of `c` at or after `from`.
fn find_char(v: &Vec<char>, c: char, from: usize) -> (r: usize)
    requires
        from <= v@.len(),
    ensures
        r == find_from(v@, c, from as int),
        r <= v@.len(),
{
    let mut i: usize = from;
    while i < v.len()
        invariant
            from <= i <= v@.len(),
            find_from(v@, c, from as int) == find_from(v@, c, i as int),
        decreases v@.len() - i,
    {
        if v[i] == c {
            return i;
        }
        i = i + 1;
    }
    v.len()
}

/// Index just past the last slash; zero when there is none.
fn last_slash_end(v: &Vec<char>) -> (r: usize)
    ensures
        r == rfind_slash(v@) + 1,
        r <= v@.len(),
{
    let mut j: usize = v.len();
    proof {
        assert(v@.take(v@.len() as int) =~= v@);
    }
    while j > 0
        invariant
            j <= v@.len(),
            rfind_slash(v@) == rfind_slash(v@.take(j as int)),
        decreases j,
    {
        proof {
            assert(v@.take(j as int).drop_last() =~= v@.take(j - 1));
        }
        if v[j - 1] == '/' {
            return j;
        }
        j = j - 1;
    }
    proof {
        assert(v@.take(0) =~= Seq::<char>::empty());
    }
    0
}

/// The resolved address; mirrors `resolve_v`.
pub fn resolve_url(href: &Vec<char>, base: &Vec<char>) -> (r: Vec<char>)
    ensures
        r@ == resolve_v(href@, base@),
{
    if base.len() == 0 || href.len() == 0 {
        return copy_chars(href);
    }
    if starts_with_str(href, "http://") || starts_with_str(href, "https://") || starts_with_str(
        href,
        "//",
    ) || starts_with_str(href, "#") || starts_with_str(href, "mailto:") || starts_with_str(
        href,
        "data:",
    ) {
        return copy_chars(href);
    }
    let mut out: Vec<char> = Vec::new();
    if href[0] == '/' {
        let sl: usize = if starts_with_str(base, "https://") {
            proof {
                reveal_strlit("https://");
            }
            8
        } else if starts_with_str(base, "http://") {
            proof {
                reveal_strlit("http://");
            }
            7
        } else {
            0
        };
        let he = find_char(base, '/', sl);
        let mut i: usize = 0;
        while i < he
            invariant
                he <= base@.len(),
                i <= he,
                out@ =~= base@.take(he as int).take(i as int),
            decreases he - i,
        {
            out.push(base[i]);
            proof {
                assert(out@ =~= base@.take(he as int).take(i + 1 as int));
            }
            i = i + 1;
        }
        proof {
            assert(out@ =~= base@.take(he as int));
        }
    } else {
        let de = last_slash_end(base);
        if de == 0 {
            crate::dom::push_all(&mut out, base);
            out.push('/');
            assert(out@ =~= base@ + seq!['/']);
        } else {
            let mut i: usize = 0;
            while i < de
                invariant
                    de <= base@.len(),
                    i <= de,
                    out@ =~= base@.take(de as int).take(i as int),
                decreases de - i,
            {
                out.push(base[i]);
                proof {
                    assert(out@ =~= base@.take(de as int).take(i + 1 as int));
                }
                i = i + 1;
            }
            proof {
                assert(out@ =~= base@.take(de as int));
            }
        }
    }
    crate::dom::push_all(&mut out, href);
    assert(out@ =~= resolve_v(href@, base@));
    out
}

/// Attributes that carry an address on this tag.
pub open spec fn is_link_attr(tag: Seq<char>, name: Seq<char>) -> bool {
    ||| (tag == "a"@ && name == "href"@)
    ||| ((tag == "img"@ || tag == "video"@ || tag == "audio"@ || tag == "source"@ || tag
        == "iframe"@ || tag == "embed"@) && name == "src"@)
}

/// One attribute after resolution.
pub open spec fn fix_attr_v(tag: Seq<char>, a: AttrV, base: Seq<char>) -> AttrV {
    if is_link_attr(tag, a.name) {
        AttrV { name: a.name, value: resolve_v(a.value, base) }
    } else {
        a
    }
}

/// An attribute list after resolution.
pub open spec fn fix_attrs_v(tag: Seq<char>, s: Seq<AttrV>, base: Seq<char>) -> Seq<AttrV>
    decreases s,
{
    if s.len() == 0 {
        Seq::empty()
    } else {
        seq![fix_attr_v(tag, s[0], base)] + fix_attrs_v(tag, s.drop_first(), base)
    }
}

/// A node after resolution.
pub open spec fn fix_node_v(n: NodeV, base: Seq<char>) -> NodeV
    decreases n,
{
    match n {
        NodeV::Element { tag, attrs, children } => NodeV::Element {
            tag,
            attrs: fix_attrs_v(tag, attrs, base),
            children: fix_list_v(children, base),
        },
        NodeV::Text(t) => n,
        NodeV::Comment(c) => n,
    }
}

/// A forest after resolution.
pub open spec fn fix_list_v(s: Seq<NodeV>, base: Seq<char>) -> Seq<NodeV>
    decreases s,
{
    if s.len() == 0 {
        Seq::empty()
    } else {
        seq![fix_node_v(s[0], base)] + fix_list_v(s.drop_first(), base)
    }
}

/// Whether the attribute carries an address on this tag.
fn is_link_attr_e(tag: &Vec<char>, name: &Vec<char>) -> (r: bool)
    ensures
        r == is_link_attr(tag@, name@),
{
    let a_href = crate::text::chars_eq_str(tag, "a") && crate::text::chars_eq_str(name, "href");
    let src_tag = crate::text::chars_eq_str(tag, "img") || crate::text::chars_eq_str(tag, "video")
        || crate::text::chars_eq_str(tag, "audio") || crate::text::chars_eq_str(tag, "source")
        || crate::text::chars_eq_str(tag, "iframe") || crate::text::chars_eq_str(tag, "embed");
    a_href || (src_tag && crate::text::chars_eq_str(name, "src"))
}

/// Resolves the addresses of an attribute list; mirrors `fix_attrs_v`.
fn fix_attrs(tag: &Vec<char>, attrs: &Vec<Attr>, base: &Vec<char>) -> (r: Vec<Attr>)
    ensures
        attrs_view(r@) == fix_attrs_v(tag@, attrs_view(attrs@), base@),
{
    let ghost avs = attrs_view(attrs@);
    proof {
        assert(avs.skip(0) =~= avs);
    }
    let mut out: Vec<Attr> = Vec::new();
    let mut i: usize = 0;
    while i < attrs.len()
        invariant
            i <= attrs@.len(),
            avs == attrs_view(attrs@),
            attrs_view(out@) + fix_attrs_v(tag@, avs.skip(i as int), base@) == fix_attrs_v(
                tag@,
                avs,
                base@,
            ),
        decreases attrs@.len() - i,
    {
        proof {
            assert(avs.skip(i as int).drop_first() =~= avs.skip(i + 1));
            assert(avs.skip(i as int)[0] == avs[i as int]);
            assert(avs[i as int] == attrs@[i as int]@);
        }
        let ghost prev = attrs_view(out@);
        let name = copy_chars(&attrs[i].name);
        let value = if is_link_attr_e(tag, &attrs[i].name) {
            resolve_url(&attrs[i].value, base)
        } else {
            copy_chars(&attrs[i].value)
        };
        let a = Attr { name, value };
        let ghost av = a@;
        out.push(a);
        proof {
            assert(attrs_view(out@) =~= prev.push(av));
            assert(prev.push(av) =~= prev + seq![av]);
            assert(av == fix_attr_v(tag@, avs[i as int], base@));
        }
        i = i + 1;
    }
    proof {
        assert(avs.skip(avs.len() as int) =~= Seq::<AttrV>::empty());
        assert(attrs_view(out@) =~= fix_attrs_v(tag@, avs, base@));
    }
    out
}

/// Resolves the addresses of a subtree; mirrors `fix_node_v`.
#[verifier::rlimit(100)]
#[verifier::loop_isolation(false)]
pub fn fix_node(n: &Node, base: &Vec<char>) -> (r: Node)
    ensures
        r@ == fix_node_v(n@, base@),
    decreases *n,
{
    match n {
        Node::Text(t) => Node::Text(copy_chars(t)),
        Node::Comment(c) => Node::Comment(copy_chars(c)),
        Node::Element(e) => {
            let ghost vs = nodes_view(e.children@);
            proof {
                lemma_nodes_view(e.children@);
                assert(vs.skip(0) =~= vs);
            }
            let mut cc: Vec<Node> = Vec::new();
            let mut i: usize = 0;
            while i < e.children.len()
                invariant
                    i <= e.children@.len(),
                    nodes_view(cc@) + fix_list_v(vs.skip(i as int), base@) == fix_list_v(
                        vs,
                        base@,
                    ),
                decreases e.children@.len() - i,
            {
                proof {
                    assert(vs.skip(i as int).drop_first() =~= vs.skip(i + 1));
                    assert(vs.skip(i as int)[0] == vs[i as int]);
                    assert(decreases_to!(*n => *e));
                    assert(decreases_to!(*e => e.children));
                    assert(decreases_to!(e.children => e.children[i as int]));
                    assert(decreases_to!(*n => e.children[i as int]));
                }
                let ghost pcc = cc@;
                let ghost prev = nodes_view(cc@);
                let x = fix_node(&e.children[i], base);
                let ghost xv = x@;
                cc.push(x);
                proof {
                    lemma_nodes_view(pcc);
                    lemma_nodes_view(cc@);
                    assert(nodes_view(cc@) =~= prev.push(xv));
                    assert(prev.push(xv) =~= prev + seq![xv]);
                }
                i = i + 1;
            }
            proof {
                assert(vs.skip(vs.len() as int) =~= Seq::<NodeV>::empty());
                assert(nodes_view(cc@) =~= fix_list_v(vs, base@));
            }
            let tag = copy_chars(&e.tag);
            let attrs = fix_attrs(&e.tag, &e.attrs, base);
            Node::Element(Elem { tag, attrs, children: cc })
        },
    }
}

/// Resolves the addresses of a forest; mirrors `fix_list_v`.
pub fn fix_forest(ns: &Vec<Node>, base: &Vec<char>) -> (r: Vec<Node>)
    ensures
        nodes_view(r@) == fix_list_v(nodes_view(ns@), base@),
{
    let ghost vs = nodes_view(ns@);
    proof {
        lemma_nodes_view(ns@);
        assert(vs.skip(0) =~= vs);
    }
    let mut out: Vec<Node> = Vec::new();
    let mut i: usize = 0;
    while i < ns.len()
        invariant
            i <= ns@.len(),
            vs == nodes_view(ns@),
            vs.len() == ns@.len(),
            forall|k: int| 0 <= k < vs.len() ==> vs[k] == node_view(ns@[k]),
            nodes_view(out@) + fix_list_v(vs.skip(i as int), base@) == fix_list_v(vs, base@),
        decreases ns@.len() - i,
    {
        proof {
            assert(vs.skip(i as int).drop_first() =~= vs.skip(i + 1));
            assert(vs.skip(i as int)[0] == vs[i as int]);
        }
        let ghost pout = out@;
        let ghost prev = nodes_view(out@);
        let x = fix_node(&ns[i], base);
        let ghost xv = x@;
        out.push(x);
        proof {
            lemma_nodes_view(pout);
            lemma_nodes_view(out@);
            assert(nodes_view(out@) =~= prev.push(xv));
            assert(prev.push(xv) =~= prev + seq![xv]);
        }
        i = i + 1;
    }
    proof {
        assert(vs.skip(vs.len() as int) =~= Seq::<NodeV>::empty());
        assert(nodes_view(out@) =~= fix_list_v(vs, base@));
    }
    out
}

} // verus!
