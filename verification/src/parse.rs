//! The tree builder: turns raw markup text into a document tree.
//!
//! Tolerant in the way markup parsers must be: unknown constructs are kept
//! as text, mismatched close tags close the nearest open element of that
//! name, open elements left at the end of input are closed there. The one
//! hard failure, `None`, is markup that cannot be minimally tokenized: a
//! tag, quoted attribute value, or comment that never terminates.
//!
//! The whole computation is mirrored by the spec function `parse_v`: a
//! small-step machine over the character sequence whose state is the open
//! element stack and the finished roots, so the parse result is pinned to
//! the input text.

use vstd::prelude::*;
use crate::dom::{Attr, AttrV, Elem, Node, NodeV, attrs_view, nodes_view, node_view,
    lemma_nodes_view, is_void_tag};
use crate::text::{is_space, is_space_char, to_lower, lower_seq, chars_eq};

verus! {

/// Whether `c` can start a tag name.
pub open spec fn alpha_char(c: char) -> bool {
    ('a' <= c && c <= 'z') || ('A' <= c && c <= 'Z')
}

/// Whether `c` can continue a tag or attribute name.
pub open spec fn name_char(c: char) -> bool {
    alpha_char(c) || ('0' <= c && c <= '9') || c == '-' || c == '_' || c == ':'
}

/// Whether `c` can start a tag name.
fn is_alpha(c: char) -> (r: bool)
    ensures
        r == alpha_char(c),
{
    (c >= 'a' && c <= 'z') || (c >= 'A' && c <= 'Z')
}

/// Whether `c` can continue a tag or attribute name.
fn is_name_char(c: char) -> (r: bool)
    ensures
        r == name_char(c),
{
    (c >= 'a' && c <= 'z') || (c >= 'A' && c <= 'Z') || (c >= '0' && c <= '9') || c == '-'
        || c == '_' || c == ':'
}

/// `x` clamped into `[lo, hi]`.
pub open spec fn clamp_pos(x: int, lo: int, hi: int) -> int {
    if x < lo {
        lo
    } else if x > hi {
        hi
    } else {
        x
    }
}

/// Index of the first occurrence of `c` at or after `i`; the length when
/// there is none.
pub open spec fn scan_char(s: Seq<char>, c: char, i: int) -> int
    decreases s.len() - i,
{
    if i >= s.len() {
        s.len() as int
    } else if s[i] == c {
        i
    } else {
        scan_char(s, c, i + 1)
    }
}

/// Index where a comment terminator begins, at or after `i`; the length
/// when there is none.
pub open spec fn scan_comment_end(s: Seq<char>, i: int) -> int
    decreases s.len() - i,
{
    if i >= s.len() {
        s.len() as int
    } else if s.len() - i > 2 && s[i] == '-' && s[i + 1] == '-' && s[i + 2] == '>' {
        i
    } else {
        scan_comment_end(s, i + 1)
    }
}

/// Index just past the run of name characters starting at `i`.
pub open spec fn scan_name_end(s: Seq<char>, i: int) -> int
    decreases s.len() - i,
{
    if i >= s.len() {
        s.len() as int
    } else if name_char(s[i]) {
        scan_name_end(s, i + 1)
    } else {
        i
    }
}

/// Index just past the run of whitespace starting at `i`.
pub open spec fn scan_ws_end(s: Seq<char>, i: int) -> int
    decreases s.len() - i,
{
    if i >= s.len() {
        s.len() as int
    } else if is_space_char(s[i]) {
        scan_ws_end(s, i + 1)
    } else {
        i
    }
}

/// Index just past an unquoted attribute value starting at `i`.
pub open spec fn scan_uq_end(s: Seq<char>, i: int) -> int
    decreases s.len() - i,
{
    if i >= s.len() {
        s.len() as int
    } else if is_space_char(s[i]) || s[i] == '>' || s[i] == '/' {
        i
    } else {
        scan_uq_end(s, i + 1)
    }
}

/// The attribute list of an open tag, read from position `q`: the
/// attributes found (after `acc`), the position just past the closing
/// bracket, and whether the tag was self-closing; `None` when the tag never
/// terminates.
pub open spec fn parse_attrs_v(s: Seq<char>, q: int, acc: Seq<AttrV>) -> Option<
    (Seq<AttrV>, int, bool),
>
    decreases s.len() - q,
{
    let n = s.len() as int;
    if q >= n {
        None
    } else if is_space_char(s[q]) {
        parse_attrs_v(s, q + 1, acc)
    } else if s[q] == '>' {
        Some((acc, q + 1, false))
    } else if s[q] == '/' && n - q > 1 && s[q + 1] == '>' {
        Some((acc, q + 2, true))
    } else if name_char(s[q]) {
        let e = scan_name_end(s, q + 1);
        let name = lower_seq(s.subrange(q, e));
        let w = scan_ws_end(s, e);
        if w < n && s[w] == '=' {
            let v0 = scan_ws_end(s, w + 1);
            if v0 < n && (s[v0] == '"' || s[v0] == '\'') {
                let ve = scan_char(s, s[v0], v0 + 1);
                if ve >= n {
                    None
                } else {
                    parse_attrs_v(
                        s,
                        clamp_pos(ve + 1, q + 1, n),
                        acc.push(AttrV { name, value: s.subrange(v0 + 1, ve) }),
                    )
                }
            } else {
                let ue = scan_uq_end(s, v0);
                parse_attrs_v(
                    s,
                    clamp_pos(ue, q + 1, n),
                    acc.push(AttrV { name, value: s.subrange(v0, ue) }),
                )
            }
        } else {
            parse_attrs_v(s, clamp_pos(e, q + 1, n), acc.push(AttrV { name, value: Seq::empty() }))
        }
    } else {
        parse_attrs_v(s, q + 1, acc)
    }
}

/// An open element awaiting its close tag.
pub struct OpenV {
    pub tag: Seq<char>,
    pub attrs: Seq<AttrV>,
    pub children: Seq<NodeV>,
}

/// The element an open entry becomes when closed.
pub open spec fn elem_of(o: OpenV) -> NodeV {
    NodeV::Element { tag: o.tag, attrs: o.attrs, children: o.children }
}

/// Model of the open-element stack.
pub open spec fn opens_view(s: Seq<Elem>) -> Seq<OpenV>
    decreases s,
{
    if s.len() == 0 {
        Seq::empty()
    } else {
        seq![
            OpenV {
                tag: s[0].tag@,
                attrs: attrs_view(s[0].attrs@),
                children: nodes_view(s[0].children@),
            },
        ] + opens_view(s.drop_first())
    }
}

/// The model of the stack is the pointwise model of its entries.
pub proof fn lemma_opens_view(s: Seq<Elem>)
    ensures
        opens_view(s).len() == s.len(),
        forall|i: int|
            0 <= i < s.len() ==> opens_view(s)[i] == (OpenV {
                tag: s[i].tag@,
                attrs: attrs_view(s[i].attrs@),
                children: nodes_view(s[i].children@),
            }),
    decreases s.len(),
{
    if s.len() > 0 {
        lemma_opens_view(s.drop_first());
    }
}

/// Hangs a finished node under the innermost open element, or at the root.
pub open spec fn attach_v(stack: Seq<OpenV>, roots: Seq<NodeV>, node: NodeV) -> (
    Seq<OpenV>,
    Seq<NodeV>,
) {
    if stack.len() == 0 {
        (stack, roots.push(node))
    } else {
        let top = stack.last();
        (
            stack.drop_last().push(
                OpenV { tag: top.tag, attrs: top.attrs, children: top.children.push(node) },
            ),
            roots,
        )
    }
}

/// Whether some open element bears the tag.
pub open spec fn stack_has_v(stack: Seq<OpenV>, name: Seq<char>) -> bool
    decreases stack,
{
    if stack.len() == 0 {
        false
    } else {
        stack.last().tag == name || stack_has_v(stack.drop_last(), name)
    }
}

/// Closes the nearest open element with the given tag, auto-closing
/// anything opened inside it; a no-op when no such element is open.
pub open spec fn apply_close_v(stack: Seq<OpenV>, roots: Seq<NodeV>, name: Seq<char>) -> (
    Seq<OpenV>,
    Seq<NodeV>,
)
    decreases stack.len(),
{
    if !stack_has_v(stack, name) || stack.len() == 0 {
        (stack, roots)
    } else {
        let top = stack.last();
        let popped = attach_v(stack.drop_last(), roots, elem_of(top));
        if top.tag == name {
            popped
        } else {
            apply_close_v(popped.0, popped.1, name)
        }
    }
}

/// The parsing machine: reads the input from `pos` with the given open
/// stack and finished roots, and yields the final forest; `None` when a
/// construct never terminates. Mirrored step for step by `parse_nodes`.
pub open spec fn parse_doc(s: Seq<char>, pos: int, stack: Seq<OpenV>, roots: Seq<NodeV>) -> Option<
    Seq<NodeV>,
>
    decreases s.len() - pos, stack.len(),
{
    let n = s.len() as int;
    if pos < 0 {
        None
    } else if pos >= n {
        // input ended with elements still open: close them here
        if stack.len() == 0 {
            Some(roots)
        } else {
            let r = attach_v(stack.drop_last(), roots, elem_of(stack.last()));
            parse_doc(s, pos, r.0, r.1)
        }
    } else if s[pos] == '<' && n - pos > 3 && s[pos + 1] == '!' && s[pos + 2] == '-' && s[pos + 3]
        == '-' {
        let e = scan_comment_end(s, pos + 4);
        if e >= n {
            None
        } else {
            let r = attach_v(stack, roots, NodeV::Comment(s.subrange(pos + 4, e)));
            parse_doc(s, clamp_pos(e + 3, pos + 1, n), r.0, r.1)
        }
    } else if s[pos] == '<' && n - pos > 1 && s[pos + 1] == '!' {
        let g = scan_char(s, '>', pos + 2);
        if g >= n {
            None
        } else {
            parse_doc(s, clamp_pos(g + 1, pos + 1, n), stack, roots)
        }
    } else if s[pos] == '<' && n - pos > 1 && s[pos + 1] == '/' {
        let e = scan_name_end(s, pos + 2);
        let name = lower_seq(s.subrange(pos + 2, e));
        let g = scan_char(s, '>', e);
        if g >= n {
            None
        } else {
            let r = apply_close_v(stack, roots, name);
            parse_doc(s, clamp_pos(g + 1, pos + 1, n), r.0, r.1)
        }
    } else if s[pos] == '<' && n - pos > 1 && alpha_char(s[pos + 1]) {
        let e = scan_name_end(s, pos + 2);
        let name = lower_seq(s.subrange(pos + 1, e));
        match parse_attrs_v(s, e, Seq::empty()) {
            None => None,
            Some((attrs, q2, sc)) => {
                if sc || is_void_tag(name) {
                    let r = attach_v(
                        stack,
                        roots,
                        NodeV::Element { tag: name, attrs, children: Seq::empty() },
                    );
                    parse_doc(s, clamp_pos(q2, pos + 1, n), r.0, r.1)
                } else {
                    parse_doc(
                        s,
                        clamp_pos(q2, pos + 1, n),
                        stack.push(OpenV { tag: name, attrs, children: Seq::empty() }),
                        roots,
                    )
                }
            },
        }
    } else {
        let t = scan_char(s, '<', pos + 1);
        let r = attach_v(stack, roots, NodeV::Text(s.subrange(pos, t)));
        parse_doc(s, clamp_pos(t, pos + 1, n), r.0, r.1)
    }
}

/// What parsing the markup yields: the forest, or `None` when the markup
/// cannot be minimally tokenized.
pub open spec fn parse_v(s: Seq<char>) -> Option<Seq<NodeV>> {
    parse_doc(s, 0, Seq::empty(), Seq::empty())
}

/// Hangs a finished node under the innermost open element, or at the root;
/// mirrors `attach_v`.
fn attach(stack: &mut Vec<Elem>, roots: &mut Vec<Node>, node: Node)
    ensures
        ({
            let r = attach_v(opens_view(old(stack)@), nodes_view(old(roots)@), node_view(node));
            opens_view(final(stack)@) == r.0 && nodes_view(final(roots)@) == r.1
        }),
{
    let ghost sv = opens_view(stack@);
    let ghost rv = nodes_view(roots@);
    let ghost nv = node_view(node);
    proof {
        lemma_opens_view(stack@);
        lemma_nodes_view(roots@);
    }
    if stack.len() > 0 {
        match stack.pop() {
            Some(mut top) => {
                let ghost tc = nodes_view(top.children@);
                proof {
                    lemma_nodes_view(top.children@);
                }
                top.children.push(node);
                proof {
                    lemma_nodes_view(top.children@);
                    assert(nodes_view(top.children@) =~= tc.push(nv));
                }
                stack.push(top);
                proof {
                    lemma_opens_view(stack@);
                    assert(opens_view(stack@) =~= attach_v(sv, rv, nv).0);
                }
            },
            None => {
            },
        }
    } else {
        roots.push(node);
        proof {
            lemma_nodes_view(roots@);
            assert(nodes_view(roots@) =~= rv.push(nv));
        }
    }
}

/// Whether some open element bears the tag; mirrors `stack_has_v`.
fn stack_has(stack: &Vec<Elem>, name: &Vec<char>) -> (r: bool)
    ensures
        r == stack_has_v(opens_view(stack@), name@),
{
    let ghost sv = opens_view(stack@);
    proof {
        lemma_opens_view(stack@);
        assert(sv.take(sv.len() as int) =~= sv);
    }
    let mut j: usize = stack.len();
    while j > 0
        invariant
            j <= stack@.len(),
            sv == opens_view(stack@),
            sv.len() == stack@.len(),
            forall|k: int|
                0 <= k < sv.len() ==> sv[k] == (OpenV {
                    tag: stack@[k].tag@,
                    attrs: attrs_view(stack@[k].attrs@),
                    children: nodes_view(stack@[k].children@),
                }),
            stack_has_v(sv, name@) == stack_has_v(sv.take(j as int), name@),
        decreases j,
    {
        proof {
            assert(sv.take(j as int).drop_last() =~= sv.take(j - 1));
            assert(sv.take(j as int).last() == sv[j - 1]);
        }
        if chars_eq(&stack[j - 1].tag, name) {
            return true;
        }
        j = j - 1;
    }
    proof {
        assert(sv.take(0) =~= Seq::<OpenV>::empty());
    }
    false
}

/// Closes the nearest open element with the given tag name, auto-closing
/// anything opened inside it; does nothing when no such element is open.
/// Mirrors `apply_close_v`.
#[verifier::loop_isolation(false)]
fn close_tag(stack: &mut Vec<Elem>, roots: &mut Vec<Node>, name: &Vec<char>)
    ensures
        ({
            let r = apply_close_v(opens_view(old(stack)@), nodes_view(old(roots)@), name@);
            opens_view(final(stack)@) == r.0 && nodes_view(final(roots)@) == r.1
        }),
{
    let ghost sv0 = opens_view(stack@);
    let ghost rv0 = nodes_view(roots@);
    if !stack_has(stack, name) {
        return ;
    }
    loop
        invariant
            stack_has_v(opens_view(stack@), name@),
            apply_close_v(sv0, rv0, name@) == apply_close_v(
                opens_view(stack@),
                nodes_view(roots@),
                name@,
            ),
        decreases stack@.len(),
    {
        let ghost sv = opens_view(stack@);
        let ghost rv = nodes_view(roots@);
        proof {
            lemma_opens_view(stack@);
            assert(sv.len() > 0);
        }
        match stack.pop() {
            Some(top) => {
                proof {
                    lemma_opens_view(stack@);
                    assert(opens_view(stack@) =~= sv.drop_last());
                    assert(sv.last() == (OpenV {
                        tag: top.tag@,
                        attrs: attrs_view(top.attrs@),
                        children: nodes_view(top.children@),
                    }));
                }
                let matched = chars_eq(&top.tag, name);
                attach(stack, roots, Node::Element(top));
                proof {
                    lemma_opens_view(stack@);
                    let pv = attach_v(sv.drop_last(), rv, elem_of(sv.last()));
                    assert(opens_view(stack@) == pv.0);
                    assert(nodes_view(roots@) == pv.1);
                    assert(stack@.len() < sv.len());
                    if matched {
                        assert(sv.last().tag == name@);
                        assert(apply_close_v(sv, rv, name@) == pv);
                    }
                    if !matched {
                        assert(sv.last().tag != name@);
                        assert(stack_has_v(sv.drop_last(), name@));
                        if sv.drop_last().len() > 0 {
                            assert(pv.0.drop_last() =~= sv.drop_last().drop_last());
                            assert(pv.0.last().tag == sv.drop_last().last().tag);
                            assert(stack_has_v(pv.0, name@) == stack_has_v(
                                sv.drop_last(),
                                name@,
                            ));
                        }
                    }
                }
                if matched {
                    return ;
                }
            },
            None => {
                return ;
            },
        }
    }
}

/// Parses markup into a forest of nodes; `None` exactly when `parse_v`
/// says the markup cannot be minimally tokenized, and otherwise exactly
/// the forest `parse_v` describes.
#[verifier::loop_isolation(false)]
#[verifier::rlimit(100)]
#[verifier::spinoff_prover]
pub(crate) fn parse_nodes(src: &Vec<char>) -> (r: Option<Vec<Node>>)
    ensures
        match r {
            Some(f) => parse_v(src@) == Some(nodes_view(f@)),
            None => parse_v(src@) is None,
        },
{
    let ghost s = src@;
    let n = src.len();
    let mut stack: Vec<Elem> = Vec::new();
    let mut roots: Vec<Node> = Vec::new();
    let mut pos: usize = 0;
    proof {
        assert(opens_view(stack@) =~= Seq::<OpenV>::empty());
        assert(nodes_view(roots@) =~= Seq::<NodeV>::empty());
    }
    while pos < n
        invariant
            pos <= n,
            parse_v(s) == parse_doc(s, pos as int, opens_view(stack@), nodes_view(roots@)),
        decreases n - pos,
    {
        let ghost sv = opens_view(stack@);
        let ghost rv = nodes_view(roots@);
        if src[pos] == '<' && n - pos > 3 && src[pos + 1] == '!' && src[pos + 2] == '-' && src[pos
            + 3] == '-' {
            // comment
            let mut q: usize = pos + 4;
            while q < n && !(n - q > 2 && src[q] == '-' && src[q + 1] == '-' && src[q + 2] == '>')
                invariant
                    pos + 4 <= q <= n,
                    scan_comment_end(s, pos + 4) == scan_comment_end(s, q as int),
                decreases n - q,
            {
                q = q + 1;
            }
            if q >= n {
                return None;
            }
            let end = q;
            proof {
                assert(scan_comment_end(s, pos + 4) == end);
            }
            let mut body: Vec<char> = Vec::new();
            let mut t: usize = pos + 4;
            while t < end
                invariant
                    end <= n,
                    pos + 4 <= t <= end,
                    body@ =~= s.subrange(pos + 4, t as int),
                decreases end - t,
            {
                body.push(src[t]);
                assert(body@ =~= s.subrange(pos + 4, t + 1 as int));
                t = t + 1;
            }
            attach(&mut stack, &mut roots, Node::Comment(body));
            pos = end + 3;
        } else if src[pos] == '<' && n - pos > 1 && src[pos + 1] == '!' {
            // declaration such as a doctype: skip to the closing bracket
            let mut q: usize = pos + 2;
            while q < n && src[q] != '>'
                invariant
                    pos + 2 <= q <= n,
                    scan_char(s, '>', pos + 2) == scan_char(s, '>', q as int),
                decreases n - q,
            {
                q = q + 1;
            }
            if q >= n {
                return None;
            }
            pos = q + 1;
        } else if src[pos] == '<' && n - pos > 1 && src[pos + 1] == '/' {
            // close tag
            let mut q: usize = pos + 2;
            let mut name: Vec<char> = Vec::new();
            proof {
                assert(name@ =~= lower_seq(s.subrange(pos + 2, q as int)));
            }
            while q < n && is_name_char(src[q])
                invariant
                    pos + 2 <= q <= n,
                    scan_name_end(s, pos + 2) == scan_name_end(s, q as int),
                    name@ == lower_seq(s.subrange(pos + 2, q as int)),
                decreases n - q,
            {
                name.push(to_lower(src[q]));
                proof {
                    assert(name@ =~= lower_seq(s.subrange(pos + 2, q + 1 as int)));
                }
                q = q + 1;
            }
            proof {
                assert(scan_name_end(s, pos + 2) == q);
            }
            let ghost e = q as int;
            while q < n && src[q] != '>'
                invariant
                    e <= q <= n,
                    scan_char(s, '>', e) == scan_char(s, '>', q as int),
                decreases n - q,
            {
                q = q + 1;
            }
            if q >= n {
                return None;
            }
            close_tag(&mut stack, &mut roots, &name);
            pos = q + 1;
        } else if src[pos] == '<' && n - pos > 1 && is_alpha(src[pos + 1]) {
            // open tag
            let mut name: Vec<char> = Vec::new();
            name.push(to_lower(src[pos + 1]));
            let mut q: usize = pos + 2;
            proof {
                assert(name@ =~= lower_seq(s.subrange(pos + 1, q as int)));
            }
            while q < n && is_name_char(src[q])
                invariant
                    pos + 2 <= q <= n,
                    scan_name_end(s, pos + 2) == scan_name_end(s, q as int),
                    name@ == lower_seq(s.subrange(pos + 1, q as int)),
                decreases n - q,
            {
                name.push(to_lower(src[q]));
                proof {
                    assert(name@ =~= lower_seq(s.subrange(pos + 1, q + 1 as int)));
                }
                q = q + 1;
            }
            proof {
                assert(scan_name_end(s, pos + 2) == q);
            }
            let ghost e = q as int;
            let mut attrs: Vec<Attr> = Vec::new();
            let mut self_closing: bool = false;
            let mut closed: bool = false;
            proof {
                assert(attrs_view(attrs@) =~= Seq::<AttrV>::empty());
            }
            while q < n && !closed
                invariant
                    pos + 2 <= q <= n,
                    !closed ==> parse_attrs_v(s, e, Seq::empty()) == parse_attrs_v(
                        s,
                        q as int,
                        attrs_view(attrs@),
                    ),
                    closed ==> parse_attrs_v(s, e, Seq::empty()) == Some(
                        (attrs_view(attrs@), q as int, self_closing),
                    ),
                    !closed ==> self_closing == false,
                decreases n - q,
            {
                let ghost av = attrs_view(attrs@);
                if is_space(src[q]) {
                    q = q + 1;
                } else if src[q] == '>' {
                    closed = true;
                    q = q + 1;
                } else if src[q] == '/' && n - q > 1 && src[q + 1] == '>' {
                    closed = true;
                    self_closing = true;
                    q = q + 2;
                } else if is_name_char(src[q]) {
                    let ghost q_entry = q as int;
                    let mut aname: Vec<char> = Vec::new();
                    aname.push(to_lower(src[q]));
                    q = q + 1;
                    proof {
                        assert(aname@ =~= lower_seq(s.subrange(q_entry, q as int)));
                    }
                    while q < n && is_name_char(src[q])
                        invariant
                            q_entry < q <= n,
                            scan_name_end(s, q_entry + 1) == scan_name_end(s, q as int),
                            aname@ == lower_seq(s.subrange(q_entry, q as int)),
                        decreases n - q,
                    {
                        aname.push(to_lower(src[q]));
                        proof {
                            assert(aname@ =~= lower_seq(s.subrange(q_entry, q + 1 as int)));
                        }
                        q = q + 1;
                    }
                    proof {
                        assert(scan_name_end(s, q_entry + 1) == q);
                    }
                    let ghost ne = q as int;
                    let mut avalue: Vec<char> = Vec::new();
                    // optional whitespace around the equals sign
                    let mut w: usize = q;
                    while w < n && is_space(src[w])
                        invariant
                            q <= w <= n,
                            scan_ws_end(s, q as int) == scan_ws_end(s, w as int),
                        decreases n - w,
                    {
                        w = w + 1;
                    }
                    proof {
                        assert(scan_ws_end(s, ne) == w);
                    }
                    if w < n && src[w] == '=' {
                        q = w + 1;
                        let ghost w1 = q as int;
                        while q < n && is_space(src[q])
                            invariant
                                q_entry < q <= n,
                                w1 <= q,
                                scan_ws_end(s, w1) == scan_ws_end(s, q as int),
                            decreases n - q,
                        {
                            q = q + 1;
                        }
                        proof {
                            assert(scan_ws_end(s, w1) == q);
                        }
                        let ghost v0 = q as int;
                        if q < n && (src[q] == '"' || src[q] == '\'') {
                            let quote = src[q];
                            q = q + 1;
                            while q < n && src[q] != quote
                                invariant
                                    q_entry < q <= n,
                                    v0 + 1 <= q,
                                    scan_char(s, s[v0], v0 + 1) == scan_char(s, s[v0], q as int),
                                    avalue@ == s.subrange(v0 + 1, q as int),
                                decreases n - q,
                            {
                                avalue.push(src[q]);
                                proof {
                                    assert(avalue@ =~= s.subrange(v0 + 1, q + 1 as int));
                                }
                                q = q + 1;
                            }
                            if q >= n {
                                return None;
                            }
                            proof {
                                assert(scan_char(s, s[v0], v0 + 1) == q);
                            }
                            q = q + 1;
                        } else {
                            while q < n && !is_space(src[q]) && src[q] != '>' && src[q] != '/'
                                invariant
                                    q_entry < q <= n,
                                    v0 <= q,
                                    scan_uq_end(s, v0) == scan_uq_end(s, q as int),
                                    avalue@ == s.subrange(v0, q as int),
                                decreases n - q,
                            {
                                avalue.push(src[q]);
                                proof {
                                    assert(avalue@ =~= s.subrange(v0, q + 1 as int));
                                }
                                q = q + 1;
                            }
                            proof {
                                assert(scan_uq_end(s, v0) == q);
                            }
                        }
                    }
                    let ghost anv = aname@;
                    let ghost avv = avalue@;
                    attrs.push(Attr { name: aname, value: avalue });
                    proof {
                        assert(attrs_view(attrs@) =~= av.push(AttrV { name: anv, value: avv }));
                    }
                } else {
                    // stray character inside a tag: step over it
                    q = q + 1;
                }
            }
            if !closed {
                return None;
            }
            if self_closing || crate::dom::is_void(&name) {
                attach(
                    &mut stack,
                    &mut roots,
                    Node::Element(Elem { tag: name, attrs, children: Vec::new() }),
                );
            } else {
                proof {
                    lemma_opens_view(stack@);
                }
                stack.push(Elem { tag: name, attrs, children: Vec::new() });
                proof {
                    lemma_opens_view(stack@);
                    assert(nodes_view(Seq::<Node>::empty()) =~= Seq::<NodeV>::empty());
                    assert(opens_view(stack@) =~= sv.push(
                        OpenV {
                            tag: name@,
                            attrs: attrs_view(attrs@),
                            children: Seq::<NodeV>::empty(),
                        },
                    ));
                }
            }
            pos = q;
        } else {
            // text run, up to the next tag opener
            let mut q: usize = pos + 1;
            let mut body: Vec<char> = Vec::new();
            body.push(src[pos]);
            proof {
                assert(body@ =~= s.subrange(pos as int, q as int));
            }
            while q < n && src[q] != '<'
                invariant
                    pos < q <= n,
                    scan_char(s, '<', pos + 1) == scan_char(s, '<', q as int),
                    body@ == s.subrange(pos as int, q as int),
                decreases n - q,
            {
                body.push(src[q]);
                proof {
                    assert(body@ =~= s.subrange(pos as int, q + 1 as int));
                }
                q = q + 1;
            }
            proof {
                assert(scan_char(s, '<', pos + 1) == q);
            }
            attach(&mut stack, &mut roots, Node::Text(body));
            pos = q;
        }
    }
    // input ended with elements still open: close them here
    while stack.len() > 0
        invariant
            parse_v(s) == parse_doc(s, pos as int, opens_view(stack@), nodes_view(roots@)),
            pos >= n,
        decreases stack@.len(),
    {
        let ghost sv = opens_view(stack@);
        proof {
            lemma_opens_view(stack@);
        }
        match stack.pop() {
            Some(top) => {
                proof {
                    lemma_opens_view(stack@);
                    assert(opens_view(stack@) =~= sv.drop_last());
                    assert(sv.last() == (OpenV {
                        tag: top.tag@,
                        attrs: attrs_view(top.attrs@),
                        children: nodes_view(top.children@),
                    }));
                }
                attach(&mut stack, &mut roots, Node::Element(top));
                proof {
                    lemma_opens_view(stack@);
                    assert(stack@.len() < sv.len());
                }
            },
            None => {
            },
        }
    }
    proof {
        assert(opens_view(stack@) =~= Seq::<OpenV>::empty());
    }
    Some(roots)
}

} // verus!
