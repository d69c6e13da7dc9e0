//! The document tree: a mutable, ordered tree of element, text and comment
//! nodes, owned by one parse.
//!
//! The executable tree (`Node`) is mirrored by a mathematical model
//! (`NodeV`, over `Seq`), and every operation's contract is stated over that
//! model: `render_v` (the markup a tree prints as), `text_of_v` (its plain
//! text), `elem_count_v` (its element count), and `attr_value_v` (attribute
//! lookup).

use vstd::prelude::*;

verus! {

/// Model of one attribute: a name and a value.
#[verifier::ext_equal]
pub struct AttrV {
    pub name: Seq<char>,
    pub value: Seq<char>,
}

/// Model of a document node.
#[verifier::ext_equal]
pub enum NodeV {
    Element { tag: Seq<char>, attrs: Seq<AttrV>, children: Seq<NodeV> },
    Text(Seq<char>),
    Comment(Seq<char>),
}

/// One attribute of an element.
#[derive(Debug)]
pub struct Attr {
    pub name: Vec<char>,
    pub value: Vec<char>,
}

/// An element: a lower-case tag name, attributes in order, children in order.
#[derive(Debug)]
pub struct Elem {
    pub tag: Vec<char>,
    pub attrs: Vec<Attr>,
    pub children: Vec<Node>,
}

/// A document node.
#[derive(Debug)]
pub enum Node {
    Element(Elem),
    Text(Vec<char>),
    Comment(Vec<char>),
}

impl View for Attr {
    type V = AttrV;

    open spec fn view(&self) -> AttrV {
        AttrV { name: self.name@, value: self.value@ }
    }
}

/// Model of an attribute list.
pub open spec fn attrs_view(s: Seq<Attr>) -> Seq<AttrV> {
    s.map_values(|a: Attr| a@)
}

/// Model of a node.
pub open spec fn node_view(n: Node) -> NodeV
    decreases n,
{
    match n {
        Node::Element(e) => NodeV::Element {
            tag: e.tag@,
            attrs: attrs_view(e.attrs@),
            children: nodes_view(e.children@),
        },
        Node::Text(t) => NodeV::Text(t@),
        Node::Comment(c) => NodeV::Comment(c@),
    }
}

/// Model of a node list.
pub open spec fn nodes_view(s: Seq<Node>) -> Seq<NodeV>
    decreases s,
{
    if s.len() == 0 {
        Seq::empty()
    } else {
        seq![node_view(s[0])] + nodes_view(s.drop_first())
    }
}

impl View for Node {
    type V = NodeV;

    open spec fn view(&self) -> NodeV {
        node_view(*self)
    }
}

/// The model of a node list is the pointwise model of its nodes.
pub proof fn lemma_nodes_view(s: Seq<Node>)
    ensures
        nodes_view(s).len() == s.len(),
        forall|i: int| 0 <= i < s.len() ==> nodes_view(s)[i] == node_view(s[i]),
    decreases s.len(),
{
    if s.len() > 0 {
        lemma_nodes_view(s.drop_first());
    }
}

/// The plain text of a node: the concatenation of its text descendants.
pub open spec fn text_of_v(n: NodeV) -> Seq<char>
    decreases n,
{
    match n {
        NodeV::Element { tag, attrs, children } => text_of_list_v(children),
        NodeV::Text(t) => t,
        NodeV::Comment(c) => Seq::empty(),
    }
}

/// The plain text of a node list.
pub open spec fn text_of_list_v(s: Seq<NodeV>) -> Seq<char>
    decreases s,
{
    if s.len() == 0 {
        Seq::empty()
    } else {
        text_of_v(s[0]) + text_of_list_v(s.drop_first())
    }
}

/// Number of element nodes in a subtree, the subtree's own root included.
pub open spec fn elem_count_v(n: NodeV) -> nat
    decreases n,
{
    match n {
        NodeV::Element { tag, attrs, children } => 1 + elem_count_list_v(children),
        NodeV::Text(t) => 0,
        NodeV::Comment(c) => 0,
    }
}

/// Number of element nodes in a forest.
pub open spec fn elem_count_list_v(s: Seq<NodeV>) -> nat
    decreases s,
{
    if s.len() == 0 {
        0
    } else {
        elem_count_v(s[0]) + elem_count_list_v(s.drop_first())
    }
}

/// Tags of elements that never take children and print self-closed.
pub open spec fn is_void_tag(t: Seq<char>) -> bool {
    ||| t == "area"@
    ||| t == "base"@
    ||| t == "br"@
    ||| t == "col"@
    ||| t == "embed"@
    ||| t == "hr"@
    ||| t == "img"@
    ||| t == "input"@
    ||| t == "link"@
    ||| t == "meta"@
    ||| t == "param"@
    ||| t == "source"@
    ||| t == "track"@
    ||| t == "wbr"@
}

/// The markup an attribute list prints as.
pub open spec fn render_attrs_v(s: Seq<AttrV>) -> Seq<char>
    decreases s,
{
    if s.len() == 0 {
        Seq::empty()
    } else {
        seq![' '] + s[0].name + seq!['=', '"'] + s[0].value + seq!['"'] + render_attrs_v(
            s.drop_first(),
        )
    }
}

/// The markup a node prints as.
pub open spec fn render_v(n: NodeV) -> Seq<char>
    decreases n,
{
    match n {
        NodeV::Element { tag, attrs, children } => {
            if is_void_tag(tag) {
                seq!['<'] + tag + render_attrs_v(attrs) + seq!['/', '>']
            } else {
                seq!['<'] + tag + render_attrs_v(attrs) + seq!['>'] + render_list_v(children)
                    + seq!['<', '/'] + tag + seq!['>']
            }
        },
        NodeV::Text(t) => t,
        NodeV::Comment(c) => seq!['<', '!', '-', '-'] + c + seq!['-', '-', '>'],
    }
}

/// The markup a node list prints as.
pub open spec fn render_list_v(s: Seq<NodeV>) -> Seq<char>
    decreases s,
{
    if s.len() == 0 {
        Seq::empty()
    } else {
        render_v(s[0]) + render_list_v(s.drop_first())
    }
}

/// The value of the first attribute with the given name, if any.
pub open spec fn attr_value_v(attrs: Seq<AttrV>, name: Seq<char>) -> Option<Seq<char>>
    decreases attrs,
{
    if attrs.len() == 0 {
        None
    } else if attrs[0].name == name {
        Some(attrs[0].value)
    } else {
        attr_value_v(attrs.drop_first(), name)
    }
}

/// Appends all characters of `v` to `out`.
pub fn push_all(out: &mut Vec<char>, v: &Vec<char>)
    ensures
        final(out)@ == old(out)@ + v@,
{
    let mut i: usize = 0;
    while i < v.len()
        invariant
            i <= v@.len(),
            out@ =~= old(out)@ + v@.take(i as int),
        decreases v@.len() - i,
    {
        out.push(v[i]);
        assert(out@ =~= old(out)@ + v@.take(i + 1 as int));
        i = i + 1;
    }
    assert(out@ =~= old(out)@ + v@);
}

/// A fresh copy of a character vector.
pub fn copy_chars(v: &Vec<char>) -> (r: Vec<char>)
    ensures
        r@ == v@,
{
    let mut out: Vec<char> = Vec::new();
    push_all(&mut out, v);
    assert(out@ =~= v@);
    out
}

/// A fresh copy of a subtree, with the same model.
#[verifier::loop_isolation(false)]
pub fn deep_copy_node(n: &Node) -> (r: Node)
    ensures
        r@ == n@,
    decreases *n,
{
    match n {
        Node::Text(t) => Node::Text(copy_chars(t)),
        Node::Comment(c) => Node::Comment(copy_chars(c)),
        Node::Element(e) => {
            let tag = copy_chars(&e.tag);
            let mut attrs: Vec<Attr> = Vec::new();
            let mut i: usize = 0;
            while i < e.attrs.len()
                invariant
                    i <= e.attrs@.len(),
                    attrs@.len() == i,
                    forall|k: int| 0 <= k < i ==> attrs@[k]@ == e.attrs@[k]@,
                decreases e.attrs@.len() - i,
            {
                let a = Attr { name: copy_chars(&e.attrs[i].name), value: copy_chars(
                    &e.attrs[i].value,
                ) };
                attrs.push(a);
                i = i + 1;
            }
            let mut children: Vec<Node> = Vec::new();
            let mut j: usize = 0;
            while j < e.children.len()
                invariant
                    j <= e.children@.len(),
                    children@.len() == j,
                    forall|k: int| 0 <= k < j ==> node_view(children@[k]) == node_view(
                        e.children@[k],
                    ),
                decreases e.children@.len() - j,
            {
                proof {
                    assert(*n == Node::Element(*e));
                    assert(decreases_to!(*n => *e));
                    assert(decreases_to!(*e => e.children));
                    assert(decreases_to!(e.children => e.children[j as int]));
                    assert(decreases_to!(*n => e.children[j as int]));
                }
                let c = deep_copy_node(&e.children[j]);
                children.push(c);
                j = j + 1;
            }
            proof {
                lemma_nodes_view(children@);
                lemma_nodes_view(e.children@);
                assert(nodes_view(children@) =~= nodes_view(e.children@));
                assert(attrs_view(attrs@) =~= attrs_view(e.attrs@));
            }
            Node::Element(Elem { tag, attrs, children })
        },
    }
}

/// A fresh copy of a forest, with the same model.
pub fn deep_copy_nodes(ns: &Vec<Node>) -> (r: Vec<Node>)
    ensures
        nodes_view(r@) == nodes_view(ns@),
{
    let mut out: Vec<Node> = Vec::new();
    let mut i: usize = 0;
    while i < ns.len()
        invariant
            i <= ns@.len(),
            out@.len() == i,
            forall|k: int| 0 <= k < i ==> node_view(out@[k]) == node_view(ns@[k]),
        decreases ns@.len() - i,
    {
        let c = deep_copy_node(&ns[i]);
        out.push(c);
        i = i + 1;
    }
    proof {
        lemma_nodes_view(out@);
        lemma_nodes_view(ns@);
        assert(nodes_view(out@) =~= nodes_view(ns@));
    }
    out
}

/// Appends the plain text of a node to `out`.
#[verifier::loop_isolation(false)]
pub fn push_text(n: &Node, out: &mut Vec<char>)
    ensures
        final(out)@ == old(out)@ + text_of_v(n@),
    decreases *n,
{
    match n {
        Node::Text(t) => {
            push_all(out, t);
        },
        Node::Comment(_) => {
            assert(out@ =~= old(out)@ + text_of_v(n@));
        },
        Node::Element(e) => {
            let ghost vs = nodes_view(e.children@);
            proof {
                lemma_nodes_view(e.children@);
                assert(vs.skip(0) =~= vs);
            }
            let mut i: usize = 0;
            while i < e.children.len()
                invariant
                    i <= e.children@.len(),
                    vs == nodes_view(e.children@),
                    vs.len() == e.children@.len(),
                    forall|k: int| 0 <= k < vs.len() ==> vs[k] == node_view(e.children@[k]),
                    out@ + text_of_list_v(vs.skip(i as int)) == old(out)@ + text_of_list_v(vs),
                decreases e.children@.len() - i,
            {
                proof {
                    assert(vs.skip(i as int).drop_first() =~= vs.skip(i + 1));
                    assert(vs.skip(i as int)[0] == vs[i as int]);
                }
                proof {
                    assert(*n == Node::Element(*e));
                    assert(decreases_to!(*n => *e));
                    assert(decreases_to!(*e => e.children));
                    assert(decreases_to!(e.children => e.children[i as int]));
                    assert(decreases_to!(*n => e.children[i as int]));
                }
                push_text(&e.children[i], out);
                i = i + 1;
            }
            proof {
                assert(vs.skip(vs.len() as int) =~= Seq::<NodeV>::empty());
                assert(out@ =~= old(out)@ + text_of_v(n@));
            }
        },
    }
}

/// The plain text of a forest.
pub fn text_of_nodes(ns: &Vec<Node>) -> (r: Vec<char>)
    ensures
        r@ == text_of_list_v(nodes_view(ns@)),
{
    let ghost vs = nodes_view(ns@);
    proof {
        lemma_nodes_view(ns@);
        assert(vs.skip(0) =~= vs);
    }
    let mut out: Vec<char> = Vec::new();
    let mut i: usize = 0;
    while i < ns.len()
        invariant
            i <= ns@.len(),
            vs == nodes_view(ns@),
            vs.len() == ns@.len(),
            forall|k: int| 0 <= k < vs.len() ==> vs[k] == node_view(ns@[k]),
            out@ + text_of_list_v(vs.skip(i as int)) == text_of_list_v(vs),
        decreases ns@.len() - i,
    {
        proof {
            assert(vs.skip(i as int).drop_first() =~= vs.skip(i + 1));
            assert(vs.skip(i as int)[0] == vs[i as int]);
        }
        push_text(&ns[i], &mut out);
        i = i + 1;
    }
    proof {
        assert(vs.skip(vs.len() as int) =~= Seq::<NodeV>::empty());
        assert(out@ =~= text_of_list_v(vs));
    }
    out
}

/// Appends the markup of a node to `out`.
#[verifier::rlimit(60)]
#[verifier::loop_isolation(false)]
pub fn push_render(n: &Node, out: &mut Vec<char>)
    ensures
        final(out)@ == old(out)@ + render_v(n@),
    decreases *n,
{
    match n {
        Node::Text(t) => {
            push_all(out, t);
        },
        Node::Comment(c) => {
            out.push('<');
            out.push('!');
            out.push('-');
            out.push('-');
            push_all(out, c);
            out.push('-');
            out.push('-');
            out.push('>');
            assert(out@ =~= old(out)@ + render_v(n@));
        },
        Node::Element(e) => {
            out.push('<');
            push_all(out, &e.tag);
            let mut i: usize = 0;
            let ghost avs = attrs_view(e.attrs@);
            proof {
                assert(avs.skip(0) =~= avs);
            }
            while i < e.attrs.len()
                invariant
                    i <= e.attrs@.len(),
                    avs == attrs_view(e.attrs@),
                    out@ + render_attrs_v(avs.skip(i as int)) == old(out)@ + seq!['<'] + e.tag@
                        + render_attrs_v(avs),
                decreases e.attrs@.len() - i,
            {
                proof {
                    assert(avs.skip(i as int).drop_first() =~= avs.skip(i + 1));
                    assert(avs.skip(i as int)[0] == avs[i as int]);
                    assert(avs[i as int] == e.attrs@[i as int]@);
                }
                let ghost prev = out@;
                out.push(' ');
                push_all(out, &e.attrs[i].name);
                out.push('=');
                out.push('"');
                push_all(out, &e.attrs[i].value);
                out.push('"');
                proof {
                    assert(out@ =~= prev + (seq![' '] + avs[i as int].name + seq!['=', '"']
                        + avs[i as int].value + seq!['"']));
                    assert(out@ + render_attrs_v(avs.skip(i + 1)) =~= prev + render_attrs_v(
                        avs.skip(i as int),
                    ));
                }
                i = i + 1;
            }
            proof {
                assert(avs.skip(avs.len() as int) =~= Seq::<AttrV>::empty());
            }
            if is_void(&e.tag) {
                out.push('/');
                out.push('>');
                assert(out@ =~= old(out)@ + render_v(n@));
            } else {
                out.push('>');
                let ghost vs = nodes_view(e.children@);
                let ghost mid = out@;
                proof {
                    lemma_nodes_view(e.children@);
                    assert(vs.skip(0) =~= vs);
                }
                let mut j: usize = 0;
                while j < e.children.len()
                    invariant
                        j <= e.children@.len(),
                        vs == nodes_view(e.children@),
                        vs.len() == e.children@.len(),
                        forall|k: int| 0 <= k < vs.len() ==> vs[k] == node_view(e.children@[k]),
                        out@ + render_list_v(vs.skip(j as int)) == mid + render_list_v(vs),
                    decreases e.children@.len() - j,
                {
                    proof {
                        assert(vs.skip(j as int).drop_first() =~= vs.skip(j + 1));
                        assert(vs.skip(j as int)[0] == vs[j as int]);
                    }
                    proof {
                        assert(*n == Node::Element(*e));
                        assert(decreases_to!(*n => *e));
                        assert(decreases_to!(*e => e.children));
                        assert(decreases_to!(e.children => e.children[j as int]));
                        assert(decreases_to!(*n => e.children[j as int]));
                    }
                    push_render(&e.children[j], out);
                    j = j + 1;
                }
                proof {
                    assert(vs.skip(vs.len() as int) =~= Seq::<NodeV>::empty());
                }
                out.push('<');
                out.push('/');
                push_all(out, &e.tag);
                out.push('>');
                assert(out@ =~= old(out)@ + render_v(n@));
            }
        },
    }
}

/// The markup of a forest.
pub fn render_nodes(ns: &Vec<Node>) -> (r: Vec<char>)
    ensures
        r@ == render_list_v(nodes_view(ns@)),
{
    let ghost vs = nodes_view(ns@);
    proof {
        lemma_nodes_view(ns@);
        assert(vs.skip(0) =~= vs);
    }
    let mut out: Vec<char> = Vec::new();
    let mut i: usize = 0;
    while i < ns.len()
        invariant
            i <= ns@.len(),
            vs == nodes_view(ns@),
            vs.len() == ns@.len(),
            forall|k: int| 0 <= k < vs.len() ==> vs[k] == node_view(ns@[k]),
            out@ + render_list_v(vs.skip(i as int)) == render_list_v(vs),
        decreases ns@.len() - i,
    {
        proof {
            assert(vs.skip(i as int).drop_first() =~= vs.skip(i + 1));
            assert(vs.skip(i as int)[0] == vs[i as int]);
        }
        push_render(&ns[i], &mut out);
        i = i + 1;
    }
    proof {
        assert(vs.skip(vs.len() as int) =~= Seq::<NodeV>::empty());
        assert(out@ =~= render_list_v(vs));
    }
    out
}

/// Whether the tag prints self-closed.
pub fn is_void(tag: &Vec<char>) -> (r: bool)
    ensures
        r == is_void_tag(tag@),
{
    crate::text::chars_eq_str(tag, "area") || crate::text::chars_eq_str(tag, "base")
        || crate::text::chars_eq_str(tag, "br") || crate::text::chars_eq_str(tag, "col")
        || crate::text::chars_eq_str(tag, "embed") || crate::text::chars_eq_str(tag, "hr")
        || crate::text::chars_eq_str(tag, "img") || crate::text::chars_eq_str(tag, "input")
        || crate::text::chars_eq_str(tag, "link") || crate::text::chars_eq_str(tag, "meta")
        || crate::text::chars_eq_str(tag, "param") || crate::text::chars_eq_str(tag, "source")
        || crate::text::chars_eq_str(tag, "track") || crate::text::chars_eq_str(tag, "wbr")
}

/// The value of the first attribute with the given name, if any.
pub fn get_attr(attrs: &Vec<Attr>, name: &str) -> (r: Option<Vec<char>>)
    ensures
        match r {
            Some(v) => attr_value_v(attrs_view(attrs@), name@) == Some(v@),
            None => attr_value_v(attrs_view(attrs@), name@) is None,
        },
{
    let ghost avs = attrs_view(attrs@);
    proof {
        assert(avs.skip(0) =~= avs);
    }
    let mut i: usize = 0;
    while i < attrs.len()
        invariant
            i <= attrs@.len(),
            avs == attrs_view(attrs@),
            attr_value_v(avs, name@) == attr_value_v(avs.skip(i as int), name@),
        decreases attrs@.len() - i,
    {
        proof {
            assert(avs.skip(i as int).drop_first() =~= avs.skip(i + 1));
            assert(avs.skip(i as int)[0] == avs[i as int]);
            assert(avs[i as int] == attrs@[i as int]@);
        }
        if crate::text::chars_eq_str(&attrs[i].name, name) {
            let v = copy_chars(&attrs[i].value);
            return Some(v);
        }
        i = i + 1;
    }
    proof {
        assert(avs.skip(avs.len() as int) =~= Seq::<AttrV>::empty());
    }
    None
}

/// Counts the elements of a subtree on top of `acc`; `None` when the count
/// does not fit in `usize`.
#[verifier::loop_isolation(false)]
pub fn count_elems(n: &Node, acc: usize) -> (r: Option<usize>)
    ensures
        match r {
            Some(c) => c == acc + elem_count_v(n@),
            None => acc + elem_count_v(n@) > usize::MAX,
        },
    decreases *n,
{
    match n {
        Node::Text(_) => Some(acc),
        Node::Comment(_) => Some(acc),
        Node::Element(e) => {
            if acc == usize::MAX {
                return None;
            }
            let ghost vs = nodes_view(e.children@);
            proof {
                lemma_nodes_view(e.children@);
                assert(vs.skip(0) =~= vs);
            }
            let mut a: usize = acc + 1;
            let mut i: usize = 0;
            while i < e.children.len()
                invariant
                    i <= e.children@.len(),
                    vs == nodes_view(e.children@),
                    vs.len() == e.children@.len(),
                    forall|k: int| 0 <= k < vs.len() ==> vs[k] == node_view(e.children@[k]),
                    a + elem_count_list_v(vs.skip(i as int)) == acc + 1 + elem_count_list_v(vs),
                decreases e.children@.len() - i,
            {
                proof {
                    assert(vs.skip(i as int).drop_first() =~= vs.skip(i + 1));
                    assert(vs.skip(i as int)[0] == vs[i as int]);
                }
                proof {
                    assert(*n == Node::Element(*e));
                    assert(decreases_to!(*n => *e));
                    assert(decreases_to!(*e => e.children));
                    assert(decreases_to!(e.children => e.children[i as int]));
                    assert(decreases_to!(*n => e.children[i as int]));
                }
                match count_elems(&e.children[i], a) {
                    Some(x) => {
                        a = x;
                    },
                    None => {
                        proof {
                            lemma_elem_count_list_nonneg(vs.skip(i + 1));
                        }
                        return None;
                    },
                }
                i = i + 1;
            }
            proof {
                assert(vs.skip(vs.len() as int) =~= Seq::<NodeV>::empty());
            }
            Some(a)
        },
    }
}

/// Element counts are never negative (they are naturals).
proof fn lemma_elem_count_list_nonneg(s: Seq<NodeV>)
    ensures
        elem_count_list_v(s) >= 0,
{
}

/// Counts the elements of a forest; `None` when the count does not fit.
pub fn count_forest_elems(ns: &Vec<Node>) -> (r: Option<usize>)
    ensures
        match r {
            Some(c) => c == elem_count_list_v(nodes_view(ns@)),
            None => elem_count_list_v(nodes_view(ns@)) > usize::MAX,
        },
{
    let ghost vs = nodes_view(ns@);
    proof {
        lemma_nodes_view(ns@);
        assert(vs.skip(0) =~= vs);
    }
    let mut a: usize = 0;
    let mut i: usize = 0;
    while i < ns.len()
        invariant
            i <= ns@.len(),
            vs == nodes_view(ns@),
            vs.len() == ns@.len(),
            forall|k: int| 0 <= k < vs.len() ==> vs[k] == node_view(ns@[k]),
            a + elem_count_list_v(vs.skip(i as int)) == elem_count_list_v(vs),
        decreases ns@.len() - i,
    {
        proof {
            assert(vs.skip(i as int).drop_first() =~= vs.skip(i + 1));
            assert(vs.skip(i as int)[0] == vs[i as int]);
        }
        match count_elems(&ns[i], a) {
            Some(x) => {
                a = x;
            },
            None => {
                proof {
                    lemma_elem_count_list_nonneg(vs.skip(i + 1));
                }
                return None;
            },
        }
        i = i + 1;
    }
    proof {
        assert(vs.skip(vs.len() as int) =~= Seq::<NodeV>::empty());
    }
    Some(a)
}

} // verus!
