//! Metadata extraction: each article field is derived independently from a
//! priority-ordered list of weak sources — explicit meta tags first, then
//! document elements — the first non-empty source winning.

use vstd::prelude::*;
use crate::dom::{Node, NodeV, AttrV, attr_value_v, nodes_view, lemma_nodes_view, text_of_list_v,
    text_of_nodes};
use crate::text::{has_non_space, trim_spec, trim_chars};

verus! {

/// The model of an optional character vector.
pub open spec fn opt_chars_view(o: Option<Vec<char>>) -> Option<Seq<char>> {
    match o {
        Some(v) => Some(v@),
        None => None,
    }
}

/// The content a meta element offers under the given key, through its
/// `name` or `property` attribute; `None` when it does not match or the
/// content is empty.
pub open spec fn meta_content_v(attrs: Seq<AttrV>, key: Seq<char>) -> Option<Seq<char>> {
    if attr_value_v(attrs, "name"@) == Some(key) || attr_value_v(attrs, "property"@) == Some(
        key,
    ) {
        match attr_value_v(attrs, "content"@) {
            Some(c) => if has_non_space(c) {
                Some(c)
            } else {
                None
            },
            None => None,
        }
    } else {
        None
    }
}

/// First matching meta content in a subtree, in document order.
pub open spec fn find_meta_node_v(n: NodeV, key: Seq<char>) -> Option<Seq<char>>
    decreases n,
{
    match n {
        NodeV::Element { tag, attrs, children } => {
            if tag == "meta"@ && meta_content_v(attrs, key) is Some {
                meta_content_v(attrs, key)
            } else {
                find_meta_list_v(children, key)
            }
        },
        NodeV::Text(t) => None,
        NodeV::Comment(c) => None,
    }
}

/// First matching meta content in a forest.
pub open spec fn find_meta_list_v(s: Seq<NodeV>, key: Seq<char>) -> Option<Seq<char>>
    decreases s,
{
    if s.len() == 0 {
        None
    } else {
        match find_meta_node_v(s[0], key) {
            Some(v) => Some(v),
            None => find_meta_list_v(s.drop_first(), key),
        }
    }
}

/// Trimmed text of the first element with the given tag and non-empty text.
pub open spec fn find_tag_text_node_v(n: NodeV, tag: Seq<char>) -> Option<Seq<char>>
    decreases n,
{
    match n {
        NodeV::Element { tag: t, attrs, children } => {
            if t == tag && has_non_space(text_of_list_v(children)) {
                Some(trim_spec(text_of_list_v(children)))
            } else {
                find_tag_text_list_v(children, tag)
            }
        },
        NodeV::Text(t) => None,
        NodeV::Comment(c) => None,
    }
}

/// Trimmed text of the first matching element in a forest.
pub open spec fn find_tag_text_list_v(s: Seq<NodeV>, tag: Seq<char>) -> Option<Seq<char>>
    decreases s,
{
    if s.len() == 0 {
        None
    } else {
        match find_tag_text_node_v(s[0], tag) {
            Some(v) => Some(v),
            None => find_tag_text_list_v(s.drop_first(), tag),
        }
    }
}

/// Value of the named attribute on the first element with the given tag
/// carrying it non-empty.
pub open spec fn find_tag_attr_node_v(n: NodeV, tag: Seq<char>, attr: Seq<char>) -> Option<
    Seq<char>,
>
    decreases n,
{
    match n {
        NodeV::Element { tag: t, attrs, children } => {
            if t == tag && (match attr_value_v(attrs, attr) {
                Some(v) => has_non_space(v),
                None => false,
            }) {
                attr_value_v(attrs, attr)
            } else {
                find_tag_attr_list_v(children, tag, attr)
            }
        },
        NodeV::Text(t) => None,
        NodeV::Comment(c) => None,
    }
}

/// The same lookup over a forest.
pub open spec fn find_tag_attr_list_v(s: Seq<NodeV>, tag: Seq<char>, attr: Seq<char>) -> Option<
    Seq<char>,
>
    decreases s,
{
    if s.len() == 0 {
        None
    } else {
        match find_tag_attr_node_v(s[0], tag, attr) {
            Some(v) => Some(v),
            None => find_tag_attr_list_v(s.drop_first(), tag, attr),
        }
    }
}

/// First matching meta content in a subtree; mirrors `find_meta_node_v`.
#[verifier::loop_isolation(false)]
fn find_meta_node(n: &Node, key: &Vec<char>) -> (r: Option<Vec<char>>)
    ensures
        opt_chars_view(r) == find_meta_node_v(n@, key@),
    decreases *n,
{
    match n {
        Node::Text(_) => None,
        Node::Comment(_) => None,
        Node::Element(e) => {
            if crate::text::chars_eq_str(&e.tag, "meta") {
                let nm = crate::dom::get_attr(&e.attrs, "name");
                let pr = crate::dom::get_attr(&e.attrs, "property");
                let key_matches = (match &nm {
                    Some(v) => crate::text::chars_eq(v, key),
                    None => false,
                }) || (match &pr {
                    Some(v) => crate::text::chars_eq(v, key),
                    None => false,
                });
                if key_matches {
                    match crate::dom::get_attr(&e.attrs, "content") {
                        Some(c) => {
                            if crate::clean::any_non_space(&c) {
                                return Some(c);
                            }
                        },
                        None => {
                        },
                    }
                }
            }
            find_meta_forest(&e.children, key)
        },
    }
}

/// First matching meta content in a forest; mirrors `find_meta_list_v`.
#[verifier::loop_isolation(false)]
fn find_meta_forest(ns: &Vec<Node>, key: &Vec<char>) -> (r: Option<Vec<char>>)
    ensures
        opt_chars_view(r) == find_meta_list_v(nodes_view(ns@), key@),
    decreases *ns,
{
    let ghost vs = nodes_view(ns@);
    proof {
        lemma_nodes_view(ns@);
        assert(vs.skip(0) =~= vs);
    }
    let mut i: usize = 0;
    while i < ns.len()
        invariant
            i <= ns@.len(),
            find_meta_list_v(vs, key@) == find_meta_list_v(vs.skip(i as int), key@),
        decreases ns@.len() - i,
    {
        proof {
            assert(vs.skip(i as int).drop_first() =~= vs.skip(i + 1));
            assert(vs.skip(i as int)[0] == vs[i as int]);
            assert(decreases_to!(*ns => ns[i as int]));
        }
        match find_meta_node(&ns[i], key) {
            Some(v) => {
                return Some(v);
            },
            None => {
            },
        }
        i = i + 1;
    }
    proof {
        assert(vs.skip(vs.len() as int) =~= Seq::<NodeV>::empty());
    }
    None
}

/// Trimmed text of the first matching element; mirrors
/// `find_tag_text_node_v`.
#[verifier::loop_isolation(false)]
fn find_tag_text_node(n: &Node, tag: &str) -> (r: Option<Vec<char>>)
    ensures
        opt_chars_view(r) == find_tag_text_node_v(n@, tag@),
    decreases *n,
{
    match n {
        Node::Text(_) => None,
        Node::Comment(_) => None,
        Node::Element(e) => {
            if crate::text::chars_eq_str(&e.tag, tag) {
                let txt = text_of_nodes(&e.children);
                if crate::clean::any_non_space(&txt) {
                    return Some(trim_chars(txt));
                }
            }
            find_tag_text_forest(&e.children, tag)
        },
    }
}

/// The same lookup over a forest; mirrors `find_tag_text_list_v`.
#[verifier::loop_isolation(false)]
pub fn find_tag_text_forest(ns: &Vec<Node>, tag: &str) -> (r: Option<Vec<char>>)
    ensures
        opt_chars_view(r) == find_tag_text_list_v(nodes_view(ns@), tag@),
    decreases *ns,
{
    let ghost vs = nodes_view(ns@);
    proof {
        lemma_nodes_view(ns@);
        assert(vs.skip(0) =~= vs);
    }
    let mut i: usize = 0;
    while i < ns.len()
        invariant
            i <= ns@.len(),
            find_tag_text_list_v(vs, tag@) == find_tag_text_list_v(vs.skip(i as int), tag@),
        decreases ns@.len() - i,
    {
        proof {
            assert(vs.skip(i as int).drop_first() =~= vs.skip(i + 1));
            assert(vs.skip(i as int)[0] == vs[i as int]);
            assert(decreases_to!(*ns => ns[i as int]));
        }
        match find_tag_text_node(&ns[i], tag) {
            Some(v) => {
                return Some(v);
            },
            None => {
            },
        }
        i = i + 1;
    }
    proof {
        assert(vs.skip(vs.len() as int) =~= Seq::<NodeV>::empty());
    }
    None
}

/// Attribute of the first matching element; mirrors
/// `find_tag_attr_node_v`.
#[verifier::loop_isolation(false)]
fn find_tag_attr_node(n: &Node, tag: &str, attr: &str) -> (r: Option<Vec<char>>)
    ensures
        opt_chars_view(r) == find_tag_attr_node_v(n@, tag@, attr@),
    decreases *n,
{
    match n {
        Node::Text(_) => None,
        Node::Comment(_) => None,
        Node::Element(e) => {
            if crate::text::chars_eq_str(&e.tag, tag) {
                match crate::dom::get_attr(&e.attrs, attr) {
                    Some(v) => {
                        if crate::clean::any_non_space(&v) {
                            return Some(v);
                        }
                    },
                    None => {
                    },
                }
            }
            find_tag_attr_forest(&e.children, tag, attr)
        },
    }
}

/// The same lookup over a forest; mirrors `find_tag_attr_list_v`.
#[verifier::loop_isolation(false)]
pub fn find_tag_attr_forest(ns: &Vec<Node>, tag: &str, attr: &str) -> (r: Option<Vec<char>>)
    ensures
        opt_chars_view(r) == find_tag_attr_list_v(nodes_view(ns@), tag@, attr@),
    decreases *ns,
{
    let ghost vs = nodes_view(ns@);
    proof {
        lemma_nodes_view(ns@);
        assert(vs.skip(0) =~= vs);
    }
    let mut i: usize = 0;
    while i < ns.len()
        invariant
            i <= ns@.len(),
            find_tag_attr_list_v(vs, tag@, attr@) == find_tag_attr_list_v(
                vs.skip(i as int),
                tag@,
                attr@,
            ),
        decreases ns@.len() - i,
    {
        proof {
            assert(vs.skip(i as int).drop_first() =~= vs.skip(i + 1));
            assert(vs.skip(i as int)[0] == vs[i as int]);
            assert(decreases_to!(*ns => ns[i as int]));
        }
        match find_tag_attr_node(&ns[i], tag, attr) {
            Some(v) => {
                return Some(v);
            },
            None => {
            },
        }
        i = i + 1;
    }
    proof {
        assert(vs.skip(vs.len() as int) =~= Seq::<NodeV>::empty());
    }
    None
}

/// First position at or after `i` where `pat` occurs in `s`; the length
/// when there is none.
pub open spec fn find_sub_v(s: Seq<char>, pat: Seq<char>, i: int) -> int
    decreases s.len() - i,
{
    if i < 0 || i + pat.len() > s.len() {
        s.len() as int
    } else if pat.len() == 0 {
        i
    } else if s.subrange(i, i + pat.len()) == pat {
        i
    } else {
        find_sub_v(s, pat, i + 1)
    }
}

/// A title element's text with a trailing site name stripped: the part
/// before the first " | " or " - " separator, unless that leaves nothing.
pub open spec fn strip_title_seps(t: Seq<char>) -> Seq<char> {
    let c1 = find_sub_v(t, seq![' ', '|', ' '], 0);
    let cut = if c1 < t.len() {
        c1
    } else {
        find_sub_v(t, seq![' ', '-', ' '], 0)
    };
    if cut < t.len() {
        let p = trim_spec(t.take(cut));
        if p.len() > 0 {
            p
        } else {
            t
        }
    } else {
        t
    }
}

/// The article title: the open-graph title, else the title element's text
/// with any site-name separator stripped, else the first heading's text.
pub open spec fn title_v(s: Seq<NodeV>) -> Option<Seq<char>> {
    match find_meta_list_v(s, "og:title"@) {
        Some(t) => Some(trim_spec(t)),
        None => match find_tag_text_list_v(s, "title"@) {
            Some(t) => Some(strip_title_seps(t)),
            None => find_tag_text_list_v(s, "h1"@),
        },
    }
}

/// The byline: an author meta tag.
pub open spec fn byline_v(s: Seq<NodeV>) -> Option<Seq<char>> {
    match find_meta_list_v(s, "author"@) {
        Some(t) => Some(trim_spec(t)),
        None => match find_meta_list_v(s, "article:author"@) {
            Some(t) => Some(trim_spec(t)),
            None => None,
        },
    }
}

/// The excerpt: a description meta tag, else the first paragraph's text.
pub open spec fn excerpt_v(s: Seq<NodeV>) -> Option<Seq<char>> {
    match find_meta_list_v(s, "description"@) {
        Some(t) => Some(trim_spec(t)),
        None => match find_meta_list_v(s, "og:description"@) {
            Some(t) => Some(trim_spec(t)),
            None => find_tag_text_list_v(s, "p"@),
        },
    }
}

/// The site name: the open-graph site name.
pub open spec fn site_name_v(s: Seq<NodeV>) -> Option<Seq<char>> {
    match find_meta_list_v(s, "og:site_name"@) {
        Some(t) => Some(trim_spec(t)),
        None => None,
    }
}

/// The publish time: the article meta tag, else a date meta tag.
pub open spec fn published_time_v(s: Seq<NodeV>) -> Option<Seq<char>> {
    match find_meta_list_v(s, "article:published_time"@) {
        Some(t) => Some(trim_spec(t)),
        None => match find_meta_list_v(s, "date"@) {
            Some(t) => Some(trim_spec(t)),
            None => None,
        },
    }
}

/// The content language: the root element's language attribute.
pub open spec fn lang_v(s: Seq<NodeV>) -> Option<Seq<char>> {
    find_tag_attr_list_v(s, "html"@, "lang"@)
}

/// The content direction: the root's, else the body's, direction attribute.
pub open spec fn dir_v(s: Seq<NodeV>) -> Option<Seq<char>> {
    match find_tag_attr_list_v(s, "html"@, "dir"@) {
        Some(d) => Some(d),
        None => find_tag_attr_list_v(s, "body"@, "dir"@),
    }
}

/// First position at or after `from` where `pat` occurs; mirrors
/// `find_sub_v`.
#[verifier::loop_isolation(false)]
fn find_sub(hay: &Vec<char>, pat: &Vec<char>, from: usize) -> (r: usize)
    requires
        pat@.len() > 0,
    ensures
        r == find_sub_v(hay@, pat@, from as int),
        r <= hay@.len(),
{
    if from > hay.len() {
        return hay.len();
    }
    let mut i: usize = from;
    while i <= hay.len() && pat.len() <= hay.len() - i
        invariant
            from <= i <= hay@.len(),
            find_sub_v(hay@, pat@, from as int) == find_sub_v(hay@, pat@, i as int),
        decreases hay@.len() - i,
    {
        let mut j: usize = 0;
        let mut ok: bool = true;
        while j < pat.len()
            invariant
                i + pat@.len() <= hay@.len(),
                j <= pat@.len(),
                ok ==> forall|k: int| 0 <= k < j ==> hay@[i + k] == pat@[k],
                !ok ==> hay@.subrange(i as int, i + pat@.len()) != pat@,
            decreases pat@.len() - j,
        {
            if hay[i + j] != pat[j] {
                proof {
                    assert(hay@.subrange(i as int, i + pat@.len())[j as int] != pat@[j as int]);
                }
                ok = false;
                j = pat.len();
            } else {
                j = j + 1;
            }
        }
        if ok {
            proof {
                assert(hay@.subrange(i as int, i + pat@.len()) =~= pat@);
            }
            return i;
        }
        i = i + 1;
    }
    hay.len()
}

/// A title element's text with a trailing site name stripped; mirrors
/// `strip_title_seps`.
fn strip_seps(t: &Vec<char>) -> (r: Vec<char>)
    ensures
        r@ == strip_title_seps(t@),
{
    let mut bar: Vec<char> = Vec::new();
    bar.push(' ');
    bar.push('|');
    bar.push(' ');
    proof {
        assert(bar@ =~= seq![' ', '|', ' ']);
    }
    let mut dash: Vec<char> = Vec::new();
    dash.push(' ');
    dash.push('-');
    dash.push(' ');
    proof {
        assert(dash@ =~= seq![' ', '-', ' ']);
    }
    let c1 = find_sub(t, &bar, 0);
    let cut = if c1 < t.len() {
        c1
    } else {
        find_sub(t, &dash, 0)
    };
    if cut < t.len() {
        let mut prefix: Vec<char> = Vec::new();
        let mut k: usize = 0;
        while k < cut
            invariant
                cut <= t@.len(),
                k <= cut,
                prefix@ =~= t@.take(cut as int).take(k as int),
            decreases cut - k,
        {
            prefix.push(t[k]);
            proof {
                assert(prefix@ =~= t@.take(cut as int).take(k + 1 as int));
            }
            k = k + 1;
        }
        proof {
            assert(prefix@ =~= t@.take(cut as int));
        }
        let p = trim_chars(prefix);
        if p.len() > 0 {
            p
        } else {
            crate::dom::copy_chars(t)
        }
    } else {
        crate::dom::copy_chars(t)
    }
}

/// A meta lookup trimmed, for field composition.
fn meta_trimmed(ns: &Vec<Node>, key: &str) -> (r: Option<Vec<char>>)
    ensures
        opt_chars_view(r) == (match find_meta_list_v(nodes_view(ns@), key@) {
            Some(t) => Some(trim_spec(t)),
            None => None::<Seq<char>>,
        }),
{
    let kv = crate::text::str_to_chars(key);
    match find_meta_forest(ns, &kv) {
        Some(t) => Some(trim_chars(t)),
        None => None,
    }
}

/// The extracted metadata fields of a document.
pub struct DocMeta {
    pub title: Option<Vec<char>>,
    pub byline: Option<Vec<char>>,
    pub excerpt: Option<Vec<char>>,
    pub site_name: Option<Vec<char>>,
    pub published_time: Option<Vec<char>>,
    pub lang: Option<Vec<char>>,
    pub dir: Option<Vec<char>>,
}

/// Extracts every metadata field from the document.
pub fn extract_metadata(ns: &Vec<Node>) -> (r: DocMeta)
    ensures
        opt_chars_view(r.title) == title_v(nodes_view(ns@)),
        opt_chars_view(r.byline) == byline_v(nodes_view(ns@)),
        opt_chars_view(r.excerpt) == excerpt_v(nodes_view(ns@)),
        opt_chars_view(r.site_name) == site_name_v(nodes_view(ns@)),
        opt_chars_view(r.published_time) == published_time_v(nodes_view(ns@)),
        opt_chars_view(r.lang) == lang_v(nodes_view(ns@)),
        opt_chars_view(r.dir) == dir_v(nodes_view(ns@)),
{
    let title = match meta_trimmed(ns, "og:title") {
        Some(t) => Some(t),
        None => match find_tag_text_forest(ns, "title") {
            Some(t) => Some(strip_seps(&t)),
            None => find_tag_text_forest(ns, "h1"),
        },
    };
    let byline = match meta_trimmed(ns, "author") {
        Some(t) => Some(t),
        None => meta_trimmed(ns, "article:author"),
    };
    let excerpt = match meta_trimmed(ns, "description") {
        Some(t) => Some(t),
        None => match meta_trimmed(ns, "og:description") {
            Some(t) => Some(t),
            None => find_tag_text_forest(ns, "p"),
        },
    };
    let site_name = meta_trimmed(ns, "og:site_name");
    let published_time = match meta_trimmed(ns, "article:published_time") {
        Some(t) => Some(t),
        None => meta_trimmed(ns, "date"),
    };
    let lang = find_tag_attr_forest(ns, "html", "lang");
    let dir = match find_tag_attr_forest(ns, "html", "dir") {
        Some(d) => Some(d),
        None => find_tag_attr_forest(ns, "body", "dir"),
    };
    DocMeta { title, byline, excerpt, site_name, published_time, lang, dir }
}

} // verus!
