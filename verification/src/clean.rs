//! Tree cleaning: the passes that strip non-article debris.
//!
//! Each pass is one bottom-up sweep of the tree in a given `CleanMode`.
//! The sweep is mirrored exactly by the spec functions `clean_node_v` /
//! `clean_list_v`, so every pass's result is pinned: an element is dropped
//! (with its whole subtree) exactly when `drop_elem_v` says so, and kept
//! unchanged otherwise.

use vstd::prelude::*;
use crate::dom::{Attr, AttrV, Elem, Node, NodeV, attrs_view, attr_value_v, nodes_view, node_view,
    lemma_nodes_view, text_of_list_v, copy_chars, text_of_nodes};
use crate::text::{lower_seq, lower_char, contains_seq, has_non_space, is_space_char, to_lower,
    contains_str, is_space, normalized};

verus! {

/// Which sweep is being run.
#[derive(Clone, Copy, Debug)]
pub enum CleanMode {
    /// Script and style elements and comment nodes: never content.
    Scripts,
    /// Unlikely candidates: junk-signalling class/id text or a non-content
    /// role, kept only with a content signal or a structural tag.
    Unlikely,
    /// Elements that are never article content (forms, footers, embeds...),
    /// except embedded media from an allowed video host.
    Unwanted,
    /// Share and social widgets.
    Share,
    /// Navigation: nav elements and blocks signalling menus or breadcrumbs.
    Nav,
    /// Paragraphs left with no text and no media.
    EmptyPara,
}

/// The empty sequence for a missing attribute.
pub open spec fn opt_seq(o: Option<Seq<char>>) -> Seq<char> {
    match o {
        Some(s) => s,
        None => Seq::empty(),
    }
}

/// Case-folded class and id text of an element, space-separated.
pub open spec fn class_id_v(attrs: Seq<AttrV>) -> Seq<char> {
    lower_seq(opt_seq(attr_value_v(attrs, "class"@))) + seq![' '] + lower_seq(
        opt_seq(attr_value_v(attrs, "id"@)),
    )
}

/// Tags removed by the `Scripts` sweep.
pub open spec fn script_tag(t: Seq<char>) -> bool {
    t == "script"@ || t == "style"@ || t == "noscript"@ || t == "template"@
}

/// Tags removed by the `Unwanted` sweep.
pub open spec fn unwanted_tag(t: Seq<char>) -> bool {
    ||| t == "form"@
    ||| t == "fieldset"@
    ||| t == "footer"@
    ||| t == "aside"@
    ||| t == "object"@
    ||| t == "embed"@
    ||| t == "iframe"@
    ||| t == "input"@
    ||| t == "textarea"@
    ||| t == "select"@
    ||| t == "button"@
    ||| t == "link"@
}

/// Tags whose class/id text is consulted by the `Share` sweep.
pub open spec fn share_host_tag(t: Seq<char>) -> bool {
    t == "div"@ || t == "span"@ || t == "aside"@ || t == "section"@
}

/// Tags whose class/id text is consulted by the `Nav` sweep.
pub open spec fn nav_host_tag(t: Seq<char>) -> bool {
    t == "div"@ || t == "section"@ || t == "ul"@ || t == "ol"@
}

/// Embedded media kept when judging whether a paragraph is empty.
pub open spec fn media_tag(t: Seq<char>) -> bool {
    ||| t == "img"@
    ||| t == "picture"@
    ||| t == "figure"@
    ||| t == "video"@
    ||| t == "audio"@
    ||| t == "object"@
    ||| t == "embed"@
    ||| t == "iframe"@
}

/// Share or social signal in class/id text.
pub open spec fn share_signal(ci: Seq<char>) -> bool {
    contains_seq(ci, "share"@) || contains_seq(ci, "social"@) || contains_seq(ci, "sharedaddy"@)
}

/// Navigation signal in class/id text.
pub open spec fn nav_signal(ci: Seq<char>) -> bool {
    ||| contains_seq(ci, "nav"@)
    ||| contains_seq(ci, "menu"@)
    ||| contains_seq(ci, "breadcrumb"@)
    ||| contains_seq(ci, "sidebar"@)
    ||| contains_seq(ci, "widget"@)
    ||| contains_seq(ci, "header"@)
}

/// Likely-junk signal in class/id text.
pub open spec fn junk_signal(ci: Seq<char>) -> bool {
    ||| contains_seq(ci, "banner"@)
    ||| contains_seq(ci, "breadcrumb"@)
    ||| contains_seq(ci, "combx"@)
    ||| contains_seq(ci, "comment"@)
    ||| contains_seq(ci, "community"@)
    ||| contains_seq(ci, "disqus"@)
    ||| contains_seq(ci, "extra"@)
    ||| contains_seq(ci, "footer"@)
    ||| contains_seq(ci, "gdpr"@)
    ||| contains_seq(ci, "header"@)
    ||| contains_seq(ci, "menu"@)
    ||| contains_seq(ci, "related"@)
    ||| contains_seq(ci, "remark"@)
    ||| contains_seq(ci, "replies"@)
    ||| contains_seq(ci, "rss"@)
    ||| contains_seq(ci, "shoutbox"@)
    ||| contains_seq(ci, "sidebar"@)
    ||| contains_seq(ci, "skyscraper"@)
    ||| contains_seq(ci, "social"@)
    ||| contains_seq(ci, "sponsor"@)
    ||| contains_seq(ci, "supplemental"@)
    ||| contains_seq(ci, "ad-"@)
    ||| contains_seq(ci, "agegate"@)
    ||| contains_seq(ci, "pagination"@)
    ||| contains_seq(ci, "pager"@)
    ||| contains_seq(ci, "popup"@)
}

/// Likely-content signal in class/id text, which overrides a junk signal.
pub open spec fn content_signal(ci: Seq<char>) -> bool {
    ||| contains_seq(ci, "article"@)
    ||| contains_seq(ci, "body"@)
    ||| contains_seq(ci, "column"@)
    ||| contains_seq(ci, "content"@)
    ||| contains_seq(ci, "main"@)
    ||| contains_seq(ci, "shadow"@)
}

/// Structurally significant tags never removed as unlikely candidates.
pub open spec fn significant_tag(t: Seq<char>) -> bool {
    ||| t == "html"@
    ||| t == "body"@
    ||| t == "a"@
    ||| t == "article"@
    ||| t == "main"@
    ||| t == "table"@
    ||| t == "td"@
    ||| t == "th"@
}

/// Explicit roles that mark an element as non-content.
pub open spec fn noncontent_role(r: Seq<char>) -> bool {
    ||| r == "menu"@
    ||| r == "menubar"@
    ||| r == "complementary"@
    ||| r == "navigation"@
    ||| r == "alert"@
    ||| r == "alertdialog"@
    ||| r == "dialog"@
}

/// Whether the element's `src` names an allowed video host.
pub open spec fn src_allowed_v(attrs: Seq<AttrV>, allowed: Seq<Seq<char>>) -> bool {
    exists|k: int|
        0 <= k < allowed.len() && contains_seq(
            lower_seq(opt_seq(attr_value_v(attrs, "src"@))),
            allowed[k],
        )
}

/// Whether a subtree holds an embedded-media element.
pub open spec fn has_media_v(n: NodeV) -> bool
    decreases n,
{
    match n {
        NodeV::Element { tag, attrs, children } => media_tag(tag) || has_media_list_v(children),
        NodeV::Text(t) => false,
        NodeV::Comment(c) => false,
    }
}

/// Whether a forest holds an embedded-media element.
pub open spec fn has_media_list_v(s: Seq<NodeV>) -> bool
    decreases s,
{
    if s.len() == 0 {
        false
    } else {
        has_media_v(s[0]) || has_media_list_v(s.drop_first())
    }
}

/// Whether the sweep drops comment nodes.
pub open spec fn drops_comments(m: CleanMode) -> bool {
    m is Scripts
}

/// Whether the sweep drops this element, judged after its children were
/// swept (`cleaned` are the swept children).
pub open spec fn drop_elem_v(
    m: CleanMode,
    tag: Seq<char>,
    attrs: Seq<AttrV>,
    cleaned: Seq<NodeV>,
    allowed: Seq<Seq<char>>,
) -> bool {
    match m {
        CleanMode::Scripts => script_tag(tag),
        CleanMode::Unlikely => {
            let ci = class_id_v(attrs);
            ||| (junk_signal(ci) && !content_signal(ci) && !significant_tag(tag))
            ||| noncontent_role(opt_seq(attr_value_v(attrs, "role"@)))
        },
        CleanMode::Unwanted => unwanted_tag(tag) && !((t_embed(tag)) && src_allowed_v(
            attrs,
            allowed,
        )),
        CleanMode::Share => share_host_tag(tag) && share_signal(class_id_v(attrs)),
        CleanMode::Nav => tag == "nav"@ || (nav_host_tag(tag) && nav_signal(class_id_v(attrs))),
        CleanMode::EmptyPara => tag == "p"@ && !has_non_space(text_of_list_v(cleaned))
            && !has_media_list_v(cleaned),
    }
}

/// Embedded-media frames that the video allowance can keep.
pub open spec fn t_embed(t: Seq<char>) -> bool {
    t == "embed"@ || t == "iframe"@ || t == "object"@ || t == "video"@
}

/// One sweep of a node: `None` when the node is dropped.
pub open spec fn clean_node_v(m: CleanMode, n: NodeV, allowed: Seq<Seq<char>>) -> Option<NodeV>
    decreases n,
{
    match n {
        NodeV::Text(t) => Some(n),
        NodeV::Comment(c) => if drops_comments(m) {
            None
        } else {
            Some(n)
        },
        NodeV::Element { tag, attrs, children } => {
            let cc = clean_list_v(m, children, allowed);
            if drop_elem_v(m, tag, attrs, cc, allowed) {
                None
            } else {
                Some(NodeV::Element { tag, attrs, children: cc })
            }
        },
    }
}

/// One sweep of a forest.
pub open spec fn clean_list_v(m: CleanMode, s: Seq<NodeV>, allowed: Seq<Seq<char>>) -> Seq<NodeV>
    decreases s,
{
    if s.len() == 0 {
        Seq::empty()
    } else {
        let rest = clean_list_v(m, s.drop_first(), allowed);
        match clean_node_v(m, s[0], allowed) {
            Some(x) => seq![x] + rest,
            None => rest,
        }
    }
}

/// The models of the allowed-host patterns.
pub open spec fn hosts_view(v: Seq<Vec<char>>) -> Seq<Seq<char>> {
    v.map_values(|x: Vec<char>| x@)
}

/// Case folding of a character vector.
pub fn lower_chars(v: &Vec<char>) -> (r: Vec<char>)
    ensures
        r@ == lower_seq(v@),
{
    let mut out: Vec<char> = Vec::new();
    let mut i: usize = 0;
    while i < v.len()
        invariant
            i <= v@.len(),
            out@.len() == i,
            forall|k: int| 0 <= k < i ==> out@[k] == lower_char(v@[k]),
        decreases v@.len() - i,
    {
        out.push(to_lower(v[i]));
        i = i + 1;
    }
    assert(out@ =~= lower_seq(v@));
    out
}

/// Whether some character of `v` is not whitespace.
pub fn any_non_space(v: &Vec<char>) -> (r: bool)
    ensures
        r == has_non_space(v@),
{
    let mut i: usize = 0;
    while i < v.len()
        invariant
            i <= v@.len(),
            forall|k: int| 0 <= k < i ==> is_space_char(v@[k]),
        decreases v@.len() - i,
    {
        if !is_space(v[i]) {
            assert(!is_space_char(v@[i as int]));
            return true;
        }
        i = i + 1;
    }
    false
}

/// Case-folded class and id text of an element.
pub fn class_id_of(attrs: &Vec<Attr>) -> (r: Vec<char>)
    ensures
        r@ == class_id_v(attrs_view(attrs@)),
{
    let cls = match crate::dom::get_attr(attrs, "class") {
        Some(v) => v,
        None => Vec::new(),
    };
    let idv = match crate::dom::get_attr(attrs, "id") {
        Some(v) => v,
        None => Vec::new(),
    };
    let mut out = lower_chars(&cls);
    out.push(' ');
    let li = lower_chars(&idv);
    crate::dom::push_all(&mut out, &li);
    assert(out@ =~= class_id_v(attrs_view(attrs@)));
    out
}

/// Whether the element's `src` names an allowed video host.
fn src_allowed(attrs: &Vec<Attr>, allowed: &Vec<Vec<char>>) -> (r: bool)
    ensures
        r == src_allowed_v(attrs_view(attrs@), hosts_view(allowed@)),
{
    let sv = match crate::dom::get_attr(attrs, "src") {
        Some(v) => v,
        None => Vec::new(),
    };
    let low = lower_chars(&sv);
    let ghost hv = hosts_view(allowed@);
    let mut k: usize = 0;
    while k < allowed.len()
        invariant
            k <= allowed@.len(),
            hv == hosts_view(allowed@),
            low@ == lower_seq(opt_seq(attr_value_v(attrs_view(attrs@), "src"@))),
            forall|j: int| 0 <= j < k ==> !contains_seq(low@, hv[j]),
        decreases allowed@.len() - k,
    {
        if crate::text::contains_chars(&low, &allowed[k]) {
            assert(contains_seq(low@, hv[k as int]));
            return true;
        }
        k = k + 1;
    }
    false
}

/// Whether a subtree holds an embedded-media element.
#[verifier::loop_isolation(false)]
pub fn has_media_node(n: &Node) -> (r: bool)
    ensures
        r == has_media_v(n@),
    decreases *n,
{
    match n {
        Node::Text(_) => false,
        Node::Comment(_) => false,
        Node::Element(e) => {
            if media_tag_e(&e.tag) {
                return true;
            }
            let ghost vs = nodes_view(e.children@);
            proof {
                lemma_nodes_view(e.children@);
                assert(vs.skip(0) =~= vs);
            }
            let mut i: usize = 0;
            while i < e.children.len()
                invariant
                    i <= e.children@.len(),
                    has_media_list_v(vs) == has_media_list_v(vs.skip(i as int)),
                decreases e.children@.len() - i,
            {
                proof {
                    assert(vs.skip(i as int).drop_first() =~= vs.skip(i + 1));
                    assert(vs.skip(i as int)[0] == vs[i as int]);
                    assert(decreases_to!(*n => *e));
                    assert(decreases_to!(*e => e.children));
                    assert(decreases_to!(e.children => e.children[i as int]));
                    assert(decreases_to!(*n => e.children[i as int]));
                }
                if has_media_node(&e.children[i]) {
                    return true;
                }
                i = i + 1;
            }
            proof {
                assert(vs.skip(vs.len() as int) =~= Seq::<NodeV>::empty());
            }
            false
        },
    }
}

/// Whether the tag is an embedded-media tag.
fn media_tag_e(tag: &Vec<char>) -> (r: bool)
    ensures
        r == media_tag(tag@),
{
    crate::text::chars_eq_str(tag, "img") || crate::text::chars_eq_str(tag, "picture")
        || crate::text::chars_eq_str(tag, "figure") || crate::text::chars_eq_str(tag, "video")
        || crate::text::chars_eq_str(tag, "audio") || crate::text::chars_eq_str(tag, "object")
        || crate::text::chars_eq_str(tag, "embed") || crate::text::chars_eq_str(tag, "iframe")
}

/// Whether the sweep drops this element.
#[verifier::loop_isolation(false)]
fn drop_elem(
    m: CleanMode,
    tag: &Vec<char>,
    attrs: &Vec<Attr>,
    cleaned: &Vec<Node>,
    allowed: &Vec<Vec<char>>,
) -> (r: bool)
    ensures
        r == drop_elem_v(
            m,
            tag@,
            attrs_view(attrs@),
            nodes_view(cleaned@),
            hosts_view(allowed@),
        ),
{
    match m {
        CleanMode::Scripts => {
            crate::text::chars_eq_str(tag, "script") || crate::text::chars_eq_str(tag, "style")
                || crate::text::chars_eq_str(tag, "noscript") || crate::text::chars_eq_str(
                tag,
                "template",
            )
        },
        CleanMode::Unlikely => {
            let ci = class_id_of(attrs);
            let junk = contains_str(&ci, "banner") || contains_str(&ci, "breadcrumb")
                || contains_str(&ci, "combx") || contains_str(&ci, "comment") || contains_str(
                &ci,
                "community",
            ) || contains_str(&ci, "disqus") || contains_str(&ci, "extra") || contains_str(
                &ci,
                "footer",
            ) || contains_str(&ci, "gdpr") || contains_str(&ci, "header") || contains_str(
                &ci,
                "menu",
            ) || contains_str(&ci, "related") || contains_str(&ci, "remark") || contains_str(
                &ci,
                "replies",
            ) || contains_str(&ci, "rss") || contains_str(&ci, "shoutbox") || contains_str(
                &ci,
                "sidebar",
            ) || contains_str(&ci, "skyscraper") || contains_str(&ci, "social") || contains_str(
                &ci,
                "sponsor",
            ) || contains_str(&ci, "supplemental") || contains_str(&ci, "ad-") || contains_str(
                &ci,
                "agegate",
            ) || contains_str(&ci, "pagination") || contains_str(&ci, "pager") || contains_str(
                &ci,
                "popup",
            );
            let content = contains_str(&ci, "article") || contains_str(&ci, "body")
                || contains_str(&ci, "column") || contains_str(&ci, "content") || contains_str(
                &ci,
                "main",
            ) || contains_str(&ci, "shadow");
            let signif = crate::text::chars_eq_str(tag, "html") || crate::text::chars_eq_str(
                tag,
                "body",
            ) || crate::text::chars_eq_str(tag, "a") || crate::text::chars_eq_str(tag, "article")
                || crate::text::chars_eq_str(tag, "main") || crate::text::chars_eq_str(
                tag,
                "table",
            ) || crate::text::chars_eq_str(tag, "td") || crate::text::chars_eq_str(tag, "th");
            let role = match crate::dom::get_attr(attrs, "role") {
                Some(v) => v,
                None => Vec::new(),
            };
            let badrole = crate::text::chars_eq_str(&role, "menu")
                || crate::text::chars_eq_str(&role, "menubar") || crate::text::chars_eq_str(
                &role,
                "complementary",
            ) || crate::text::chars_eq_str(&role, "navigation") || crate::text::chars_eq_str(
                &role,
                "alert",
            ) || crate::text::chars_eq_str(&role, "alertdialog") || crate::text::chars_eq_str(
                &role,
                "dialog",
            );
            (junk && !content && !signif) || badrole
        },
        CleanMode::Unwanted => {
            let unw = crate::text::chars_eq_str(tag, "form") || crate::text::chars_eq_str(
                tag,
                "fieldset",
            ) || crate::text::chars_eq_str(tag, "footer") || crate::text::chars_eq_str(
                tag,
                "aside",
            ) || crate::text::chars_eq_str(tag, "object") || crate::text::chars_eq_str(
                tag,
                "embed",
            ) || crate::text::chars_eq_str(tag, "iframe") || crate::text::chars_eq_str(
                tag,
                "input",
            ) || crate::text::chars_eq_str(tag, "textarea") || crate::text::chars_eq_str(
                tag,
                "select",
            ) || crate::text::chars_eq_str(tag, "button") || crate::text::chars_eq_str(
                tag,
                "link",
            );
            if !unw {
                false
            } else {
                let emb = crate::text::chars_eq_str(tag, "embed") || crate::text::chars_eq_str(
                    tag,
                    "iframe",
                ) || crate::text::chars_eq_str(tag, "object") || crate::text::chars_eq_str(
                    tag,
                    "video",
                );
                if emb && src_allowed(attrs, allowed) {
                    false
                } else {
                    true
                }
            }
        },
        CleanMode::Share => {
            let host = crate::text::chars_eq_str(tag, "div") || crate::text::chars_eq_str(
                tag,
                "span",
            ) || crate::text::chars_eq_str(tag, "aside") || crate::text::chars_eq_str(
                tag,
                "section",
            );
            if !host {
                false
            } else {
                let ci = class_id_of(attrs);
                contains_str(&ci, "share") || contains_str(&ci, "social") || contains_str(
                    &ci,
                    "sharedaddy",
                )
            }
        },
        CleanMode::Nav => {
            if crate::text::chars_eq_str(tag, "nav") {
                true
            } else {
                let host = crate::text::chars_eq_str(tag, "div") || crate::text::chars_eq_str(
                    tag,
                    "section",
                ) || crate::text::chars_eq_str(tag, "ul") || crate::text::chars_eq_str(tag, "ol");
                if !host {
                    false
                } else {
                    let ci = class_id_of(attrs);
                    contains_str(&ci, "nav") || contains_str(&ci, "menu") || contains_str(
                        &ci,
                        "breadcrumb",
                    ) || contains_str(&ci, "sidebar") || contains_str(&ci, "widget")
                        || contains_str(&ci, "header")
                }
            }
        },
        CleanMode::EmptyPara => {
            if !crate::text::chars_eq_str(tag, "p") {
                false
            } else {
                let txt = text_of_nodes(cleaned);
                if any_non_space(&txt) {
                    false
                } else {
                    let mut i: usize = 0;
                    let ghost vs = nodes_view(cleaned@);
                    proof {
                        lemma_nodes_view(cleaned@);
                        assert(vs.skip(0) =~= vs);
                    }
                    while i < cleaned.len()
                        invariant
                            i <= cleaned@.len(),
                            vs == nodes_view(cleaned@),
                            vs.len() == cleaned@.len(),
                            forall|k: int| 0 <= k < vs.len() ==> vs[k] == node_view(cleaned@[k]),
                            has_media_list_v(vs) == has_media_list_v(vs.skip(i as int)),
                        decreases cleaned@.len() - i,
                    {
                        proof {
                            assert(vs.skip(i as int).drop_first() =~= vs.skip(i + 1));
                            assert(vs.skip(i as int)[0] == vs[i as int]);
                        }
                        if has_media_node(&cleaned[i]) {
                            return false;
                        }
                        i = i + 1;
                    }
                    proof {
                        assert(vs.skip(vs.len() as int) =~= Seq::<NodeV>::empty());
                    }
                    true
                }
            }
        },
    }
}

/// A fresh copy of an attribute list, with the same model.
pub fn copy_attrs(v: &Vec<Attr>) -> (r: Vec<Attr>)
    ensures
        attrs_view(r@) == attrs_view(v@),
{
    let mut out: Vec<Attr> = Vec::new();
    let mut i: usize = 0;
    while i < v.len()
        invariant
            i <= v@.len(),
            out@.len() == i,
            forall|k: int| 0 <= k < i ==> out@[k]@ == v@[k]@,
        decreases v@.len() - i,
    {
        let a = Attr { name: copy_chars(&v[i].name), value: copy_chars(&v[i].value) };
        out.push(a);
        i = i + 1;
    }
    assert(attrs_view(out@) =~= attrs_view(v@));
    out
}

/// One sweep of a node; `None` when the node is dropped.
#[verifier::loop_isolation(false)]
pub fn clean_node(m: CleanMode, n: &Node, allowed: &Vec<Vec<char>>) -> (r: Option<Node>)
    ensures
        match r {
            Some(x) => clean_node_v(m, n@, hosts_view(allowed@)) == Some(x@),
            None => clean_node_v(m, n@, hosts_view(allowed@)) is None,
        },
    decreases *n,
{
    match n {
        Node::Text(t) => Some(Node::Text(copy_chars(t))),
        Node::Comment(c) => {
            match m {
                CleanMode::Scripts => None,
                _ => Some(Node::Comment(copy_chars(c))),
            }
        },
        Node::Element(e) => {
            let ghost hv = hosts_view(allowed@);
            let ghost vs = nodes_view(e.children@);
            proof {
                lemma_nodes_view(e.children@);
                assert(vs.skip(0) =~= vs);
            }
            let mut cc: Vec<Node> = Vec::new();
            let mut i: usize = 0;
            while i < e.children.len()
                invariant
                    i <= e.children@.len(),
                    nodes_view(cc@) + clean_list_v(m, vs.skip(i as int), hv) == clean_list_v(
                        m,
                        vs,
                        hv,
                    ),
                decreases e.children@.len() - i,
            {
                proof {
                    assert(vs.skip(i as int).drop_first() =~= vs.skip(i + 1));
                    assert(vs.skip(i as int)[0] == vs[i as int]);
                    assert(decreases_to!(*n => *e));
                    assert(decreases_to!(*e => e.children));
                    assert(decreases_to!(e.children => e.children[i as int]));
                    assert(decreases_to!(*n => e.children[i as int]));
                }
                let ghost pcc = cc@;
                let ghost prev = nodes_view(cc@);
                match clean_node(m, &e.children[i], allowed) {
                    Some(x) => {
                        let ghost xv = x@;
                        cc.push(x);
                        proof {
                            lemma_nodes_view(pcc);
                            lemma_nodes_view(cc@);
                            assert(nodes_view(cc@) =~= prev.push(xv));
                            assert(prev.push(xv) =~= prev + seq![xv]);
                        }
                    },
                    None => {
                    },
                }
                i = i + 1;
            }
            proof {
                assert(vs.skip(vs.len() as int) =~= Seq::<NodeV>::empty());
                assert(nodes_view(cc@) =~= clean_list_v(m, vs, hv));
            }
            if drop_elem(m, &e.tag, &e.attrs, &cc, allowed) {
                None
            } else {
                let tag = copy_chars(&e.tag);
                let attrs = copy_attrs(&e.attrs);
                Some(Node::Element(Elem { tag, attrs, children: cc }))
            }
        },
    }
}

/// One sweep of a forest.
pub fn clean_forest(m: CleanMode, ns: &Vec<Node>, allowed: &Vec<Vec<char>>) -> (r: Vec<Node>)
    ensures
        nodes_view(r@) == clean_list_v(m, nodes_view(ns@), hosts_view(allowed@)),
{
    let ghost hv = hosts_view(allowed@);
    let ghost vs = nodes_view(ns@);
    proof {
        lemma_nodes_view(ns@);
        assert(vs.skip(0) =~= vs);
    }
    let mut out: Vec<Node> = Vec::new();
    let mut i: usize = 0;
    while i < ns.len()
        invariant
            i <= ns@.len(),
            hv == hosts_view(allowed@),
            vs == nodes_view(ns@),
            vs.len() == ns@.len(),
            forall|k: int| 0 <= k < vs.len() ==> vs[k] == node_view(ns@[k]),
            nodes_view(out@) + clean_list_v(m, vs.skip(i as int), hv) == clean_list_v(m, vs, hv),
        decreases ns@.len() - i,
    {
        proof {
            assert(vs.skip(i as int).drop_first() =~= vs.skip(i + 1));
            assert(vs.skip(i as int)[0] == vs[i as int]);
        }
        let ghost pout = out@;
        let ghost prev = nodes_view(out@);
        match clean_node(m, &ns[i], allowed) {
            Some(x) => {
                let ghost xv = x@;
                out.push(x);
                proof {
                    lemma_nodes_view(pout);
                    lemma_nodes_view(out@);
                    assert(nodes_view(out@) =~= prev.push(xv));
                    assert(prev.push(xv) =~= prev + seq![xv]);
                }
            },
            None => {
            },
        }
        i = i + 1;
    }
    proof {
        assert(vs.skip(vs.len() as int) =~= Seq::<NodeV>::empty());
        assert(nodes_view(out@) =~= clean_list_v(m, vs, hv));
    }
    out
}

/// A sweep is idempotent on nodes: a kept node is kept unchanged by a
/// second sweep in the same mode.
pub proof fn lemma_clean_idempotent_node(m: CleanMode, n: NodeV, a: Seq<Seq<char>>)
    ensures
        clean_node_v(m, n, a) matches Some(x) ==> clean_node_v(m, x, a) == Some(x),
    decreases n,
{
    match n {
        NodeV::Text(t) => {
        },
        NodeV::Comment(c) => {
        },
        NodeV::Element { tag, attrs, children } => {
            lemma_clean_idempotent_list(m, children, a);
        },
    }
}

/// A sweep is idempotent: sweeping already-swept content is a no-op.
/// In particular the empty-paragraph removal step reaches a fixed point
/// after one sweep.
pub proof fn lemma_clean_idempotent_list(m: CleanMode, s: Seq<NodeV>, a: Seq<Seq<char>>)
    ensures
        clean_list_v(m, clean_list_v(m, s, a), a) == clean_list_v(m, s, a),
    decreases s,
{
    if s.len() > 0 {
        lemma_clean_idempotent_node(m, s[0], a);
        lemma_clean_idempotent_list(m, s.drop_first(), a);
        let rest = clean_list_v(m, s.drop_first(), a);
        match clean_node_v(m, s[0], a) {
            Some(x) => {
                let w = seq![x] + rest;
                assert(w.len() > 0);
                assert(w[0] == x);
                assert(w.drop_first() =~= rest);
                assert(clean_list_v(m, w, a) == clean_list_v(m, s, a));
            },
            None => {
            },
        }
    }
}

/// Heading tags consulted by the title dedup.
pub open spec fn heading_tag(t: Seq<char>) -> bool {
    t == "h1"@ || t == "h2"@
}

/// Whether a heading's text matches the title closely enough: equal after
/// normalization, or one contains the other at a length ratio of at least
/// four fifths. `t` is the already-normalized title.
pub open spec fn title_matches(h: Seq<char>, t: Seq<char>) -> bool {
    let hn = normalized(h);
    ||| hn == t
    ||| (contains_seq(hn, t) && 10 * t.len() >= 8 * hn.len())
    ||| (contains_seq(t, hn) && 10 * hn.len() >= 8 * t.len())
}

/// Title dedup of a node: the pair of the surviving node (`None` when the
/// node itself is the removed heading) and the number of headings removed.
pub open spec fn dedup_node_v(n: NodeV, t: Seq<char>) -> (Option<NodeV>, nat)
    decreases n,
{
    match n {
        NodeV::Text(x) => (Some(n), 0),
        NodeV::Comment(x) => (Some(n), 0),
        NodeV::Element { tag, attrs, children } => {
            if heading_tag(tag) && title_matches(text_of_list_v(children), t) {
                (None, 1)
            } else {
                let r = dedup_list_v(children, t);
                (Some(NodeV::Element { tag, attrs, children: r.0 }), r.1)
            }
        },
    }
}

/// Title dedup of a forest: scans in document order and stops at the first
/// removal, so later matches are left alone.
pub open spec fn dedup_list_v(s: Seq<NodeV>, t: Seq<char>) -> (Seq<NodeV>, nat)
    decreases s,
{
    if s.len() == 0 {
        (Seq::empty(), 0)
    } else {
        let h = dedup_node_v(s[0], t);
        if h.1 > 0 {
            (
                match h.0 {
                    Some(x) => seq![x] + s.drop_first(),
                    None => s.drop_first(),
                },
                h.1,
            )
        } else {
            let rest = dedup_list_v(s.drop_first(), t);
            (
                match h.0 {
                    Some(x) => seq![x] + rest.0,
                    None => rest.0,
                },
                rest.1,
            )
        }
    }
}

/// Title dedup of a document: a no-op when the normalized title is empty.
pub open spec fn dedup_title_v(s: Seq<NodeV>, title: Seq<char>) -> Seq<NodeV> {
    if normalized(title).len() == 0 {
        s
    } else {
        dedup_list_v(s, normalized(title)).0
    }
}

/// The title dedup removes at most one heading from a subtree.
pub proof fn lemma_dedup_at_most_one_node(n: NodeV, t: Seq<char>)
    ensures
        dedup_node_v(n, t).1 <= 1,
    decreases n,
{
    match n {
        NodeV::Text(x) => {
        },
        NodeV::Comment(x) => {
        },
        NodeV::Element { tag, attrs, children } => {
            lemma_dedup_at_most_one_list(children, t);
        },
    }
}

/// The title dedup removes at most one heading from a document.
pub proof fn lemma_dedup_at_most_one_list(s: Seq<NodeV>, t: Seq<char>)
    ensures
        dedup_list_v(s, t).1 <= 1,
    decreases s,
{
    if s.len() > 0 {
        lemma_dedup_at_most_one_node(s[0], t);
        lemma_dedup_at_most_one_list(s.drop_first(), t);
    }
}

/// When the title dedup removed nothing, the subtree is unchanged.
pub proof fn lemma_dedup_none_unchanged_node(n: NodeV, t: Seq<char>)
    ensures
        dedup_node_v(n, t).1 == 0 ==> dedup_node_v(n, t).0 == Some(n),
    decreases n,
{
    match n {
        NodeV::Text(x) => {
        },
        NodeV::Comment(x) => {
        },
        NodeV::Element { tag, attrs, children } => {
            lemma_dedup_none_unchanged_list(children, t);
        },
    }
}

/// When the title dedup removed nothing, the document is unchanged.
pub proof fn lemma_dedup_none_unchanged_list(s: Seq<NodeV>, t: Seq<char>)
    ensures
        dedup_list_v(s, t).1 == 0 ==> dedup_list_v(s, t).0 == s,
    decreases s,
{
    if s.len() > 0 {
        lemma_dedup_none_unchanged_node(s[0], t);
        lemma_dedup_none_unchanged_list(s.drop_first(), t);
        if dedup_list_v(s, t).1 == 0 {
            let h = dedup_node_v(s[0], t);
            assert(h.1 == 0);
            assert(h.0 == Some(s[0]));
            assert(seq![s[0]] + s.drop_first() =~= s);
        }
    }
}

/// The title dedup with an empty normalized title is a no-op.
pub proof fn lemma_dedup_empty_title(s: Seq<NodeV>, title: Seq<char>)
    requires
        normalized(title).len() == 0,
    ensures
        dedup_title_v(s, title) == s,
{
}

/// Whether the tag is a heading consulted by the title dedup.
fn heading_tag_e(tag: &Vec<char>) -> (r: bool)
    ensures
        r == heading_tag(tag@),
{
    crate::text::chars_eq_str(tag, "h1") || crate::text::chars_eq_str(tag, "h2")
}

/// Whether a heading's text matches the already-normalized title `t`.
fn title_match_e(h: &Vec<char>, t: &Vec<char>) -> (r: bool)
    ensures
        r == title_matches(h@, t@),
{
    let hn = crate::text::normalize_chars(h);
    if crate::text::chars_eq(&hn, t) {
        return true;
    }
    if crate::text::contains_chars(&hn, t) && (t.len() as u128) * 10 >= (hn.len() as u128) * 8 {
        return true;
    }
    if crate::text::contains_chars(t, &hn) && (hn.len() as u128) * 10 >= (t.len() as u128) * 8 {
        return true;
    }
    false
}

/// Title dedup of a node; mirrors `dedup_node_v`.
#[verifier::loop_isolation(false)]
pub fn dedup_node(n: &Node, t: &Vec<char>) -> (r: (Option<Node>, bool))
    ensures
        match r.0 {
            Some(x) => dedup_node_v(n@, t@).0 == Some(x@),
            None => dedup_node_v(n@, t@).0 is None,
        },
        dedup_node_v(n@, t@).1 == (if r.1 {
            1nat
        } else {
            0nat
        }),
    decreases *n,
{
    match n {
        Node::Text(x) => (Some(Node::Text(copy_chars(x))), false),
        Node::Comment(x) => (Some(Node::Comment(copy_chars(x))), false),
        Node::Element(e) => {
            if heading_tag_e(&e.tag) {
                let txt = text_of_nodes(&e.children);
                if title_match_e(&txt, t) {
                    return (None, true);
                }
            }
            proof {
                assert(decreases_to!(*n => *e));
                assert(decreases_to!(*e => e.children));
            }
            let (cc, rem) = dedup_forest(&e.children, t);
            proof {
                lemma_dedup_at_most_one_list(nodes_view(e.children@), t@);
            }
            let tag = copy_chars(&e.tag);
            let attrs = copy_attrs(&e.attrs);
            (Some(Node::Element(Elem { tag, attrs, children: cc })), rem)
        },
    }
}

/// Title dedup of a forest; mirrors `dedup_list_v`.
#[verifier::loop_isolation(false)]
pub fn dedup_forest(ns: &Vec<Node>, t: &Vec<char>) -> (r: (Vec<Node>, bool))
    ensures
        nodes_view(r.0@) == dedup_list_v(nodes_view(ns@), t@).0,
        dedup_list_v(nodes_view(ns@), t@).1 > 0 <==> r.1,
    decreases *ns,
{
    let ghost vs = nodes_view(ns@);
    let ghost d = dedup_list_v(vs, t@);
    proof {
        lemma_nodes_view(ns@);
        assert(vs.skip(0) =~= vs);
        assert(vs.take(0) + dedup_list_v(vs.skip(0), t@).0 =~= dedup_list_v(vs, t@).0);
    }
    let mut out: Vec<Node> = Vec::new();
    let mut removed: bool = false;
    let mut i: usize = 0;
    while i < ns.len()
        invariant
            i <= ns@.len(),
            !removed ==> nodes_view(out@) == vs.take(i as int),
            !removed ==> d.0 == vs.take(i as int) + dedup_list_v(vs.skip(i as int), t@).0,
            !removed ==> d.1 == dedup_list_v(vs.skip(i as int), t@).1,
            removed ==> d.1 > 0,
            removed ==> d.0 == nodes_view(out@) + vs.skip(i as int),
        decreases ns@.len() - i,
    {
        proof {
            assert(vs.skip(i as int).drop_first() =~= vs.skip(i + 1));
            assert(vs.skip(i as int)[0] == vs[i as int]);
            assert(decreases_to!(*ns => ns[i as int]));
        }
        let ghost pout = out@;
        let ghost prev = nodes_view(out@);
        if removed {
            let c = crate::dom::deep_copy_node(&ns[i]);
            let ghost xv = c@;
            out.push(c);
            proof {
                lemma_nodes_view(pout);
                lemma_nodes_view(out@);
                assert(nodes_view(out@) =~= prev.push(xv));
                assert(prev.push(xv) =~= prev + seq![xv]);
                assert(prev + seq![vs[i as int]] + vs.skip(i + 1) =~= prev + vs.skip(i as int));
            }
        } else {
            let (h, hrem) = dedup_node(&ns[i], t);
            proof {
                lemma_dedup_none_unchanged_node(vs[i as int], t@);
            }
            match h {
                Some(x) => {
                    let ghost xv = x@;
                    out.push(x);
                    proof {
                        lemma_nodes_view(pout);
                        lemma_nodes_view(out@);
                        assert(nodes_view(out@) =~= prev.push(xv));
                        assert(prev.push(xv) =~= prev + seq![xv]);
                        if !hrem {
                            assert(xv == vs[i as int]);
                            assert(nodes_view(out@) =~= vs.take(i + 1));
                            assert(vs.take(i as int) + (seq![xv] + dedup_list_v(
                                vs.skip(i + 1),
                                t@,
                            ).0) =~= vs.take(i + 1) + dedup_list_v(vs.skip(i + 1), t@).0);
                        } else {
                            assert(vs.take(i as int) + (seq![xv] + vs.skip(i + 1)) =~= nodes_view(
                                out@,
                            ) + vs.skip(i + 1));
                        }
                    }
                },
                None => {
                },
            }
            if hrem {
                removed = true;
            }
        }
        i = i + 1;
    }
    proof {
        assert(vs.skip(vs.len() as int) =~= Seq::<NodeV>::empty());
        assert(vs.take(vs.len() as int) =~= vs);
        if !removed {
            assert(d.0 =~= nodes_view(out@));
        } else {
            assert(d.0 =~= nodes_view(out@));
        }
    }
    (out, removed)
}

/// Title dedup of a document: removes the first heading whose text matches
/// the title, never more than one, and nothing when the normalized title is
/// empty.
pub fn dedup_title(ns: &Vec<Node>, title: &Vec<char>) -> (r: Vec<Node>)
    ensures
        nodes_view(r@) == dedup_title_v(nodes_view(ns@), title@),
{
    let tn = crate::text::normalize_chars(title);
    if tn.len() == 0 {
        crate::dom::deep_copy_nodes(ns)
    } else {
        let (out, _removed) = dedup_forest(ns, &tn);
        out
    }
}

/// The cleaning pipeline applied to an accepted container: unwanted
/// elements, then share widgets, then navigation, then paragraphs left
/// empty.
pub open spec fn prep_forest_v(s: Seq<NodeV>, a: Seq<Seq<char>>) -> Seq<NodeV> {
    clean_list_v(
        CleanMode::EmptyPara,
        clean_list_v(
            CleanMode::Nav,
            clean_list_v(CleanMode::Share, clean_list_v(CleanMode::Unwanted, s, a), a),
            a,
        ),
        a,
    )
}

/// Runs the cleaning pipeline over a forest.
pub fn prep_forest(ns: &Vec<Node>, allowed: &Vec<Vec<char>>) -> (r: Vec<Node>)
    ensures
        nodes_view(r@) == prep_forest_v(nodes_view(ns@), hosts_view(allowed@)),
{
    let a = clean_forest(CleanMode::Unwanted, ns, allowed);
    let b = clean_forest(CleanMode::Share, &a, allowed);
    let c = clean_forest(CleanMode::Nav, &b, allowed);
    clean_forest(CleanMode::EmptyPara, &c, allowed)
}

/// What a string-level sweep returns: the printed form of the parsed
/// document after one sweep, or the input unchanged when the markup cannot
/// be tokenized.
pub open spec fn sweep_result(m: CleanMode, html: Seq<char>, r: Seq<char>) -> bool {
    match crate::parse::parse_v(html) {
        None => r == html,
        Some(f) => r == crate::dom::render_list_v(
            clean_list_v(m, f, Seq::<Seq<char>>::empty()),
        ),
    }
}

/// Parses, runs one sweep, and prints the result; the input comes back
/// unchanged when it cannot be tokenized.
fn sweep_markup(m: CleanMode, html: &str) -> (r: String)
    ensures
        sweep_result(m, html@, r@),
{
    let chars = crate::text::str_to_chars(html);
    match crate::parse::parse_nodes(&chars) {
        None => crate::text::chars_to_string(&chars),
        Some(f) => {
            let allowed: Vec<Vec<char>> = Vec::new();
            let c = clean_forest(m, &f, &allowed);
            let out = crate::dom::render_nodes(&c);
            let rs = crate::text::chars_to_string(&out);
            proof {
                assert(hosts_view(allowed@) =~= Seq::<Seq<char>>::empty());
            }
            rs
        },
    }
}

/// Removes elements that are never part of article content: forms,
/// fieldsets, footers, asides, embedded objects and frames, form controls
/// and link elements. One `Unwanted` sweep (see `clean_list_v`).
pub fn remove_unwanted_elements(html: &str) -> (r: String)
    ensures
        sweep_result(CleanMode::Unwanted, html@, r@),
{
    sweep_markup(CleanMode::Unwanted, html)
}

/// Removes share buttons and social widgets: blocks whose class or id
/// signals sharing. One `Share` sweep (see `clean_list_v`).
pub fn remove_share_elements(html: &str) -> (r: String)
    ensures
        sweep_result(CleanMode::Share, html@, r@),
{
    sweep_markup(CleanMode::Share, html)
}

/// Removes navigation: nav elements, and blocks (nav-heavy wrappers
/// included) whose class or id signals menus, breadcrumbs, sidebars or
/// similar chrome. One `Nav` sweep (see `clean_list_v`).
pub fn remove_navigation_elements(html: &str) -> (r: String)
    ensures
        sweep_result(CleanMode::Nav, html@, r@),
{
    sweep_markup(CleanMode::Nav, html)
}

/// Removes paragraphs with no text and no embedded media. One `EmptyPara`
/// sweep reaches the fixed point: nested empties are handled because the
/// sweep judges each paragraph after its children were swept
/// (`lemma_clean_idempotent_list`).
pub fn remove_empty_paragraphs(html: &str) -> (r: String)
    ensures
        sweep_result(CleanMode::EmptyPara, html@, r@),
{
    sweep_markup(CleanMode::EmptyPara, html)
}

/// Prepares extracted article content for final output: removes unwanted
/// elements, share widgets and navigation, then collapses empty paragraphs.
/// The whole pipeline on the tree is `prep_forest_v`; the input comes back
/// unchanged when it cannot be tokenized.
pub fn prep_article(html: &str) -> (r: String)
    ensures
        match crate::parse::parse_v(html@) {
            None => r@ == html@,
            Some(f) => r@ == crate::dom::render_list_v(
                prep_forest_v(f, Seq::<Seq<char>>::empty()),
            ),
        },
{
    let chars = crate::text::str_to_chars(html);
    match crate::parse::parse_nodes(&chars) {
        None => crate::text::chars_to_string(&chars),
        Some(f) => {
            let allowed: Vec<Vec<char>> = Vec::new();
            let c = prep_forest(&f, &allowed);
            let out = crate::dom::render_nodes(&c);
            let rs = crate::text::chars_to_string(&out);
            proof {
                assert(hosts_view(allowed@) =~= Seq::<Seq<char>>::empty());
            }
            rs
        },
    }
}


/// Whether an attribute survives attribute normalization: style attributes
/// go, class attributes go unless classes are kept or the class value is a
/// preserved name, everything else stays.
pub open spec fn keep_attr_v(a: AttrV, preserve: Seq<Seq<char>>, keep_classes: bool) -> bool {
    if a.name == "style"@ {
        false
    } else if a.name == "class"@ {
        keep_classes || exists|k: int| 0 <= k < preserve.len() && preserve[k] == a.value
    } else {
        true
    }
}

/// Attribute normalization of an attribute list.
pub open spec fn strip_attrs_v(s: Seq<AttrV>, preserve: Seq<Seq<char>>, keep: bool) -> Seq<AttrV>
    decreases s,
{
    if s.len() == 0 {
        Seq::empty()
    } else {
        let rest = strip_attrs_v(s.drop_first(), preserve, keep);
        if keep_attr_v(s[0], preserve, keep) {
            seq![s[0]] + rest
        } else {
            rest
        }
    }
}

/// Attribute normalization of a node.
pub open spec fn strip_node_v(n: NodeV, preserve: Seq<Seq<char>>, keep: bool) -> NodeV
    decreases n,
{
    match n {
        NodeV::Element { tag, attrs, children } => NodeV::Element {
            tag,
            attrs: strip_attrs_v(attrs, preserve, keep),
            children: strip_list_v(children, preserve, keep),
        },
        NodeV::Text(t) => n,
        NodeV::Comment(c) => n,
    }
}

/// Attribute normalization of a forest.
pub open spec fn strip_list_v(s: Seq<NodeV>, preserve: Seq<Seq<char>>, keep: bool) -> Seq<NodeV>
    decreases s,
{
    if s.len() == 0 {
        Seq::empty()
    } else {
        seq![strip_node_v(s[0], preserve, keep)] + strip_list_v(s.drop_first(), preserve, keep)
    }
}

/// Whether the attribute survives normalization.
#[verifier::loop_isolation(false)]
fn keep_attr(a: &Attr, preserve: &Vec<Vec<char>>, keep_classes: bool) -> (r: bool)
    ensures
        r == keep_attr_v(a@, hosts_view(preserve@), keep_classes),
{
    if crate::text::chars_eq_str(&a.name, "style") {
        false
    } else if crate::text::chars_eq_str(&a.name, "class") {
        if keep_classes {
            return true;
        }
        let ghost pv = hosts_view(preserve@);
        let mut k: usize = 0;
        while k < preserve.len()
            invariant
                k <= preserve@.len(),
                pv == hosts_view(preserve@),
                forall|j: int| 0 <= j < k ==> pv[j] != a@.value,
            decreases preserve@.len() - k,
        {
            if crate::text::chars_eq(&preserve[k], &a.value) {
                assert(pv[k as int] == a@.value);
                return true;
            }
            k = k + 1;
        }
        false
    } else {
        true
    }
}

/// Attribute normalization of an attribute list.
fn strip_attrs(attrs: &Vec<Attr>, preserve: &Vec<Vec<char>>, keep: bool) -> (r: Vec<Attr>)
    ensures
        attrs_view(r@) == strip_attrs_v(attrs_view(attrs@), hosts_view(preserve@), keep),
{
    let ghost avs = attrs_view(attrs@);
    let ghost pv = hosts_view(preserve@);
    proof {
        assert(avs.skip(0) =~= avs);
    }
    let mut out: Vec<Attr> = Vec::new();
    let mut i: usize = 0;
    while i < attrs.len()
        invariant
            i <= attrs@.len(),
            avs == attrs_view(attrs@),
            pv == hosts_view(preserve@),
            attrs_view(out@) + strip_attrs_v(avs.skip(i as int), pv, keep) == strip_attrs_v(
                avs,
                pv,
                keep,
            ),
        decreases attrs@.len() - i,
    {
        proof {
            assert(avs.skip(i as int).drop_first() =~= avs.skip(i + 1));
            assert(avs.skip(i as int)[0] == avs[i as int]);
            assert(avs[i as int] == attrs@[i as int]@);
        }
        let ghost prev = attrs_view(out@);
        if keep_attr(&attrs[i], preserve, keep) {
            let a = Attr {
                name: copy_chars(&attrs[i].name),
                value: copy_chars(&attrs[i].value),
            };
            let ghost av = a@;
            out.push(a);
            proof {
                assert(attrs_view(out@) =~= prev.push(av));
                assert(prev.push(av) =~= prev + seq![av]);
            }
        }
        i = i + 1;
    }
    proof {
        assert(avs.skip(avs.len() as int) =~= Seq::<AttrV>::empty());
        assert(attrs_view(out@) =~= strip_attrs_v(avs, pv, keep));
    }
    out
}

/// Attribute normalization of a node; mirrors `strip_node_v`.
#[verifier::loop_isolation(false)]
pub fn strip_node(n: &Node, preserve: &Vec<Vec<char>>, keep: bool) -> (r: Node)
    ensures
        r@ == strip_node_v(n@, hosts_view(preserve@), keep),
    decreases *n,
{
    match n {
        Node::Text(t) => Node::Text(copy_chars(t)),
        Node::Comment(c) => Node::Comment(copy_chars(c)),
        Node::Element(e) => {
            let ghost pv = hosts_view(preserve@);
            let ghost vs = nodes_view(e.children@);
            proof {
                lemma_nodes_view(e.children@);
                assert(vs.skip(0) =~= vs);
            }
            let mut cc: Vec<Node> = Vec::new();
            let mut i: usize = 0;
            while i < e.children.len()
                invariant
                    i <= e.children@.len(),
                    nodes_view(cc@) + strip_list_v(vs.skip(i as int), pv, keep) == strip_list_v(
                        vs,
                        pv,
                        keep,
                    ),
                decreases e.children@.len() - i,
            {
                proof {
                    assert(vs.skip(i as int).drop_first() =~= vs.skip(i + 1));
                    assert(vs.skip(i as int)[0] == vs[i as int]);
                    assert(decreases_to!(*n => *e));
                    assert(decreases_to!(*e => e.children));
                    assert(decreases_to!(e.children => e.children[i as int]));
                    assert(decreases_to!(*n => e.children[i as int]));
                }
                let ghost pcc = cc@;
                let ghost prev = nodes_view(cc@);
                let x = strip_node(&e.children[i], preserve, keep);
                let ghost xv = x@;
                cc.push(x);
                proof {
                    lemma_nodes_view(pcc);
                    lemma_nodes_view(cc@);
                    assert(nodes_view(cc@) =~= prev.push(xv));
                    assert(prev.push(xv) =~= prev + seq![xv]);
                }
                i = i + 1;
            }
            proof {
                assert(vs.skip(vs.len() as int) =~= Seq::<NodeV>::empty());
                assert(nodes_view(cc@) =~= strip_list_v(vs, pv, keep));
            }
            let tag = copy_chars(&e.tag);
            let attrs = strip_attrs(&e.attrs, preserve, keep);
            Node::Element(Elem { tag, attrs, children: cc })
        },
    }
}

/// Attribute normalization of a forest; mirrors `strip_list_v`.
pub fn strip_forest(ns: &Vec<Node>, preserve: &Vec<Vec<char>>, keep: bool) -> (r: Vec<Node>)
    ensures
        nodes_view(r@) == strip_list_v(nodes_view(ns@), hosts_view(preserve@), keep),
{
    let ghost pv = hosts_view(preserve@);
    let ghost vs = nodes_view(ns@);
    proof {
        lemma_nodes_view(ns@);
        assert(vs.skip(0) =~= vs);
    }
    let mut out: Vec<Node> = Vec::new();
    let mut i: usize = 0;
    while i < ns.len()
        invariant
            i <= ns@.len(),
            pv == hosts_view(preserve@),
            vs == nodes_view(ns@),
            vs.len() == ns@.len(),
            forall|k: int| 0 <= k < vs.len() ==> vs[k] == node_view(ns@[k]),
            nodes_view(out@) + strip_list_v(vs.skip(i as int), pv, keep) == strip_list_v(
                vs,
                pv,
                keep,
            ),
        decreases ns@.len() - i,
    {
        proof {
            assert(vs.skip(i as int).drop_first() =~= vs.skip(i + 1));
            assert(vs.skip(i as int)[0] == vs[i as int]);
        }
        let ghost pout = out@;
        let ghost prev = nodes_view(out@);
        let x = strip_node(&ns[i], preserve, keep);
        let ghost xv = x@;
        out.push(x);
        proof {
            lemma_nodes_view(pout);
            lemma_nodes_view(out@);
            assert(nodes_view(out@) =~= prev.push(xv));
            assert(prev.push(xv) =~= prev + seq![xv]);
        }
        i = i + 1;
    }
    proof {
        assert(vs.skip(vs.len() as int) =~= Seq::<NodeV>::empty());
        assert(nodes_view(out@) =~= strip_list_v(vs, pv, keep));
    }
    out
}


} // verus!
