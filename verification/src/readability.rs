//! The extraction orchestrator: owns the parsed document tree for one
//! parse, runs preprocessing, scoring and candidate assembly, drives the
//! flag-relaxation retry loop, and assembles the final article record.

use vstd::prelude::*;
use crate::article::Article;
use crate::clean::CleanMode;
use crate::dom::{Node, NodeV, nodes_view, elem_count_list_v, text_of_nodes, render_nodes,
    render_list_v, text_of_list_v, deep_copy_nodes};
use crate::extract::{Flags, ScoreInfo, table_wf, SCORE_CAP, relax, relax_iter, subset_of,
    flatten_forest, compute_scores, select_candidate, collect_marked, adj_score, link_len_of};
use crate::meta::{opt_chars_view, title_v, byline_v, excerpt_v, site_name_v, published_time_v,
    lang_v, dir_v, extract_metadata};
use crate::options::{ReadabilityOptions, is_default_options};

verus! {

/// The models of a list of strings.
pub open spec fn strs_view(s: Seq<String>) -> Seq<Seq<char>> {
    s.map_values(|x: String| x@)
}

/// The title the dedup compares against: the extracted title, or nothing.
pub open spec fn title_or_empty(dom: Seq<NodeV>) -> Seq<char> {
    match title_v(dom) {
        Some(t) => t,
        None => Seq::empty(),
    }
}

/// The cleaning pipeline a successful parse applies to the accepted
/// container `pre`: unwanted elements always, the share and navigation
/// sweeps when the clean-conditionally flag survived relaxation (`cond`),
/// empty paragraphs, attribute normalization, address resolution against
/// the base, and the title dedup.
pub open spec fn content_pipeline_v(
    pre: Seq<NodeV>,
    cond: bool,
    o: ReadabilityOptions,
    base: Option<Seq<char>>,
    title: Seq<char>,
) -> Seq<NodeV> {
    let hosts = strs_view(o.allowed_video_regex@);
    let c1 = crate::clean::clean_list_v(CleanMode::Unwanted, pre, hosts);
    let c2 = if cond {
        crate::clean::clean_list_v(
            CleanMode::Nav,
            crate::clean::clean_list_v(CleanMode::Share, c1, hosts),
            hosts,
        )
    } else {
        c1
    };
    let c3 = crate::clean::clean_list_v(CleanMode::EmptyPara, c2, hosts);
    let c4 = crate::clean::strip_list_v(c3, strs_view(o.classes_to_preserve@), o.keep_classes);
    let c5 = match base {
        Some(b) => crate::links::fix_list_v(c4, b),
        None => c4,
    };
    crate::clean::dedup_title_v(c5, title)
}

/// The article's body fields all come from one container `pre`:
/// `raw_content` prints it untouched, and `content`, `text_content` and
/// `length` are the cleaning pipeline's output on it.
pub open spec fn body_fields_from(
    a: Article,
    pre: Seq<NodeV>,
    cond: bool,
    o: ReadabilityOptions,
    base: Option<Seq<char>>,
    dom: Seq<NodeV>,
) -> bool {
    let cleaned = content_pipeline_v(pre, cond, o, base, title_or_empty(dom));
    &&& opt_str_view(a.raw_content) == Some(render_list_v(pre))
    &&& opt_str_view(a.content) == Some(render_list_v(cleaned))
    &&& opt_str_view(a.text_content) == Some(text_of_list_v(cleaned))
    &&& a.length == text_of_list_v(cleaned).len()
}

/// Why a parse could not be set up.
#[derive(Clone, Copy, Debug, PartialEq, Eq, Structural)]
pub enum ReadabilityError {
    /// The document holds more elements than the configured ceiling.
    TooManyElements,
    /// The markup cannot be minimally tokenized into a tree.
    UnparseableInput,
}

impl ReadabilityError {
    /// A short description of the failure.
    pub fn message(&self) -> (r: String)
        ensures
            self is TooManyElements ==> r@ == "too many elements to parse"@,
            self is UnparseableInput ==> r@ == "markup could not be tokenized"@,
    {
        match self {
            ReadabilityError::TooManyElements => crate::text::chars_to_string(
                &crate::text::str_to_chars("too many elements to parse"),
            ),
            ReadabilityError::UnparseableInput => crate::text::chars_to_string(
                &crate::text::str_to_chars("markup could not be tokenized"),
            ),
        }
    }
}

/// Whether the document exceeds the configured element ceiling;
/// a ceiling of zero means no limit.
pub fn over_limit(dom: &Vec<Node>, max: usize) -> (r: bool)
    ensures
        r == (max != 0 && elem_count_list_v(nodes_view(dom@)) > max as nat),
{
    if max == 0 {
        return false;
    }
    match crate::dom::count_forest_elems(dom) {
        Some(c) => c > max,
        None => true,
    }
}

/// One parse: the document tree (owned exclusively for the parse), the
/// optional base address, and the configuration snapshot.
#[derive(Debug)]
pub struct Readability {
    dom: Vec<Node>,
    base_url: Option<String>,
    options: ReadabilityOptions,
}

impl Readability {
    /// The model of the owned document tree.
    pub closed spec fn dom_view(&self) -> Seq<NodeV> {
        nodes_view(self.dom@)
    }

    /// The configuration of this parse.
    pub closed spec fn options_spec(&self) -> ReadabilityOptions {
        self.options
    }

    /// The base address of this parse, if one was given.
    pub closed spec fn base_view(&self) -> Option<Seq<char>> {
        match self.base_url {
            Some(b) => Some(b@),
            None => None,
        }
    }

    /// The resource bound holds: either no ceiling is configured, or the
    /// tree respects it. Established at construction, so no article is ever
    /// produced from an over-limit tree.
    pub closed spec fn wf(&self) -> bool {
        self.options.max_elems_to_parse == 0 || elem_count_list_v(nodes_view(self.dom@))
            <= self.options.max_elems_to_parse
    }

    /// Sets up a parse: tokenizes the markup and checks the element
    /// ceiling. Fails fast with `UnparseableInput` when the markup cannot
    /// be tokenized, and with `TooManyElements` when the tree exceeds a
    /// non-zero `max_elems_to_parse`, before any scoring work.
    pub fn new(html: &str, base_url: Option<&str>, options: Option<ReadabilityOptions>) -> (r:
        Result<Readability, ReadabilityError>)
        ensures
            r matches Ok(rd) ==> rd.wf(),
            r matches Ok(rd) ==> crate::parse::parse_v(html@) == Some(rd.dom_view()),
            r matches Ok(rd) ==> (match options {
                Some(o) => rd.options_spec() == o,
                None => is_default_options(rd.options_spec()),
            }),
            r matches Ok(rd) ==> rd.base_view() == (match base_url {
                Some(u) => Some(u@),
                None => None::<Seq<char>>,
            }),
            (r matches Err(e) && e is UnparseableInput) <==> crate::parse::parse_v(html@) is None,
            (r matches Err(e) && e is TooManyElements) <==> (crate::parse::parse_v(html@) matches
                Some(f) && (match options {
                Some(o) => o.max_elems_to_parse != 0 && elem_count_list_v(f)
                    > o.max_elems_to_parse,
                None => false,
            })),
    {
        let opts = match options {
            Some(o) => o,
            None => ReadabilityOptions::default(),
        };
        let chars = crate::text::str_to_chars(html);
        let dom = match crate::parse::parse_nodes(&chars) {
            Some(d) => d,
            None => {
                return Err(ReadabilityError::UnparseableInput);
            },
        };
        if over_limit(&dom, opts.max_elems_to_parse) {
            return Err(ReadabilityError::TooManyElements);
        }
        let base = match base_url {
            Some(u) => Some(crate::text::chars_to_string(&crate::text::str_to_chars(u))),
            None => None,
        };
        Ok(Readability { dom, base_url: base, options: opts })
    }

    /// Runs the extraction: metadata first, then the bounded retry loop of
    /// preprocessing, scoring and assembly, relaxing one flag per failed
    /// attempt; the accepted container is cleaned, its heading deduplicated
    /// against the title, and the article record assembled. `None` when no
    /// attempt yielded usable content.
    pub fn parse(&self) -> (r: Option<Article>)
        ensures
            match r {
                Some(a) => {
                    &&& a.wf()
                    &&& a.length > 0
                    &&& a.content is Some
                    &&& a.text_content is Some
                    &&& a.raw_content is Some
                    &&& opt_str_view(a.title) == title_v(self.dom_view())
                    &&& opt_str_view(a.byline) == byline_v(self.dom_view())
                    &&& opt_str_view(a.excerpt) == excerpt_v(self.dom_view())
                    &&& opt_str_view(a.site_name) == site_name_v(self.dom_view())
                    &&& opt_str_view(a.published_time) == published_time_v(self.dom_view())
                    &&& opt_str_view(a.lang) == lang_v(self.dom_view())
                    &&& opt_str_view(a.dir) == dir_v(self.dom_view())
                    &&& exists|pre: Seq<NodeV>, cond: bool|
                        body_fields_from(
                            a,
                            pre,
                            cond,
                            self.options_spec(),
                            self.base_view(),
                            self.dom_view(),
                        )
                },
                None => true,
            },
    {
        let meta = extract_metadata(&self.dom);
        let mut allowed: Vec<Vec<char>> = Vec::new();
        let mut h: usize = 0;
        while h < self.options.allowed_video_regex.len()
            invariant
                allowed@.len() == h,
                h <= self.options.allowed_video_regex@.len(),
                forall|k: int|
                    0 <= k < h ==> allowed@[k]@ == self.options.allowed_video_regex@[k]@,
            decreases self.options.allowed_video_regex@.len() - h,
        {
            allowed.push(
                crate::text::str_to_chars(self.options.allowed_video_regex[h].as_str()),
            );
            h = h + 1;
        }
        proof {
            assert(crate::clean::hosts_view(allowed@) =~= strs_view(
                self.options.allowed_video_regex@,
            ));
        }
        let mut preserve: Vec<Vec<char>> = Vec::new();
        let mut g: usize = 0;
        while g < self.options.classes_to_preserve.len()
            invariant
                preserve@.len() == g,
                g <= self.options.classes_to_preserve@.len(),
                forall|k: int|
                    0 <= k < g ==> preserve@[k]@ == self.options.classes_to_preserve@[k]@,
            decreases self.options.classes_to_preserve@.len() - g,
        {
            preserve.push(
                crate::text::str_to_chars(self.options.classes_to_preserve[g].as_str()),
            );
            g = g + 1;
        }
        proof {
            assert(crate::clean::hosts_view(preserve@) =~= strs_view(
                self.options.classes_to_preserve@,
            ));
        }
        let mut flags = Flags::all_on();
        let ghost first_flags = flags;
        let ghost mut relaxations: nat = 0;
        let mut attempt: usize = 0;
        let mut chosen: Option<Vec<Node>> = None;
        let mut best: Option<Vec<Node>> = None;
        let mut best_len: usize = 0;
        while attempt < 4 && chosen.is_none()
            invariant
                attempt <= 4,
                // each attempt's flag set is a subset of the one before
                flags == relax_iter(first_flags, relaxations),
                subset_of(flags, first_flags),
            decreases 4 - attempt,
        {
            let mut work = crate::clean::clean_forest(CleanMode::Scripts, &self.dom, &allowed);
            if flags.strip_unlikely {
                work = crate::clean::clean_forest(CleanMode::Unlikely, &work, &allowed);
            }
            let flat = flatten_forest(&work);
            let (scores, inited) = compute_scores(&flat, flags.weight_classes);
            let cand = select_candidate(
                &flat,
                &scores,
                &inited,
                self.options.link_density_modifier,
            );
            let container: Vec<Node> = match cand {
                Some(b) => assemble_container(
                    &work,
                    &flat,
                    &scores,
                    &inited,
                    b,
                    self.options.link_density_modifier,
                ),
                None => match body_children(&work) {
                    Some(c) => c,
                    None => Vec::new(),
                },
            };
            let text = text_of_nodes(&container);
            if text.len() > 0 && text.len() >= self.options.char_threshold {
                chosen = Some(container);
            } else {
                if best_len == 0 || text.len() > best_len {
                    best_len = text.len();
                    best = Some(container);
                }
                flags = relax(flags);
                proof {
                    relaxations = relaxations + 1;
                }
            }
            attempt = attempt + 1;
        }
        let pre_clean: Vec<Node> = match chosen {
            Some(c) => c,
            None => {
                if best_len == 0 {
                    return None;
                }
                match best {
                    Some(b) => b,
                    None => {
                        return None;
                    },
                }
            },
        };
        let raw_chars = render_nodes(&pre_clean);

        // cleaning pipeline on the accepted container
        let mut cleaned = crate::clean::clean_forest(CleanMode::Unwanted, &pre_clean, &allowed);
        if flags.clean_conditionally {
            cleaned = crate::clean::clean_forest(CleanMode::Share, &cleaned, &allowed);
            cleaned = crate::clean::clean_forest(CleanMode::Nav, &cleaned, &allowed);
        }
        cleaned = crate::clean::clean_forest(CleanMode::EmptyPara, &cleaned, &allowed);
        cleaned = crate::clean::strip_forest(&cleaned, &preserve, self.options.keep_classes);
        match &self.base_url {
            Some(b) => {
                let base = crate::text::str_to_chars(b.as_str());
                cleaned = crate::links::fix_forest(&cleaned, &base);
            },
            None => {
            },
        }
        let title_chars: Vec<char> = match &meta.title {
            Some(t) => crate::dom::copy_chars(t),
            None => Vec::new(),
        };
        cleaned = crate::clean::dedup_title(&cleaned, &title_chars);

        let text_chars = text_of_nodes(&cleaned);
        if text_chars.len() == 0 {
            return None;
        }
        let content_chars = render_nodes(&cleaned);
        let length = text_chars.len();
        let a = Article {
            title: opt_to_string(&meta.title),
            content: Some(crate::text::chars_to_string(&content_chars)),
            text_content: Some(crate::text::chars_to_string(&text_chars)),
            length,
            excerpt: opt_to_string(&meta.excerpt),
            byline: opt_to_string(&meta.byline),
            dir: opt_to_string(&meta.dir),
            site_name: opt_to_string(&meta.site_name),
            lang: opt_to_string(&meta.lang),
            published_time: opt_to_string(&meta.published_time),
            raw_content: Some(crate::text::chars_to_string(&raw_chars)),
        };
        proof {
            assert(title_chars@ == title_or_empty(self.dom_view()));
            assert(body_fields_from(
                a,
                nodes_view(pre_clean@),
                flags.clean_conditionally,
                self.options_spec(),
                self.base_view(),
                self.dom_view(),
            ));
        }
        Some(a)
    }
}

/// The model of an optional text field.
pub open spec fn opt_str_view(o: Option<String>) -> Option<Seq<char>> {
    match o {
        Some(s) => Some(s@),
        None => None,
    }
}

/// An optional character vector as an optional string.
fn opt_to_string(o: &Option<Vec<char>>) -> (r: Option<String>)
    ensures
        opt_str_view(r) == opt_chars_view(*o),
{
    match o {
        Some(v) => Some(crate::text::chars_to_string(v)),
        None => None,
    }
}

/// Fresh copies of the first body element's children, if a body exists:
/// the fallback candidate when nothing was scored.
#[verifier::loop_isolation(false)]
fn body_children(ns: &Vec<Node>) -> (r: Option<Vec<Node>>)
    decreases *ns,
{
    let mut i: usize = 0;
    while i < ns.len()
        invariant
            i <= ns@.len(),
        decreases ns@.len() - i,
    {
        proof {
            assert(decreases_to!(*ns => ns[i as int]));
        }
        match &ns[i] {
            Node::Element(e) => {
                if crate::text::chars_eq_str(&e.tag, "body") {
                    return Some(deep_copy_nodes(&e.children));
                }
                proof {
                    assert(decreases_to!(ns[i as int] => *e));
                    assert(decreases_to!(*e => e.children));
                }
                match body_children(&e.children) {
                    Some(c) => {
                        return Some(c);
                    },
                    None => {
                    },
                }
            },
            _ => {
            },
        }
        i = i + 1;
    }
    None
}

/// Grows the final container from the top candidate: the candidate itself
/// and each qualifying sibling — a sibling qualifies on score (at least a
/// fifth of the top score, and at least ten points) or as a prose paragraph
/// with enough text and low link density. Children that are mostly links
/// are pruned afterwards. The thresholds are tunable heuristics.
fn assemble_container(
    work: &Vec<Node>,
    flat: &Vec<ScoreInfo>,
    scores: &Vec<i64>,
    inited: &Vec<bool>,
    b: usize,
    modifier: i64,
) -> (r: Vec<Node>)
    requires
        table_wf(flat@),
        scores@.len() == flat@.len(),
        inited@.len() == flat@.len(),
        b < flat@.len(),
        forall|q: int| 0 <= q < scores@.len() ==> -SCORE_CAP <= #[trigger] scores@[q] <= SCORE_CAP,
{
    let n = flat.len();
    let mut marked: Vec<bool> = Vec::new();
    let mut k: usize = 0;
    while k < n
        invariant
            marked@.len() == k,
            k <= n,
        decreases n - k,
    {
        marked.push(false);
        k = k + 1;
    }
    marked.set(b, true);
    let p = flat[b].parent;
    if p != b {
        let badj = adj_score(scores[b], flat[b].text_len, flat[b].link_len, modifier);
        let fifth = badj / 5;
        let thr: i128 = if fifth < 10 {
            10
        } else {
            fifth
        };
        let mut j: usize = 0;
        while j < n
            invariant
                n == flat@.len(),
                table_wf(flat@),
                scores@.len() == n,
                inited@.len() == n,
                marked@.len() == n,
                forall|q: int|
                    0 <= q < scores@.len() ==> -SCORE_CAP <= #[trigger] scores@[q] <= SCORE_CAP,
            decreases n - j,
        {
            if j != p && j != b && flat[j].parent == p {
                let by_score: bool = if inited[j] {
                    let a = adj_score(scores[j], flat[j].text_len, flat[j].link_len, modifier);
                    a >= thr
                } else {
                    false
                };
                let by_prose: bool = if !by_score && crate::text::chars_eq_str(&flat[j].tag, "p")
                    && flat[j].text_len > 80 {
                    let ceiling: i128 = 250 + (modifier as i128);
                    let c: u128 = if ceiling < 0 {
                        0
                    } else if ceiling > 1000 {
                        1000
                    } else {
                        ceiling as u128
                    };
                    proof {
                        let tp = flat@[j as int].text_len as int;
                        let cp = c as int;
                        assert(tp * cp <= 0xFFFFFFFF * 1000) by (nonlinear_arith)
                            requires
                                0 <= tp <= 0xFFFFFFFF,
                                0 <= cp <= 1000,
                        ;
                    }
                    (flat[j].link_len as u128) * 1000 < (flat[j].text_len as u128) * c
                } else {
                    false
                };
                if by_score || by_prose {
                    marked.set(j, true);
                }
            }
            j = j + 1;
        }
    }
    let mut out: Vec<Node> = Vec::new();
    let mut counter: usize = 0;
    collect_marked(work, &marked, &mut counter, &mut out);
    // prune children that are mostly anchor text
    let mut kept: Vec<Node> = Vec::new();
    let mut i: usize = 0;
    while i < out.len()
        invariant
            i <= out@.len(),
        decreases out@.len() - i,
    {
        let mut mostly_links = false;
        match &out[i] {
            Node::Element(e) => {
                let txt = text_of_nodes(&e.children);
                let link = link_len_of(&e.children);
                if txt.len() > 0 && (link as u128) * 2 > (txt.len() as u128) {
                    mostly_links = true;
                }
            },
            _ => {
            },
        }
        if !mostly_links {
            let c = crate::dom::deep_copy_node(&out[i]);
            kept.push(c);
        }
        i = i + 1;
    }
    if kept.len() == 0 {
        out
    } else {
        kept
    }
}

} // verus!
