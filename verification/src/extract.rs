//! The scoring engine and candidate assembly: assigns content-likelihood
//! scores to elements, propagates them up the ancestor chain, adjusts by
//! link density, and picks the top candidate.
//!
//! The heuristic constants are tunable weights; what is pinned by contract
//! is the shape of the computation: flag relaxation only ever turns flags
//! off (`relax_spec`), the link-density adjustment is the exact integer
//! formula `adj_v`, and the selected candidate carries the maximal adjusted
//! score, earlier document order winning ties.

use vstd::prelude::*;
use crate::dom::{Node, NodeV, Elem, nodes_view, node_view, lemma_nodes_view};
use crate::text::contains_seq;

verus! {

/// The heuristic gates that the retry loop relaxes, strictest first.
#[derive(Clone, Copy, Debug, PartialEq, Eq, Structural)]
pub struct Flags {
    /// Remove unlikely candidates before scoring.
    pub strip_unlikely: bool,
    /// Weigh class and id names into element scores.
    pub weight_classes: bool,
    /// Run the conditional cleaning sweeps on the accepted container.
    pub clean_conditionally: bool,
}

impl Flags {
    /// All heuristics on: the first attempt's flag set.
    pub fn all_on() -> (r: Flags)
        ensures
            r.strip_unlikely && r.weight_classes && r.clean_conditionally,
    {
        Flags { strip_unlikely: true, weight_classes: true, clean_conditionally: true }
    }

    /// No heuristic on.
    pub open spec fn none_set(self) -> bool {
        !self.strip_unlikely && !self.weight_classes && !self.clean_conditionally
    }
}

/// Every flag set in `a` is set in `b`.
pub open spec fn subset_of(a: Flags, b: Flags) -> bool {
    &&& a.strip_unlikely ==> b.strip_unlikely
    &&& a.weight_classes ==> b.weight_classes
    &&& a.clean_conditionally ==> b.clean_conditionally
}

/// Turns off exactly one flag, in fixed order: strip-unlikely first, then
/// weight-classes, then clean-conditionally; a fixed point when none is on.
pub open spec fn relax_spec(f: Flags) -> Flags {
    if f.strip_unlikely {
        Flags { strip_unlikely: false, ..f }
    } else if f.weight_classes {
        Flags { weight_classes: false, ..f }
    } else if f.clean_conditionally {
        Flags { clean_conditionally: false, ..f }
    } else {
        f
    }
}

/// Relaxes the flags by one step.
pub fn relax(f: Flags) -> (r: Flags)
    ensures
        r == relax_spec(f),
        subset_of(r, f),
        !f.none_set() ==> r != f,
{
    if f.strip_unlikely {
        Flags { strip_unlikely: false, ..f }
    } else if f.weight_classes {
        Flags { weight_classes: false, ..f }
    } else if f.clean_conditionally {
        Flags { clean_conditionally: false, ..f }
    } else {
        f
    }
}

/// The flag set after `k` relaxation steps.
pub open spec fn relax_iter(f: Flags, k: nat) -> Flags
    decreases k,
{
    if k == 0 {
        f
    } else {
        relax_spec(relax_iter(f, (k - 1) as nat))
    }
}

/// Relaxation is monotone: once a flag is off it stays off, so each
/// attempt's flag set is a subset of the one before.
pub proof fn lemma_relaxation_monotone(f: Flags, k: nat)
    ensures
        subset_of(relax_iter(f, k + 1), relax_iter(f, k)),
{
}

/// Per-element facts the scoring engine works from: the parent's index in
/// the same table (its own index for a root), and text statistics. Text
/// statistics are capped at `STAT_CAP`.
#[derive(Debug)]
pub struct ScoreInfo {
    /// Index of the parent element; the entry's own index for a root.
    pub parent: usize,
    /// Lower-case tag name.
    pub tag: Vec<char>,
    /// Case-folded class and id text.
    pub class_id: Vec<char>,
    /// Characters of text in the subtree.
    pub text_len: usize,
    /// Characters of text inside anchor elements in the subtree.
    pub link_len: usize,
    /// Commas in the element's direct text children.
    pub commas: usize,
}

/// Cap on the text statistics entering score arithmetic.
pub const STAT_CAP: usize = 0xFFFFFFFF;

/// A well-formed score table: parents come before children and the text
/// statistics are capped.
pub open spec fn table_wf(t: Seq<ScoreInfo>) -> bool {
    forall|i: int|
        0 <= i < t.len() ==> {
            &&& (#[trigger] t[i]).parent <= i
            &&& t[i].text_len <= STAT_CAP
            &&& t[i].link_len <= STAT_CAP
            &&& t[i].commas <= STAT_CAP
        }
}

/// `x` capped at `STAT_CAP`.
fn cap_stat(x: usize) -> (r: usize)
    ensures
        r <= STAT_CAP,
{
    if x > STAT_CAP {
        STAT_CAP
    } else {
        x
    }
}

/// Counts the commas among the direct text children of an element.
fn direct_commas(children: &Vec<Node>) -> (r: usize)
    ensures
        r <= STAT_CAP,
{
    let mut total: usize = 0;
    let mut i: usize = 0;
    while i < children.len()
        invariant
            total <= STAT_CAP,
        decreases children@.len() - i,
    {
        match &children[i] {
            Node::Text(t) => {
                let mut j: usize = 0;
                while j < t.len()
                    invariant
                        total <= STAT_CAP,
                        j <= t@.len(),
                    decreases t@.len() - j,
                {
                    if t[j] == ',' && total < STAT_CAP {
                        total = total + 1;
                    }
                    j = j + 1;
                }
            },
            _ => {
            },
        }
        i = i + 1;
    }
    total
}

/// Text length of a subtree, capped.
fn subtree_text_len(e: &Elem) -> (r: usize)
    ensures
        r <= STAT_CAP,
{
    let txt = crate::dom::text_of_nodes(&e.children);
    cap_stat(txt.len())
}

/// Text length inside anchor elements of a forest, capped.
pub fn link_len_of(ns: &Vec<Node>) -> (r: usize)
    ensures
        r <= STAT_CAP,
    decreases *ns,
{
    let mut total: usize = 0;
    let mut i: usize = 0;
    while i < ns.len()
        invariant
            total <= STAT_CAP,
            i <= ns@.len(),
        decreases ns@.len() - i,
    {
        proof {
            assert(decreases_to!(*ns => ns[i as int]));
        }
        match &ns[i] {
            Node::Element(e) => {
                let part: usize = if crate::text::chars_eq_str(&e.tag, "a") {
                    subtree_text_len(e)
                } else {
                    proof {
                        assert(decreases_to!(ns[i as int] => *e));
                        assert(decreases_to!(*e => e.children));
                    }
                    link_len_of(&e.children)
                };
                if total > STAT_CAP - part {
                    total = STAT_CAP;
                } else {
                    total = total + part;
                }
            },
            _ => {
            },
        }
        i = i + 1;
    }
    total
}

/// Flattens the elements of a subtree into the score table, in document
/// order, keeping the table well-formed: exactly one entry per element.
#[verifier::loop_isolation(false)]
fn flatten_node(n: &Node, parent: usize, flat: &mut Vec<ScoreInfo>)
    requires
        parent <= old(flat)@.len(),
        table_wf(old(flat)@),
    ensures
        final(flat)@.len() == old(flat)@.len() + crate::dom::elem_count_v(n@),
        table_wf(final(flat)@),
    decreases *n,
{
    match n {
        Node::Text(_) => {
        },
        Node::Comment(_) => {
        },
        Node::Element(e) => {
            let ghost vs = nodes_view(e.children@);
            proof {
                lemma_nodes_view(e.children@);
                assert(vs.skip(0) =~= vs);
            }
            let own = flat.len();
            let info = ScoreInfo {
                parent,
                tag: crate::dom::copy_chars(&e.tag),
                class_id: crate::clean::class_id_of(&e.attrs),
                text_len: subtree_text_len(e),
                link_len: link_len_of(&e.children),
                commas: direct_commas(&e.children),
            };
            flat.push(info);
            let mut i: usize = 0;
            while i < e.children.len()
                invariant
                    own < flat@.len(),
                    i <= e.children@.len(),
                    flat@.len() + crate::dom::elem_count_list_v(vs.skip(i as int)) == old(
                        flat,
                    )@.len() + 1 + crate::dom::elem_count_list_v(vs),
                    table_wf(flat@),
                decreases e.children@.len() - i,
            {
                proof {
                    assert(vs.skip(i as int).drop_first() =~= vs.skip(i + 1));
                    assert(vs.skip(i as int)[0] == vs[i as int]);
                    assert(decreases_to!(*n => *e));
                    assert(decreases_to!(*e => e.children));
                    assert(decreases_to!(e.children => e.children[i as int]));
                    assert(decreases_to!(*n => e.children[i as int]));
                }
                flatten_node(&e.children[i], own, flat);
                i = i + 1;
            }
            proof {
                assert(vs.skip(vs.len() as int) =~= Seq::<NodeV>::empty());
            }
        },
    }
}

/// Flattens a whole forest into a well-formed score table with exactly one
/// entry per element, in document order.
pub fn flatten_forest(ns: &Vec<Node>) -> (r: Vec<ScoreInfo>)
    ensures
        table_wf(r@),
        r@.len() == crate::dom::elem_count_list_v(nodes_view(ns@)),
{
    let ghost vs = nodes_view(ns@);
    proof {
        lemma_nodes_view(ns@);
        assert(vs.skip(0) =~= vs);
    }
    let mut flat: Vec<ScoreInfo> = Vec::new();
    let mut i: usize = 0;
    while i < ns.len()
        invariant
            i <= ns@.len(),
            vs == nodes_view(ns@),
            vs.len() == ns@.len(),
            forall|k: int| 0 <= k < vs.len() ==> vs[k] == node_view(ns@[k]),
            flat@.len() + crate::dom::elem_count_list_v(vs.skip(i as int))
                == crate::dom::elem_count_list_v(vs),
            table_wf(flat@),
        decreases ns@.len() - i,
    {
        proof {
            assert(vs.skip(i as int).drop_first() =~= vs.skip(i + 1));
            assert(vs.skip(i as int)[0] == vs[i as int]);
        }
        let own = flat.len();
        flatten_node(&ns[i], own, &mut flat);
        i = i + 1;
    }
    proof {
        assert(vs.skip(vs.len() as int) =~= Seq::<NodeV>::empty());
    }
    flat
}

/// Cap on accumulated raw scores.
pub const SCORE_CAP: i64 = 0x1000000000000000;

/// Saturating score addition, as a value.
pub open spec fn sat_add_v(a: int, b: int) -> int {
    if a + b > SCORE_CAP {
        SCORE_CAP as int
    } else if a + b < -SCORE_CAP {
        -(SCORE_CAP as int)
    } else {
        a + b
    }
}

/// Per-tag base score of a scoring-eligible container.
pub open spec fn init_score_v(tag: Seq<char>) -> int {
    if tag == "div"@ || tag == "article"@ || tag == "section"@ || tag == "main"@ {
        5
    } else if tag == "pre"@ || tag == "td"@ || tag == "blockquote"@ {
        3
    } else if tag == "address"@ || tag == "ol"@ || tag == "ul"@ || tag == "dl"@ || tag == "dd"@
        || tag == "dt"@ || tag == "li"@ || tag == "form"@ || tag == "fieldset"@ {
        -3
    } else if tag == "h1"@ || tag == "h2"@ || tag == "h3"@ || tag == "h4"@ || tag == "h5"@ || tag
        == "h6"@ || tag == "th"@ {
        -5
    } else {
        0
    }
}

/// Class and id keyword weight: a positive match wins over a negative one.
pub open spec fn class_weight_v(ci: Seq<char>) -> int {
    if contains_seq(ci, "article"@) || contains_seq(ci, "body"@) || contains_seq(ci, "content"@)
        || contains_seq(ci, "entry"@) || contains_seq(ci, "main"@) || contains_seq(ci, "page"@)
        || contains_seq(ci, "post"@) || contains_seq(ci, "text"@) || contains_seq(ci, "blog"@)
        || contains_seq(ci, "story"@) {
        25
    } else if contains_seq(ci, "banner"@) || contains_seq(ci, "combx"@) || contains_seq(
        ci,
        "comment"@,
    ) || contains_seq(ci, "foot"@) || contains_seq(ci, "masthead"@) || contains_seq(ci, "media"@)
        || contains_seq(ci, "meta"@) || contains_seq(ci, "promo"@) || contains_seq(ci, "related"@)
        || contains_seq(ci, "scroll"@) || contains_seq(ci, "share"@) || contains_seq(
        ci,
        "shoutbox"@,
    ) || contains_seq(ci, "sidebar"@) || contains_seq(ci, "sponsor"@) || contains_seq(
        ci,
        "shopping"@,
    ) || contains_seq(ci, "tags"@) || contains_seq(ci, "widget"@) {
        -25
    } else {
        0
    }
}

/// Tags scored directly as prose.
pub open spec fn prose_tag_v(t: Seq<char>) -> bool {
    t == "p"@ || t == "td"@ || t == "pre"@ || t == "blockquote"@
}

/// The base score of a prose element: one point, one per comma, one per
/// hundred characters of text up to three.
pub open spec fn base_of(fi: ScoreInfo) -> int {
    1 + fi.commas + (if fi.text_len as int / 100 > 3 {
        3int
    } else {
        fi.text_len as int / 100
    })
}

/// The share an ancestor at the given distance-minus-one receives: the
/// parent in full, the grandparent halved, further ancestors divided by
/// their distance.
pub open spec fn div_of(level: int) -> int {
    if level == 0 {
        1
    } else if level == 1 {
        2
    } else if level < 1000000 {
        level + 1
    } else {
        1000000
    }
}

/// One prose element's score propagated up the ancestor chain from `c`:
/// each ancestor is given its base score and class weight when first
/// reached, then the prose element's base score divided per distance.
pub open spec fn walk_v(
    t: Seq<ScoreInfo>,
    wc: bool,
    scores: Seq<i64>,
    inited: Seq<bool>,
    c: int,
    level: int,
    base: int,
) -> (Seq<i64>, Seq<bool>)
    decreases c,
{
    if c < 0 || c >= t.len() || t[c].parent >= c {
        (scores, inited)
    } else {
        let a = t[c].parent as int;
        let inited1 = if inited[a] {
            inited
        } else {
            inited.update(a, true)
        };
        let scores1 = if inited[a] {
            scores
        } else {
            scores.update(
                a,
                sat_add_v(init_score_v(t[a].tag@), if wc {
                    class_weight_v(t[a].class_id@)
                } else {
                    0
                }) as i64,
            )
        };
        let scores2 = scores1.update(a, sat_add_v(scores1[a] as int, base / div_of(level)) as i64);
        walk_v(
            t,
            wc,
            scores2,
            inited1,
            a,
            if level < usize::MAX {
                level + 1
            } else {
                level
            },
            base,
        )
    }
}

/// The whole scoring pass: every prose element with enough text propagates
/// its base score to its ancestors.
pub open spec fn score_loop_v(
    t: Seq<ScoreInfo>,
    wc: bool,
    scores: Seq<i64>,
    inited: Seq<bool>,
    i: int,
) -> (Seq<i64>, Seq<bool>)
    decreases t.len() - i,
{
    if i < 0 || i >= t.len() {
        (scores, inited)
    } else {
        let st = if prose_tag_v(t[i].tag@) && t[i].text_len >= 25 {
            walk_v(t, wc, scores, inited, i, 0, base_of(t[i]))
        } else {
            (scores, inited)
        };
        score_loop_v(t, wc, st.0, st.1, i + 1)
    }
}

/// All zeroes.
pub open spec fn zero_scores(n: nat) -> Seq<i64> {
    Seq::new(n, |i: int| 0i64)
}

/// All false.
pub open spec fn no_inits(n: nat) -> Seq<bool> {
    Seq::new(n, |i: int| false)
}

/// Saturating score addition, kept within `[-SCORE_CAP, SCORE_CAP]`.
fn sat_add(a: i64, b: i64) -> (r: i64)
    requires
        -SCORE_CAP <= a <= SCORE_CAP,
        -SCORE_CAP <= b <= SCORE_CAP,
    ensures
        -SCORE_CAP <= r <= SCORE_CAP,
        r as int == sat_add_v(a as int, b as int),
{
    let s = a + b;
    if s > SCORE_CAP {
        SCORE_CAP
    } else if s < -SCORE_CAP {
        -SCORE_CAP
    } else {
        s
    }
}

/// Per-tag base score of a scoring-eligible container.
fn init_score(tag: &Vec<char>) -> (r: i64)
    ensures
        -5 <= r <= 5,
        r as int == init_score_v(tag@),
{
    if crate::text::chars_eq_str(tag, "div") || crate::text::chars_eq_str(tag, "article")
        || crate::text::chars_eq_str(tag, "section") || crate::text::chars_eq_str(tag, "main") {
        5
    } else if crate::text::chars_eq_str(tag, "pre") || crate::text::chars_eq_str(tag, "td")
        || crate::text::chars_eq_str(tag, "blockquote") {
        3
    } else if crate::text::chars_eq_str(tag, "address") || crate::text::chars_eq_str(tag, "ol")
        || crate::text::chars_eq_str(tag, "ul") || crate::text::chars_eq_str(tag, "dl")
        || crate::text::chars_eq_str(tag, "dd") || crate::text::chars_eq_str(tag, "dt")
        || crate::text::chars_eq_str(tag, "li") || crate::text::chars_eq_str(tag, "form")
        || crate::text::chars_eq_str(tag, "fieldset") {
        -3
    } else if crate::text::chars_eq_str(tag, "h1") || crate::text::chars_eq_str(tag, "h2")
        || crate::text::chars_eq_str(tag, "h3") || crate::text::chars_eq_str(tag, "h4")
        || crate::text::chars_eq_str(tag, "h5") || crate::text::chars_eq_str(tag, "h6")
        || crate::text::chars_eq_str(tag, "th") {
        -5
    } else {
        0
    }
}

/// Class and id keyword weight: a positive match wins over a negative one.
fn class_weight(ci: &Vec<char>) -> (r: i64)
    ensures
        -25 <= r <= 25,
        r as int == class_weight_v(ci@),
{
    let positive = crate::text::contains_str(ci, "article") || crate::text::contains_str(
        ci,
        "body",
    ) || crate::text::contains_str(ci, "content") || crate::text::contains_str(ci, "entry")
        || crate::text::contains_str(ci, "main") || crate::text::contains_str(ci, "page")
        || crate::text::contains_str(ci, "post") || crate::text::contains_str(ci, "text")
        || crate::text::contains_str(ci, "blog") || crate::text::contains_str(ci, "story");
    if positive {
        return 25;
    }
    let negative = crate::text::contains_str(ci, "banner") || crate::text::contains_str(
        ci,
        "combx",
    ) || crate::text::contains_str(ci, "comment") || crate::text::contains_str(ci, "foot")
        || crate::text::contains_str(ci, "masthead") || crate::text::contains_str(ci, "media")
        || crate::text::contains_str(ci, "meta") || crate::text::contains_str(ci, "promo")
        || crate::text::contains_str(ci, "related") || crate::text::contains_str(ci, "scroll")
        || crate::text::contains_str(ci, "share") || crate::text::contains_str(ci, "shoutbox")
        || crate::text::contains_str(ci, "sidebar") || crate::text::contains_str(ci, "sponsor")
        || crate::text::contains_str(ci, "shopping") || crate::text::contains_str(ci, "tags")
        || crate::text::contains_str(ci, "widget");
    if negative {
        -25
    } else {
        0
    }
}

/// Whether the tag is scored directly as prose.
fn prose_tag(tag: &Vec<char>) -> (r: bool)
    ensures
        r == prose_tag_v(tag@),
{
    crate::text::chars_eq_str(tag, "p") || crate::text::chars_eq_str(tag, "td")
        || crate::text::chars_eq_str(tag, "pre") || crate::text::chars_eq_str(tag, "blockquote")
}

/// Computes the raw content scores: each prose element's base score is
/// propagated to its ancestors, the parent in full, the grandparent halved,
/// further ancestors divided by their distance. Returns the score of each
/// table entry and whether the entry ever received a score.
#[verifier::loop_isolation(false)]
pub fn compute_scores(flat: &Vec<ScoreInfo>, weight_classes: bool) -> (r: (Vec<i64>, Vec<bool>))
    requires
        table_wf(flat@),
    ensures
        r.0@.len() == flat@.len(),
        r.1@.len() == flat@.len(),
        forall|i: int| 0 <= i < r.0@.len() ==> -SCORE_CAP <= #[trigger] r.0@[i] <= SCORE_CAP,
        (r.0@, r.1@) == score_loop_v(
            flat@,
            weight_classes,
            zero_scores(flat@.len()),
            no_inits(flat@.len()),
            0,
        ),
{
    let n = flat.len();
    let mut scores: Vec<i64> = Vec::new();
    let mut inited: Vec<bool> = Vec::new();
    let mut k: usize = 0;
    while k < n
        invariant
            scores@.len() == k,
            inited@.len() == k,
            k <= n,
            forall|i: int| 0 <= i < k ==> #[trigger] scores@[i] == 0i64,
            forall|i: int| 0 <= i < k ==> #[trigger] inited@[i] == false,
        decreases n - k,
    {
        scores.push(0);
        inited.push(false);
        k = k + 1;
    }
    proof {
        assert(scores@ =~= zero_scores(n as nat));
        assert(inited@ =~= no_inits(n as nat));
    }
    let ghost t = flat@;
    let ghost s0 = scores@;
    let ghost b0 = inited@;
    let mut i: usize = 0;
    while i < n
        invariant
            n == flat@.len(),
            table_wf(flat@),
            scores@.len() == n,
            inited@.len() == n,
            forall|q: int| 0 <= q < n ==> -SCORE_CAP <= #[trigger] scores@[q] <= SCORE_CAP,
            score_loop_v(t, weight_classes, s0, b0, 0) == score_loop_v(
                t,
                weight_classes,
                scores@,
                inited@,
                i as int,
            ),
        decreases n - i,
    {
        let fi = &flat[i];
        if prose_tag(&fi.tag) && fi.text_len >= 25 {
            let len_points: usize = if fi.text_len / 100 > 3 {
                3
            } else {
                fi.text_len / 100
            };
            let base: i64 = 1 + (fi.commas as i64) + (len_points as i64);
            proof {
                assert(base as int == base_of(t[i as int]));
            }
            let ghost si = scores@;
            let ghost bi = inited@;
            let mut level: usize = 0;
            let mut c: usize = i;
            while flat[c].parent != c
                invariant
                    n == flat@.len(),
                    table_wf(flat@),
                    scores@.len() == n,
                    inited@.len() == n,
                    c < n,
                    0 <= base <= SCORE_CAP,
                    forall|q: int| 0 <= q < n ==> -SCORE_CAP <= #[trigger] scores@[q] <= SCORE_CAP,
                    walk_v(t, weight_classes, si, bi, i as int, 0, base as int) == walk_v(
                        t,
                        weight_classes,
                        scores@,
                        inited@,
                        c as int,
                        level as int,
                        base as int,
                    ),
                decreases c,
            {
                let a = flat[c].parent;
                proof {
                    assert(t[c as int].parent < c);
                }
                let ghost sc = scores@;
                let ghost bc = inited@;
                if !inited[a] {
                    inited.set(a, true);
                    let w = if weight_classes {
                        class_weight(&flat[a].class_id)
                    } else {
                        0
                    };
                    scores.set(a, sat_add(init_score(&flat[a].tag), w));
                }
                proof {
                    if bc[a as int] {
                        assert(scores@ =~= sc);
                        assert(inited@ =~= bc);
                    }
                }
                let ghost s1 = scores@;
                let divisor: i64 = if level == 0 {
                    1
                } else if level == 1 {
                    2
                } else if level < 1000000 {
                    (level + 1) as i64
                } else {
                    1000000
                };
                proof {
                    assert(divisor as int == div_of(level as int));
                }
                let share = base / divisor;
                scores.set(a, sat_add(scores[a], share));
                proof {
                    assert(scores@ =~= s1.update(
                        a as int,
                        sat_add_v(s1[a as int] as int, base as int / div_of(level as int)) as i64,
                    ));
                }
                c = a;
                if level < usize::MAX {
                    level = level + 1;
                }
            }
            proof {
                assert(walk_v(t, weight_classes, scores@, inited@, c as int, level as int,
                    base as int) == (scores@, inited@));
            }
        }
        i = i + 1;
    }
    proof {
        assert(score_loop_v(t, weight_classes, scores@, inited@, n as int) == (scores@, inited@));
    }
    (scores, inited)
}

/// The adjusted score: the raw score scaled by one minus the link density,
/// where the density in thousandths is the anchor-text share plus the
/// configured modifier, clamped to `[0, 1000]`. Non-positive scores pass
/// through unadjusted.
pub open spec fn adj_v(score: int, text: int, link: int, modifier: int) -> int {
    if score <= 0 {
        score
    } else {
        let ratio = if text > 0 {
            let q = link * 1000 / text;
            if q > 1000 {
                1000int
            } else {
                q
            }
        } else {
            0int
        };
        let d0 = ratio + modifier;
        let d = if d0 < 0 {
            0int
        } else if d0 > 1000 {
            1000int
        } else {
            d0
        };
        score * (1000 - d) / 1000
    }
}

/// Computes the adjusted score of one table entry.
pub fn adj_score(score: i64, text: usize, link: usize, modifier: i64) -> (r: i128)
    requires
        -SCORE_CAP <= score <= SCORE_CAP,
        text <= STAT_CAP,
        link <= STAT_CAP,
    ensures
        r == adj_v(score as int, text as int, link as int, modifier as int),
{
    if score <= 0 {
        return score as i128;
    }
    let ratio: i128 = if text > 0 {
        let q = (link as u128) * 1000 / (text as u128);
        if q > 1000 {
            1000
        } else {
            q as i128
        }
    } else {
        0
    };
    let d0: i128 = ratio + (modifier as i128);
    let d: i128 = if d0 < 0 {
        0
    } else if d0 > 1000 {
        1000
    } else {
        d0
    };
    proof {
        let sp = score as int;
        let mp = 1000 - d as int;
        assert(sp * mp >= 0 && sp * mp <= 0x400000000000000000000) by (nonlinear_arith)
            requires
                0 < sp <= SCORE_CAP as int,
                0 <= mp <= 1000,
        ;
    }
    (score as i128) * (1000 - d) / 1000
}

/// Picks the scoring-eligible entry with the maximal adjusted score, the
/// earliest such entry on ties; `None` when nothing was scored.
pub fn select_candidate(
    flat: &Vec<ScoreInfo>,
    scores: &Vec<i64>,
    inited: &Vec<bool>,
    modifier: i64,
) -> (r: Option<usize>)
    requires
        scores@.len() == flat@.len(),
        inited@.len() == flat@.len(),
        table_wf(flat@),
        forall|q: int| 0 <= q < scores@.len() ==> -SCORE_CAP <= #[trigger] scores@[q] <= SCORE_CAP,
    ensures
        match r {
            Some(b) => {
                &&& b < flat@.len()
                &&& inited@[b as int]
                &&& forall|q: int|
                    0 <= q < flat@.len() && inited@[q] ==> adj_v(
                        scores@[q] as int,
                        flat@[q].text_len as int,
                        flat@[q].link_len as int,
                        modifier as int,
                    ) <= adj_v(
                        scores@[b as int] as int,
                        flat@[b as int].text_len as int,
                        flat@[b as int].link_len as int,
                        modifier as int,
                    )
                &&& forall|q: int|
                    0 <= q < b && inited@[q] ==> adj_v(
                        scores@[q] as int,
                        flat@[q].text_len as int,
                        flat@[q].link_len as int,
                        modifier as int,
                    ) < adj_v(
                        scores@[b as int] as int,
                        flat@[b as int].text_len as int,
                        flat@[b as int].link_len as int,
                        modifier as int,
                    )
            },
            None => forall|q: int| 0 <= q < flat@.len() ==> !inited@[q],
        },
{
    let mut best: usize = 0;
    let mut best_adj: i128 = 0;
    let mut have: bool = false;
    let mut q: usize = 0;
    while q < flat.len()
        invariant
            scores@.len() == flat@.len(),
            inited@.len() == flat@.len(),
            q <= flat@.len(),
            table_wf(flat@),
            forall|j: int|
                0 <= j < scores@.len() ==> -SCORE_CAP <= #[trigger] scores@[j] <= SCORE_CAP,
            !have ==> forall|j: int| 0 <= j < q ==> !inited@[j],
            have ==> best < q && inited@[best as int],
            have ==> best_adj == adj_v(
                scores@[best as int] as int,
                flat@[best as int].text_len as int,
                flat@[best as int].link_len as int,
                modifier as int,
            ),
            have ==> forall|j: int|
                0 <= j < q && inited@[j] ==> adj_v(
                    scores@[j] as int,
                    flat@[j].text_len as int,
                    flat@[j].link_len as int,
                    modifier as int,
                ) <= best_adj,
            have ==> forall|j: int|
                0 <= j < best && inited@[j] ==> adj_v(
                    scores@[j] as int,
                    flat@[j].text_len as int,
                    flat@[j].link_len as int,
                    modifier as int,
                ) < best_adj,
        decreases flat@.len() - q,
    {
        if inited[q] {
            let a = adj_score(scores[q], flat[q].text_len, flat[q].link_len, modifier);
            if !have || a > best_adj {
                best = q;
                best_adj = a;
                have = true;
            }
        }
        q = q + 1;
    }
    if have {
        Some(best)
    } else {
        None
    }
}

/// Collects fresh copies of the elements whose document-order index is
/// marked, walking the forest in the same element order as
/// `flatten_forest`; marked elements are taken whole, so a marked element
/// inside another marked element is not taken twice.
pub(crate) fn collect_marked(
    ns: &Vec<Node>,
    marked: &Vec<bool>,
    counter: &mut usize,
    out: &mut Vec<Node>,
)
    decreases *ns,
{
    let mut i: usize = 0;
    while i < ns.len()
        invariant
            i <= ns@.len(),
        decreases ns@.len() - i,
    {
        proof {
            assert(decreases_to!(*ns => ns[i as int]));
        }
        match &ns[i] {
            Node::Element(e) => {
                let idx = *counter;
                if idx < usize::MAX {
                    *counter = idx + 1;
                }
                if idx < marked.len() && marked[idx] {
                    let c = crate::dom::deep_copy_node(&ns[i]);
                    out.push(c);
                    // still advance the counter over the subtree's elements
                    proof {
                        assert(decreases_to!(ns[i as int] => *e));
                        assert(decreases_to!(*e => e.children));
                    }
                    skip_count(&e.children, counter);
                } else {
                    proof {
                        assert(decreases_to!(ns[i as int] => *e));
                        assert(decreases_to!(*e => e.children));
                    }
                    collect_marked(&e.children, marked, counter, out);
                }
            },
            _ => {
            },
        }
        i = i + 1;
    }
}

/// Advances the element counter over a forest without collecting.
fn skip_count(ns: &Vec<Node>, counter: &mut usize)
    decreases *ns,
{
    let mut i: usize = 0;
    while i < ns.len()
        invariant
            i <= ns@.len(),
        decreases ns@.len() - i,
    {
        proof {
            assert(decreases_to!(*ns => ns[i as int]));
        }
        match &ns[i] {
            Node::Element(e) => {
                if *counter < usize::MAX {
                    *counter = *counter + 1;
                }
                proof {
                    assert(decreases_to!(ns[i as int] => *e));
                    assert(decreases_to!(*e => e.children));
                }
                skip_count(&e.children, counter);
            },
            _ => {
            },
        }
        i = i + 1;
    }
}

} // verus!
