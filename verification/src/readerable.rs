//! The quick readerable check: a cheap pre-flight heuristic, independent of
//! the full pipeline, that estimates whether a full parse is likely to find
//! an article.
//!
//! Paragraph-like elements whose trimmed text exceeds a minimum length
//! accumulate the square root of the excess; the document passes when the
//! total beats a minimum score. The computation is integer-valued: each
//! element contributes `sqrt_floor(100 * excess)`, a tenth-granularity
//! square root, compared against `10 * min_score`. The check is a pure
//! function of the document and the thresholds (`is_readerable_v`), so two
//! runs on the same input agree.

use vstd::prelude::*;
use crate::dom::{Node, NodeV, nodes_view, lemma_nodes_view, text_of_list_v, text_of_nodes};
use crate::text::{trim_spec, trim_chars};

verus! {

/// Options for the quick readerable check.
#[derive(Debug)]
pub struct ReaderableOptions {
    /// Minimum trimmed text length for an element to count (default: 140)
    pub min_content_length: usize,
    /// Minimum accumulated score, in whole points (default: 20)
    pub min_score: u64,
}

impl Default for ReaderableOptions {
    fn default() -> (r: ReaderableOptions)
        ensures
            r.min_content_length == 140usize,
            r.min_score == 20u64,
    {
        ReaderableOptions { min_content_length: 140, min_score: 20 }
    }
}

/// The integer square root: the largest `r` with `r * r <= x`.
pub open spec fn sqrt_floor(x: nat) -> nat
    decreases x,
{
    if x == 0 {
        0
    } else {
        let r = sqrt_floor((x - 1) as nat);
        if (r + 1) * (r + 1) <= x {
            r + 1
        } else {
            r
        }
    }
}

/// `sqrt_floor(x)` squared is at most `x`, and the next square is beyond.
pub proof fn lemma_sqrt_floor_bounds(x: nat)
    ensures
        sqrt_floor(x) * sqrt_floor(x) <= x,
        x < (sqrt_floor(x) + 1) * (sqrt_floor(x) + 1),
    decreases x,
{
    if x > 0 {
        lemma_sqrt_floor_bounds((x - 1) as nat);
        let s = sqrt_floor((x - 1) as nat);
        assert(s * s <= x - 1);
        assert(x - 1 < (s + 1) * (s + 1));
        if (s + 1) * (s + 1) <= x {
            assert(sqrt_floor(x) == s + 1);
            assert(sqrt_floor(x) * sqrt_floor(x) <= x);
            assert((s + 1) * (s + 1) < (s + 2) * (s + 2)) by (nonlinear_arith);
            assert(x < (sqrt_floor(x) + 1) * (sqrt_floor(x) + 1));
        } else {
            assert(sqrt_floor(x) == s);
            assert(sqrt_floor(x) * sqrt_floor(x) <= x);
            assert(x < (sqrt_floor(x) + 1) * (sqrt_floor(x) + 1));
        }
    } else {
        assert(sqrt_floor(x) == 0);
        assert(sqrt_floor(x) * sqrt_floor(x) <= x);
        let s0 = sqrt_floor(x);
        assert(x < (s0 + 1) * (s0 + 1)) by (nonlinear_arith)
            requires
                x == 0,
                s0 == 0,
        ;
    }
}

/// Any `r` within the square-root bounds is the integer square root.
pub proof fn lemma_sqrt_floor_unique(x: nat, r: nat)
    requires
        r * r <= x,
        x < (r + 1) * (r + 1),
    ensures
        r == sqrt_floor(x),
{
    lemma_sqrt_floor_bounds(x);
    let s = sqrt_floor(x);
    assert(r == s) by (nonlinear_arith)
        requires
            r * r <= x,
            x < (r + 1) * (r + 1),
            s * s <= x,
            x < (s + 1) * (s + 1),
    ;
}

/// Tags scanned by the quick check.
pub open spec fn readerable_tag(t: Seq<char>) -> bool {
    t == "p"@ || t == "pre"@ || t == "article"@
}

/// One element's score contribution: the tenth-granularity square root of
/// its trimmed text length's excess over the minimum.
pub open spec fn contribution_v(tl: nat, minlen: nat) -> nat {
    if tl >= minlen {
        sqrt_floor(100 * (tl - minlen) as nat)
    } else {
        0
    }
}

/// Accumulated score of a subtree.
pub open spec fn rscore_node_v(n: NodeV, minlen: nat) -> nat
    decreases n,
{
    match n {
        NodeV::Element { tag, attrs, children } => {
            let own = if readerable_tag(tag) {
                contribution_v(trim_spec(text_of_list_v(children)).len(), minlen)
            } else {
                0
            };
            own + rscore_list_v(children, minlen)
        },
        NodeV::Text(t) => 0,
        NodeV::Comment(c) => 0,
    }
}

/// Accumulated score of a forest.
pub open spec fn rscore_list_v(s: Seq<NodeV>, minlen: nat) -> nat
    decreases s,
{
    if s.len() == 0 {
        0
    } else {
        rscore_node_v(s[0], minlen) + rscore_list_v(s.drop_first(), minlen)
    }
}

/// The quick check: the accumulated score beats the minimum.
pub open spec fn is_readerable_v(s: Seq<NodeV>, minlen: nat, minscore: nat) -> bool {
    rscore_list_v(s, minlen) > 10 * minscore
}

/// The quick check is a pure function of the document and the thresholds:
/// two runs on identical input and options yield identical results.
pub proof fn lemma_quick_check_deterministic(
    s: Seq<NodeV>,
    minlen: nat,
    minscore: nat,
    r1: bool,
    r2: bool,
)
    requires
        r1 == is_readerable_v(s, minlen, minscore),
        r2 == is_readerable_v(s, minlen, minscore),
    ensures
        r1 == r2,
{
}

/// A sum capped just above the threshold `t`.
pub open spec fn capped(x: nat, t: nat) -> nat {
    if x > t {
        t + 1
    } else {
        x
    }
}

/// Capping commutes with addition on the left summand.
proof fn lemma_capped_add(a: nat, b: nat, t: nat)
    ensures
        capped(capped(a, t) + b, t) == capped(a + b, t),
{
}

/// The integer square root, for arguments below `2^71`.
fn isqrt(x: u128) -> (r: u128)
    requires
        x < 0x800000000000000000u128,
    ensures
        r as nat == sqrt_floor(x as nat),
{
    let mut lo: u128 = 0;
    let mut hi: u128 = 0x1000000000u128;
    assert(hi * hi > x);
    while hi - lo > 1
        invariant
            lo < hi <= 0x1000000000u128,
            (lo * lo) as nat <= x as nat,
            (x as nat) < (hi * hi) as nat,
        decreases hi - lo,
    {
        let mid = lo + (hi - lo) / 2;
        proof {
            assert(mid < 0x1000000000u128);
            assert(mid * mid < 0x1000000000000000000u128) by (nonlinear_arith)
                requires
                    mid < 0x1000000000u128,
            ;
        }
        if mid * mid <= x {
            lo = mid;
        } else {
            hi = mid;
        }
    }
    proof {
        assert(hi == lo + 1);
        lemma_sqrt_floor_unique(x as nat, lo as nat);
    }
    lo
}

/// Walks a subtree accumulating score on top of `acc`, capped just above
/// the threshold `thr`.
#[verifier::rlimit(100)]
#[verifier::loop_isolation(false)]
fn rscore_walk(n: &Node, minlen: usize, acc: u128, thr: u128) -> (r: u128)
    requires
        acc <= thr + 1,
        thr < 0x100000000000000000u128,
    ensures
        r as nat == capped(acc as nat + rscore_node_v(n@, minlen as nat), thr as nat),
        r <= thr + 1,
    decreases *n,
{
    match n {
        Node::Text(_) => acc,
        Node::Comment(_) => acc,
        Node::Element(e) => {
            let ghost vs = nodes_view(e.children@);
            let ghost ownv: nat = if readerable_tag(e.tag@) {
                contribution_v(trim_spec(text_of_list_v(vs)).len(), minlen as nat)
            } else {
                0
            };
            proof {
                assert(rscore_node_v(n@, minlen as nat) == ownv + rscore_list_v(
                    vs,
                    minlen as nat,
                ));
            }
            let mut cur: u128 = acc;
            if crate::text::chars_eq_str(&e.tag, "p") || crate::text::chars_eq_str(&e.tag, "pre")
                || crate::text::chars_eq_str(&e.tag, "article") {
                let txt = text_of_nodes(&e.children);
                let trimmed = trim_chars(txt);
                let tl = trimmed.len();
                if tl >= minlen {
                    let excess: u128 = (tl - minlen) as u128;
                    let c = isqrt(100 * excess);
                    proof {
                        lemma_sqrt_floor_bounds((100 * excess) as nat);
                        assert(c * c <= 100 * excess);
                        assert(c <= 0x1000000000u128) by (nonlinear_arith)
                            requires
                                c * c <= 100 * excess,
                                excess < 0x10000000000000000u128,
                        ;
                        assert(c as nat == ownv);
                    }
                    cur = cur + c;
                    if cur > thr {
                        cur = thr + 1;
                    }
                } else {
                    assert(ownv == 0);
                }
            }
            proof {
                assert(cur as nat == capped(acc as nat + ownv, thr as nat));
                lemma_capped_add(acc as nat + ownv, rscore_list_v(vs, minlen as nat), thr as nat);
                lemma_nodes_view(e.children@);
                assert(vs.skip(0) =~= vs);
            }
            let mut i: usize = 0;
            while i < e.children.len()
                invariant
                    i <= e.children@.len(),
                    cur <= thr + 1,
                    capped(cur as nat + rscore_list_v(vs.skip(i as int), minlen as nat), thr as nat)
                        == capped(acc as nat + rscore_node_v(n@, minlen as nat), thr as nat),
                decreases e.children@.len() - i,
            {
                proof {
                    assert(vs.skip(i as int).drop_first() =~= vs.skip(i + 1));
                    assert(vs.skip(i as int)[0] == vs[i as int]);
                    assert(decreases_to!(*n => *e));
                    assert(decreases_to!(*e => e.children));
                    assert(decreases_to!(e.children => e.children[i as int]));
                    assert(decreases_to!(*n => e.children[i as int]));
                }
                let ghost before = cur as nat;
                cur = rscore_walk(&e.children[i], minlen, cur, thr);
                proof {
                    lemma_capped_add(
                        before + rscore_node_v(vs[i as int], minlen as nat),
                        rscore_list_v(vs.skip(i + 1), minlen as nat),
                        thr as nat,
                    );
                }
                i = i + 1;
            }
            proof {
                assert(vs.skip(vs.len() as int) =~= Seq::<NodeV>::empty());
            }
            cur
        },
    }
}

/// Scores a whole forest, capped just above the threshold.
#[verifier::loop_isolation(false)]
fn rscore_forest(ns: &Vec<Node>, minlen: usize, thr: u128) -> (r: u128)
    requires
        thr < 0x100000000000000000u128,
    ensures
        r as nat == capped(rscore_list_v(nodes_view(ns@), minlen as nat), thr as nat),
{
    let ghost vs = nodes_view(ns@);
    proof {
        lemma_nodes_view(ns@);
        assert(vs.skip(0) =~= vs);
    }
    let mut cur: u128 = 0;
    let mut i: usize = 0;
    while i < ns.len()
        invariant
            i <= ns@.len(),
            cur <= thr + 1,
            capped(cur as nat + rscore_list_v(vs.skip(i as int), minlen as nat), thr as nat)
                == capped(rscore_list_v(vs, minlen as nat), thr as nat),
        decreases ns@.len() - i,
    {
        proof {
            assert(vs.skip(i as int).drop_first() =~= vs.skip(i + 1));
            assert(vs.skip(i as int)[0] == vs[i as int]);
        }
        let ghost before = cur as nat;
        cur = rscore_walk(&ns[i], minlen, cur, thr);
        proof {
            lemma_capped_add(
                before + rscore_node_v(vs[i as int], minlen as nat),
                rscore_list_v(vs.skip(i + 1), minlen as nat),
                thr as nat,
            );
        }
        i = i + 1;
    }
    proof {
        assert(vs.skip(vs.len() as int) =~= Seq::<NodeV>::empty());
    }
    cur
}

/// The quick check over a parsed document.
pub fn check_readerable(ns: &Vec<Node>, opts: &ReaderableOptions) -> (r: bool)
    ensures
        r == is_readerable_v(
            nodes_view(ns@),
            opts.min_content_length as nat,
            opts.min_score as nat,
        ),
{
    let thr: u128 = 10 * (opts.min_score as u128);
    let score = rscore_forest(ns, opts.min_content_length, thr);
    score > thr
}

/// Quick check whether a document is likely to be readerable: parses the
/// markup and runs `check_readerable` with the given or default thresholds.
/// Markup that cannot be tokenized is not readerable. A pure function of
/// the markup and the thresholds, so two calls on the same input agree.
pub fn is_probably_readerable(html: &str, options: Option<ReaderableOptions>) -> (r: bool)
    ensures
        match crate::parse::parse_v(html@) {
            None => r == false,
            Some(f) => match options {
                Some(o) => r == is_readerable_v(
                    f,
                    o.min_content_length as nat,
                    o.min_score as nat,
                ),
                None => r == is_readerable_v(f, 140, 20),
            },
        },
{
    let opts = match options {
        Some(o) => o,
        None => ReaderableOptions::default(),
    };
    let chars = crate::text::str_to_chars(html);
    match crate::parse::parse_nodes(&chars) {
        None => false,
        Some(f) => check_readerable(&f, &opts),
    }
}

} // verus!
