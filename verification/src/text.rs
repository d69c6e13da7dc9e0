//! Character-sequence utilities: case folding, whitespace handling,
//! substring search, and conversions between `String` and `Vec<char>`.
//!
//! All internal text in the library is held as `Vec<char>`, viewed as
//! `Seq<char>`; these are the primitive operations the other modules'
//! contracts are stated over.

use vstd::prelude::*;

verus! {

/// The whitespace characters that separate words in markup text.
pub open spec fn is_space_char(c: char) -> bool {
    c == ' ' || c == '\t' || c == '\n' || c == '\r' || c == '\u{b}' || c == '\u{c}'
}

/// ASCII case folding of one character.
pub open spec fn lower_char(c: char) -> char {
    if 'A' <= c && c <= 'Z' {
        (((c as u32) + 32) as u8) as char
    } else {
        c
    }
}

/// ASCII case folding of a sequence.
pub open spec fn lower_seq(s: Seq<char>) -> Seq<char> {
    s.map_values(|c: char| lower_char(c))
}

/// `needle` occurs in `hay` starting at position `i`.
pub open spec fn match_at(hay: Seq<char>, needle: Seq<char>, i: int) -> bool {
    &&& 0 <= i
    &&& i + needle.len() <= hay.len()
    &&& forall|j: int| 0 <= j < needle.len() ==> hay[i + j] == needle[j]
}

/// `needle` occurs somewhere in `hay`.
pub open spec fn contains_seq(hay: Seq<char>, needle: Seq<char>) -> bool {
    exists|i: int| match_at(hay, needle, i)
}

/// Some character of `s` is not whitespace.
pub open spec fn has_non_space(s: Seq<char>) -> bool {
    exists|i: int| 0 <= i < s.len() && !is_space_char(s[i])
}

/// `s` without its leading whitespace.
pub open spec fn trim_start_spec(s: Seq<char>) -> Seq<char>
    decreases s.len(),
{
    if s.len() > 0 && is_space_char(s[0]) {
        trim_start_spec(s.drop_first())
    } else {
        s
    }
}

/// `s` without its trailing whitespace.
pub open spec fn trim_end_spec(s: Seq<char>) -> Seq<char>
    decreases s.len(),
{
    if s.len() > 0 && is_space_char(s[s.len() - 1]) {
        trim_end_spec(s.drop_last())
    } else {
        s
    }
}

/// `s` without leading and trailing whitespace.
pub open spec fn trim_spec(s: Seq<char>) -> Seq<char> {
    trim_end_spec(trim_start_spec(s))
}

/// Whitespace runs collapsed to a single space, characters case-folded.
pub open spec fn collapse_ws(s: Seq<char>) -> Seq<char>
    decreases s.len(),
{
    if s.len() == 0 {
        s
    } else {
        let rest = collapse_ws(s.drop_first());
        if is_space_char(s[0]) {
            if rest.len() > 0 && rest[0] == ' ' {
                rest
            } else {
                seq![' '] + rest
            }
        } else {
            seq![lower_char(s[0])] + rest
        }
    }
}

/// The normal form used when two pieces of text are compared loosely:
/// whitespace collapsed, case folded, ends trimmed.
pub open spec fn normalized(s: Seq<char>) -> Seq<char> {
    trim_spec(collapse_ws(s))
}

/// Whether `c` is whitespace.
pub fn is_space(c: char) -> (r: bool)
    ensures
        r == is_space_char(c),
{
    c == ' ' || c == '\t' || c == '\n' || c == '\r' || c == '\u{b}' || c == '\u{c}'
}

/// ASCII case folding of one character.
pub fn to_lower(c: char) -> (r: char)
    ensures
        r == lower_char(c),
{
    if c >= 'A' && c <= 'Z' {
        (((c as u32) + 32) as u8) as char
    } else {
        c
    }
}

/// The characters of a string slice, in order.
pub fn str_to_chars(s: &str) -> (r: Vec<char>)
    ensures
        r@ == s@,
{
    let n = s.unicode_len();
    let mut v: Vec<char> = Vec::new();
    let mut i: usize = 0;
    while i < n
        invariant
            i <= n,
            n == s@.len(),
            v@ =~= s@.take(i as int),
        decreases n - i,
    {
        v.push(s.get_char(i));
        assert(v@ =~= s@.take(i + 1 as int));
        i = i + 1;
    }
    assert(v@ =~= s@);
    v
}

/// Relies on std's `String::push`: appends the given character to the string.
#[verifier::external_body]
fn push_char(s: &mut String, c: char)
    ensures
        final(s)@ == old(s)@.push(c),
{
    s.push(c)
}

/// A `String` with exactly the given characters.
pub fn chars_to_string(v: &Vec<char>) -> (r: String)
    ensures
        r@ == v@,
{
    let mut s = String::new();
    let mut i: usize = 0;
    while i < v.len()
        invariant
            i <= v@.len(),
            s@ =~= v@.take(i as int),
        decreases v@.len() - i,
    {
        push_char(&mut s, v[i]);
        assert(s@ =~= v@.take(i + 1 as int));
        i = i + 1;
    }
    assert(s@ =~= v@);
    s
}

/// Whether the characters of `v` are exactly those of `s`.
pub fn chars_eq_str(v: &Vec<char>, s: &str) -> (r: bool)
    ensures
        r == (v@ == s@),
{
    let n = s.unicode_len();
    if v.len() != n {
        return false;
    }
    let mut i: usize = 0;
    while i < n
        invariant
            i <= n,
            n == s@.len(),
            v@.len() == n,
            forall|k: int| 0 <= k < i ==> v@[k] == s@[k],
        decreases n - i,
    {
        if v[i] != s.get_char(i) {
            return false;
        }
        i = i + 1;
    }
    assert(v@ =~= s@);
    true
}

/// Whether two character vectors hold the same characters.
pub fn chars_eq(a: &Vec<char>, b: &Vec<char>) -> (r: bool)
    ensures
        r == (a@ == b@),
{
    if a.len() != b.len() {
        return false;
    }
    let mut i: usize = 0;
    while i < a.len()
        invariant
            i <= a@.len(),
            a@.len() == b@.len(),
            forall|k: int| 0 <= k < i ==> a@[k] == b@[k],
        decreases a@.len() - i,
    {
        if a[i] != b[i] {
            return false;
        }
        i = i + 1;
    }
    assert(a@ =~= b@);
    true
}

/// Whether `needle` occurs in `hay`.
pub fn contains_chars(hay: &Vec<char>, needle: &Vec<char>) -> (r: bool)
    ensures
        r == contains_seq(hay@, needle@),
{
    let nl = needle.len();
    let hl = hay.len();
    if nl > hl {
        assert(forall|i: int| !match_at(hay@, needle@, i));
        return false;
    }
    let mut i: usize = 0;
    while i <= hl - nl
        invariant
            nl <= hl,
            nl == needle@.len(),
            hl == hay@.len(),
            forall|k: int| 0 <= k < i ==> !match_at(hay@, needle@, k),
        decreases hl + 1 - nl - i,
    {
        let mut j: usize = 0;
        let mut ok: bool = true;
        while j < nl
            invariant
                i + nl <= hl,
                nl == needle@.len(),
                hl == hay@.len(),
                j <= nl,
                ok ==> forall|k: int| 0 <= k < j ==> hay@[i + k] == needle@[k],
                !ok ==> !match_at(hay@, needle@, i as int),
            decreases nl - j,
        {
            if hay[i + j] != needle[j] {
                ok = false;
                j = nl;
            } else {
                j = j + 1;
            }
        }
        if ok {
            assert(match_at(hay@, needle@, i as int));
            return true;
        }
        i = i + 1;
    }
    assert(forall|k: int| !match_at(hay@, needle@, k));
    false
}

/// Whitespace runs collapsed to one space, characters case-folded.
pub fn collapse_chars(v: &Vec<char>) -> (r: Vec<char>)
    ensures
        r@ == collapse_ws(v@),
{
    let mut out: Vec<char> = Vec::new();
    let mut i: usize = v.len();
    proof {
        assert(v@.skip(v@.len() as int) =~= Seq::<char>::empty());
    }
    while i > 0
        invariant
            i <= v@.len(),
            out@ == collapse_ws(v@.skip(i as int)),
        decreases i,
    {
        i = i - 1;
        let ghost pre = out@;
        proof {
            assert(v@.skip(i as int).drop_first() =~= v@.skip(i + 1));
            assert(v@.skip(i as int)[0] == v@[i as int]);
        }
        let c = v[i];
        if is_space(c) {
            if out.len() > 0 && out[0] == ' ' {
            } else {
                out.insert(0, ' ');
                assert(out@ =~= seq![' '] + pre);
            }
        } else {
            out.insert(0, to_lower(c));
            assert(out@ =~= seq![lower_char(v@[i as int])] + pre);
        }
    }
    proof {
        assert(v@.skip(0) =~= v@);
    }
    out
}

/// `v` without leading and trailing whitespace.
pub fn trim_chars(v: Vec<char>) -> (r: Vec<char>)
    ensures
        r@ == trim_spec(v@),
{
    let mut out = v;
    let ghost orig = out@;
    while out.len() > 0 && is_space(out[0])
        invariant
            trim_start_spec(out@) == trim_start_spec(orig),
        decreases out@.len(),
    {
        let ghost pre = out@;
        out.remove(0);
        proof {
            assert(out@ =~= pre.drop_first());
        }
    }
    assert(out@ == trim_start_spec(orig));
    let ghost mid = out@;
    while out.len() > 0 && is_space(out[out.len() - 1])
        invariant
            trim_end_spec(out@) == trim_end_spec(mid),
        decreases out@.len(),
    {
        let ghost pre = out@;
        out.pop();
        proof {
            assert(out@ =~= pre.drop_last());
        }
    }
    assert(out@ == trim_end_spec(mid));
    out
}

/// The normal form of `v`: whitespace collapsed, case folded, trimmed.
pub fn normalize_chars(v: &Vec<char>) -> (r: Vec<char>)
    ensures
        r@ == normalized(v@),
{
    let c = collapse_chars(v);
    trim_chars(c)
}

/// Whether the literal `needle` occurs in `hay`.
pub fn contains_str(hay: &Vec<char>, needle: &str) -> (r: bool)
    ensures
        r == contains_seq(hay@, needle@),
{
    let nv = str_to_chars(needle);
    contains_chars(hay, &nv)
}

} // verus!
