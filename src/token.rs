//! The token sequence of an attribute, with groups written as explicit
//! open and close markers, and the splitting of a region of it at its
//! top-level commas.

use vstd::prelude::*;

verus! {

/// How a group is delimited: `( )`, `[ ]`, `{ }`, or invisibly (a group
/// that a macro expansion left behind).
#[derive(Clone, Copy, PartialEq, Eq, Structural, Debug)]
pub enum Delim {
    Paren,
    Bracket,
    Brace,
    Invisible,
}

#[derive(Clone, Copy, PartialEq, Eq, Structural, Debug)]
pub enum LitKind {
    Str,
    Int,
    Other,
}

/// One token. A literal carries its kind, its value (a string literal's
/// contents, an integer literal's decimal digits) and its source text.
#[derive(Debug)]
pub enum Tok {
    Ident(String),
    /// A punctuation character, and whether it is joined to the next one
    /// (as in `::` or `=>`).
    Punct(char, bool),
    /// Kind, value, source text.
    Lit(LitKind, String, String),
    Open(Delim),
    Close(Delim),
}

/// The tokens `start..end` of a sequence.
#[derive(Clone, Copy, PartialEq, Eq, Structural, Debug)]
pub struct Span {
    pub start: usize,
    pub end: usize,
}

impl Span {
    pub open spec fn view(self) -> (int, int) {
        (self.start as int, self.end as int)
    }
}

pub open spec fn spans_view(v: Seq<Span>) -> Seq<(int, int)> {
    v.map_values(|p: Span| p@)
}

pub open spec fn is_punct(t: Tok, c: char) -> bool {
    match t {
        Tok::Punct(p, _) => p == c,
        _ => false,
    }
}

pub open spec fn is_ident(t: Tok) -> bool {
    t is Ident
}

pub open spec fn ident_text(t: Tok) -> Seq<char> {
    match t {
        Tok::Ident(s) => s@,
        _ => Seq::empty(),
    }
}

pub open spec fn is_open(t: Tok, d: Delim) -> bool {
    match t {
        Tok::Open(x) => x == d,
        _ => false,
    }
}

pub open spec fn is_close(t: Tok, d: Delim) -> bool {
    match t {
        Tok::Close(x) => x == d,
        _ => false,
    }
}

pub open spec fn depth_delta(t: Tok) -> int {
    match t {
        Tok::Open(_) => 1,
        Tok::Close(_) => -1,
        _ => 0,
    }
}

/// Groups opened and not yet closed among `s[lo..i]`.
pub open spec fn depth(s: Seq<Tok>, lo: int, i: int) -> int
    decreases i - lo,
{
    if i <= lo {
        0
    } else {
        depth(s, lo, i - 1) + depth_delta(s[i - 1])
    }
}

pub open spec fn is_top_comma(s: Seq<Tok>, lo: int, i: int) -> bool {
    is_punct(s[i], ',') && depth(s, lo, i) == 0
}

/// The first top-level comma of `s[lo..hi]` at or after `i`, else `hi`.
pub open spec fn next_comma(s: Seq<Tok>, lo: int, hi: int, i: int) -> int
    decreases hi - i,
{
    if i >= hi {
        hi
    } else if is_top_comma(s, lo, i) {
        i
    } else {
        next_comma(s, lo, hi, i + 1)
    }
}

/// The pieces of `s[i..hi]` between top-level commas of `s[lo..hi]`.
pub open spec fn pieces(s: Seq<Tok>, lo: int, hi: int, i: int) -> Seq<(int, int)>
    decreases hi - i + 1,
{
    if i > hi {
        Seq::empty()
    } else {
        let j = next_comma(s, lo, hi, i);
        if j >= hi || j < i {
            seq![(i, hi)]
        } else {
            seq![(i, j)] + pieces(s, lo, hi, j + 1)
        }
    }
}

/// The comma-separated items of `s[lo..hi]`; a trailing comma is allowed
/// and an empty region has no items.
pub open spec fn items(s: Seq<Tok>, lo: int, hi: int) -> Seq<(int, int)> {
    let p = pieces(s, lo, hi, lo);
    if p.last().0 == p.last().1 {
        p.drop_last()
    } else {
        p
    }
}

/// `s[lo..hi]` is exactly one group delimited by `d`.
pub open spec fn is_group(s: Seq<Tok>, lo: int, hi: int, d: Delim) -> bool {
    &&& lo + 2 <= hi
    &&& is_open(s[lo], d)
    &&& is_close(s[hi - 1], d)
    &&& forall|i: int| lo < i < hi ==> #[trigger] depth(s, lo, i) >= 1
}

pub fn is_punct_tok(t: &Tok, c: char) -> (r: bool)
    ensures
        r == is_punct(*t, c),
{
    match t {
        Tok::Punct(p, _) => *p == c,
        _ => false,
    }
}

pub fn depth_delta_of(t: &Tok) -> (r: i64)
    ensures
        r == depth_delta(*t),
{
    match t {
        Tok::Open(_) => 1,
        Tok::Close(_) => -1,
        _ => 0,
    }
}

proof fn lemma_next_comma_skip(s: Seq<Tok>, lo: int, hi: int, a: int, i: int)
    requires
        a <= i <= hi,
        forall|k: int| a <= k < i ==> !#[trigger] is_top_comma(s, lo, k),
    ensures
        next_comma(s, lo, hi, a) == next_comma(s, lo, hi, i),
    decreases i - a,
{
    if a < i {
        lemma_next_comma_skip(s, lo, hi, a + 1, i);
    }
}

/// The comma-separated items of `toks[lo..hi]`, as spans.
pub fn split_items(toks: &Vec<Tok>, lo: usize, hi: usize) -> (r: Vec<Span>)
    requires
        lo <= hi <= toks@.len() < i64::MAX,
    ensures
        spans_view(r@) == items(toks@, lo as int, hi as int),
        forall|k: int| 0 <= k < r@.len() ==> lo <= (#[trigger] r@[k]).start <= r@[k].end <= hi,
{
    let ghost s = toks@;
    let mut out: Vec<Span> = Vec::new();
    let mut start: usize = lo;
    let mut i: usize = lo;
    let mut d: i64 = 0;
    while i < hi
        invariant
            s == toks@,
            lo <= start <= i <= hi <= s.len() < i64::MAX,
            d == depth(s, lo as int, i as int),
            -(i - lo) <= d <= i - lo,
            pieces(s, lo as int, hi as int, lo as int) == spans_view(out@) + pieces(s, lo as int, hi as int, start as int),
            next_comma(s, lo as int, hi as int, start as int) == next_comma(s, lo as int, hi as int, i as int),
            forall|k: int| 0 <= k < out@.len() ==> lo <= (#[trigger] out@[k]).start <= out@[k].end <= hi,
            forall|k: int| 0 <= k < out@.len() ==> (#[trigger] out@[k]).end < start,
        decreases hi - i,
    {
        if d == 0 && is_punct_tok(&toks[i], ',') {
            assert(is_top_comma(s, lo as int, i as int));
            assert(next_comma(s, lo as int, hi as int, i as int) == i);
            let ghost before = pieces(s, lo as int, hi as int, start as int);
            assert(before == seq![(start as int, i as int)] + pieces(s, lo as int, hi as int, i + 1));
            out.push(Span { start, end: i });
            proof {
                assert(spans_view(out@) =~= spans_view(out@.drop_last()).push((start as int, i as int)));
            }
            start = i + 1;
            proof {
                assert(spans_view(out@) + pieces(s, lo as int, hi as int, start as int)
                    =~= spans_view(out@.drop_last()) + before);
            }
        } else {
            proof {
                assert(!is_top_comma(s, lo as int, i as int));
                lemma_next_comma_skip(s, lo as int, hi as int, i as int, i + 1);
            }
        }
        d = d + depth_delta_of(&toks[i]);
        i += 1;
    }
    assert(next_comma(s, lo as int, hi as int, i as int) == hi);
    assert(pieces(s, lo as int, hi as int, start as int) == seq![(start as int, hi as int)]);
    let ghost all = pieces(s, lo as int, hi as int, lo as int);
    if start < hi {
        out.push(Span { start, end: hi });
        assert(spans_view(out@) =~= all);
    } else {
        assert(spans_view(out@) =~= all.drop_last());
    }
    out
}

} // verus!
