//! Identifier fragments for naming generated test instances after the
//! literal values they bind.

use vstd::prelude::*;
use crate::text::{chars_equal, chars_of, is_ascii_alnum, is_digit, push_all, string_of};
use crate::token::{is_punct, is_punct_tok, Span, Tok, LitKind};

verus! {

pub open spec fn sanitize_char(c: char) -> char {
    if is_ascii_alnum(c) {
        c
    } else {
        '_'
    }
}

/// A string literal's value as an identifier fragment: every character
/// that is not an ASCII letter or digit becomes `_`, and a leading digit
/// gets a `_` in front; nothing for the empty string.
pub open spec fn string_component(v: Seq<char>) -> Option<Seq<char>> {
    let t = v.map_values(|c: char| sanitize_char(c));
    if t.len() == 0 {
        None
    } else if is_digit(t[0]) {
        Some(seq!['_'] + t)
    } else {
        Some(t)
    }
}

/// The fragment that names the value `s[lo..hi]`: an integer literal's
/// digits, `neg` and the digits for a negated one, a sanitized string
/// literal, `true` or `false`; nothing for any other expression.
pub open spec fn component(s: Seq<Tok>, lo: int, hi: int) -> Option<Seq<char>> {
    if !(0 <= lo <= hi <= s.len()) {
        None
    } else if hi - lo == 1 {
        match s[lo] {
            Tok::Lit(LitKind::Int, v, _) => Some(v@),
            Tok::Lit(LitKind::Str, v, _) => string_component(v@),
            Tok::Ident(x) => if x@ == "true"@ || x@ == "false"@ {
                Some(x@)
            } else {
                None
            },
            _ => None,
        }
    } else if hi - lo == 2 && is_punct(s[lo], '-') {
        match s[lo + 1] {
            Tok::Lit(LitKind::Int, v, _) => Some("neg"@ + v@),
            _ => None,
        }
    } else {
        None
    }
}

fn sanitize(v: &String) -> (r: Option<String>)
    ensures
        match string_component(v@) {
            Some(c) => r is Some && r->0@ == c,
            None => r is None,
        },
{
    let cs = chars_of(v.as_str());
    let mut t: Vec<char> = Vec::new();
    let mut i: usize = 0;
    while i < cs.len()
        invariant
            cs@ == v@,
            i <= cs@.len(),
            t@ == cs@.subrange(0, i as int).map_values(|c: char| sanitize_char(c)),
        decreases cs@.len() - i,
    {
        let c = cs[i];
        let is_alnum = ('0' <= c && c <= '9') || ('a' <= c && c <= 'z') || ('A' <= c && c <= 'Z');
        t.push(if is_alnum { c } else { '_' });
        i += 1;
        assert(t@ =~= cs@.subrange(0, i as int).map_values(|c: char| sanitize_char(c)));
    }
    assert(cs@.subrange(0, i as int) =~= cs@);
    if t.len() == 0 {
        None
    } else if '0' <= t[0] && t[0] <= '9' {
        let mut u: Vec<char> = Vec::new();
        u.push('_');
        push_all(&mut u, &t);
        assert(u@ =~= seq!['_'] + t@);
        Some(string_of(&u))
    } else {
        Some(string_of(&t))
    }
}

/// The identifier fragment for the value `toks[value.start..value.end]`, or
/// `None` where the value is not a plain literal and the caller falls back to
/// the value's position.
pub fn expr_to_ident_component(toks: &Vec<Tok>, value: Span) -> (r: Option<String>)
    ensures
        match component(toks@, value.start as int, value.end as int) {
            Some(c) => r is Some && r->0@ == c,
            None => r is None,
        },
{
    if !(value.start <= value.end && value.end <= toks.len()) {
        return None;
    }
    let n = value.end - value.start;
    if n == 1 {
        match &toks[value.start] {
            Tok::Lit(LitKind::Int, v, _) => Some(v.clone()),
            Tok::Lit(LitKind::Str, v, _) => sanitize(v),
            Tok::Ident(x) => {
                let xs = chars_of(x.as_str());
                if chars_equal(&xs, "true") || chars_equal(&xs, "false") {
                    Some(x.clone())
                } else {
                    None
                }
            },
            _ => None,
        }
    } else if n == 2 && is_punct_tok(&toks[value.start], '-') {
        match &toks[value.start + 1] {
            Tok::Lit(LitKind::Int, v, _) => {
                let mut out = chars_of("neg");
                let vs = chars_of(v.as_str());
                push_all(&mut out, &vs);
                Some(string_of(&out))
            },
            _ => None,
        }
    } else {
        None
    }
}

} // verus!
