//! Reading a worker process's captured output: whether the instance
//! failed, and the part of the output that explains the failure.

use vstd::prelude::*;
use crate::text::{chars_of, push_all, push_str, string_of};

verus! {

/// `p` occurs in `s`.
pub open spec fn contains(s: Seq<char>, p: Seq<char>) -> bool {
    exists|i: int| 0 <= i && i + p.len() <= s.len() && #[trigger] s.subrange(i, i + p.len()) == p
}

pub open spec fn starts_with(s: Seq<char>, p: Seq<char>) -> bool {
    p.len() <= s.len() && s.subrange(0, p.len() as int) == p
}

/// The first line feed in `s` at or after `i`, else `s.len()`.
pub open spec fn next_newline(s: Seq<char>, i: int) -> int
    decreases s.len() - i,
{
    if i >= s.len() {
        s.len() as int
    } else if s[i] == '\n' {
        i
    } else {
        next_newline(s, i + 1)
    }
}

/// The lines of `s[i..]` as line feeds end them; a last line needs none.
pub open spec fn raw_lines(s: Seq<char>, i: int) -> Seq<Seq<char>>
    decreases s.len() - i,
{
    if i >= s.len() || i < 0 {
        Seq::empty()
    } else {
        let j = next_newline(s, i);
        if j >= s.len() || j < i {
            seq![s.subrange(i, s.len() as int)]
        } else {
            seq![s.subrange(i, j)] + raw_lines(s, j + 1)
        }
    }
}

pub open spec fn strip_cr(l: Seq<char>) -> Seq<char> {
    if l.len() > 0 && l.last() == '\r' {
        l.drop_last()
    } else {
        l
    }
}

/// The lines of `s`, as `str::lines` gives them.
pub open spec fn lines_of(s: Seq<char>) -> Seq<Seq<char>> {
    raw_lines(s, 0).map_values(|l: Seq<char>| strip_cr(l))
}

pub open spec fn is_section_end(l: Seq<char>) -> bool {
    starts_with(l, "----"@) || starts_with(l, "failures:"@)
}

/// The first `k >= i` with `ls[k] == h`, else `ls.len()`.
pub open spec fn find_line(ls: Seq<Seq<char>>, h: Seq<char>, i: int) -> int
    decreases ls.len() - i,
{
    if i >= ls.len() {
        ls.len() as int
    } else if ls[i] == h {
        i
    } else {
        find_line(ls, h, i + 1)
    }
}

/// The first `k >= i` at which a section ends, else `ls.len()`.
pub open spec fn section_end(ls: Seq<Seq<char>>, i: int) -> int
    decreases ls.len() - i,
{
    if i >= ls.len() {
        ls.len() as int
    } else if is_section_end(ls[i]) {
        i
    } else {
        section_end(ls, i + 1)
    }
}

pub open spec fn join_lines(ls: Seq<Seq<char>>) -> Seq<char>
    decreases ls.len(),
{
    if ls.len() == 0 {
        Seq::empty()
    } else if ls.len() == 1 {
        ls[0]
    } else {
        join_lines(ls.drop_last()) + seq!['\n'] + ls.last()
    }
}

pub open spec fn stdout_header(name: Seq<char>) -> Seq<char> {
    "---- "@ + name + " stdout ----"@
}

/// The lines after the instance's own stdout header, up to the next
/// section, joined by line feeds.
pub open spec fn excerpt(out: Seq<char>, name: Seq<char>) -> Seq<char> {
    let ls = lines_of(out);
    let k = find_line(ls, stdout_header(name), 0);
    let from = if k < ls.len() { k + 1 } else { ls.len() as int };
    join_lines(ls.subrange(from, section_end(ls, from)))
}

/// The output reports the instance `name` as failed.
pub open spec fn reports_failure(out: Seq<char>, name: Seq<char>) -> bool {
    contains(out, name + " - should panic ... ok"@) || contains(out, name + " ... FAILED"@)
}

/// Whether `p` occurs in `s`.
pub fn contains_chars(s: &Vec<char>, p: &Vec<char>) -> (r: bool)
    ensures
        r == contains(s@, p@),
{
    if p.len() > s.len() {
        return false;
    }
    let last = s.len() - p.len();
    let mut i: usize = 0;
    loop
        invariant
            p@.len() <= s@.len(),
            last == s@.len() - p@.len(),
            i <= last,
            forall|k: int| 0 <= k < i ==> #[trigger] s@.subrange(k, k + p@.len()) != p@,
        decreases last - i,
    {
        if starts_at(s, p, i) {
            assert(s@.subrange(i as int, i + p@.len()) == p@);
            return true;
        }
        if i == last {
            return false;
        }
        i += 1;
    }
}

/// Whether `p` occurs in `s` at `i`.
fn starts_at(s: &Vec<char>, p: &Vec<char>, i: usize) -> (r: bool)
    requires
        i + p@.len() <= s@.len(),
    ensures
        r == (s@.subrange(i as int, i + p@.len()) == p@),
{
    let n = s.len();
    let mut j: usize = 0;
    while j < p.len()
        invariant
            n == s@.len(),
            i + p@.len() <= s@.len(),
            j <= p@.len(),
            forall|k: int| 0 <= k < j ==> s@[i + k] == #[trigger] p@[k],
        decreases p@.len() - j,
    {
        if s[i + j] != p[j] {
            assert(s@.subrange(i as int, i + p@.len())[j as int] != p@[j as int]);
            return false;
        }
        j += 1;
    }
    assert(s@.subrange(i as int, i + p@.len()) =~= p@);
    true
}

/// Whether `s` begins with the characters of `p`.
pub fn starts_with_str(s: &Vec<char>, p: &str) -> (r: bool)
    ensures
        r == starts_with(s@, p@),
{
    let pc = chars_of(p);
    if pc.len() > s.len() {
        return false;
    }
    let r = starts_at(s, &pc, 0);
    r
}

/// The lines of `s`, as `str::lines` gives them.
pub fn lines(s: &Vec<char>) -> (r: Vec<Vec<char>>)
    ensures
        r@.len() == lines_of(s@).len(),
        forall|k: int| 0 <= k < r@.len() ==> (#[trigger] r@[k])@ == lines_of(s@)[k],
{
    let ghost sv = s@;
    let mut out: Vec<Vec<char>> = Vec::new();
    let mut cur: Vec<char> = Vec::new();
    let mut start: usize = 0;
    let mut i: usize = 0;
    while i < s.len()
        invariant
            sv == s@,
            start <= i <= sv.len(),
            cur@ == sv.subrange(start as int, i as int),
            next_newline(sv, start as int) == next_newline(sv, i as int),
            raw_lines(sv, 0) == Seq::new(out@.len(), |k: int| out@[k]@) + raw_lines(sv, start as int),
        decreases sv.len() - i,
    {
        if s[i] == '\n' {
            assert(next_newline(sv, i as int) == i);
            let ghost before = Seq::new(out@.len(), |k: int| out@[k]@);
            assert(raw_lines(sv, start as int) == seq![sv.subrange(start as int, i as int)] + raw_lines(sv, i + 1));
            out.push(cur);
            assert(Seq::new(out@.len(), |k: int| out@[k]@) =~= before.push(sv.subrange(start as int, i as int)));
            cur = Vec::new();
            start = i + 1;
            i += 1;
            assert(cur@ =~= sv.subrange(start as int, i as int));
            assert(raw_lines(sv, 0) == Seq::new(out@.len(), |k: int| out@[k]@) + raw_lines(sv, start as int));
        } else {
            assert(next_newline(sv, i as int) == next_newline(sv, i + 1));
            cur.push(s[i]);
            i += 1;
            assert(cur@ =~= sv.subrange(start as int, i as int));
        }
    }
    if start < s.len() {
        assert(next_newline(sv, start as int) == sv.len());
        let ghost before = Seq::new(out@.len(), |k: int| out@[k]@);
        assert(raw_lines(sv, start as int) == seq![sv.subrange(start as int, sv.len() as int)]);
        out.push(cur);
        assert(Seq::new(out@.len(), |k: int| out@[k]@) =~= before.push(sv.subrange(start as int, sv.len() as int)));
    } else {
        assert(raw_lines(sv, start as int) =~= Seq::<Seq<char>>::empty());
    }
    let ghost raw = raw_lines(sv, 0);
    assert(raw =~= Seq::new(out@.len(), |k: int| out@[k]@));
    let mut r: Vec<Vec<char>> = Vec::new();
    let mut k: usize = 0;
    while k < out.len()
        invariant
            raw == raw_lines(sv, 0),
            raw.len() == out@.len(),
            forall|q: int| 0 <= q < out@.len() ==> (#[trigger] out@[q])@ == raw[q],
            k <= out@.len(),
            r@.len() == k,
            forall|q: int| 0 <= q < k ==> (#[trigger] r@[q])@ == strip_cr(raw[q]),
        decreases out@.len() - k,
    {
        let l = &out[k];
        let mut c: Vec<char> = Vec::new();
        let mut end: usize = l.len();
        if end > 0 && l[end - 1] == '\r' {
            end = end - 1;
        }
        let mut j: usize = 0;
        while j < end
            invariant
                end <= l@.len(),
                j <= end,
                c@ == l@.subrange(0, j as int),
            decreases end - j,
        {
            c.push(l[j]);
            j += 1;
        }
        assert(c@ =~= strip_cr(l@));
        r.push(c);
        k += 1;
    }
    r
}

/// The excerpt of `out` that explains why the instance `name` failed, or
/// `None` where `out` reports no failure of it.
pub fn failure_excerpt(out: &str, name: &str) -> (r: Option<String>)
    ensures
        match r {
            Some(x) => reports_failure(out@, name@) && x@ == excerpt(out@, name@),
            None => !reports_failure(out@, name@),
        },
{
    let oc = chars_of(out);
    let nc = chars_of(name);
    let mut p1 = nc.clone();
    push_str(&mut p1, " - should panic ... ok");
    let mut p2 = chars_of(name);
    push_str(&mut p2, " ... FAILED");
    if !contains_chars(&oc, &p1) && !contains_chars(&oc, &p2) {
        return None;
    }
    let mut header = chars_of("---- ");
    push_all(&mut header, &nc);
    push_str(&mut header, " stdout ----");
    let ls = lines(&oc);
    let ghost lv = lines_of(out@);
    let mut k: usize = 0;
    while k < ls.len() && !vec_eq(&ls[k], &header)
        invariant
            k <= ls@.len() == lv.len(),
            forall|q: int| 0 <= q < ls@.len() ==> (#[trigger] ls@[q])@ == lv[q],
            find_line(lv, header@, 0) == find_line(lv, header@, k as int),
        decreases ls@.len() - k,
    {
        k += 1;
    }
    let from = if k < ls.len() { k + 1 } else { ls.len() };
    let mut e: usize = from;
    while e < ls.len() && !(starts_with_str(&ls[e], "----") || starts_with_str(&ls[e], "failures:"))
        invariant
            from <= e <= ls@.len() == lv.len(),
            forall|q: int| 0 <= q < ls@.len() ==> (#[trigger] ls@[q])@ == lv[q],
            section_end(lv, from as int) == section_end(lv, e as int),
        decreases ls@.len() - e,
    {
        e += 1;
    }
    let ghost part = lv.subrange(from as int, e as int);
    let mut text: Vec<char> = Vec::new();
    let mut q: usize = from;
    assert(part.take(0) =~= Seq::<Seq<char>>::empty());
    while q < e
        invariant
            from <= q <= e <= ls@.len() == lv.len(),
            forall|x: int| 0 <= x < ls@.len() ==> (#[trigger] ls@[x])@ == lv[x],
            part == lv.subrange(from as int, e as int),
            text@ == join_lines(part.take(q - from)),
        decreases e - q,
    {
        assert(part.take(q - from + 1).drop_last() =~= part.take(q - from));
        if q > from {
            text.push('\n');
        } else {
            assert(text@ =~= Seq::<char>::empty());
        }
        push_all(&mut text, &ls[q]);
        assert(text@ =~= join_lines(part.take(q - from + 1)));
        q += 1;
    }
    assert(part.take(e - from) =~= part);
    Some(string_of(&text))
}

/// Whether two character vectors are equal.
fn vec_eq(a: &Vec<char>, b: &Vec<char>) -> (r: bool)
    ensures
        r == (a@ == b@),
{
    if a.len() != b.len() {
        return false;
    }
    let r = starts_at(a, b, 0);
    assert(a@.subrange(0, b@.len() as int) =~= a@);
    r
}

} // verus!
