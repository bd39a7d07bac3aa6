//! Durations written as text ("30s", "500ms", "2m") and back.

use vstd::prelude::*;
use crate::text::{chars_equal, chars_of, decimal, decimal_chars, push_str, is_digit, slice_chars, string_of, trim_chars, trim_end, trim_start, trimmed};

verus! {

pub open spec fn lower_ascii(c: char) -> char {
    if 'A' <= c && c <= 'Z' {
        ((c as u32) + 32) as char
    } else {
        c
    }
}

/// `s` with its ASCII capitals made small; other characters stay.
pub open spec fn lower_ascii_seq(s: Seq<char>) -> Seq<char> {
    s.map_values(|c: char| lower_ascii(c))
}

/// Number of leading ASCII digits of `s`.
pub open spec fn lead_digits(s: Seq<char>) -> nat
    decreases s.len(),
{
    if s.len() > 0 && is_digit(s[0]) {
        1 + lead_digits(s.drop_first())
    } else {
        0
    }
}

pub open spec fn digit_value(c: char) -> nat {
    ((c as u32) - ('0' as u32)) as nat
}

/// The number that the decimal digits `s` denote.
pub open spec fn digits_value(s: Seq<char>) -> nat
    decreases s.len(),
{
    if s.len() == 0 {
        0
    } else {
        digits_value(s.drop_last()) * 10 + digit_value(s.last())
    }
}

pub open spec fn is_seconds_unit(l: Seq<char>) -> bool {
    l == ""@ || l == "s"@ || l == "sec"@ || l == "secs"@ || l == "second"@ || l == "seconds"@
}

pub open spec fn is_millis_unit(l: Seq<char>) -> bool {
    l == "ms"@ || l == "milli"@ || l == "millis"@ || l == "millisecond"@ || l == "milliseconds"@
}

pub open spec fn is_minutes_unit(l: Seq<char>) -> bool {
    l == "m"@ || l == "min"@ || l == "mins"@ || l == "minute"@ || l == "minutes"@
}

/// Milliseconds per unit, matched without regard to ASCII case; `None` for
/// an unknown unit. The empty unit means seconds.
pub open spec fn unit_multiplier(u: Seq<char>) -> Option<nat> {
    let l = lower_ascii_seq(u);
    if is_seconds_unit(l) {
        Some(1000)
    } else if is_millis_unit(l) {
        Some(1)
    } else if is_minutes_unit(l) {
        Some(60000)
    } else {
        None
    }
}

/// What `str::to_lowercase` returns for these characters.
pub uninterp spec fn lower_of(s: Seq<char>) -> Seq<char>;

/// Relies on `str::to_lowercase`: the result depends on the characters alone.
#[verifier::external_body]
fn lowercase(s: &Vec<char>) -> (r: String)
    ensures
        r@ == lower_of(s@),
{
    let t: String = s.iter().collect();
    t.to_lowercase()
}

/// The outcome of reading `s` as a duration: milliseconds, or the message
/// that says why it is not one.
pub open spec fn duration_spec(s: Seq<char>) -> Result<nat, Seq<char>> {
    let t = trimmed(s);
    let k = lead_digits(t);
    let digits = t.subrange(0, k as int);
    let n = digits_value(digits);
    let unit = trimmed(t.subrange(k as int, t.len() as int));
    if t.len() == 0 {
        Err("duration cannot be empty"@)
    } else if k == 0 {
        Err("invalid duration '"@ + t + "': missing number"@)
    } else if n > u64::MAX {
        Err("invalid number in duration: '"@ + digits + "'"@)
    } else {
        match unit_multiplier(unit) {
            None => Err("unknown duration unit: '"@ + lower_of(unit) + "'\nvalid units: s, ms, m"@),
            Some(m) => if n * m > u64::MAX {
                Err("timeout duration overflow"@)
            } else if n * m == 0 {
                Err("timeout cannot be zero"@)
            } else {
                Ok(n * m)
            },
        }
    }
}

fn lower_ascii_char(c: char) -> (r: char)
    ensures
        r == lower_ascii(c),
{
    if 'A' <= c && c <= 'Z' {
        ((c as u8) + 32) as char
    } else {
        c
    }
}

/// Milliseconds per unit; see `unit_multiplier`.
fn unit_factor(u: &Vec<char>) -> (r: Option<u64>)
    ensures
        match unit_multiplier(u@) {
            Some(m) => r == Some(m as u64),
            None => r is None,
        },
{
    let mut l: Vec<char> = Vec::new();
    let mut i: usize = 0;
    while i < u.len()
        invariant
            i <= u@.len(),
            l@ == lower_ascii_seq(u@.subrange(0, i as int)),
        decreases u@.len() - i,
    {
        l.push(lower_ascii_char(u[i]));
        i += 1;
        assert(l@ =~= lower_ascii_seq(u@.subrange(0, i as int)));
    }
    assert(u@.subrange(0, i as int) =~= u@);
    if chars_equal(&l, "") || chars_equal(&l, "s") || chars_equal(&l, "sec") || chars_equal(&l, "secs")
        || chars_equal(&l, "second") || chars_equal(&l, "seconds") {
        Some(1000)
    } else if chars_equal(&l, "ms") || chars_equal(&l, "milli") || chars_equal(&l, "millis")
        || chars_equal(&l, "millisecond") || chars_equal(&l, "milliseconds") {
        Some(1)
    } else if chars_equal(&l, "m") || chars_equal(&l, "min") || chars_equal(&l, "mins")
        || chars_equal(&l, "minute") || chars_equal(&l, "minutes") {
        Some(60000)
    } else {
        None
    }
}

proof fn lemma_lead_digits(s: Seq<char>, i: int)
    requires
        0 <= i <= s.len(),
        forall|j: int| 0 <= j < i ==> is_digit(#[trigger] s[j]),
        i == s.len() || !is_digit(s[i]),
    ensures
        lead_digits(s) == i,
    decreases i,
{
    if i > 0 {
        lemma_lead_digits(s.drop_first(), i - 1);
    }
}

proof fn lemma_digits_value_grows(s: Seq<char>, i: int, k: int)
    requires
        0 <= i <= k <= s.len(),
    ensures
        digits_value(s.subrange(0, i)) <= digits_value(s.subrange(0, k)),
    decreases k - i,
{
    if i < k {
        lemma_digits_value_grows(s, i, k - 1);
        assert(s.subrange(0, k).drop_last() =~= s.subrange(0, k - 1));
    }
}

pub open spec fn is_ascii_letter(c: char) -> bool {
    ('a' <= c && c <= 'z') || ('A' <= c && c <= 'Z')
}

proof fn lemma_known_unit_letters(l: Seq<char>)
    requires
        l.len() > 0,
        is_seconds_unit(l) || is_millis_unit(l) || is_minutes_unit(l),
    ensures
        'a' <= l[0] <= 'z',
        'a' <= l.last() <= 'z',
{
    reveal_strlit("");
    reveal_strlit("s");
    reveal_strlit("sec");
    reveal_strlit("secs");
    reveal_strlit("second");
    reveal_strlit("seconds");
    reveal_strlit("ms");
    reveal_strlit("milli");
    reveal_strlit("millis");
    reveal_strlit("millisecond");
    reveal_strlit("milliseconds");
    reveal_strlit("m");
    reveal_strlit("min");
    reveal_strlit("mins");
    reveal_strlit("minute");
    reveal_strlit("minutes");
}

proof fn lemma_unit_ends(u: Seq<char>)
    requires
        u.len() > 0,
        unit_multiplier(u) is Some,
    ensures
        is_ascii_letter(u[0]),
        is_ascii_letter(u.last()),
        trimmed(u) == u,
{
    let l = lower_ascii_seq(u);
    lemma_known_unit_letters(l);
    assert(l[0] == lower_ascii(u[0]));
    assert(l.last() == lower_ascii(u.last()));
    assert(trim_start(u) == u);
    assert(trim_end(u) == u);
}

/// Reading the digits `d` directly followed by a known unit `u` gives the
/// digits' value times the unit's multiplier (1000 for seconds, 1 for
/// milliseconds, 60000 for minutes), and spelling the unit in another ASCII
/// case (`v`) gives the same result, whenever that product is a positive
/// `u64`.
pub proof fn lemma_unit_case_insensitive(d: Seq<char>, u: Seq<char>, v: Seq<char>)
    requires
        d.len() > 0,
        forall|i: int| 0 <= i < d.len() ==> is_digit(#[trigger] d[i]),
        u.len() > 0,
        unit_multiplier(u) is Some,
        lower_ascii_seq(u) == lower_ascii_seq(v),
        0 < digits_value(d) * unit_multiplier(u)->0 <= u64::MAX,
    ensures
        unit_multiplier(v) == unit_multiplier(u),
        duration_spec(d + u) == Ok::<nat, Seq<char>>(digits_value(d) * unit_multiplier(u)->0),
        duration_spec(d + v) == duration_spec(d + u),
{
    assert(v.len() == u.len()) by {
        assert(lower_ascii_seq(v).len() == v.len());
    }
    lemma_read_known(d, u);
    lemma_read_known(d, v);
}

proof fn lemma_read_known(d: Seq<char>, u: Seq<char>)
    requires
        d.len() > 0,
        forall|i: int| 0 <= i < d.len() ==> is_digit(#[trigger] d[i]),
        u.len() > 0,
        unit_multiplier(u) is Some,
        0 < digits_value(d) * unit_multiplier(u)->0 <= u64::MAX,
    ensures
        duration_spec(d + u) == Ok::<nat, Seq<char>>(digits_value(d) * unit_multiplier(u)->0),
{
    let s = d + u;
    lemma_unit_ends(u);
    assert(s[0] == d[0]);
    assert(s.last() == u.last());
    assert(trim_start(s) == s);
    assert(trim_end(s) == s);
    assert forall|j: int| 0 <= j < d.len() implies is_digit(#[trigger] s[j]) by {
        assert(s[j] == d[j]);
    }
    assert(s[d.len() as int] == u[0]);
    lemma_lead_digits(s, d.len() as int);
    assert(s.subrange(0, d.len() as int) =~= d);
    assert(s.subrange(d.len() as int, s.len() as int) =~= u);
    assert(digits_value(d) <= u64::MAX) by (nonlinear_arith)
        requires
            0 < digits_value(d) * unit_multiplier(u)->0 <= u64::MAX,
    ;
}

pub open spec fn all_digits(s: Seq<char>) -> bool {
    forall|j: int| 0 <= j < s.len() ==> is_digit(#[trigger] s[j])
}

/// The value of the decimal digits `v`: `None` when `v` is empty, holds
/// another character, or denotes more than `u64::MAX`.
pub fn decimal_value(v: &Vec<char>) -> (r: Option<u64>)
    ensures
        r == (if v@.len() > 0 && all_digits(v@) && digits_value(v@) <= u64::MAX {
            Some(digits_value(v@) as u64)
        } else {
            None::<u64>
        }),
{
    if v.len() == 0 {
        return None;
    }
    let mut n: u64 = 0;
    let mut i: usize = 0;
    while i < v.len()
        invariant
            i <= v@.len(),
            forall|j: int| 0 <= j < i ==> is_digit(#[trigger] v@[j]),
            n as nat == digits_value(v@.subrange(0, i as int)),
        decreases v@.len() - i,
    {
        if !('0' <= v[i] && v[i] <= '9') {
            assert(!all_digits(v@));
            return None;
        }
        assert(v@.subrange(0, i + 1).drop_last() =~= v@.subrange(0, i as int));
        let d = (v[i] as u32 - '0' as u32) as u64;
        assert(d as nat == digit_value(v@[i as int]));
        assert(digits_value(v@.subrange(0, i + 1)) == n as nat * 10 + d as nat);
        if n > (u64::MAX - d) / 10 {
            proof {
                assert(n as nat * 10 + d as nat > u64::MAX) by (nonlinear_arith)
                    requires
                        n > (u64::MAX - d) / 10,
                        d <= 9,
                ;
                lemma_digits_value_grows(v@, i + 1, v@.len() as int);
                assert(v@.subrange(0, v@.len() as int) =~= v@);
            }
            return None;
        }
        n = n * 10 + d;
        i += 1;
    }
    assert(v@.subrange(0, i as int) =~= v@);
    Some(n)
}

/// Reads `s` as a duration in milliseconds: a run of ASCII digits, then a
/// unit (`s`, `ms`, `m` and their longer spellings, in any ASCII case; none
/// means seconds), with white space allowed around both.
pub fn parse_duration(s: &str) -> (r: Result<u64, String>)
    ensures
        match r {
            Ok(ms) => duration_spec(s@) == Ok::<nat, Seq<char>>(ms as nat),
            Err(msg) => duration_spec(s@) == Err::<nat, Seq<char>>(msg@),
        },
{
    let all = chars_of(s);
    let t = trim_chars(&all);
    if t.len() == 0 {
        return Err(String::from_str("duration cannot be empty"));
    }
    let mut k: usize = 0;
    while k < t.len() && '0' <= t[k] && t[k] <= '9'
        invariant
            k <= t@.len(),
            t@ == trimmed(s@),
            forall|j: int| 0 <= j < k ==> is_digit(#[trigger] t@[j]),
        decreases t@.len() - k,
    {
        k += 1;
    }
    proof {
        lemma_lead_digits(t@, k as int);
    }
    if k == 0 {
        let mut msg = String::from_str("invalid duration '");
        msg.append(string_of(&t).as_str());
        msg.append("': missing number");
        return Err(msg);
    }
    let digits = slice_chars(&t, 0, k);
    assert(all_digits(digits@));
    let n = match decimal_value(&digits) {
        None => {
            let mut msg = String::from_str("invalid number in duration: '");
            msg.append(string_of(&digits).as_str());
            msg.append("'");
            return Err(msg);
        },
        Some(n) => n,
    };
    let rest = slice_chars(&t, k, t.len());
    let unit = trim_chars(&rest);
    match unit_factor(&unit) {
        None => {
            let mut msg = String::from_str("unknown duration unit: '");
            msg.append(lowercase(&unit).as_str());
            msg.append("'\nvalid units: s, ms, m");
            Err(msg)
        },
        Some(m) => {
            match n.checked_mul(m) {
                None => Err(String::from_str("timeout duration overflow")),
                Some(ms) => {
                    if ms == 0 {
                        Err(String::from_str("timeout cannot be zero"))
                    } else {
                        Ok(ms)
                    }
                },
            }
        },
    }
}

/// How a positive number of milliseconds is shown to people: whole seconds
/// as `{n}s`, anything else as `{n}ms`.
pub open spec fn millis_display(ms: nat) -> Seq<char> {
    if ms >= 1000 && ms % 1000 == 0 {
        decimal(ms / 1000) + "s"@
    } else {
        decimal(ms) + "ms"@
    }
}

/// Shows a number of milliseconds as `{n}s` when it is whole seconds, else
/// as `{n}ms`.
pub fn format_millis(ms: u64) -> (r: String)
    ensures
        r@ == millis_display(ms as nat),
{
    let mut out: Vec<char>;
    if ms >= 1000 && ms % 1000 == 0 {
        out = decimal_chars(ms / 1000);
        push_str(&mut out, "s");
    } else {
        out = decimal_chars(ms);
        push_str(&mut out, "ms");
    }
    string_of(&out)
}

} // verus!
