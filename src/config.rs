//! The configuration language of a test attribute: a comma-separated list
//! of `name = value` entries, read from the attribute's tokens into a
//! checked configuration.

use vstd::prelude::*;
use crate::duration::{all_digits, decimal_value, digits_value, duration_spec, parse_duration};
use crate::text::{chars_equal, chars_of};
use crate::token::{
    depth, depth_delta, depth_delta_of, ident_text, is_top_comma, next_comma, is_group, is_ident, is_open, is_close, is_punct, is_punct_tok,
    items, split_items, spans_view, Delim, LitKind, Span, Tok,
};

verus! {

#[derive(Clone, Copy, PartialEq, Eq, Structural, Debug)]
pub enum Field {
    Include,
    Env,
    Setup,
    Teardown,
    Timeout,
    Retries,
    Cases,
    Matrix,
}

/// Why an attribute was refused; `at` is the position of the offending
/// token.
#[derive(Clone, Copy, PartialEq, Eq, Structural, Debug)]
pub enum ConfigError {
    /// Something other than a field name where an entry should start.
    ExpectedName { at: usize },
    /// A name that is no field.
    UnknownField { at: usize },
    /// `ignore` or `should_panic`, which belong outside the attribute.
    MarkerField { at: usize },
    DuplicateField { at: usize, field: Field },
    /// `cases` and `matrix` together.
    Exclusive { at: usize },
    ExpectedEquals { at: usize, field: Field },
    ExpectedArray { at: usize, field: Field },
    ExpectedString { at: usize, field: Field },
    ExpectedInteger { at: usize, field: Field },
    ExpectedValue { at: usize, field: Field },
    EmptyList { at: usize, field: Field },
    /// An element of `include` or `env` of neither accepted form.
    BadElement { at: usize, field: Field },
    TupleArity { at: usize, field: Field, found: usize },
    NotString { at: usize, field: Field },
    /// An empty source path in `include`.
    EmptyPath { at: usize },
    /// The string given as `timeout` is no duration.
    BadDuration { at: usize },
    RetriesTooLarge { at: usize },
    RetriesZero { at: usize },
    /// A `cases` entry that is not `name: (args)`.
    CaseShape { at: usize },
    DuplicateCase { at: usize },
    /// A `matrix` entry that is not `name: [values]`.
    MatrixShape { at: usize },
    EmptyMatrixValues { at: usize },
    DuplicateParam { at: usize },
}

pub struct IncludeFile {
    pub source: String,
    pub dest: Option<String>,
}

pub struct EnvVar {
    pub key: String,
    pub value: String,
}

/// A named case; `args` spans its argument tuple, parentheses included.
pub struct NamedCase {
    pub name: String,
    pub args: Span,
}

/// A matrix parameter and the spans of its values.
pub struct MatrixParam {
    pub name: String,
    pub values: Vec<Span>,
}

/// A parsed attribute. Expressions are kept as spans of the attribute's
/// tokens.
pub struct Configuration {
    pub files: Option<Vec<IncludeFile>>,
    pub env: Option<Vec<EnvVar>>,
    pub setup: Option<Span>,
    pub teardown: Option<Span>,
    pub timeout: Option<u64>,
    pub retries: Option<u32>,
    pub cases: Option<Vec<NamedCase>>,
    pub matrix: Option<Vec<MatrixParam>>,
}

pub type IncludeV = (Seq<char>, Option<Seq<char>>);
pub type EnvV = (Seq<char>, Seq<char>);
pub type CaseV = (Seq<char>, (int, int));
pub type ParamV = (Seq<char>, Seq<(int, int)>);

pub struct ConfigV {
    pub files: Option<Seq<IncludeV>>,
    pub env: Option<Seq<EnvV>>,
    pub setup: Option<(int, int)>,
    pub teardown: Option<(int, int)>,
    pub timeout: Option<u64>,
    pub retries: Option<u32>,
    pub cases: Option<Seq<CaseV>>,
    pub matrix: Option<Seq<ParamV>>,
}

pub open spec fn opt_str(o: Option<String>) -> Option<Seq<char>> {
    match o {
        Some(s) => Some(s@),
        None => None,
    }
}

pub open spec fn opt_span(o: Option<Span>) -> Option<(int, int)> {
    match o {
        Some(s) => Some(s@),
        None => None,
    }
}

impl IncludeFile {
    pub open spec fn view(&self) -> IncludeV {
        (self.source@, opt_str(self.dest))
    }
}

impl EnvVar {
    pub open spec fn view(&self) -> EnvV {
        (self.key@, self.value@)
    }
}

impl NamedCase {
    pub open spec fn view(&self) -> CaseV {
        (self.name@, self.args@)
    }
}

impl MatrixParam {
    pub open spec fn view(&self) -> ParamV {
        (self.name@, spans_view(self.values@))
    }
}

pub open spec fn includes_view(v: Seq<IncludeFile>) -> Seq<IncludeV> {
    v.map_values(|x: IncludeFile| x@)
}

pub open spec fn envs_view(v: Seq<EnvVar>) -> Seq<EnvV> {
    v.map_values(|x: EnvVar| x@)
}

pub open spec fn cases_view(v: Seq<NamedCase>) -> Seq<CaseV> {
    v.map_values(|x: NamedCase| x@)
}

pub open spec fn params_view(v: Seq<MatrixParam>) -> Seq<ParamV> {
    v.map_values(|x: MatrixParam| x@)
}

impl Configuration {
    pub open spec fn view(&self) -> ConfigV {
        ConfigV {
            files: match self.files {
                Some(v) => Some(includes_view(v@)),
                None => None,
            },
            env: match self.env {
                Some(v) => Some(envs_view(v@)),
                None => None,
            },
            setup: opt_span(self.setup),
            teardown: opt_span(self.teardown),
            timeout: self.timeout,
            retries: self.retries,
            cases: match self.cases {
                Some(v) => Some(cases_view(v@)),
                None => None,
            },
            matrix: match self.matrix {
                Some(v) => Some(params_view(v@)),
                None => None,
            },
        }
    }
}

pub open spec fn empty_config() -> ConfigV {
    ConfigV {
        files: None,
        env: None,
        setup: None,
        teardown: None,
        timeout: None,
        retries: None,
        cases: None,
        matrix: None,
    }
}

// ---------------------------------------------------------------------------
// Lists of items, element by element, stopping at the first error.

pub open spec fn fold_items<A>(
    its: Seq<(int, int)>,
    f: spec_fn(Seq<A>, (int, int)) -> Result<A, ConfigError>,
) -> Result<Seq<A>, ConfigError>
    decreases its.len(),
{
    if its.len() == 0 {
        Ok(Seq::empty())
    } else {
        match fold_items(its.drop_last(), f) {
            Err(e) => Err(e),
            Ok(acc) => match f(acc, its.last()) {
                Err(e) => Err(e),
                Ok(x) => Ok(acc.push(x)),
            },
        }
    }
}

proof fn lemma_fold_err<A>(
    its: Seq<(int, int)>,
    f: spec_fn(Seq<A>, (int, int)) -> Result<A, ConfigError>,
    k: int,
)
    requires
        0 <= k <= its.len(),
        fold_items(its.take(k), f) is Err,
    ensures
        fold_items(its, f) == fold_items(its.take(k), f),
    decreases its.len() - k,
{
    if k < its.len() {
        assert(its.take(k + 1).drop_last() =~= its.take(k));
        lemma_fold_err(its, f, k + 1);
    } else {
        assert(its.take(k) =~= its);
    }
}

proof fn lemma_fold_step<A>(
    its: Seq<(int, int)>,
    f: spec_fn(Seq<A>, (int, int)) -> Result<A, ConfigError>,
    k: int,
)
    requires
        0 <= k < its.len(),
    ensures
        fold_items(its.take(k + 1), f) == match fold_items(its.take(k), f) {
            Err(e) => Err(e),
            Ok(acc) => match f(acc, its[k]) {
                Err(e) => Err(e),
                Ok(x) => Ok(acc.push(x)),
            },
        },
{
    assert(its.take(k + 1).drop_last() =~= its.take(k));
}

// ---------------------------------------------------------------------------
// Groups.

/// The end of the group that opens at `lo`: the first `j > lo` at which
/// every group opened since `lo` is closed, searching from `j`; -1 if none.
pub open spec fn group_end_from(s: Seq<Tok>, lo: int, j: int) -> int
    decreases s.len() + 1 - j,
{
    if j > s.len() {
        -1
    } else if depth(s, lo, j) == 0 {
        j
    } else {
        group_end_from(s, lo, j + 1)
    }
}

/// The span of the bracketed list that starts at `v`, with its items.
pub open spec fn bracket_list(s: Seq<Tok>, v: int, field: Field) -> Result<(int, Seq<(int, int)>), ConfigError> {
    if v < s.len() && is_open(s[v], Delim::Bracket) {
        let e = group_end_from(s, v, v + 1);
        if e > v + 1 && is_close(s[e - 1], Delim::Bracket) {
            Ok((e, items(s, v + 1, e - 1)))
        } else {
            Err(ConfigError::ExpectedArray { at: v as usize, field })
        }
    } else {
        Err(ConfigError::ExpectedArray { at: v as usize, field })
    }
}

pub open spec fn str_lit(t: Tok) -> Option<Seq<char>> {
    match t {
        Tok::Lit(LitKind::Str, v, _) => Some(v@),
        _ => None,
    }
}

/// The string literal that `p` spans alone.
pub open spec fn single_str(s: Seq<Tok>, p: (int, int)) -> Option<Seq<char>> {
    if p.1 - p.0 == 1 {
        str_lit(s[p.0])
    } else {
        None
    }
}

/// A pair of string literals in parentheses spanning `p`.
pub open spec fn str_pair(s: Seq<Tok>, p: (int, int), field: Field) -> Result<(Seq<char>, Seq<char>), ConfigError> {
    let parts = items(s, p.0 + 1, p.1 - 1);
    if parts.len() != 2 {
        Err(ConfigError::TupleArity { at: p.0 as usize, field, found: parts.len() as usize })
    } else {
        match single_str(s, parts[0]) {
            None => Err(ConfigError::NotString { at: parts[0].0 as usize, field }),
            Some(a) => match single_str(s, parts[1]) {
                None => Err(ConfigError::NotString { at: parts[1].0 as usize, field }),
                Some(b) => Ok((a, b)),
            },
        }
    }
}

pub open spec fn include_elem(s: Seq<Tok>, p: (int, int)) -> Result<IncludeV, ConfigError> {
    match single_str(s, p) {
        Some(src) => if src.len() == 0 {
            Err(ConfigError::EmptyPath { at: p.0 as usize })
        } else {
            Ok((src, None))
        },
        None => if is_group(s, p.0, p.1, Delim::Paren) {
            match str_pair(s, p, Field::Include) {
                Err(e) => Err(e),
                Ok(pair) => if pair.0.len() == 0 {
                    Err(ConfigError::EmptyPath { at: p.0 as usize })
                } else {
                    Ok((pair.0, Some(pair.1)))
                },
            }
        } else {
            Err(ConfigError::BadElement { at: p.0 as usize, field: Field::Include })
        },
    }
}

pub open spec fn env_elem(s: Seq<Tok>, p: (int, int)) -> Result<EnvV, ConfigError> {
    if is_group(s, p.0, p.1, Delim::Paren) {
        str_pair(s, p, Field::Env)
    } else {
        Err(ConfigError::BadElement { at: p.0 as usize, field: Field::Env })
    }
}

pub open spec fn has_case(acc: Seq<CaseV>, name: Seq<char>) -> bool {
    exists|k: int| 0 <= k < acc.len() && (#[trigger] acc[k]).0 == name
}

pub open spec fn has_param(acc: Seq<ParamV>, name: Seq<char>) -> bool {
    exists|k: int| 0 <= k < acc.len() && (#[trigger] acc[k]).0 == name
}

/// `p` spans `name : group` with the group delimited by `d`.
pub open spec fn named_group(s: Seq<Tok>, p: (int, int), d: Delim) -> bool {
    &&& p.1 - p.0 >= 4
    &&& is_ident(s[p.0])
    &&& is_punct(s[p.0 + 1], ':')
    &&& is_group(s, p.0 + 2, p.1, d)
}

pub open spec fn case_elem(s: Seq<Tok>, acc: Seq<CaseV>, p: (int, int)) -> Result<CaseV, ConfigError> {
    if !named_group(s, p, Delim::Paren) {
        Err(ConfigError::CaseShape { at: p.0 as usize })
    } else if has_case(acc, ident_text(s[p.0])) {
        Err(ConfigError::DuplicateCase { at: p.0 as usize })
    } else {
        Ok((ident_text(s[p.0]), (p.0 + 2, p.1)))
    }
}

pub open spec fn no_empty_span(v: Seq<(int, int)>) -> bool {
    forall|k: int| 0 <= k < v.len() ==> (#[trigger] v[k]).0 < v[k].1
}

pub open spec fn param_elem(s: Seq<Tok>, acc: Seq<ParamV>, p: (int, int)) -> Result<ParamV, ConfigError> {
    let values = items(s, p.0 + 3, p.1 - 1);
    if !named_group(s, p, Delim::Bracket) || !no_empty_span(values) {
        Err(ConfigError::MatrixShape { at: p.0 as usize })
    } else if values.len() == 0 {
        Err(ConfigError::EmptyMatrixValues { at: p.0 as usize })
    } else if has_param(acc, ident_text(s[p.0])) {
        Err(ConfigError::DuplicateParam { at: p.0 as usize })
    } else {
        Ok((ident_text(s[p.0]), values))
    }
}

/// The value of a list field whose list starts at `v`, and where the
/// entry ends. `at` is the position of the field's name.
pub open spec fn list_value<A>(
    s: Seq<Tok>,
    v: int,
    at: int,
    field: Field,
    f: spec_fn(Seq<A>, (int, int)) -> Result<A, ConfigError>,
) -> Result<(Seq<A>, int), ConfigError> {
    match bracket_list(s, v, field) {
        Err(e) => Err(e),
        Ok((e, its)) => match fold_items(its, f) {
            Err(err) => Err(err),
            Ok(vals) => if vals.len() == 0 {
                Err(ConfigError::EmptyList { at: at as usize, field })
            } else {
                Ok((vals, e))
            },
        },
    }
}

pub open spec fn include_fn(s: Seq<Tok>) -> spec_fn(Seq<IncludeV>, (int, int)) -> Result<IncludeV, ConfigError> {
    |acc: Seq<IncludeV>, p: (int, int)| include_elem(s, p)
}

pub open spec fn env_fn(s: Seq<Tok>) -> spec_fn(Seq<EnvV>, (int, int)) -> Result<EnvV, ConfigError> {
    |acc: Seq<EnvV>, p: (int, int)| env_elem(s, p)
}

pub open spec fn case_fn(s: Seq<Tok>) -> spec_fn(Seq<CaseV>, (int, int)) -> Result<CaseV, ConfigError> {
    |acc: Seq<CaseV>, p: (int, int)| case_elem(s, acc, p)
}

pub open spec fn param_fn(s: Seq<Tok>) -> spec_fn(Seq<ParamV>, (int, int)) -> Result<ParamV, ConfigError> {
    |acc: Seq<ParamV>, p: (int, int)| param_elem(s, acc, p)
}

/// The expression of `setup` or `teardown`: the tokens from `v` up to the
/// next comma outside any group.
pub open spec fn expr_value(s: Seq<Tok>, v: int, at: int, field: Field) -> Result<(int, int), ConfigError> {
    let e = crate::token::next_comma(s, v, s.len() as int, v);
    if e <= v {
        Err(ConfigError::ExpectedValue { at: at as usize, field })
    } else {
        Ok((v, e))
    }
}

pub open spec fn timeout_value(s: Seq<Tok>, v: int) -> Result<u64, ConfigError> {
    if v < s.len() && str_lit(s[v]) is Some {
        match duration_spec(str_lit(s[v])->0) {
            Ok(ms) => Ok(ms as u64),
            Err(_) => Err(ConfigError::BadDuration { at: v as usize }),
        }
    } else {
        Err(ConfigError::ExpectedString { at: v as usize, field: Field::Timeout })
    }
}

pub open spec fn int_lit(t: Tok) -> Option<Seq<char>> {
    match t {
        Tok::Lit(LitKind::Int, v, _) => Some(v@),
        _ => None,
    }
}

pub open spec fn retries_value(s: Seq<Tok>, v: int) -> Result<u32, ConfigError> {
    if v < s.len() && int_lit(s[v]) is Some {
        let d = int_lit(s[v])->0;
        if d.len() == 0 || !all_digits(d) || digits_value(d) > u32::MAX {
            Err(ConfigError::RetriesTooLarge { at: v as usize })
        } else if digits_value(d) == 0 {
            Err(ConfigError::RetriesZero { at: v as usize })
        } else {
            Ok(digits_value(d) as u32)
        }
    } else {
        Err(ConfigError::ExpectedInteger { at: v as usize, field: Field::Retries })
    }
}

pub open spec fn field_of(name: Seq<char>) -> Option<Field> {
    if name == "include"@ {
        Some(Field::Include)
    } else if name == "env"@ {
        Some(Field::Env)
    } else if name == "setup"@ {
        Some(Field::Setup)
    } else if name == "teardown"@ {
        Some(Field::Teardown)
    } else if name == "timeout"@ {
        Some(Field::Timeout)
    } else if name == "retries"@ {
        Some(Field::Retries)
    } else if name == "cases"@ {
        Some(Field::Cases)
    } else if name == "matrix"@ {
        Some(Field::Matrix)
    } else {
        None
    }
}

/// The field that a common misspelling or synonym `name` stands for.
pub open spec fn suggestion_of(name: Seq<char>) -> Option<Field> {
    if name == "includes"@ {
        Some(Field::Include)
    } else if name == "envs"@ || name == "environment"@ {
        Some(Field::Env)
    } else if name == "set_up"@ || name == "before"@ || name == "before_each"@ {
        Some(Field::Setup)
    } else if name == "tear_down"@ || name == "after"@ || name == "after_each"@ || name == "cleanup"@ {
        Some(Field::Teardown)
    } else if name == "time"@ || name == "time_out"@ || name == "timelimit"@ || name == "time_limit"@ {
        Some(Field::Timeout)
    } else if name == "retry"@ || name == "attempts"@ || name == "tries"@ || name == "repeat"@ || name == "flaky"@ {
        Some(Field::Retries)
    } else if name == "case"@ || name == "params"@ || name == "parameters"@ || name == "test_cases"@ {
        Some(Field::Cases)
    } else if name == "values"@ || name == "combinations"@ || name == "cartesian"@ || name == "parametrize"@ {
        Some(Field::Matrix)
    } else {
        None
    }
}

pub open spec fn is_marker(name: Seq<char>) -> bool {
    name == "ignore"@ || name == "should_panic"@
}

pub open spec fn has_field(c: ConfigV, f: Field) -> bool {
    match f {
        Field::Include => c.files is Some,
        Field::Env => c.env is Some,
        Field::Setup => c.setup is Some,
        Field::Teardown => c.teardown is Some,
        Field::Timeout => c.timeout is Some,
        Field::Retries => c.retries is Some,
        Field::Cases => c.cases is Some,
        Field::Matrix => c.matrix is Some,
    }
}

/// The configuration after the entry for `f`, whose value starts at `v`,
/// and where that entry ends.
pub open spec fn apply_field(s: Seq<Tok>, c: ConfigV, f: Field, v: int, at: int) -> Result<(ConfigV, int), ConfigError> {
    match f {
        Field::Include => match list_value(s, v, at, f, include_fn(s)) {
            Err(e) => Err(e),
            Ok((x, e)) => Ok((ConfigV { files: Some(x), ..c }, e)),
        },
        Field::Env => match list_value(s, v, at, f, env_fn(s)) {
            Err(e) => Err(e),
            Ok((x, e)) => Ok((ConfigV { env: Some(x), ..c }, e)),
        },
        Field::Cases => match list_value(s, v, at, f, case_fn(s)) {
            Err(e) => Err(e),
            Ok((x, e)) => Ok((ConfigV { cases: Some(x), ..c }, e)),
        },
        Field::Matrix => match list_value(s, v, at, f, param_fn(s)) {
            Err(e) => Err(e),
            Ok((x, e)) => Ok((ConfigV { matrix: Some(x), ..c }, e)),
        },
        Field::Setup => match expr_value(s, v, at, f) {
            Err(e) => Err(e),
            Ok(x) => Ok((ConfigV { setup: Some(x), ..c }, x.1)),
        },
        Field::Teardown => match expr_value(s, v, at, f) {
            Err(e) => Err(e),
            Ok(x) => Ok((ConfigV { teardown: Some(x), ..c }, x.1)),
        },
        Field::Timeout => match timeout_value(s, v) {
            Err(e) => Err(e),
            Ok(x) => Ok((ConfigV { timeout: Some(x), ..c }, v + 1)),
        },
        Field::Retries => match retries_value(s, v) {
            Err(e) => Err(e),
            Ok(x) => Ok((ConfigV { retries: Some(x), ..c }, v + 1)),
        },
    }
}

/// The entry that starts at `i` (after at most one comma), checked against
/// the configuration `c` read so far.
pub open spec fn entry(s: Seq<Tok>, i: int, c: ConfigV) -> Option<Result<(ConfigV, int), ConfigError>> {
    let n = if i < s.len() && is_punct(s[i], ',') { i + 1 } else { i };
    if n >= s.len() {
        None
    } else if !is_ident(s[n]) {
        Some(Err(ConfigError::ExpectedName { at: n as usize }))
    } else {
        let name = ident_text(s[n]);
        match field_of(name) {
            None => if is_marker(name) {
                Some(Err(ConfigError::MarkerField { at: n as usize }))
            } else {
                Some(Err(ConfigError::UnknownField { at: n as usize }))
            },
            Some(f) => if has_field(c, f) {
                Some(Err(ConfigError::DuplicateField { at: n as usize, field: f }))
            } else if (f == Field::Cases && c.matrix is Some) || (f == Field::Matrix && c.cases is Some) {
                Some(Err(ConfigError::Exclusive { at: n as usize }))
            } else if !(n + 1 < s.len() && is_punct(s[n + 1], '=')) {
                Some(Err(ConfigError::ExpectedEquals { at: n as usize, field: f }))
            } else {
                Some(apply_field(s, c, f, n + 2, n))
            },
        }
    }
}

/// The configuration that the entries from `i` on make of `c`.
pub open spec fn parse_from(s: Seq<Tok>, i: int, c: ConfigV) -> Result<ConfigV, ConfigError>
    decreases s.len() + 1 - i,
{
    if i < 0 || i > s.len() {
        Ok(c)
    } else {
        match entry(s, i, c) {
            None => Ok(c),
            Some(Err(e)) => Err(e),
            Some(Ok((c2, j))) => if j <= i || j > s.len() {
                Ok(c2)
            } else {
                parse_from(s, j, c2)
            },
        }
    }
}

/// What the attribute with tokens `s` configures.
pub open spec fn config_spec(s: Seq<Tok>) -> Result<ConfigV, ConfigError> {
    parse_from(s, 0, empty_config())
}

pub open spec fn not_both(c: ConfigV) -> bool {
    !(c.cases is Some && c.matrix is Some)
}

proof fn lemma_entry_keeps_exclusion(s: Seq<Tok>, i: int, c: ConfigV)
    requires
        not_both(c),
    ensures
        match entry(s, i, c) {
            Some(Ok((c2, _))) => not_both(c2),
            _ => true,
        },
{
}

proof fn lemma_parse_from_exclusion(s: Seq<Tok>, i: int, c: ConfigV)
    requires
        not_both(c),
    ensures
        parse_from(s, i, c) is Ok ==> not_both(parse_from(s, i, c)->Ok_0),
    decreases s.len() + 1 - i,
{
    if 0 <= i <= s.len() {
        lemma_entry_keeps_exclusion(s, i, c);
        match entry(s, i, c) {
            Some(Ok((c2, j))) => {
                if j > i && j <= s.len() {
                    lemma_parse_from_exclusion(s, j, c2);
                }
            },
            _ => {},
        }
    }
}

/// No attribute is accepted with both `cases` and `matrix`, whichever of
/// the two comes first.
pub proof fn lemma_cases_matrix_exclusive(s: Seq<Tok>)
    ensures
        config_spec(s) is Ok ==> !(config_spec(s)->Ok_0.cases is Some && config_spec(s)->Ok_0.matrix is Some),
{
    lemma_parse_from_exclusion(s, 0, empty_config());
}

pub open spec fn distinct_names<B>(v: Seq<(Seq<char>, B)>) -> bool {
    forall|i: int, j: int| 0 <= i < j < v.len() ==> (#[trigger] v[i]).0 != (#[trigger] v[j]).0
}

/// What every accepted configuration satisfies: `cases` and `matrix` are
/// not both set, a timeout and a retry count are positive, lists are not
/// empty, file sources are not empty, case names and matrix parameter
/// names are unique, and every matrix parameter has values.
pub open spec fn config_wf(c: ConfigV) -> bool {
    &&& not_both(c)
    &&& (c.timeout matches Some(t) ==> t > 0)
    &&& (c.retries matches Some(n) ==> n > 0)
    &&& (c.files matches Some(f) ==> f.len() > 0 && forall|i: int| 0 <= i < f.len() ==> (#[trigger] f[i]).0.len() > 0)
    &&& (c.env matches Some(e) ==> e.len() > 0)
    &&& (c.cases matches Some(cs) ==> cs.len() > 0 && distinct_names(cs))
    &&& (c.matrix matches Some(m) ==> m.len() > 0 && distinct_names(m)
        && forall|i: int| 0 <= i < m.len() ==> (#[trigger] m[i]).1.len() > 0)
}

proof fn lemma_files_nonempty(s: Seq<Tok>, its: Seq<(int, int)>)
    ensures
        fold_items(its, include_fn(s)) matches Ok(f) ==> forall|i: int| 0 <= i < f.len() ==> (#[trigger] f[i]).0.len() > 0,
    decreases its.len(),
{
    if its.len() > 0 {
        lemma_files_nonempty(s, its.drop_last());
    }
}

proof fn lemma_cases_distinct(s: Seq<Tok>, its: Seq<(int, int)>)
    ensures
        fold_items(its, case_fn(s)) matches Ok(cs) ==> distinct_names(cs),
    decreases its.len(),
{
    if its.len() > 0 {
        lemma_cases_distinct(s, its.drop_last());
        if let Ok(acc) = fold_items(its.drop_last(), case_fn(s)) {
            if let Ok(x) = case_elem(s, acc, its.last()) {
                let v = acc.push(x);
                assert forall|i: int, j: int| 0 <= i < j < v.len() implies (#[trigger] v[i]).0 != (#[trigger] v[j]).0 by {
                    if j == acc.len() {
                        assert(!has_case(acc, x.0));
                        assert(acc[i] == v[i]);
                    } else {
                        assert(acc[i] == v[i] && acc[j] == v[j]);
                    }
                }
            }
        }
    }
}

proof fn lemma_params_ok(s: Seq<Tok>, its: Seq<(int, int)>)
    ensures
        fold_items(its, param_fn(s)) matches Ok(m) ==> distinct_names(m)
            && forall|i: int| 0 <= i < m.len() ==> (#[trigger] m[i]).1.len() > 0,
    decreases its.len(),
{
    if its.len() > 0 {
        lemma_params_ok(s, its.drop_last());
        if let Ok(acc) = fold_items(its.drop_last(), param_fn(s)) {
            if let Ok(x) = param_elem(s, acc, its.last()) {
                let v = acc.push(x);
                assert forall|i: int, j: int| 0 <= i < j < v.len() implies (#[trigger] v[i]).0 != (#[trigger] v[j]).0 by {
                    if j == acc.len() {
                        assert(!has_param(acc, x.0));
                        assert(acc[i] == v[i]);
                    } else {
                        assert(acc[i] == v[i] && acc[j] == v[j]);
                    }
                }
                assert forall|i: int| 0 <= i < v.len() implies (#[trigger] v[i]).1.len() > 0 by {
                    if i < acc.len() {
                        assert(acc[i] == v[i]);
                    }
                }
            }
        }
    }
}

proof fn lemma_entry_keeps_wf(s: Seq<Tok>, i: int, c: ConfigV)
    requires
        config_wf(c),
    ensures
        match entry(s, i, c) {
            Some(Ok((c2, _))) => config_wf(c2),
            _ => true,
        },
{
    lemma_entry_keeps_exclusion(s, i, c);
    let n = if i < s.len() && is_punct(s[i], ',') { i + 1 } else { i };
    if n < s.len() && is_ident(s[n]) && n + 2 <= s.len() {
        let v = n + 2;
        match bracket_list(s, v, Field::Include) {
            Ok((_, its)) => {
                lemma_files_nonempty(s, its);
            },
            _ => {},
        }
        match bracket_list(s, v, Field::Cases) {
            Ok((_, its)) => {
                lemma_cases_distinct(s, its);
            },
            _ => {},
        }
        match bracket_list(s, v, Field::Matrix) {
            Ok((_, its)) => {
                lemma_params_ok(s, its);
            },
            _ => {},
        }
    }
}

proof fn lemma_parse_from_wf(s: Seq<Tok>, i: int, c: ConfigV)
    requires
        config_wf(c),
    ensures
        parse_from(s, i, c) matches Ok(r) ==> config_wf(r),
    decreases s.len() + 1 - i,
{
    if 0 <= i <= s.len() {
        lemma_entry_keeps_wf(s, i, c);
        match entry(s, i, c) {
            Some(Ok((c2, j))) => {
                if j > i && j <= s.len() {
                    lemma_parse_from_wf(s, j, c2);
                }
            },
            _ => {},
        }
    }
}

/// Every configuration that an attribute is read as satisfies
/// `config_wf`.
pub proof fn lemma_config_wf(s: Seq<Tok>)
    ensures
        config_spec(s) matches Ok(c) ==> config_wf(c),
{
    lemma_parse_from_wf(s, 0, empty_config());
}

// ---------------------------------------------------------------------------
// Reading.

fn group_end(toks: &Vec<Tok>, lo: usize) -> (r: Option<usize>)
    requires
        lo < toks@.len() < i64::MAX,
    ensures
        match r {
            Some(e) => group_end_from(toks@, lo as int, lo + 1) == e as int && lo < e <= toks@.len(),
            None => group_end_from(toks@, lo as int, lo + 1) == -1,
        },
{
    let ghost s = toks@;
    let _n = toks.len();
    let mut j: usize = lo + 1;
    let mut d: i64 = depth_delta_of(&toks[lo]);
    assert(depth(s, lo as int, lo as int) == 0);
    assert(depth(s, lo as int, lo + 1) == depth_delta(s[lo as int]));
    while j < toks.len()
        invariant
            s == toks@,
            lo < j <= s.len(),
            s.len() < i64::MAX,
            d == depth(s, lo as int, j as int),
            -(j - lo) <= d <= j - lo,
            group_end_from(s, lo as int, lo + 1) == group_end_from(s, lo as int, j as int),
        decreases s.len() - j,
    {
        if d == 0 {
            return Some(j);
        }
        d = d + depth_delta_of(&toks[j]);
        j += 1;
    }
    if d == 0 {
        return Some(j);
    }
    assert(group_end_from(s, lo as int, j + 1) == -1);
    None
}

fn bracket_list_of(toks: &Vec<Tok>, v: usize, field: Field) -> (r: Result<(usize, Vec<Span>), ConfigError>)
    requires
        toks@.len() < i64::MAX,
    ensures
        match r {
            Ok((e, its)) => {
                &&& bracket_list(toks@, v as int, field) == Ok::<(int, Seq<(int, int)>), ConfigError>((e as int, spans_view(its@)))
                &&& v < e <= toks@.len()
                &&& forall|k: int| 0 <= k < its@.len() ==> v + 1 <= (#[trigger] its@[k]).start <= its@[k].end <= e - 1
            },
            Err(x) => bracket_list(toks@, v as int, field) == Err::<(int, Seq<(int, int)>), ConfigError>(x),
        },
{
    let opens = v < toks.len() && match &toks[v] {
        Tok::Open(Delim::Bracket) => true,
        _ => false,
    };
    if !opens {
        return Err(ConfigError::ExpectedArray { at: v, field });
    }
    match group_end(toks, v) {
        None => Err(ConfigError::ExpectedArray { at: v, field }),
        Some(e) => {
            let closes = e > v + 1 && match &toks[e - 1] {
                Tok::Close(Delim::Bracket) => true,
                _ => false,
            };
            if !closes {
                return Err(ConfigError::ExpectedArray { at: v, field });
            }
            let its = split_items(toks, v + 1, e - 1);
            Ok((e, its))
        },
    }
}

fn single_str_of(toks: &Vec<Tok>, p: Span) -> (r: Option<String>)
    requires
        p.start <= p.end <= toks@.len(),
    ensures
        opt_str(r) == single_str(toks@, p@),
{
    if p.end - p.start == 1 {
        match &toks[p.start] {
            Tok::Lit(LitKind::Str, v, _) => Some(v.clone()),
            _ => None,
        }
    } else {
        None
    }
}

fn is_group_of(toks: &Vec<Tok>, lo: usize, hi: usize, d: Delim) -> (r: bool)
    requires
        lo <= hi <= toks@.len() < i64::MAX,
    ensures
        r == is_group(toks@, lo as int, hi as int, d),
{
    let ghost s = toks@;
    if hi - lo < 2 {
        return false;
    }
    let open = match &toks[lo] {
        Tok::Open(x) => *x == d,
        _ => false,
    };
    let close = match &toks[hi - 1] {
        Tok::Close(x) => *x == d,
        _ => false,
    };
    if !open || !close {
        return false;
    }
    let mut dn: i64 = 1;
    let mut i: usize = lo + 1;
    assert(depth(s, lo as int, lo as int) == 0);
    assert(depth(s, lo as int, lo + 1) == 1);
    while i < hi
        invariant
            s == toks@,
            lo < i <= hi <= s.len() < i64::MAX,
            dn == depth(s, lo as int, i as int),
            -(i - lo) <= dn <= i - lo,
            forall|k: int| lo < k < i ==> #[trigger] depth(s, lo as int, k) >= 1,
        decreases hi - i,
    {
        if dn < 1 {
            return false;
        }
        dn = dn + depth_delta_of(&toks[i]);
        i += 1;
    }
    true
}

fn str_pair_of(toks: &Vec<Tok>, p: Span, field: Field) -> (r: Result<(String, String), ConfigError>)
    requires
        p.start + 2 <= p.end <= toks@.len() < i64::MAX,
    ensures
        match r {
            Ok((a, b)) => str_pair(toks@, p@, field) == Ok::<(Seq<char>, Seq<char>), ConfigError>((a@, b@)),
            Err(x) => str_pair(toks@, p@, field) == Err::<(Seq<char>, Seq<char>), ConfigError>(x),
        },
{
    let parts = split_items(toks, p.start + 1, p.end - 1);
    if parts.len() != 2 {
        return Err(ConfigError::TupleArity { at: p.start, field, found: parts.len() });
    }
    let a = match single_str_of(toks, parts[0]) {
        None => return Err(ConfigError::NotString { at: parts[0].start, field }),
        Some(a) => a,
    };
    let b = match single_str_of(toks, parts[1]) {
        None => return Err(ConfigError::NotString { at: parts[1].start, field }),
        Some(b) => b,
    };
    Ok((a, b))
}

fn include_elem_of(toks: &Vec<Tok>, p: Span) -> (r: Result<IncludeFile, ConfigError>)
    requires
        p.start <= p.end <= toks@.len() < i64::MAX,
    ensures
        match r {
            Ok(x) => include_elem(toks@, p@) == Ok::<IncludeV, ConfigError>(x@),
            Err(e) => include_elem(toks@, p@) == Err::<IncludeV, ConfigError>(e),
        },
{
    match single_str_of(toks, p) {
        Some(src) => {
            if src.as_str().is_empty() {
                Err(ConfigError::EmptyPath { at: p.start })
            } else {
                Ok(IncludeFile { source: src, dest: None })
            }
        },
        None => {
            if is_group_of(toks, p.start, p.end, Delim::Paren) {
                match str_pair_of(toks, p, Field::Include) {
                    Err(e) => Err(e),
                    Ok((a, b)) => {
                        if a.as_str().is_empty() {
                            Err(ConfigError::EmptyPath { at: p.start })
                        } else {
                            Ok(IncludeFile { source: a, dest: Some(b) })
                        }
                    },
                }
            } else {
                Err(ConfigError::BadElement { at: p.start, field: Field::Include })
            }
        },
    }
}

fn env_elem_of(toks: &Vec<Tok>, p: Span) -> (r: Result<EnvVar, ConfigError>)
    requires
        p.start <= p.end <= toks@.len() < i64::MAX,
    ensures
        match r {
            Ok(x) => env_elem(toks@, p@) == Ok::<EnvV, ConfigError>(x@),
            Err(e) => env_elem(toks@, p@) == Err::<EnvV, ConfigError>(e),
        },
{
    if is_group_of(toks, p.start, p.end, Delim::Paren) {
        match str_pair_of(toks, p, Field::Env) {
            Err(e) => Err(e),
            Ok((a, b)) => Ok(EnvVar { key: a, value: b }),
        }
    } else {
        Err(ConfigError::BadElement { at: p.start, field: Field::Env })
    }
}

fn named_group_of(toks: &Vec<Tok>, p: Span, d: Delim) -> (r: Option<String>)
    requires
        p.start <= p.end <= toks@.len() < i64::MAX,
    ensures
        named_group(toks@, p@, d) == (r is Some),
        r is Some ==> r->0@ == ident_text(toks@[p.start as int]),
{
    if p.end - p.start < 4 {
        return None;
    }
    let name = match &toks[p.start] {
        Tok::Ident(x) => x.clone(),
        _ => return None,
    };
    if !is_punct_tok(&toks[p.start + 1], ':') {
        return None;
    }
    if !is_group_of(toks, p.start + 2, p.end, d) {
        return None;
    }
    Some(name)
}

fn case_elem_of(toks: &Vec<Tok>, acc: &Vec<NamedCase>, p: Span) -> (r: Result<NamedCase, ConfigError>)
    requires
        p.start <= p.end <= toks@.len() < i64::MAX,
    ensures
        match r {
            Ok(x) => case_elem(toks@, cases_view(acc@), p@) == Ok::<CaseV, ConfigError>(x@),
            Err(e) => case_elem(toks@, cases_view(acc@), p@) == Err::<CaseV, ConfigError>(e),
        },
{
    let name = match named_group_of(toks, p, Delim::Paren) {
        None => return Err(ConfigError::CaseShape { at: p.start }),
        Some(n) => n,
    };
    let mut k: usize = 0;
    while k < acc.len()
        invariant
            k <= acc@.len(),
            p.start <= p.end <= toks@.len(),
            named_group(toks@, p@, Delim::Paren),
            name@ == ident_text(toks@[p.start as int]),
            forall|j: int| 0 <= j < k ==> (#[trigger] acc@[j]).name@ != name@,
        decreases acc@.len() - k,
    {
        if acc[k].name.eq(&name) {
            assert(cases_view(acc@)[k as int].0 == name@);
            assert(has_case(cases_view(acc@), ident_text(toks@[p.start as int])));
            assert(named_group(toks@, p@, Delim::Paren));
            return Err(ConfigError::DuplicateCase { at: p.start });
        }
        k += 1;
    }
    assert(!has_case(cases_view(acc@), name@)) by {
        assert forall|j: int| 0 <= j < cases_view(acc@).len() implies (#[trigger] cases_view(acc@)[j]).0 != name@ by {
            assert(cases_view(acc@)[j].0 == acc@[j].name@);
        }
    }
    Ok(NamedCase { name, args: Span { start: p.start + 2, end: p.end } })
}

fn param_elem_of(toks: &Vec<Tok>, acc: &Vec<MatrixParam>, p: Span) -> (r: Result<MatrixParam, ConfigError>)
    requires
        p.start <= p.end <= toks@.len() < i64::MAX,
    ensures
        match r {
            Ok(x) => param_elem(toks@, params_view(acc@), p@) == Ok::<ParamV, ConfigError>(x@),
            Err(e) => param_elem(toks@, params_view(acc@), p@) == Err::<ParamV, ConfigError>(e),
        },
{
    let name = match named_group_of(toks, p, Delim::Bracket) {
        None => return Err(ConfigError::MatrixShape { at: p.start }),
        Some(n) => n,
    };
    let values = split_items(toks, p.start + 3, p.end - 1);
    let mut k: usize = 0;
    while k < values.len()
        invariant
            k <= values@.len(),
            p.start <= p.end <= toks@.len(),
            named_group(toks@, p@, Delim::Bracket),
            spans_view(values@) == items(toks@, p.start + 3, p.end - 1),
            forall|j: int| 0 <= j < k ==> (#[trigger] spans_view(values@)[j]).0 < spans_view(values@)[j].1,
        decreases values@.len() - k,
    {
        if values[k].start >= values[k].end {
            assert(!no_empty_span(spans_view(values@))) by {
                assert(spans_view(values@)[k as int] == values@[k as int]@);
            }
            assert(spans_view(values@) == items(toks@, p.start + 3, p.end - 1));
            assert(!no_empty_span(items(toks@, p@.0 + 3, p@.1 - 1)));
            return Err(ConfigError::MatrixShape { at: p.start });
        }
        k += 1;
    }
    if values.len() == 0 {
        return Err(ConfigError::EmptyMatrixValues { at: p.start });
    }
    let mut k: usize = 0;
    while k < acc.len()
        invariant
            k <= acc@.len(),
            p.start <= p.end <= toks@.len(),
            named_group(toks@, p@, Delim::Bracket),
            name@ == ident_text(toks@[p.start as int]),
            spans_view(values@) == items(toks@, p.start + 3, p.end - 1),
            no_empty_span(spans_view(values@)),
            values@.len() > 0,
            forall|j: int| 0 <= j < k ==> (#[trigger] acc@[j]).name@ != name@,
        decreases acc@.len() - k,
    {
        if acc[k].name.eq(&name) {
            assert(params_view(acc@)[k as int].0 == name@);
            return Err(ConfigError::DuplicateParam { at: p.start });
        }
        k += 1;
    }
    assert(!has_param(params_view(acc@), name@)) by {
        assert forall|j: int| 0 <= j < params_view(acc@).len() implies (#[trigger] params_view(acc@)[j]).0 != name@ by {
            assert(params_view(acc@)[j].0 == acc@[j].name@);
        }
    }
    Ok(MatrixParam { name, values })
}

fn files_value(toks: &Vec<Tok>, v: usize, at: usize) -> (r: Result<(Vec<IncludeFile>, usize), ConfigError>)
    requires
        toks@.len() < i64::MAX,
    ensures
        match r {
            Ok((x, e)) => {
                &&& list_value(toks@, v as int, at as int, Field::Include, include_fn(toks@))
                    == Ok::<(Seq<IncludeV>, int), ConfigError>((includes_view(x@), e as int))
                &&& v < e <= toks@.len()
            },
            Err(err) => list_value(toks@, v as int, at as int, Field::Include, include_fn(toks@))
                == Err::<(Seq<IncludeV>, int), ConfigError>(err),
        },
{
    let (e, its) = match bracket_list_of(toks, v, Field::Include) {
        Err(x) => return Err(x),
        Ok(p) => p,
    };
    let ghost f = include_fn(toks@);
    let ghost sv = spans_view(its@);
    let mut out: Vec<IncludeFile> = Vec::new();
    let mut k: usize = 0;
    assert(sv.take(0) =~= Seq::<(int, int)>::empty());
    assert(includes_view(out@) =~= Seq::empty());
    while k < its.len()
        invariant
            k <= its@.len(),
            out@.len() == k,
            toks@.len() < i64::MAX,
            f == include_fn(toks@),
            sv == spans_view(its@),
            bracket_list(toks@, v as int, Field::Include) == Ok::<(int, Seq<(int, int)>), ConfigError>((e as int, sv)),
            forall|j: int| 0 <= j < its@.len() ==> v + 1 <= (#[trigger] its@[j]).start <= its@[j].end <= e - 1,
            e <= toks@.len(),
            fold_items(sv.take(k as int), f) == Ok::<Seq<IncludeV>, ConfigError>(includes_view(out@)),
        decreases its@.len() - k,
    {
        proof {
            lemma_fold_step(sv, f, k as int);
            assert(sv[k as int] == its@[k as int]@);
        }
        match include_elem_of(toks, its[k]) {
            Err(x) => {
                proof {
                    lemma_fold_err(sv, f, k + 1);
                }
                return Err(x);
            },
            Ok(y) => {
                let ghost prev = includes_view(out@);
                out.push(y);
                assert(includes_view(out@) =~= prev.push(out@[k as int]@));
            },
        }
        k += 1;
    }
    assert(sv.take(k as int) =~= sv);
    if out.len() == 0 {
        return Err(ConfigError::EmptyList { at, field: Field::Include });
    }
    Ok((out, e))
}

fn env_value(toks: &Vec<Tok>, v: usize, at: usize) -> (r: Result<(Vec<EnvVar>, usize), ConfigError>)
    requires
        toks@.len() < i64::MAX,
    ensures
        match r {
            Ok((x, e)) => {
                &&& list_value(toks@, v as int, at as int, Field::Env, env_fn(toks@))
                    == Ok::<(Seq<EnvV>, int), ConfigError>((envs_view(x@), e as int))
                &&& v < e <= toks@.len()
            },
            Err(err) => list_value(toks@, v as int, at as int, Field::Env, env_fn(toks@))
                == Err::<(Seq<EnvV>, int), ConfigError>(err),
        },
{
    let (e, its) = match bracket_list_of(toks, v, Field::Env) {
        Err(x) => return Err(x),
        Ok(p) => p,
    };
    let ghost f = env_fn(toks@);
    let ghost sv = spans_view(its@);
    let mut out: Vec<EnvVar> = Vec::new();
    let mut k: usize = 0;
    assert(sv.take(0) =~= Seq::<(int, int)>::empty());
    assert(envs_view(out@) =~= Seq::empty());
    while k < its.len()
        invariant
            k <= its@.len(),
            out@.len() == k,
            toks@.len() < i64::MAX,
            f == env_fn(toks@),
            sv == spans_view(its@),
            bracket_list(toks@, v as int, Field::Env) == Ok::<(int, Seq<(int, int)>), ConfigError>((e as int, sv)),
            forall|j: int| 0 <= j < its@.len() ==> v + 1 <= (#[trigger] its@[j]).start <= its@[j].end <= e - 1,
            e <= toks@.len(),
            fold_items(sv.take(k as int), f) == Ok::<Seq<EnvV>, ConfigError>(envs_view(out@)),
        decreases its@.len() - k,
    {
        proof {
            lemma_fold_step(sv, f, k as int);
            assert(sv[k as int] == its@[k as int]@);
        }
        match env_elem_of(toks, its[k]) {
            Err(x) => {
                proof {
                    lemma_fold_err(sv, f, k + 1);
                }
                return Err(x);
            },
            Ok(y) => {
                let ghost prev = envs_view(out@);
                out.push(y);
                assert(envs_view(out@) =~= prev.push(out@[k as int]@));
            },
        }
        k += 1;
    }
    assert(sv.take(k as int) =~= sv);
    if out.len() == 0 {
        return Err(ConfigError::EmptyList { at, field: Field::Env });
    }
    Ok((out, e))
}

fn cases_value(toks: &Vec<Tok>, v: usize, at: usize) -> (r: Result<(Vec<NamedCase>, usize), ConfigError>)
    requires
        toks@.len() < i64::MAX,
    ensures
        match r {
            Ok((x, e)) => {
                &&& list_value(toks@, v as int, at as int, Field::Cases, case_fn(toks@))
                    == Ok::<(Seq<CaseV>, int), ConfigError>((cases_view(x@), e as int))
                &&& v < e <= toks@.len()
            },
            Err(err) => list_value(toks@, v as int, at as int, Field::Cases, case_fn(toks@))
                == Err::<(Seq<CaseV>, int), ConfigError>(err),
        },
{
    let (e, its) = match bracket_list_of(toks, v, Field::Cases) {
        Err(x) => return Err(x),
        Ok(p) => p,
    };
    let ghost f = case_fn(toks@);
    let ghost sv = spans_view(its@);
    let mut out: Vec<NamedCase> = Vec::new();
    let mut k: usize = 0;
    assert(sv.take(0) =~= Seq::<(int, int)>::empty());
    assert(cases_view(out@) =~= Seq::empty());
    while k < its.len()
        invariant
            k <= its@.len(),
            out@.len() == k,
            toks@.len() < i64::MAX,
            f == case_fn(toks@),
            sv == spans_view(its@),
            bracket_list(toks@, v as int, Field::Cases) == Ok::<(int, Seq<(int, int)>), ConfigError>((e as int, sv)),
            forall|j: int| 0 <= j < its@.len() ==> v + 1 <= (#[trigger] its@[j]).start <= its@[j].end <= e - 1,
            e <= toks@.len(),
            fold_items(sv.take(k as int), f) == Ok::<Seq<CaseV>, ConfigError>(cases_view(out@)),
        decreases its@.len() - k,
    {
        proof {
            lemma_fold_step(sv, f, k as int);
            assert(sv[k as int] == its@[k as int]@);
        }
        match case_elem_of(toks, &out, its[k]) {
            Err(x) => {
                proof {
                    lemma_fold_err(sv, f, k + 1);
                }
                return Err(x);
            },
            Ok(y) => {
                let ghost prev = cases_view(out@);
                out.push(y);
                assert(cases_view(out@) =~= prev.push(out@[k as int]@));
            },
        }
        k += 1;
    }
    assert(sv.take(k as int) =~= sv);
    if out.len() == 0 {
        return Err(ConfigError::EmptyList { at, field: Field::Cases });
    }
    Ok((out, e))
}

fn matrix_value(toks: &Vec<Tok>, v: usize, at: usize) -> (r: Result<(Vec<MatrixParam>, usize), ConfigError>)
    requires
        toks@.len() < i64::MAX,
    ensures
        match r {
            Ok((x, e)) => {
                &&& list_value(toks@, v as int, at as int, Field::Matrix, param_fn(toks@))
                    == Ok::<(Seq<ParamV>, int), ConfigError>((params_view(x@), e as int))
                &&& v < e <= toks@.len()
            },
            Err(err) => list_value(toks@, v as int, at as int, Field::Matrix, param_fn(toks@))
                == Err::<(Seq<ParamV>, int), ConfigError>(err),
        },
{
    let (e, its) = match bracket_list_of(toks, v, Field::Matrix) {
        Err(x) => return Err(x),
        Ok(p) => p,
    };
    let ghost f = param_fn(toks@);
    let ghost sv = spans_view(its@);
    let mut out: Vec<MatrixParam> = Vec::new();
    let mut k: usize = 0;
    assert(sv.take(0) =~= Seq::<(int, int)>::empty());
    assert(params_view(out@) =~= Seq::empty());
    while k < its.len()
        invariant
            k <= its@.len(),
            out@.len() == k,
            toks@.len() < i64::MAX,
            f == param_fn(toks@),
            sv == spans_view(its@),
            bracket_list(toks@, v as int, Field::Matrix) == Ok::<(int, Seq<(int, int)>), ConfigError>((e as int, sv)),
            forall|j: int| 0 <= j < its@.len() ==> v + 1 <= (#[trigger] its@[j]).start <= its@[j].end <= e - 1,
            e <= toks@.len(),
            fold_items(sv.take(k as int), f) == Ok::<Seq<ParamV>, ConfigError>(params_view(out@)),
        decreases its@.len() - k,
    {
        proof {
            lemma_fold_step(sv, f, k as int);
            assert(sv[k as int] == its@[k as int]@);
        }
        match param_elem_of(toks, &out, its[k]) {
            Err(x) => {
                proof {
                    lemma_fold_err(sv, f, k + 1);
                }
                return Err(x);
            },
            Ok(y) => {
                let ghost prev = params_view(out@);
                out.push(y);
                assert(params_view(out@) =~= prev.push(out@[k as int]@));
            },
        }
        k += 1;
    }
    assert(sv.take(k as int) =~= sv);
    if out.len() == 0 {
        return Err(ConfigError::EmptyList { at, field: Field::Matrix });
    }
    Ok((out, e))
}

fn expr_value_of(toks: &Vec<Tok>, v: usize, at: usize, field: Field) -> (r: Result<Span, ConfigError>)
    requires
        toks@.len() < i64::MAX,
    ensures
        match r {
            Ok(x) => expr_value(toks@, v as int, at as int, field) == Ok::<(int, int), ConfigError>(x@)
                && v < x.end <= toks@.len() && x.start == v,
            Err(e) => expr_value(toks@, v as int, at as int, field) == Err::<(int, int), ConfigError>(e),
        },
{
    let ghost s = toks@;
    let n = toks.len();
    if v >= n {
        return Err(ConfigError::ExpectedValue { at, field });
    }
    let mut i: usize = v;
    let mut d: i64 = 0;
    while i < n && !(d == 0 && is_punct_tok(&toks[i], ','))
        invariant
            s == toks@,
            n == s.len() < i64::MAX,
            v <= i <= n,
            d == depth(s, v as int, i as int),
            -(i - v) <= d <= i - v,
            next_comma(s, v as int, n as int, v as int) == next_comma(s, v as int, n as int, i as int),
        decreases n - i,
    {
        assert(!is_top_comma(s, v as int, i as int));
        assert(next_comma(s, v as int, n as int, i as int) == next_comma(s, v as int, n as int, i + 1));
        d = d + depth_delta_of(&toks[i]);
        i += 1;
    }
    if i < n {
        assert(is_top_comma(s, v as int, i as int));
    }
    assert(next_comma(s, v as int, n as int, v as int) == i);
    if i == v {
        return Err(ConfigError::ExpectedValue { at, field });
    }
    Ok(Span { start: v, end: i })
}

fn timeout_value_of(toks: &Vec<Tok>, v: usize) -> (r: Result<u64, ConfigError>)
    ensures
        match r {
            Ok(x) => timeout_value(toks@, v as int) == Ok::<u64, ConfigError>(x) && v < toks@.len(),
            Err(e) => timeout_value(toks@, v as int) == Err::<u64, ConfigError>(e),
        },
{
    if v >= toks.len() {
        return Err(ConfigError::ExpectedString { at: v, field: Field::Timeout });
    }
    match &toks[v] {
        Tok::Lit(LitKind::Str, text, _) => match parse_duration(text.as_str()) {
            Ok(ms) => Ok(ms),
            Err(_) => Err(ConfigError::BadDuration { at: v }),
        },
        _ => Err(ConfigError::ExpectedString { at: v, field: Field::Timeout }),
    }
}

fn retries_value_of(toks: &Vec<Tok>, v: usize) -> (r: Result<u32, ConfigError>)
    ensures
        match r {
            Ok(x) => retries_value(toks@, v as int) == Ok::<u32, ConfigError>(x) && v < toks@.len(),
            Err(e) => retries_value(toks@, v as int) == Err::<u32, ConfigError>(e),
        },
{
    if v >= toks.len() {
        return Err(ConfigError::ExpectedInteger { at: v, field: Field::Retries });
    }
    match &toks[v] {
        Tok::Lit(LitKind::Int, digits, _) => {
            let cs = chars_of(digits.as_str());
            match decimal_value(&cs) {
                None => Err(ConfigError::RetriesTooLarge { at: v }),
                Some(n) => {
                    if n > u32::MAX as u64 {
                        Err(ConfigError::RetriesTooLarge { at: v })
                    } else if n == 0 {
                        Err(ConfigError::RetriesZero { at: v })
                    } else {
                        Ok(n as u32)
                    }
                },
            }
        },
        _ => Err(ConfigError::ExpectedInteger { at: v, field: Field::Retries }),
    }
}

/// The field that `name` names, if any.
pub fn field_named(name: &String) -> (r: Option<Field>)
    ensures
        r == field_of(name@),
{
    let cs = chars_of(name.as_str());
    if chars_equal(&cs, "include") {
        Some(Field::Include)
    } else if chars_equal(&cs, "env") {
        Some(Field::Env)
    } else if chars_equal(&cs, "setup") {
        Some(Field::Setup)
    } else if chars_equal(&cs, "teardown") {
        Some(Field::Teardown)
    } else if chars_equal(&cs, "timeout") {
        Some(Field::Timeout)
    } else if chars_equal(&cs, "retries") {
        Some(Field::Retries)
    } else if chars_equal(&cs, "cases") {
        Some(Field::Cases)
    } else if chars_equal(&cs, "matrix") {
        Some(Field::Matrix)
    } else {
        None
    }
}

/// The field to suggest for the unknown field name `name`, if it is a
/// common misspelling or synonym of one.
pub fn suggest_field(name: &String) -> (r: Option<Field>)
    ensures
        r == suggestion_of(name@),
{
    let cs = chars_of(name.as_str());
    if chars_equal(&cs, "includes") {
        Some(Field::Include)
    } else if chars_equal(&cs, "envs") || chars_equal(&cs, "environment") {
        Some(Field::Env)
    } else if chars_equal(&cs, "set_up") || chars_equal(&cs, "before") || chars_equal(&cs, "before_each") {
        Some(Field::Setup)
    } else if chars_equal(&cs, "tear_down") || chars_equal(&cs, "after") || chars_equal(&cs, "after_each") || chars_equal(&cs, "cleanup") {
        Some(Field::Teardown)
    } else if chars_equal(&cs, "time") || chars_equal(&cs, "time_out") || chars_equal(&cs, "timelimit") || chars_equal(&cs, "time_limit") {
        Some(Field::Timeout)
    } else if chars_equal(&cs, "retry") || chars_equal(&cs, "attempts") || chars_equal(&cs, "tries") || chars_equal(&cs, "repeat") || chars_equal(&cs, "flaky") {
        Some(Field::Retries)
    } else if chars_equal(&cs, "case") || chars_equal(&cs, "params") || chars_equal(&cs, "parameters") || chars_equal(&cs, "test_cases") {
        Some(Field::Cases)
    } else if chars_equal(&cs, "values") || chars_equal(&cs, "combinations") || chars_equal(&cs, "cartesian") || chars_equal(&cs, "parametrize") {
        Some(Field::Matrix)
    } else {
        None
    }
}

fn is_marker_name(name: &String) -> (r: bool)
    ensures
        r == is_marker(name@),
{
    let cs = chars_of(name.as_str());
    chars_equal(&cs, "ignore") || chars_equal(&cs, "should_panic")
}

impl Configuration {
    pub fn has(&self, f: Field) -> (r: bool)
        ensures
            r == has_field(self@, f),
    {
        match f {
            Field::Include => self.files.is_some(),
            Field::Env => self.env.is_some(),
            Field::Setup => self.setup.is_some(),
            Field::Teardown => self.teardown.is_some(),
            Field::Timeout => self.timeout.is_some(),
            Field::Retries => self.retries.is_some(),
            Field::Cases => self.cases.is_some(),
            Field::Matrix => self.matrix.is_some(),
        }
    }
}

/// Reads the tokens of an attribute as a configuration: entries `name` or
/// `name = value`, each after at most one comma, every field at most once,
/// never both `cases` and `matrix`.
pub fn parse_config(toks: &Vec<Tok>) -> (r: Result<Configuration, ConfigError>)
    requires
        toks@.len() < i64::MAX,
    ensures
        match r {
            Ok(c) => config_spec(toks@) == Ok::<ConfigV, ConfigError>(c@) && config_wf(c@),
            Err(e) => config_spec(toks@) == Err::<ConfigV, ConfigError>(e),
        },
{
    proof {
        lemma_config_wf(toks@);
    }
    let ghost s = toks@;
    let len = toks.len();
    let mut c = Configuration {
        files: None,
        env: None,
        setup: None,
        teardown: None,
        timeout: None,
        retries: None,
        cases: None,
        matrix: None,
    };
    assert(c@ == empty_config());
    let mut i: usize = 0;
    loop
        invariant
            s == toks@,
            len == s.len() < i64::MAX,
            i <= len,
            config_spec(s) == parse_from(s, i as int, c@),
            config_spec(s) matches Ok(x) ==> config_wf(x),
        decreases len - i,
    {
        let n = if i < len && is_punct_tok(&toks[i], ',') { i + 1 } else { i };
        if n >= len {
            return Ok(c);
        }
        let name = match &toks[n] {
            Tok::Ident(x) => x,
            _ => return Err(ConfigError::ExpectedName { at: n }),
        };
        let f = match field_named(name) {
            None => {
                if is_marker_name(name) {
                    return Err(ConfigError::MarkerField { at: n });
                } else {
                    return Err(ConfigError::UnknownField { at: n });
                }
            },
            Some(f) => f,
        };
        if c.has(f) {
            return Err(ConfigError::DuplicateField { at: n, field: f });
        }
        if (f == Field::Cases && c.matrix.is_some()) || (f == Field::Matrix && c.cases.is_some()) {
            return Err(ConfigError::Exclusive { at: n });
        }
        if !(n + 1 < len && is_punct_tok(&toks[n + 1], '=')) {
            return Err(ConfigError::ExpectedEquals { at: n, field: f });
        }
        let v = n + 2;
        let ghost before = c@;
        let next: usize;
        match f {
            Field::Include => match files_value(toks, v, n) {
                Err(e) => return Err(e),
                Ok((x, e)) => {
                    c.files = Some(x);
                    next = e;
                },
            },
            Field::Env => match env_value(toks, v, n) {
                Err(e) => return Err(e),
                Ok((x, e)) => {
                    c.env = Some(x);
                    next = e;
                },
            },
            Field::Cases => match cases_value(toks, v, n) {
                Err(e) => return Err(e),
                Ok((x, e)) => {
                    c.cases = Some(x);
                    next = e;
                },
            },
            Field::Matrix => match matrix_value(toks, v, n) {
                Err(e) => return Err(e),
                Ok((x, e)) => {
                    c.matrix = Some(x);
                    next = e;
                },
            },
            Field::Setup => match expr_value_of(toks, v, n, f) {
                Err(e) => return Err(e),
                Ok(x) => {
                    c.setup = Some(x);
                    next = x.end;
                },
            },
            Field::Teardown => match expr_value_of(toks, v, n, f) {
                Err(e) => return Err(e),
                Ok(x) => {
                    c.teardown = Some(x);
                    next = x.end;
                },
            },
            Field::Timeout => match timeout_value_of(toks, v) {
                Err(e) => return Err(e),
                Ok(x) => {
                    c.timeout = Some(x);
                    next = v + 1;
                },
            },
            Field::Retries => match retries_value_of(toks, v) {
                Err(e) => return Err(e),
                Ok(x) => {
                    c.retries = Some(x);
                    next = v + 1;
                },
            },
        }
        assert(apply_field(s, before, f, v as int, n as int) == Ok::<(ConfigV, int), ConfigError>((c@, next as int)));
        i = next;
    }
}

} // verus!
