//! From a configuration and the signature of the annotated function to the
//! test instances to generate.

use vstd::prelude::*;
use crate::config::{params_view, cases_view, CaseV, ConfigV, Configuration, ParamV};
use crate::ident::{component, expr_to_ident_component};
use crate::product::{cartesian_product, index_tuples, lemma_product_shape, list_lens};
use crate::text::{decimal, decimal_chars, push_all, push_str, chars_of, string_of};
use crate::token::{spans_view, Span, Tok};

verus! {

/// How an instance binds the function's parameters: not at all, by
/// destructuring one tuple into all of them, or one value each.
pub enum Bindings {
    Plain,
    Destructure(Span),
    Each(Vec<Span>),
}

pub enum BindingsV {
    Plain,
    Destructure((int, int)),
    Each(Seq<(int, int)>),
}

impl Bindings {
    pub open spec fn view(&self) -> BindingsV {
        match self {
            Bindings::Plain => BindingsV::Plain,
            Bindings::Destructure(s) => BindingsV::Destructure(s@),
            Bindings::Each(v) => BindingsV::Each(spans_view(v@)),
        }
    }
}

/// One generated test: its name and its parameter bindings.
pub struct Instance {
    pub name: String,
    pub bindings: Bindings,
}

pub type InstanceV = (Seq<char>, BindingsV);

impl Instance {
    pub open spec fn view(&self) -> InstanceV {
        (self.name@, self.bindings@)
    }
}

pub open spec fn instances_view(v: Seq<Instance>) -> Seq<InstanceV> {
    v.map_values(|x: Instance| x@)
}

/// Why a matrix does not fit the function.
#[derive(Clone, Copy, PartialEq, Eq, Structural, Debug)]
pub enum ResolveError {
    /// The matrix has `matrix` parameters and the function `function`.
    CountMismatch { matrix: usize, function: usize },
    /// The parameter at `index` is named differently in the matrix.
    NameMismatch { index: usize },
}

/// `parts` joined by `_`.
pub open spec fn join_underscore(parts: Seq<Seq<char>>) -> Seq<char>
    decreases parts.len(),
{
    if parts.len() == 0 {
        Seq::empty()
    } else if parts.len() == 1 {
        parts[0]
    } else {
        join_underscore(parts.drop_last()) + "_"@ + parts.last()
    }
}

/// The name fragment of the value at position `j` of a combination: the
/// literal's fragment, else the position.
pub open spec fn fragment(s: Seq<Tok>, v: (int, int), j: int) -> Seq<char> {
    match component(s, v.0, v.1) {
        Some(c) => c,
        None => decimal(j as nat),
    }
}

/// The value spans of combination `i` of the matrix `m`.
pub open spec fn combo(m: Seq<ParamV>, i: int) -> Seq<(int, int)> {
    let t = index_tuples(m.map_values(|p: ParamV| p.1.len()));
    Seq::new(m.len(), |j: int| m[j].1[t[i][j]])
}

pub open spec fn matrix_instance(s: Seq<Tok>, fname: Seq<char>, m: Seq<ParamV>, i: int) -> InstanceV {
    let vals = combo(m, i);
    (
        fname + "_"@ + join_underscore(Seq::new(vals.len(), |j: int| fragment(s, vals[j], j))),
        BindingsV::Each(vals),
    )
}

pub open spec fn case_instance(fname: Seq<char>, nparams: nat, c: CaseV) -> InstanceV {
    (fname + "_"@ + c.0, if nparams == 0 { BindingsV::Plain } else { BindingsV::Destructure(c.1) })
}

/// The first position at which the matrix and the function name their
/// parameters differently, if any.
pub open spec fn first_mismatch(m: Seq<ParamV>, params: Seq<Seq<char>>, j: int) -> Option<int>
    decreases m.len() - j,
{
    if j >= m.len() || j < 0 {
        None
    } else if m[j].0 != params[j] {
        Some(j)
    } else {
        first_mismatch(m, params, j + 1)
    }
}

/// The instances that configuration `c` asks for, for a function named
/// `fname` with parameters `params`.
pub open spec fn instances_spec(s: Seq<Tok>, c: ConfigV, fname: Seq<char>, params: Seq<Seq<char>>) -> Result<Seq<InstanceV>, ResolveError> {
    match c.cases {
        Some(cs) => Ok(Seq::new(cs.len(), |i: int| case_instance(fname, params.len(), cs[i]))),
        None => match c.matrix {
            None => Ok(seq![(fname, BindingsV::Plain)]),
            Some(m) => if m.len() != params.len() {
                Err(ResolveError::CountMismatch { matrix: m.len() as usize, function: params.len() as usize })
            } else {
                match first_mismatch(m, params, 0) {
                    Some(j) => Err(ResolveError::NameMismatch { index: j as usize }),
                    None => {
                        let n = index_tuples(m.map_values(|p: ParamV| p.1.len())).len();
                        Ok(Seq::new(n, |i: int| matrix_instance(s, fname, m, i)))
                    },
                }
            },
        },
    }
}

pub open spec fn names_view(v: Seq<String>) -> Seq<Seq<char>> {
    v.map_values(|x: String| x@)
}

/// `fname` followed by `_` and `suffix`.
fn suffixed(fname: &String, suffix: &Vec<char>) -> (r: String)
    ensures
        r@ == fname@ + "_"@ + suffix@,
{
    let mut out = chars_of(fname.as_str());
    push_str(&mut out, "_");
    push_all(&mut out, suffix);
    string_of(&out)
}

/// The name of the instance for one matrix combination.
fn combo_name(toks: &Vec<Tok>, fname: &String, vals: &Vec<Span>) -> (r: String)
    ensures
        r@ == fname@ + "_"@ + join_underscore(
            Seq::new(vals@.len(), |j: int| fragment(toks@, spans_view(vals@)[j], j)),
        ),
{
    let ghost parts = Seq::new(vals@.len(), |j: int| fragment(toks@, spans_view(vals@)[j], j));
    let mut out: Vec<char> = Vec::new();
    let mut j: usize = 0;
    assert(parts.take(0) =~= Seq::<Seq<char>>::empty());
    while j < vals.len()
        invariant
            j <= vals@.len(),
            parts == Seq::new(vals@.len(), |j: int| fragment(toks@, spans_view(vals@)[j], j)),
            out@ == join_underscore(parts.take(j as int)),
        decreases vals@.len() - j,
    {
        let frag = match expr_to_ident_component(toks, vals[j]) {
            Some(c) => chars_of(c.as_str()),
            None => decimal_chars(j as u64),
        };
        assert(spans_view(vals@)[j as int] == vals@[j as int]@);
        assert(frag@ == parts[j as int]);
        assert(parts.take(j + 1).drop_last() =~= parts.take(j as int));
        if j > 0 {
            push_str(&mut out, "_");
        } else {
            assert(out@ =~= Seq::<char>::empty());
        }
        push_all(&mut out, &frag);
        j += 1;
    }
    assert(parts.take(j as int) =~= parts);
    suffixed(fname, &out)
}

fn span_refs(v: &Vec<Span>) -> (r: Vec<&Span>)
    ensures
        r@ == v@.map_values(|x: Span| &x),
{
    let mut r: Vec<&Span> = Vec::new();
    let mut i: usize = 0;
    while i < v.len()
        invariant
            i <= v@.len(),
            r@ == v@.subrange(0, i as int).map_values(|x: Span| &x),
        decreases v@.len() - i,
    {
        r.push(&v[i]);
        i += 1;
        assert(r@ =~= v@.subrange(0, i as int).map_values(|x: Span| &x));
    }
    assert(v@.subrange(0, i as int) =~= v@);
    r
}

fn deref_spans(v: &Vec<&Span>) -> (r: Vec<Span>)
    ensures
        r@.len() == v@.len(),
        forall|k: int| 0 <= k < v@.len() ==> r@[k] == *v@[k],
{
    let mut r: Vec<Span> = Vec::new();
    let mut i: usize = 0;
    while i < v.len()
        invariant
            i <= v@.len(),
            r@.len() == i,
            forall|k: int| 0 <= k < i ==> r@[k] == *v@[k],
        decreases v@.len() - i,
    {
        r.push(*v[i]);
        i += 1;
    }
    r
}

/// The test instances for an annotated function named `fn_name` with
/// parameters `params`: one per case, one per matrix combination (in
/// odometer order, after checking that the matrix names the parameters in
/// order), or the function alone.
pub fn resolve(toks: &Vec<Tok>, config: &Configuration, fn_name: &String, params: &Vec<String>) -> (r: Result<Vec<Instance>, ResolveError>)
    ensures
        match r {
            Ok(v) => instances_spec(toks@, config@, fn_name@, names_view(params@)) == Ok::<Seq<InstanceV>, ResolveError>(instances_view(v@)),
            Err(e) => instances_spec(toks@, config@, fn_name@, names_view(params@)) == Err::<Seq<InstanceV>, ResolveError>(e),
        },
{
    let ghost pv = names_view(params@);
    match &config.cases {
        Some(cs) => {
            let ghost cv = cases_view(cs@);
            let mut out: Vec<Instance> = Vec::new();
            let mut i: usize = 0;
            while i < cs.len()
                invariant
                    i <= cs@.len(),
                    cv == cases_view(cs@),
                    pv == names_view(params@),
                    out@.len() == i,
                    forall|k: int| 0 <= k < i ==> (#[trigger] out@[k])@ == case_instance(fn_name@, pv.len(), cv[k]),
                decreases cs@.len() - i,
            {
                let name_chars = chars_of(cs[i].name.as_str());
                let name = suffixed(fn_name, &name_chars);
                let bindings = if params.len() == 0 {
                    Bindings::Plain
                } else {
                    Bindings::Destructure(cs[i].args)
                };
                out.push(Instance { name, bindings });
                i += 1;
            }
            assert(instances_view(out@) =~= Seq::new(cv.len(), |i: int| case_instance(fn_name@, pv.len(), cv[i])));
            Ok(out)
        },
        None => match &config.matrix {
            None => {
                let mut out: Vec<Instance> = Vec::new();
                out.push(Instance { name: fn_name.clone(), bindings: Bindings::Plain });
                assert(instances_view(out@) =~= seq![(fn_name@, BindingsV::Plain)]);
                Ok(out)
            },
            Some(m) => {
                let ghost mv = params_view(m@);
                if m.len() != params.len() {
                    return Err(ResolveError::CountMismatch { matrix: m.len(), function: params.len() });
                }
                let mut j: usize = 0;
                while j < m.len()
                    invariant
                        j <= m@.len() == params@.len(),
                        config@.cases is None,
                        config@.matrix == Some(mv),
                        mv == params_view(m@),
                        pv == names_view(params@),
                        first_mismatch(mv, pv, 0) == first_mismatch(mv, pv, j as int),
                    decreases m@.len() - j,
                {
                    assert(mv[j as int].0 == m@[j as int].name@);
                    assert(pv[j as int] == params@[j as int]@);
                    if !m[j].name.eq(&params[j]) {
                        return Err(ResolveError::NameMismatch { index: j });
                    }
                    j += 1;
                }
                let mut lists: Vec<Vec<&Span>> = Vec::new();
                let mut j: usize = 0;
                while j < m.len()
                    invariant
                        j <= m@.len(),
                        lists@.len() == j,
                        forall|k: int| 0 <= k < j ==> (#[trigger] lists@[k])@ == m@[k].values@.map_values(|x: Span| &x),
                    decreases m@.len() - j,
                {
                    lists.push(span_refs(&m[j].values));
                    j += 1;
                }
                let combos = cartesian_product(lists.as_slice());
                let ghost lens = mv.map_values(|p: ParamV| p.1.len());
                assert(list_lens(lists@) =~= lens);
                proof {
                    lemma_product_shape(lens);
                }
                let ghost t = index_tuples(lens);
                let mut out: Vec<Instance> = Vec::new();
                let mut i: usize = 0;
                while i < combos.len()
                    invariant
                        i <= combos@.len() == t.len(),
                        t == index_tuples(lens),
                        lens == mv.map_values(|p: ParamV| p.1.len()),
                        list_lens(lists@) == lens,
                        mv == params_view(m@),
                        lists@.len() == m@.len(),
                        forall|k: int| 0 <= k < m@.len() ==> (#[trigger] lists@[k])@ == m@[k].values@.map_values(|x: Span| &x),
                        forall|q: int| 0 <= q < combos@.len() ==> (#[trigger] combos@[q])@.len() == lists@.len(),
                        forall|q: int, k: int|
                            0 <= q < combos@.len() && 0 <= k < lists@.len() ==> cloned(
                                lists@[k]@[t[q][k]],
                                #[trigger] combos@[q]@[k],
                            ),
                        out@.len() == i,
                        forall|q: int| 0 <= q < i ==> (#[trigger] out@[q])@ == matrix_instance(toks@, fn_name@, mv, q),
                    decreases combos@.len() - i,
                {
                    let vals = deref_spans(&combos[i]);
                    let ghost cb = combo(mv, i as int);
                    assert(spans_view(vals@) =~= cb) by {
                        lemma_product_shape(lens);
                        assert(t[i as int].len() == lens.len());
                        assert forall|k: int| 0 <= k < cb.len() implies spans_view(vals@)[k] == cb[k] by {
                            let x = t[i as int][k];
                            assert(0 <= x < lens[k]);
                            assert(lens[k] == mv[k].1.len());
                            assert(mv[k].1 == spans_view(m@[k].values@));
                            assert(lists@[k]@[x] == &m@[k].values@[x]);
                            assert(cloned(lists@[k]@[x], combos@[i as int]@[k]));
                            assert(combos@[i as int]@[k] == lists@[k]@[x]);
                            assert(vals@[k] == *combos@[i as int]@[k]);
                        }
                    }
                    let name = combo_name(toks, fn_name, &vals);
                    out.push(Instance { name, bindings: Bindings::Each(vals) });
                    i += 1;
                }
                assert(instances_view(out@) =~= Seq::new(t.len(), |i: int| matrix_instance(toks@, fn_name@, mv, i)));
                Ok(out)
            },
        },
    }
}

} // verus!
