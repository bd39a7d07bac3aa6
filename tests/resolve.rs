use assay::config::parse_config;
use assay::resolve::{resolve, Bindings, Instance, ResolveError};
use assay::token::{Delim, LitKind, Tok};

/// Tokens of a small attribute text: identifiers, decimal integers,
/// strings without escapes, brackets and single punctuation.
fn lex(src: &str) -> Vec<Tok> {
    let cs: Vec<char> = src.chars().collect();
    let mut out = Vec::new();
    let mut i = 0;
    while i < cs.len() {
        let c = cs[i];
        if c.is_whitespace() {
            i += 1;
        } else if c.is_ascii_alphabetic() || c == '_' {
            let s = i;
            while i < cs.len() && (cs[i].is_ascii_alphanumeric() || cs[i] == '_') {
                i += 1;
            }
            out.push(Tok::Ident(cs[s..i].iter().collect()));
        } else if c.is_ascii_digit() {
            let s = i;
            while i < cs.len() && cs[i].is_ascii_digit() {
                i += 1;
            }
            let d: String = cs[s..i].iter().collect();
            out.push(Tok::Lit(LitKind::Int, d.clone(), d));
        } else if c == '"' {
            let s = i + 1;
            i += 1;
            while cs[i] != '"' {
                i += 1;
            }
            let v: String = cs[s..i].iter().collect();
            out.push(Tok::Lit(LitKind::Str, v.clone(), format!("\"{}\"", v)));
            i += 1;
        } else {
            out.push(match c {
                '(' => Tok::Open(Delim::Paren),
                ')' => Tok::Close(Delim::Paren),
                '[' => Tok::Open(Delim::Bracket),
                ']' => Tok::Close(Delim::Bracket),
                '{' => Tok::Open(Delim::Brace),
                '}' => Tok::Close(Delim::Brace),
                p => Tok::Punct(p, false),
            });
            i += 1;
        }
    }
    out
}

fn instances(src: &str, name: &str, params: &[&str]) -> (Vec<Tok>, Result<Vec<Instance>, ResolveError>) {
    let toks = lex(src);
    let config = parse_config(&toks).ok().unwrap();
    let params: Vec<String> = params.iter().map(|p| p.to_string()).collect();
    let r = resolve(&toks, &config, &name.to_string(), &params);
    (toks, r)
}

fn text(toks: &[Tok]) -> String {
    toks.iter()
        .map(|t| match t {
            Tok::Ident(s) => s.clone(),
            Tok::Lit(_, _, raw) => raw.clone(),
            Tok::Punct(c, _) => c.to_string(),
            Tok::Open(Delim::Paren) => "(".to_string(),
            Tok::Close(Delim::Paren) => ")".to_string(),
            Tok::Open(_) => "[".to_string(),
            Tok::Close(_) => "]".to_string(),
        })
        .collect::<Vec<_>>()
        .join("")
}

#[test]
fn matrix_gives_every_combination() {
    let (toks, r) = instances("matrix = [a: [1, 2], b: [10, 20]]", "sum", &["a", "b"]);
    let r = r.unwrap();
    let names: Vec<&str> = r.iter().map(|i| i.name.as_str()).collect();
    assert_eq!(names, vec!["sum_1_10", "sum_1_20", "sum_2_10", "sum_2_20"]);
    let values: Vec<Vec<String>> = r
        .iter()
        .map(|i| match &i.bindings {
            Bindings::Each(v) => v.iter().map(|s| text(&toks[s.start..s.end])).collect(),
            _ => panic!("matrix instances bind each parameter"),
        })
        .collect();
    assert_eq!(values, vec![vec!["1", "10"], vec!["1", "20"], vec!["2", "10"], vec!["2", "20"]]);
}

#[test]
fn cases_give_one_instance_each() {
    let (toks, r) = instances("cases = [positive: (2, 3, 5), zeros: (0, 0, 0)]", "add", &["a", "b", "c"]);
    let r = r.unwrap();
    assert_eq!(r.len(), 2);
    assert_eq!(r[0].name, "add_positive");
    assert_eq!(r[1].name, "add_zeros");
    match &r[0].bindings {
        Bindings::Destructure(s) => assert_eq!(text(&toks[s.start..s.end]), "(2,3,5)"),
        _ => panic!("cases destructure their tuple"),
    }
    match &r[1].bindings {
        Bindings::Destructure(s) => assert_eq!(text(&toks[s.start..s.end]), "(0,0,0)"),
        _ => panic!("cases destructure their tuple"),
    }
}

#[test]
fn cases_of_a_function_without_parameters_bind_nothing() {
    let (_, r) = instances("cases = [one: (1,)]", "f", &[]);
    let r = r.unwrap();
    assert_eq!(r[0].name, "f_one");
    assert!(matches!(r[0].bindings, Bindings::Plain));
}

#[test]
fn plain_test_is_one_instance() {
    let (_, r) = instances(r#"timeout = "1s""#, "works", &[]);
    let r = r.unwrap();
    assert_eq!(r.len(), 1);
    assert_eq!(r[0].name, "works");
    assert!(matches!(r[0].bindings, Bindings::Plain));
}

#[test]
fn matrix_must_name_parameters_in_order() {
    let (_, r) = instances("matrix = [a: [1], b: [2]]", "f", &["b", "a"]);
    assert_eq!(r.err(), Some(ResolveError::NameMismatch { index: 0 }));
    let (_, r) = instances("matrix = [a: [1], b: [2]]", "f", &["a", "c"]);
    assert_eq!(r.err(), Some(ResolveError::NameMismatch { index: 1 }));
    let (_, r) = instances("matrix = [a: [1]]", "f", &["a", "b"]);
    assert_eq!(r.err(), Some(ResolveError::CountMismatch { matrix: 1, function: 2 }));
}

#[test]
fn matrix_names_fall_back_to_positions() {
    let (_, r) = instances(r#"matrix = [x: [-5, "foo-bar", true], y: [z, ""]]"#, "t", &["x", "y"]);
    let names: Vec<String> = r.unwrap().into_iter().map(|i| i.name).collect();
    assert_eq!(names, vec!["t_neg5_1", "t_neg5_1", "t_foo_bar_1", "t_foo_bar_1", "t_true_1", "t_true_1"]);
}
