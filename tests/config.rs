use assay::config::{parse_config, suggest_field, ConfigError, Configuration, Field};
use assay::token::{Delim, LitKind, Tok};

/// Tokens of a small attribute text: identifiers, decimal integers,
/// strings without escapes, brackets and single punctuation.
fn lex(src: &str) -> Vec<Tok> {
    let cs: Vec<char> = src.chars().collect();
    let mut out = Vec::new();
    let mut i = 0;
    while i < cs.len() {
        let c = cs[i];
        if c.is_whitespace() {
            i += 1;
        } else if c.is_ascii_alphabetic() || c == '_' {
            let s = i;
            while i < cs.len() && (cs[i].is_ascii_alphanumeric() || cs[i] == '_') {
                i += 1;
            }
            out.push(Tok::Ident(cs[s..i].iter().collect()));
        } else if c.is_ascii_digit() {
            let s = i;
            while i < cs.len() && cs[i].is_ascii_digit() {
                i += 1;
            }
            let d: String = cs[s..i].iter().collect();
            out.push(Tok::Lit(LitKind::Int, d.clone(), d));
        } else if c == '"' {
            let s = i + 1;
            i += 1;
            while cs[i] != '"' {
                i += 1;
            }
            let v: String = cs[s..i].iter().collect();
            out.push(Tok::Lit(LitKind::Str, v.clone(), format!("\"{}\"", v)));
            i += 1;
        } else {
            out.push(match c {
                '(' => Tok::Open(Delim::Paren),
                ')' => Tok::Close(Delim::Paren),
                '[' => Tok::Open(Delim::Bracket),
                ']' => Tok::Close(Delim::Bracket),
                '{' => Tok::Open(Delim::Brace),
                '}' => Tok::Close(Delim::Brace),
                p => Tok::Punct(p, false),
            });
            i += 1;
        }
    }
    out
}

fn parse(src: &str) -> Result<Configuration, ConfigError> {
    parse_config(&lex(src))
}

#[test]
fn empty_attribute_sets_nothing() {
    let c = parse("").unwrap();
    assert!(c.files.is_none() && c.env.is_none() && c.setup.is_none() && c.teardown.is_none());
    assert!(c.timeout.is_none() && c.retries.is_none() && c.cases.is_none() && c.matrix.is_none());
}

#[test]
fn cases_and_matrix_exclude_each_other_in_either_order() {
    let e = parse("cases = [a: (1,)], matrix = [x: [1]]").err().unwrap();
    assert_eq!(e, ConfigError::Exclusive { at: 11 });
    let e = parse("matrix = [x: [1]], cases = [a: (1,)]").err().unwrap();
    assert_eq!(e, ConfigError::Exclusive { at: 10 });
}

#[test]
fn files_in_both_forms() {
    let c = parse(r#"include = ["Cargo.toml", ("src/data.json", "config/data.json"),]"#).unwrap();
    let f = c.files.unwrap();
    assert_eq!(f.len(), 2);
    assert_eq!(f[0].source, "Cargo.toml");
    assert_eq!(f[0].dest, None);
    assert_eq!(f[1].source, "src/data.json");
    assert_eq!(f[1].dest, Some("config/data.json".to_string()));
}

#[test]
fn file_list_errors() {
    assert_eq!(parse("include = []").err(), Some(ConfigError::EmptyList { at: 0, field: Field::Include }));
    assert_eq!(parse(r#"include = "a""#).err(), Some(ConfigError::ExpectedArray { at: 2, field: Field::Include }));
    assert_eq!(
        parse(r#"include = [("a", "b", "c")]"#).err(),
        Some(ConfigError::TupleArity { at: 3, field: Field::Include, found: 3 })
    );
    assert_eq!(
        parse(r#"include = [("a", 5)]"#).err(),
        Some(ConfigError::NotString { at: 6, field: Field::Include })
    );
    assert_eq!(parse("include = [x]").err(), Some(ConfigError::BadElement { at: 3, field: Field::Include }));
    assert_eq!(parse(r#"include = [""]"#).err(), Some(ConfigError::EmptyPath { at: 3 }));
    assert_eq!(parse(r#"include = [("", "b")]"#).err(), Some(ConfigError::EmptyPath { at: 3 }));
}

#[test]
fn environment_pairs() {
    let c = parse(r#"env = [("A", "1"), ("A", "2")]"#).unwrap();
    let e = c.env.unwrap();
    assert_eq!(e.len(), 2);
    assert_eq!((e[0].key.as_str(), e[0].value.as_str()), ("A", "1"));
    assert_eq!((e[1].key.as_str(), e[1].value.as_str()), ("A", "2"));
    assert_eq!(parse(r#"env = ["A"]"#).err(), Some(ConfigError::BadElement { at: 3, field: Field::Env }));
    assert_eq!(
        parse(r#"env = [("A",)]"#).err(),
        Some(ConfigError::TupleArity { at: 3, field: Field::Env, found: 1 })
    );
    assert_eq!(parse(r#"env = [(K, "v")]"#).err(), Some(ConfigError::NotString { at: 4, field: Field::Env }));
}

#[test]
fn timeout_and_retries() {
    let c = parse(r#"timeout = "2s", retries = 3"#).unwrap();
    assert_eq!(c.timeout, Some(2000));
    assert_eq!(c.retries, Some(3));
    assert_eq!(parse(r#"timeout = "0s""#).err(), Some(ConfigError::BadDuration { at: 2 }));
    assert_eq!(parse("timeout = 5").err(), Some(ConfigError::ExpectedString { at: 2, field: Field::Timeout }));
    assert_eq!(parse("retries = 0").err(), Some(ConfigError::RetriesZero { at: 2 }));
    assert_eq!(parse("retries = 4294967296").err(), Some(ConfigError::RetriesTooLarge { at: 2 }));
    assert_eq!(parse("retries = 4294967295").unwrap().retries, Some(4294967295));
    assert_eq!(parse(r#"retries = "3""#).err(), Some(ConfigError::ExpectedInteger { at: 2, field: Field::Retries }));
}

#[test]
fn setup_and_teardown_expressions() {
    let c = parse("setup = prepare(1, 2), teardown = clean()").unwrap();
    let s = c.setup.unwrap();
    assert_eq!((s.start, s.end), (2, 8));
    let t = c.teardown.unwrap();
    assert_eq!((t.start, t.end), (11, 14));
    assert_eq!(parse("setup = , retries = 2").err(), Some(ConfigError::ExpectedValue { at: 0, field: Field::Setup }));
}

#[test]
fn entries_need_not_be_separated_by_commas() {
    let c = parse(r#", timeout = "1s" retries = 2,"#).unwrap();
    assert_eq!(c.timeout, Some(1000));
    assert_eq!(c.retries, Some(2));
    assert_eq!(parse("retries = 2,, timeout = \"1s\"").err(), Some(ConfigError::ExpectedName { at: 4 }));
}

#[test]
fn field_name_errors() {
    assert_eq!(parse("retries = 1, retries = 2").err(), Some(ConfigError::DuplicateField { at: 4, field: Field::Retries }));
    assert_eq!(parse("retry = 2").err(), Some(ConfigError::UnknownField { at: 0 }));
    assert_eq!(parse("ignore").err(), Some(ConfigError::MarkerField { at: 0 }));
    assert_eq!(parse("should_panic").err(), Some(ConfigError::MarkerField { at: 0 }));
    assert_eq!(parse("retries 2").err(), Some(ConfigError::ExpectedEquals { at: 0, field: Field::Retries }));
    assert_eq!(parse("5 = 2").err(), Some(ConfigError::ExpectedName { at: 0 }));
}

#[test]
fn suggestions_for_near_misses() {
    assert_eq!(suggest_field(&"retry".to_string()), Some(Field::Retries));
    assert_eq!(suggest_field(&"flaky".to_string()), Some(Field::Retries));
    assert_eq!(suggest_field(&"includes".to_string()), Some(Field::Include));
    assert_eq!(suggest_field(&"environment".to_string()), Some(Field::Env));
    assert_eq!(suggest_field(&"before_each".to_string()), Some(Field::Setup));
    assert_eq!(suggest_field(&"cleanup".to_string()), Some(Field::Teardown));
    assert_eq!(suggest_field(&"time_limit".to_string()), Some(Field::Timeout));
    assert_eq!(suggest_field(&"params".to_string()), Some(Field::Cases));
    assert_eq!(suggest_field(&"parametrize".to_string()), Some(Field::Matrix));
    assert_eq!(suggest_field(&"banana".to_string()), None);
}

#[test]
fn cases_list() {
    let c = parse("cases = [positive: (2, 3, 5), zeros: (0, 0, 0)]").unwrap();
    let cs = c.cases.unwrap();
    assert_eq!(cs.len(), 2);
    assert_eq!(cs[0].name, "positive");
    assert_eq!((cs[0].args.start, cs[0].args.end), (5, 12));
    assert_eq!(cs[1].name, "zeros");
    assert_eq!(parse("cases = []").err(), Some(ConfigError::EmptyList { at: 0, field: Field::Cases }));
    assert_eq!(parse("cases = [a: (1,), a: (2,)]").err(), Some(ConfigError::DuplicateCase { at: 10 }));
    assert_eq!(parse("cases = [a (1,)]").err(), Some(ConfigError::CaseShape { at: 3 }));
}

#[test]
fn matrix_list() {
    let c = parse("matrix = [a: [1, 2], b: [10, 20]]").unwrap();
    let m = c.matrix.unwrap();
    assert_eq!(m.len(), 2);
    assert_eq!(m[0].name, "a");
    assert_eq!(m[0].values.len(), 2);
    assert_eq!((m[1].values[1].start, m[1].values[1].end), (16, 17));
    assert_eq!(parse("matrix = []").err(), Some(ConfigError::EmptyList { at: 0, field: Field::Matrix }));
    assert_eq!(parse("matrix = [a: []]").err(), Some(ConfigError::EmptyMatrixValues { at: 3 }));
    assert_eq!(parse("matrix = [a: [1], a: [2]]").err(), Some(ConfigError::DuplicateParam { at: 9 }));
    assert_eq!(parse("matrix = [a: [1,,2]]").err(), Some(ConfigError::MatrixShape { at: 3 }));
    assert_eq!(parse("matrix = [a: (1, 2)]").err(), Some(ConfigError::MatrixShape { at: 3 }));
}

#[test]
fn every_field_together() {
    let c = parse(
        r#"
        retries = 3,
        timeout = "10s",
        env = [("RETRIES_TEST_VAR", "value")],
        include = ["Cargo.toml"],
        setup = setup_func(5)?,
        teardown = teardown_func(),
        "#,
    )
    .unwrap();
    assert_eq!(c.retries, Some(3));
    assert_eq!(c.timeout, Some(10000));
    assert_eq!(c.env.unwrap()[0].key, "RETRIES_TEST_VAR");
    assert_eq!(c.files.unwrap()[0].source, "Cargo.toml");
    let s = c.setup.unwrap();
    assert_eq!(s.end - s.start, 5);
    assert!(c.teardown.is_some());
}

#[test]
fn cases_with_trailing_commas_and_negatives() {
    let c = parse("cases = [positive: (2, 3, 5), zeros: (0, 0, 0), negative: (-1, -2, -3),]").unwrap();
    let names: Vec<String> = c.cases.unwrap().into_iter().map(|k| k.name).collect();
    assert_eq!(names, vec!["positive", "zeros", "negative"]);
}
