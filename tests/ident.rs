use assay::ident::expr_to_ident_component;
use assay::token::{LitKind, Span, Tok};

fn int_lit(d: &str) -> Tok {
    Tok::Lit(LitKind::Int, d.to_string(), d.to_string())
}

fn string(v: &str) -> Tok {
    Tok::Lit(LitKind::Str, v.to_string(), format!("{:?}", v))
}

fn whole(toks: &Vec<Tok>) -> Span {
    Span { start: 0, end: toks.len() }
}

#[test]
fn literal_fragments() {
    let t = vec![int_lit("42")];
    assert_eq!(expr_to_ident_component(&t, whole(&t)), Some("42".to_string()));
    let t = vec![Tok::Punct('-', false), int_lit("5")];
    assert_eq!(expr_to_ident_component(&t, whole(&t)), Some("neg5".to_string()));
    let t = vec![string("foo-bar")];
    assert_eq!(expr_to_ident_component(&t, whole(&t)), Some("foo_bar".to_string()));
    let t = vec![string("")];
    assert_eq!(expr_to_ident_component(&t, whole(&t)), None);
    let t = vec![Tok::Ident("true".to_string())];
    assert_eq!(expr_to_ident_component(&t, whole(&t)), Some("true".to_string()));
    let t = vec![Tok::Ident("false".to_string())];
    assert_eq!(expr_to_ident_component(&t, whole(&t)), Some("false".to_string()));
}

#[test]
fn strings_that_start_with_a_digit() {
    let t = vec![string("9 lives")];
    assert_eq!(expr_to_ident_component(&t, whole(&t)), Some("_9_lives".to_string()));
    let t = vec![string("héllo")];
    assert_eq!(expr_to_ident_component(&t, whole(&t)), Some("h_llo".to_string()));
}

#[test]
fn other_expressions_have_no_fragment() {
    let t = vec![Tok::Ident("x".to_string())];
    assert_eq!(expr_to_ident_component(&t, whole(&t)), None);
    let t = vec![Tok::Open(assay::token::Delim::Paren), int_lit("5"), Tok::Close(assay::token::Delim::Paren)];
    assert_eq!(expr_to_ident_component(&t, whole(&t)), None);
    let t = vec![int_lit("1"), Tok::Punct('+', false), int_lit("2")];
    assert_eq!(expr_to_ident_component(&t, whole(&t)), None);
    let t = vec![Tok::Punct('-', false), string("a")];
    assert_eq!(expr_to_ident_component(&t, whole(&t)), None);
    let t = vec![int_lit("1")];
    assert_eq!(expr_to_ident_component(&t, Span { start: 0, end: 5 }), None);
}
