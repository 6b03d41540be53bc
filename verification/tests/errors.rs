use tidos::ast::Component;
use tidos::i18n::I18n;
use tidos::i18n_config::TidosI18nConfig;
use tidos::tokens::{Delim, Spacing, Token};

fn ident(s: &str) -> Token {
    Token::Ident(s.to_string())
}

fn punct(c: char) -> Token {
    Token::Punct(c, Spacing::Alone)
}

fn strlit(s: &str) -> Token {
    Token::Literal(format!("\"{}\"", s))
}

fn brace(v: Vec<Token>) -> Token {
    Token::Group(Delim::Brace, v)
}

fn parse_err(toks: &Vec<Token>) -> (String, usize) {
    match Component::parse(toks) {
        Ok(_) => panic!("parsing must fail"),
        Err(e) => (e.message, e.position),
    }
}

#[test]
fn unknown_command_tag() {
    let toks = vec![
        brace(vec![punct('#'), ident("while"), ident("true")]),
        brace(vec![punct('/'), ident("while")]),
    ];
    let (message, position) = parse_err(&toks);
    assert_eq!(message, "Unknown command tag, must be: 'for', 'if' or 'match'");
    assert_eq!(position, 0);
}

#[test]
fn for_loop_without_in() {
    let toks = vec![
        brace(vec![punct('#'), ident("for"), ident("name"), ident("names")]),
        brace(vec![punct('/'), ident("for")]),
    ];
    let (message, position) = parse_err(&toks);
    assert_eq!(message, "No `in` found in for loop ");
    assert_eq!(position, 0);
}

#[test]
fn for_loop_with_empty_right_side() {
    let toks = vec![
        brace(vec![punct('#'), ident("for"), ident("name"), ident("in")]),
        brace(vec![punct('/'), ident("for")]),
    ];
    let (message, position) = parse_err(&toks);
    assert_eq!(message, "Empty right side of `in`.");
    assert_eq!(position, 0);
}

#[test]
fn empty_if_statement() {
    let toks = vec![
        brace(vec![punct('#'), ident("if")]),
        brace(vec![punct('/'), ident("if")]),
    ];
    let (message, _) = parse_err(&toks);
    assert_eq!(message, "If statement is empty.");
}

#[test]
fn match_without_subject() {
    let toks = vec![
        brace(vec![punct('#'), ident("match")]),
        brace(vec![punct('/'), ident("match")]),
    ];
    let (message, _) = parse_err(&toks);
    assert_eq!(message, "No variable to match against.");
}

#[test]
fn stray_group_in_match_is_rejected() {
    // {#match x} {foo} {/match}: only `{:case …}` markers may open a case.
    let toks = vec![
        brace(vec![punct('#'), ident("match"), ident("x")]),
        brace(vec![ident("foo")]),
        brace(vec![punct('/'), ident("match")]),
    ];
    let (message, position) = parse_err(&toks);
    assert_eq!(message, "Expected a case statement like `{:case pattern}`");
    assert_eq!(position, 1);
}

#[test]
fn missing_closing_for_loop() {
    // {#for name in names} <p>x</p> with no {/for}: anchored at the opener.
    let toks = vec![
        brace(vec![punct('#'), ident("for"), ident("name"), ident("in"), ident("names")]),
        punct('<'),
        ident("p"),
        punct('>'),
        ident("x"),
        punct('<'),
        punct('/'),
        ident("p"),
        punct('>'),
    ];
    let (message, position) = parse_err(&toks);
    assert_eq!(message, "missing matching closing tag `{/for}`");
    assert_eq!(position, 0);
}

#[test]
fn mismatched_closing_marker() {
    // {#for x in xs} y {/if}: the stray marker never closes the loop, so
    // the loop is reported as left open, at its opening marker.
    let toks = vec![
        brace(vec![punct('#'), ident("for"), ident("x"), ident("in"), ident("xs")]),
        ident("y"),
        brace(vec![punct('/'), ident("if")]),
    ];
    let (message, position) = parse_err(&toks);
    assert_eq!(message, "missing matching closing tag `{/for}`");
    assert_eq!(position, 0);
}

#[test]
fn empty_input_has_no_content() {
    let toks = vec![brace(vec![punct('#'), ident("if"), ident("true")])];
    let (message, _) = parse_err(&toks);
    assert_eq!(message, "No tokens left to parse");
}

#[test]
fn i18n_lookup_parses_key_and_params() {
    // i18n!("shared-photos", "userName", "Anne", "photoCount", 3)
    let toks = vec![
        strlit("shared-photos"),
        punct(','),
        strlit("userName"),
        punct(','),
        strlit("Anne"),
        punct(','),
        strlit("photoCount"),
        punct(','),
        Token::Literal("3".to_string()),
    ];
    let parsed = match I18n::parse(&toks) {
        Ok(x) => x,
        Err(e) => panic!("parse failed at token {}: {}", e.position, e.message),
    };
    assert_eq!(parsed.key, "\"shared-photos\"");
    assert_eq!(parsed.params.len(), 2);
    assert_eq!(parsed.params[0].0, "\"userName\"");
    assert_eq!(parsed.params[0].1, "\"Anne\"");
    assert_eq!(parsed.params[1].0, "\"photoCount\"");
    assert_eq!(parsed.params[1].1, "3");
}

#[test]
fn i18n_lookup_requires_a_literal_key() {
    let toks = vec![ident("key")];
    match I18n::parse(&toks) {
        Ok(_) => panic!("a non-literal key must be rejected"),
        Err(e) => assert_eq!(e.message, "Expected a string literal as key"),
    }
}

#[test]
fn i18n_config_defaults() {
    let config = TidosI18nConfig::default();
    assert_eq!(config.resource_location, "translations");
    assert_eq!(config.default_locale, "en-US");
    assert_eq!(config.resources.len(), 0);
}
