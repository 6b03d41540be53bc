use tidos::ast::Component;
use tidos::env::Env;
use tidos::ops::render_ops;
use tidos::tokens::{Delim, Spacing, Token};

fn ident(s: &str) -> Token {
    Token::Ident(s.to_string())
}

fn punct(c: char) -> Token {
    Token::Punct(c, Spacing::Alone)
}

fn punct_joint(c: char) -> Token {
    Token::Punct(c, Spacing::Joint)
}

fn strlit(s: &str) -> Token {
    Token::Literal(format!("\"{}\"", s))
}

fn brace(v: Vec<Token>) -> Token {
    Token::Group(Delim::Brace, v)
}

fn paren(v: Vec<Token>) -> Token {
    Token::Group(Delim::Paren, v)
}

fn env_with_flags(flags: Vec<(&str, bool)>) -> Env {
    Env {
        texts: vec![],
        flags: flags.into_iter().map(|(k, v)| (k.to_string(), v)).collect(),
        iters: vec![],
        choices: vec![],
        parts: vec![],
    }
}

fn render(toks: &Vec<Token>, env: &Env) -> String {
    let component = match Component::parse(toks) {
        Ok(c) => c,
        Err(e) => panic!("parse failed at token {}: {}", e.position, e.message),
    };
    let ops = match component.to_ops() {
        Ok(ops) => ops,
        Err(e) => panic!("compile failed: {}", e.message),
    };
    render_ops(&ops, env)
}

/// The static attributes of the example input element.
fn input_statics() -> Vec<Token> {
    vec![
        ident("type"),
        punct('='),
        strlit("radio"),
        ident("name"),
        punct('='),
        strlit("day"),
        ident("value"),
        punct('='),
        strlit("monday"),
    ]
}

#[test]
fn a_simple_toggle_attribute() {
    let mut plain = vec![punct('<'), ident("input")];
    plain.extend(input_statics());
    plain.push(ident("checked"));
    plain.push(punct('/'));
    plain.push(punct('>'));
    assert_eq!(
        &render(&plain, &env_with_flags(vec![])),
        r#"<input type="radio" name="day" value="monday" checked />"#
    );

    let mut toggled = vec![punct('<'), ident("input")];
    toggled.extend(input_statics());
    toggled.push(punct(':'));
    toggled.push(ident("checked"));
    toggled.push(punct('='));
    toggled.push(brace(vec![ident("true")]));
    toggled.push(punct('/'));
    toggled.push(punct('>'));
    assert_eq!(
        &render(&toggled, &env_with_flags(vec![("true", true)])),
        r#"<input type="radio" name="day" value="monday" checked />"#
    );

    let mut untoggled = vec![punct('<'), ident("input")];
    untoggled.extend(input_statics());
    untoggled.push(punct(':'));
    untoggled.push(ident("checked"));
    untoggled.push(punct('='));
    untoggled.push(brace(vec![ident("false")]));
    untoggled.push(punct('/'));
    untoggled.push(punct('>'));
    assert_eq!(
        &render(&untoggled, &env_with_flags(vec![("false", false)])),
        r#"<input type="radio" name="day" value="monday" />"#
    );
}

// This test is for performance.
#[test]
fn a_simple_toggle_attribute_reordered() {
    let mut toks = vec![
        punct('<'),
        ident("input"),
        punct(':'),
        ident("checked"),
        punct('='),
        brace(vec![ident("true")]),
    ];
    toks.extend(input_statics());
    toks.push(punct('/'));
    toks.push(punct('>'));
    assert_eq!(
        &render(&toks, &env_with_flags(vec![("true", true)])),
        r#"<input type="radio" name="day" value="monday" checked />"#
    );
}

#[test]
fn toggle_attribute_implicit_variable_name() {
    let mut toks = vec![punct('<'), ident("input")];
    toks.extend(input_statics());
    toks.push(punct(':'));
    toks.push(ident("checked"));
    toks.push(punct('/'));
    toks.push(punct('>'));

    let checked = true;
    assert_eq!(
        &render(&toks, &env_with_flags(vec![("checked", checked)])),
        r#"<input type="radio" name="day" value="monday" checked />"#
    );

    let checked = false;
    assert_eq!(
        &render(&toks, &env_with_flags(vec![("checked", checked)])),
        r#"<input type="radio" name="day" value="monday" />"#
    );
}

#[test]
fn data_attribute() {
    let mut toks = vec![punct('<'), ident("input")];
    toks.extend(input_statics());
    toks.push(ident("data"));
    toks.push(punct('-'));
    toks.push(ident("octo"));
    toks.push(punct('='));
    toks.push(brace(vec![
        ident("String"),
        punct_joint(':'),
        punct(':'),
        ident("from"),
        paren(vec![strlit("css-420")]),
    ]));
    toks.push(punct('/'));
    toks.push(punct('>'));
    let env = Env {
        texts: vec![(
            "String :: from (\"css-420\")".to_string(),
            "css-420".to_string(),
        )],
        flags: vec![],
        iters: vec![],
        choices: vec![],
        parts: vec![],
    };
    assert_eq!(
        &render(&toks, &env),
        r#"<input type="radio" name="day" value="monday" data-octo="css-420" />"#
    );
}

#[test]
fn raw_identifier_attribute_names_render_stripped() {
    // <input r#type="radio" r#class={c} /> — the `r#` prefix a source file
    // needs for keyword-like names never reaches the rendered markup.
    let toks = vec![
        punct('<'),
        ident("input"),
        ident("r#type"),
        punct('='),
        strlit("radio"),
        ident("r#class"),
        punct('='),
        brace(vec![ident("c")]),
        punct('/'),
        punct('>'),
    ];
    let env = Env {
        texts: vec![("c".to_string(), "wide".to_string())],
        flags: vec![],
        iters: vec![],
        choices: vec![],
        parts: vec![],
    };
    assert_eq!(
        &render(&toks, &env),
        r#"<input type="radio" class="wide" />"#
    );
}

#[test]
fn toggle_attribute_from_literal_is_rejected() {
    let toks = vec![
        punct('<'),
        ident("input"),
        punct(':'),
        ident("checked"),
        punct('='),
        strlit("yes"),
        punct('/'),
        punct('>'),
    ];
    match Component::parse(&toks) {
        Ok(_) => panic!("a toggle attribute bound to a literal must be rejected"),
        Err(e) => {
            assert!(e
                .message
                .starts_with("Unable to have a toggle attribute from a literal"));
            assert_eq!(e.position, 5);
        }
    }
}
