use tidos::ast::Component;
use tidos::env::Env;
use tidos::ops::{render_ops, Op};
use tidos::page_wrapper::PageWrapper;
use tidos::tokens::{Delim, Spacing, Token};
use tidos::Page;

fn ident(s: &str) -> Token {
    Token::Ident(s.to_string())
}

fn punct(c: char) -> Token {
    Token::Punct(c, Spacing::Alone)
}

fn strlit(s: &str) -> Token {
    Token::Literal(format!("\"{}\"", s))
}

fn brace(v: Vec<Token>) -> Token {
    Token::Group(Delim::Brace, v)
}

fn empty_env() -> Env {
    Env { texts: vec![], flags: vec![], iters: vec![], choices: vec![], parts: vec![] }
}

#[test]
fn repeated_head_registration_appends_once() {
    // Registering the same head content under one identifier from inside a
    // loop of N iterations leaves exactly one copy, whatever N is.
    let mut page = Page::new();
    for _ in 0..100 {
        page.add_elements_to_head("style-42", "<style>.a{}</style>".to_string());
    }
    assert_eq!(page.head, "<style>.a{}</style>");
    assert_eq!(page.head_ids.len(), 1);

    // A different identifier appends again.
    page.add_elements_to_head("style-43", "<style>.b{}</style>".to_string());
    assert_eq!(page.head, "<style>.a{}</style><style>.b{}</style>");
    assert_eq!(page.head_ids.len(), 2);
    assert_eq!(page.template, "");
}

#[test]
fn page_wrapper_renders_into_a_fresh_page() {
    // page! { <main><h1>Getting started</h1></main> }
    let toks = vec![
        punct('<'),
        ident("main"),
        punct('>'),
        punct('<'),
        ident("h1"),
        punct('>'),
        ident("Getting"),
        ident("started"),
        punct('<'),
        punct('/'),
        ident("h1"),
        punct('>'),
        punct('<'),
        punct('/'),
        ident("main"),
        punct('>'),
    ];
    let wrapper = match PageWrapper::parse(&toks) {
        Ok(w) => w,
        Err(e) => panic!("parse failed at token {}: {}", e.position, e.message),
    };
    let page = match wrapper.to_page(&empty_env()) {
        Ok(p) => p,
        Err(e) => panic!("compile failed: {}", e.message),
    };
    assert_eq!(page.template, "<main><h1>Getting started</h1></main>");
    assert_eq!(page.head, "");
    assert_eq!(page.head_ids.len(), 0);
}

#[test]
fn component_invocation_inserts_component_output() {
    // <main><Greet name={ String::from("kaasbroodju") } /></main>
    let toks = vec![
        punct('<'),
        ident("main"),
        punct('>'),
        punct('<'),
        ident("Greet"),
        ident("name"),
        punct('='),
        brace(vec![
            ident("String"),
            Token::Punct(':', Spacing::Joint),
            punct(':'),
            ident("from"),
            Token::Group(Delim::Paren, vec![strlit("kaasbroodju")]),
        ]),
        punct('/'),
        punct('>'),
        punct('<'),
        punct('/'),
        ident("main"),
        punct('>'),
    ];
    let env = Env {
        texts: vec![],
        flags: vec![],
        iters: vec![],
        choices: vec![],
        parts: vec![(
            "Greet name=String :: from (\"kaasbroodju\")".to_string(),
            "<h1>Hello kaasbroodju</h1>".to_string(),
        )],
    };
    let component = match Component::parse(&toks) {
        Ok(c) => c,
        Err(e) => panic!("parse failed at token {}: {}", e.position, e.message),
    };
    let ops = match component.to_ops() {
        Ok(ops) => ops,
        Err(e) => panic!("compile failed: {}", e.message),
    };
    assert_eq!(
        render_ops(&ops, &env),
        "<main><h1>Hello kaasbroodju</h1></main>"
    );
}

#[test]
fn same_component_with_different_arguments_is_distinguished() {
    // <p><Badge kind={a} /><Badge kind={b} /></p>: each invocation's output
    // is looked up under the component name together with its payloads.
    let toks = vec![
        punct('<'),
        ident("p"),
        punct('>'),
        punct('<'),
        ident("Badge"),
        ident("kind"),
        punct('='),
        brace(vec![ident("a")]),
        punct('/'),
        punct('>'),
        punct('<'),
        ident("Badge"),
        ident("kind"),
        punct('='),
        brace(vec![ident("b")]),
        punct('/'),
        punct('>'),
        punct('<'),
        punct('/'),
        ident("p"),
        punct('>'),
    ];
    let env = Env {
        texts: vec![],
        flags: vec![],
        iters: vec![],
        choices: vec![],
        parts: vec![
            ("Badge kind=a".to_string(), "<b>A</b>".to_string()),
            ("Badge kind=b".to_string(), "<b>B</b>".to_string()),
        ],
    };
    let component = match Component::parse(&toks) {
        Ok(c) => c,
        Err(e) => panic!("parse failed at token {}: {}", e.position, e.message),
    };
    let ops = match component.to_ops() {
        Ok(ops) => ops,
        Err(e) => panic!("compile failed: {}", e.message),
    };
    assert_eq!(render_ops(&ops, &env), "<p><b>A</b><b>B</b></p>");
}

#[test]
fn component_attribute_without_value_is_refused() {
    // <Greet name /> — a component field cannot be presence-only.
    let toks = vec![
        punct('<'),
        ident("Greet"),
        ident("name"),
        punct('/'),
        punct('>'),
    ];
    let component = match Component::parse(&toks) {
        Ok(c) => c,
        Err(e) => panic!("parse failed at token {}: {}", e.position, e.message),
    };
    match component.to_ops() {
        Ok(_) => panic!("a component attribute without a value must be refused"),
        Err(e) => assert_eq!(e.message, "Empty attribute"),
    }
}

#[test]
fn html_document_wraps_head_and_body() {
    let mut page = Page::new();
    page.add_elements_to_head("title-1", "<title>Hi</title>".to_string());
    page.template = "<main>body</main>".to_string();
    assert_eq!(
        page.to_html_document(),
        "<!doctype html><html lang=\"en\"><head><meta name=\"viewport\" content=\"width=device-width, initial-scale=1.0\" /><meta charset=\"utf-8\" /><title>Hi</title></head><body><main>body</main></body></html>"
    );
}

#[test]
fn fully_static_template_compiles_to_literals() {
    // A template with no interpolation or control constructs compiles to
    // one precomputed literal per top-level node, equal to its own markup.
    let toks = vec![
        punct('<'),
        ident("input"),
        ident("type"),
        punct('='),
        strlit("radio"),
        ident("checked"),
        punct('/'),
        punct('>'),
    ];
    let component = match Component::parse(&toks) {
        Ok(c) => c,
        Err(e) => panic!("parse failed at token {}: {}", e.position, e.message),
    };
    let ops = match component.to_ops() {
        Ok(ops) => ops,
        Err(e) => panic!("compile failed: {}", e.message),
    };
    assert_eq!(ops.len(), 1);
    match &ops[0] {
        Op::Lit(text) => assert_eq!(text, r#"<input type="radio" checked />"#),
        _ => panic!("a static template must compile to a single literal"),
    }
    // And the rendering does not depend on the environment.
    let odd_env = Env {
        texts: vec![("x".to_string(), "y".to_string())],
        flags: vec![("checked".to_string(), false)],
        iters: vec![],
        choices: vec![],
        parts: vec![],
    };
    assert_eq!(render_ops(&ops, &odd_env), r#"<input type="radio" checked />"#);
    assert_eq!(render_ops(&ops, &empty_env()), r#"<input type="radio" checked />"#);
}
