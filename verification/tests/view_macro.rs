use tidos::ast::Component;
use tidos::env::Env;
use tidos::ops::render_ops;
use tidos::tokens::{Delim, Spacing, Token};

fn ident(s: &str) -> Token {
    Token::Ident(s.to_string())
}

fn punct(c: char) -> Token {
    Token::Punct(c, Spacing::Alone)
}

fn strlit(s: &str) -> Token {
    Token::Literal(format!("\"{}\"", s))
}

fn brace(v: Vec<Token>) -> Token {
    Token::Group(Delim::Brace, v)
}

fn empty_env() -> Env {
    Env { texts: vec![], flags: vec![], iters: vec![], choices: vec![], parts: vec![] }
}

fn render(toks: &Vec<Token>, env: &Env) -> String {
    let component = match Component::parse(toks) {
        Ok(c) => c,
        Err(e) => panic!("parse failed at token {}: {}", e.position, e.message),
    };
    let ops = match component.to_ops() {
        Ok(ops) => ops,
        Err(e) => panic!("compile failed: {}", e.message),
    };
    render_ops(&ops, env)
}

#[test]
fn empty_body() {
    let toks: Vec<Token> = vec![];
    assert_eq!(&render(&toks, &empty_env()), "");
}

#[test]
fn raw_html() {
    // @html{"<p>hello world</p>"}
    let toks = vec![
        punct('@'),
        ident("html"),
        brace(vec![strlit("<p>hello world</p>")]),
    ];
    let env = Env {
        texts: vec![(
            "\"<p>hello world</p>\"".to_string(),
            "<p>hello world</p>".to_string(),
        )],
        flags: vec![],
        iters: vec![],
        choices: vec![],
        parts: vec![],
    };
    assert_eq!(&render(&toks, &env), r#"<p>hello world</p>"#);
}

#[test]
fn custom_element() {
    let toks = vec![
        punct('<'),
        ident("custom"),
        punct('-'),
        ident("element"),
        punct('>'),
        punct('<'),
        punct('/'),
        ident("custom"),
        punct('-'),
        ident("element"),
        punct('>'),
    ];
    assert_eq!(&render(&toks, &empty_env()), r#"<custom-element></custom-element>"#);

    let toks = vec![
        punct('<'),
        ident("custom"),
        punct('-'),
        ident("element"),
        punct('-'),
        ident("electric"),
        punct('-'),
        ident("bogaloo"),
        punct('>'),
        punct('<'),
        punct('/'),
        ident("custom"),
        punct('-'),
        ident("element"),
        punct('-'),
        ident("electric"),
        punct('-'),
        ident("bogaloo"),
        punct('>'),
    ];
    assert_eq!(
        &render(&toks, &empty_env()),
        r#"<custom-element-electric-bogaloo></custom-element-electric-bogaloo>"#
    );
}

#[test]
fn misspelled_html_in_raw_statement() {
    // @hdmi{"<p>hello world</p>"}: the raw-markup keyword is fixed, and the
    // error names the expected spelling.
    let toks = vec![
        punct('@'),
        ident("hdmi"),
        brace(vec![strlit("<p>hello world</p>")]),
    ];
    match Component::parse(&toks) {
        Ok(_) => panic!("a misspelled raw-markup keyword must be rejected"),
        Err(e) => {
            assert_eq!(e.message, "Did you mean `html`?");
            assert_eq!(e.position, 1);
        }
    }
}

#[test]
fn forgot_to_close_html_tag() {
    // <p>Lorem with no </p>: the error points at the opening tag.
    let toks = vec![punct('<'), ident("p"), punct('>'), ident("Lorem")];
    match Component::parse(&toks) {
        Ok(_) => panic!("an unterminated element must be rejected"),
        Err(e) => {
            assert_eq!(e.message, "missing matching closing tag `</p>`");
            assert_eq!(e.position, 0);
        }
    }
}

#[test]
fn mismatched_closing_tag() {
    // <p>x</div>: the stray closing tag never closes this element, so the
    // element is reported as left open, anchored at its opening tag.
    let toks = vec![
        punct('<'),
        ident("p"),
        punct('>'),
        ident("x"),
        punct('<'),
        punct('/'),
        ident("div"),
        punct('>'),
    ];
    match Component::parse(&toks) {
        Ok(_) => panic!("a mismatched closing tag must be rejected"),
        Err(e) => {
            assert_eq!(e.message, "missing matching closing tag `</p>`");
            assert_eq!(e.position, 0);
        }
    }
}

#[test]
fn punctuation() {
    let toks = vec![
        punct('<'),
        ident("p"),
        punct('>'),
        ident("Lorem"),
        punct('.'),
        ident("Ipsum"),
        punct('<'),
        punct('/'),
        ident("p"),
        punct('>'),
    ];
    assert_eq!(&render(&toks, &empty_env()), r#"<p>Lorem. Ipsum</p>"#);
}
