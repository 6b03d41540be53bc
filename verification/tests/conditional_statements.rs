use tidos::ast::Component;
use tidos::env::Env;
use tidos::ops::render_ops;
use tidos::tokens::{Delim, Spacing, Token};

fn ident(s: &str) -> Token {
    Token::Ident(s.to_string())
}

fn punct(c: char) -> Token {
    Token::Punct(c, Spacing::Alone)
}

fn punct_joint(c: char) -> Token {
    Token::Punct(c, Spacing::Joint)
}

fn numlit(s: &str) -> Token {
    Token::Literal(s.to_string())
}

fn brace(v: Vec<Token>) -> Token {
    Token::Group(Delim::Brace, v)
}

fn env_with_flags(flags: Vec<(&str, bool)>) -> Env {
    Env {
        texts: vec![],
        flags: flags.into_iter().map(|(k, v)| (k.to_string(), v)).collect(),
        iters: vec![],
        choices: vec![],
        parts: vec![],
    }
}

fn render(toks: &Vec<Token>, env: &Env) -> String {
    let component = match Component::parse(toks) {
        Ok(c) => c,
        Err(e) => panic!("parse failed at token {}: {}", e.position, e.message),
    };
    let ops = match component.to_ops() {
        Ok(ops) => ops,
        Err(e) => panic!("compile failed: {}", e.message),
    };
    render_ops(&ops, env)
}

fn p_tag(body: Vec<Token>) -> Vec<Token> {
    let mut toks = vec![punct('<'), ident("p"), punct('>')];
    toks.extend(body);
    toks.extend(vec![punct('<'), punct('/'), ident("p"), punct('>')]);
    toks
}

/// `{#if <cond>} <p>…</p> {/if}` and friends; conditions are written as
/// `n == <k>` token runs whose canonical source is `n == <k>`.
fn open_if(cond: Vec<Token>) -> Token {
    let mut inner = vec![punct('#'), ident("if")];
    inner.extend(cond);
    brace(inner)
}

fn else_if(cond: Vec<Token>) -> Token {
    let mut inner = vec![punct(':'), ident("else"), ident("if")];
    inner.extend(cond);
    brace(inner)
}

fn else_marker() -> Token {
    brace(vec![punct(':'), ident("else")])
}

fn close_if() -> Token {
    brace(vec![punct('/'), ident("if")])
}

fn n_equals(k: &str) -> Vec<Token> {
    vec![ident("n"), punct_joint('='), punct('='), numlit(k)]
}

#[test]
fn a_simple_conditional() {
    let mut toks = vec![open_if(vec![ident("true")])];
    toks.extend(p_tag(vec![ident("Hello"), ident("world")]));
    toks.push(close_if());

    assert_eq!(
        &render(&toks, &env_with_flags(vec![("true", true)])),
        "<p>Hello world</p>"
    );

    let mut toks = vec![open_if(vec![ident("false")])];
    toks.extend(p_tag(vec![ident("Hello"), ident("world")]));
    toks.push(close_if());

    assert_eq!(&render(&toks, &env_with_flags(vec![("false", false)])), "");
}

#[test]
fn a_simple_conditional_with_an_else() {
    let mut toks = vec![open_if(vec![ident("true")])];
    toks.extend(p_tag(vec![ident("Hello"), ident("world")]));
    toks.push(else_marker());
    toks.extend(p_tag(vec![ident("Hello"), ident("mars")]));
    toks.push(close_if());

    assert_eq!(
        &render(&toks, &env_with_flags(vec![("true", true)])),
        "<p>Hello world</p>"
    );

    let mut toks = vec![open_if(vec![ident("false")])];
    toks.extend(p_tag(vec![ident("Hello"), ident("world")]));
    toks.push(else_marker());
    toks.extend(p_tag(vec![ident("Hello"), ident("mars")]));
    toks.push(close_if());

    assert_eq!(
        &render(&toks, &env_with_flags(vec![("false", false)])),
        "<p>Hello mars</p>"
    );
}

#[test]
fn a_simple_conditional_with_if_else_chain() {
    fn chain_env(n: usize) -> Env {
        env_with_flags(vec![
            ("n == 0", n == 0),
            ("n == 1", n == 1),
            ("n == 2", n == 2),
        ])
    }

    fn view_component(n: usize) -> String {
        let mut toks = vec![open_if(n_equals("0"))];
        toks.extend(p_tag(vec![numlit("0")]));
        toks.push(else_if(n_equals("1")));
        toks.extend(p_tag(vec![numlit("1")]));
        toks.push(close_if());
        render(&toks, &chain_env(n))
    }

    for i in 0..=1 {
        assert_eq!(view_component(i), format!("<p>{}</p>", i));
    }
    assert_eq!(&view_component(2), "");

    fn view_component_multiple_if_else(n: usize) -> String {
        let mut toks = vec![open_if(n_equals("0"))];
        toks.extend(p_tag(vec![numlit("0")]));
        toks.push(else_if(n_equals("1")));
        toks.extend(p_tag(vec![numlit("1")]));
        toks.push(else_if(n_equals("2")));
        toks.extend(p_tag(vec![numlit("2")]));
        toks.push(close_if());
        render(&toks, &chain_env(n))
    }

    for i in 0..=2 {
        assert_eq!(view_component_multiple_if_else(i), format!("<p>{}</p>", i));
    }
    assert_eq!(&view_component_multiple_if_else(3), "");

    fn view_component_with_else(n: usize) -> String {
        let mut toks = vec![open_if(n_equals("0"))];
        toks.extend(p_tag(vec![numlit("0")]));
        toks.push(else_if(n_equals("1")));
        toks.extend(p_tag(vec![numlit("1")]));
        toks.push(else_marker());
        toks.extend(p_tag(vec![ident("Hello"), ident("world")]));
        toks.push(close_if());
        render(&toks, &chain_env(n))
    }

    for i in 0..=1 {
        assert_eq!(view_component_with_else(i), format!("<p>{}</p>", i));
    }
    assert_eq!(&view_component_with_else(2), "<p>Hello world</p>");

    fn view_component_multiple_if_else_with_else(n: usize) -> String {
        let mut toks = vec![open_if(n_equals("0"))];
        toks.extend(p_tag(vec![numlit("0")]));
        toks.push(else_if(n_equals("1")));
        toks.extend(p_tag(vec![numlit("1")]));
        toks.push(else_if(n_equals("2")));
        toks.extend(p_tag(vec![numlit("2")]));
        toks.push(else_marker());
        toks.extend(p_tag(vec![ident("Hello"), ident("world")]));
        toks.push(close_if());
        render(&toks, &chain_env(n))
    }

    for i in 0..=2 {
        assert_eq!(
            view_component_multiple_if_else_with_else(i),
            format!("<p>{}</p>", i)
        );
    }
    assert_eq!(&view_component_multiple_if_else_with_else(3), "<p>Hello world</p>");
}

#[test]
fn degenerate_conditional_without_body() {
    // {#if cond}{/if}: legal; it renders nothing whatever the condition.
    let toks = vec![open_if(vec![ident("cond")]), close_if()];
    assert_eq!(&render(&toks, &env_with_flags(vec![("cond", true)])), "");
    assert_eq!(&render(&toks, &env_with_flags(vec![("cond", false)])), "");
}

#[test]
fn missing_closing_if_statement() {
    // `{#if true}<p>x</p>` with no `{/if}`: compilation fails with an error
    // that points back at the opening `{#if}`.
    let mut toks = vec![open_if(vec![ident("true")])];
    toks.extend(p_tag(vec![ident("x")]));
    match Component::parse(&toks) {
        Ok(_) => panic!("an unterminated conditional must be rejected"),
        Err(e) => {
            assert_eq!(e.message, "missing matching closing tag `{/if}`");
            assert_eq!(e.position, 0);
        }
    }
}
