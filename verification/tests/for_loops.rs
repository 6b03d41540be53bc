use tidos::ast::Component;
use tidos::env::Env;
use tidos::ops::render_ops;
use tidos::tokens::{Delim, Spacing, Token};

fn ident(s: &str) -> Token {
    Token::Ident(s.to_string())
}

fn punct(c: char) -> Token {
    Token::Punct(c, Spacing::Alone)
}

fn strlit(s: &str) -> Token {
    Token::Literal(format!("\"{}\"", s))
}

fn brace(v: Vec<Token>) -> Token {
    Token::Group(Delim::Brace, v)
}

fn paren(v: Vec<Token>) -> Token {
    Token::Group(Delim::Paren, v)
}

fn env_with_texts(texts: Vec<(&str, String)>) -> Env {
    Env {
        texts: texts.into_iter().map(|(k, v)| (k.to_string(), v)).collect(),
        flags: vec![],
        iters: vec![],
        choices: vec![],
        parts: vec![],
    }
}

fn render(toks: &Vec<Token>, env: &Env) -> String {
    let component = match Component::parse(toks) {
        Ok(c) => c,
        Err(e) => panic!("parse failed at token {}: {}", e.position, e.message),
    };
    let ops = match component.to_ops() {
        Ok(ops) => ops,
        Err(e) => panic!("compile failed: {}", e.message),
    };
    render_ops(&ops, env)
}

fn p_tag(body: Vec<Token>) -> Vec<Token> {
    let mut toks = vec![punct('<'), ident("p"), punct('>')];
    toks.extend(body);
    toks.extend(vec![punct('<'), punct('/'), ident("p"), punct('>')]);
    toks
}

#[test]
fn a_simple_for_loop() {
    let names = vec!["Bob", "Alice"];

    // {#for name in names} <p>{name}</p> {/for}
    let mut toks = vec![brace(vec![
        punct('#'),
        ident("for"),
        ident("name"),
        ident("in"),
        ident("names"),
    ])];
    toks.extend(p_tag(vec![brace(vec![ident("name")])]));
    toks.push(brace(vec![punct('/'), ident("for")]));

    let iterations: Vec<Env> = names
        .iter()
        .map(|n| env_with_texts(vec![("name", n.to_string())]))
        .collect();
    let env = Env {
        texts: vec![],
        flags: vec![],
        iters: vec![("names".to_string(), iterations)],
        choices: vec![],
        parts: vec![],
    };

    assert_eq!(&render(&toks, &env), "<p>Bob</p><p>Alice</p>");
}

#[test]
fn an_empty_for_loop() {
    let names: Vec<&str> = vec![];

    // <main> {#for name in names} <p>{name}</p> {/for} </main>
    let mut toks = vec![punct('<'), ident("main"), punct('>')];
    toks.push(brace(vec![
        punct('#'),
        ident("for"),
        ident("name"),
        ident("in"),
        ident("names"),
    ]));
    toks.extend(p_tag(vec![brace(vec![ident("name")])]));
    toks.push(brace(vec![punct('/'), ident("for")]));
    toks.extend(vec![punct('<'), punct('/'), ident("main"), punct('>')]);

    let iterations: Vec<Env> = names
        .iter()
        .map(|n| env_with_texts(vec![("name", n.to_string())]))
        .collect();
    let env = Env {
        texts: vec![],
        flags: vec![],
        iters: vec![("names".to_string(), iterations)],
        choices: vec![],
        parts: vec![],
    };

    assert_eq!(&render(&toks, &env), "<main></main>");
}

#[test]
fn degenerate_for_loop_without_body() {
    // {#for name in names}{/for}: an empty body renders nothing however
    // many iterations run.
    let toks = vec![
        brace(vec![punct('#'), ident("for"), ident("name"), ident("in"), ident("names")]),
        brace(vec![punct('/'), ident("for")]),
    ];
    let env = Env {
        texts: vec![],
        flags: vec![],
        iters: vec![(
            "names".to_string(),
            vec![env_with_texts(vec![]), env_with_texts(vec![])],
        )],
        choices: vec![],
        parts: vec![],
    };
    assert_eq!(&render(&toks, &env), "");
}

#[test]
fn a_complex_for_loop() {
    let name = String::from("kaasbroodju");

    // <main> {#for (i, c) in name.chars().enumerate()}
    //     <span>{format!("{}. {}", i, c)}</span>
    // {/for} </main>
    let mut toks = vec![punct('<'), ident("main"), punct('>')];
    toks.push(brace(vec![
        punct('#'),
        ident("for"),
        paren(vec![ident("i"), punct(','), ident("c")]),
        ident("in"),
        ident("name"),
        punct('.'),
        ident("chars"),
        paren(vec![]),
        punct('.'),
        ident("enumerate"),
        paren(vec![]),
    ]));
    toks.extend(vec![punct('<'), ident("span"), punct('>')]);
    toks.push(brace(vec![
        ident("format"),
        punct('!'),
        paren(vec![strlit("{}. {}"), punct(','), ident("i"), punct(','), ident("c")]),
    ]));
    toks.extend(vec![punct('<'), punct('/'), ident("span"), punct('>')]);
    toks.push(brace(vec![punct('/'), ident("for")]));
    toks.extend(vec![punct('<'), punct('/'), ident("main"), punct('>')]);

    let expr_key = "format ! (\"{}. {}\" , i , c)";
    let iterations: Vec<Env> = name
        .chars()
        .enumerate()
        .map(|(i, c)| env_with_texts(vec![(expr_key, format!("{}. {}", i, c))]))
        .collect();
    let env = Env {
        texts: vec![],
        flags: vec![],
        iters: vec![("name . chars () . enumerate ()".to_string(), iterations)],
        choices: vec![],
        parts: vec![],
    };
    assert_eq!(
        &render(&toks, &env),
        "<main><span>0. k</span><span>1. a</span><span>2. a</span><span>3. s</span><span>4. b</span><span>5. r</span><span>6. o</span><span>7. o</span><span>8. d</span><span>9. j</span><span>10. u</span></main>"
    );
}
