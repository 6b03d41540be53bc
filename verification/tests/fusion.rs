use tidos::ast::Component;
use tidos::env::Env;
use tidos::ops::{render_ops, Op};
use tidos::tokens::{Delim, Spacing, Token};

fn ident(s: &str) -> Token {
    Token::Ident(s.to_string())
}

fn punct(c: char) -> Token {
    Token::Punct(c, Spacing::Alone)
}

fn brace(v: Vec<Token>) -> Token {
    Token::Group(Delim::Brace, v)
}

fn compile(toks: &Vec<Token>) -> Vec<Op> {
    let component = match Component::parse(toks) {
        Ok(c) => c,
        Err(e) => panic!("parse failed at token {}: {}", e.position, e.message),
    };
    match component.to_ops() {
        Ok(ops) => ops,
        Err(e) => panic!("compile failed: {}", e.message),
    }
}

fn env_with_texts(texts: Vec<(&str, &str)>) -> Env {
    Env {
        texts: texts
            .into_iter()
            .map(|(k, v)| (k.to_string(), v.to_string()))
            .collect(),
        flags: vec![],
        iters: vec![],
        choices: vec![],
        parts: vec![],
    }
}

fn p_tag(body: Vec<Token>) -> Vec<Token> {
    let mut toks = vec![punct('<'), ident("p"), punct('>')];
    toks.extend(body);
    toks.extend(vec![punct('<'), punct('/'), ident("p"), punct('>')]);
    toks
}

#[test]
fn dynamic_attribute_with_static_children() {
    // <p class={c}>hello</p>: the tail from `>` through the children to the
    // closing tag fuses into one literal after the dynamic attribute.
    let toks = vec![
        punct('<'),
        ident("p"),
        ident("class"),
        punct('='),
        brace(vec![ident("c")]),
        punct('>'),
        ident("hello"),
        punct('<'),
        punct('/'),
        ident("p"),
        punct('>'),
    ];
    let ops = compile(&toks);
    assert_eq!(ops.len(), 3);
    assert!(matches!(ops[0], Op::Lit(_)));
    assert!(matches!(ops[1], Op::DynAttr { .. }));
    assert!(matches!(ops[2], Op::Lit(_)));
    assert_eq!(
        render_ops(&ops, &env_with_texts(vec![("c", "blue")])),
        "<p class=\"blue\" >hello</p>"
    );
}

#[test]
fn static_islands_fuse_between_dynamic_children() {
    // <div><p>a</p>{x}<p>b</p><p>c</p></div>: one literal for the opening
    // tag plus the first static child, one escaped emission, one literal
    // fusing the remaining two static children with the closing tag.
    let mut toks = vec![punct('<'), ident("div"), punct('>')];
    toks.extend(p_tag(vec![ident("a")]));
    toks.push(brace(vec![ident("x")]));
    toks.extend(p_tag(vec![ident("b")]));
    toks.extend(p_tag(vec![ident("c")]));
    toks.extend(vec![punct('<'), punct('/'), ident("div"), punct('>')]);
    let ops = compile(&toks);
    assert_eq!(ops.len(), 5);
    assert!(matches!(ops[0], Op::Lit(_)));
    assert!(matches!(ops[1], Op::Lit(_)));
    assert!(matches!(ops[2], Op::Esc(_)));
    assert!(matches!(ops[3], Op::Lit(_)));
    assert!(matches!(ops[4], Op::Lit(_)));
    assert_eq!(
        render_ops(&ops, &env_with_texts(vec![("x", "1 < 2")])),
        "<div><p>a</p>1 &lt; 2<p>b</p><p>c</p></div>"
    );
}

#[test]
fn nested_control_constructs() {
    // {#for name in names} {#if cond} <p>{name}</p> {/if} {/for}
    let mut toks = vec![brace(vec![
        punct('#'),
        ident("for"),
        ident("name"),
        ident("in"),
        ident("names"),
    ])];
    toks.push(brace(vec![punct('#'), ident("if"), ident("cond")]));
    toks.extend(p_tag(vec![brace(vec![ident("name")])]));
    toks.push(brace(vec![punct('/'), ident("if")]));
    toks.push(brace(vec![punct('/'), ident("for")]));

    let make_iteration = |name: &str, keep: bool| Env {
        texts: vec![("name".to_string(), name.to_string())],
        flags: vec![("cond".to_string(), keep)],
        iters: vec![],
        choices: vec![],
        parts: vec![],
    };
    let env = Env {
        texts: vec![],
        flags: vec![],
        iters: vec![(
            "names".to_string(),
            vec![
                make_iteration("Bob", true),
                make_iteration("Eve", false),
                make_iteration("Alice", true),
            ],
        )],
        choices: vec![],
        parts: vec![],
    };
    let ops = compile(&toks);
    assert_eq!(render_ops(&ops, &env), "<p>Bob</p><p>Alice</p>");
}
