use tidos::ast::Component;
use tidos::env::Env;
use tidos::ops::render_ops;
use tidos::tokens::{Delim, Spacing, Token};

fn ident(s: &str) -> Token {
    Token::Ident(s.to_string())
}

fn punct(c: char) -> Token {
    Token::Punct(c, Spacing::Alone)
}

fn punct_joint(c: char) -> Token {
    Token::Punct(c, Spacing::Joint)
}

fn numlit(s: &str) -> Token {
    Token::Literal(s.to_string())
}

fn strlit(s: &str) -> Token {
    Token::Literal(format!("\"{}\"", s))
}

fn brace(v: Vec<Token>) -> Token {
    Token::Group(Delim::Brace, v)
}

fn render(toks: &Vec<Token>, env: &Env) -> String {
    let component = match Component::parse(toks) {
        Ok(c) => c,
        Err(e) => panic!("parse failed at token {}: {}", e.position, e.message),
    };
    let ops = match component.to_ops() {
        Ok(ops) => ops,
        Err(e) => panic!("compile failed: {}", e.message),
    };
    render_ops(&ops, env)
}

/// Raw markup inserting the value of a string literal: `@html{"…"}`.
fn raw(text: &str) -> Vec<Token> {
    vec![punct('@'), ident("html"), brace(vec![strlit(text)])]
}

/// The environment entry a raw string literal needs: its source text
/// (quotes included) mapped to its content.
fn raw_binding(text: &str) -> (String, String) {
    (format!("\"{}\"", text), text.to_string())
}

/// Condition tokens for `age >= <n> && is_american == true`.
fn age_condition(n: &str) -> Vec<Token> {
    vec![
        ident("age"),
        punct_joint('>'),
        punct('='),
        numlit(n),
        punct_joint('&'),
        punct('&'),
        ident("is_american"),
        punct_joint('='),
        punct('='),
        ident("true"),
    ]
}

#[test]
fn it_works() {
    let is_american = true;
    let age: usize = 55;

    // {#match my_pet} {:case Fish} "Blub!" {:case Dog} "Who 's a good boy!"
    // {:case Cat} "Give al mortal possessions to cat!"
    // {:case _} "Is it a snake or a spider?" {/match} with my_pet = Dog.
    let mut toks = vec![brace(vec![punct('#'), ident("match"), ident("my_pet")])];
    toks.push(brace(vec![punct(':'), ident("case"), ident("Fish")]));
    toks.extend(raw("Blub!"));
    toks.push(brace(vec![punct(':'), ident("case"), ident("Dog")]));
    toks.extend(raw("Who 's a good boy!"));
    toks.push(brace(vec![punct(':'), ident("case"), ident("Cat")]));
    toks.extend(raw("Give al mortal possessions to cat!"));
    toks.push(brace(vec![punct(':'), ident("case"), ident("_")]));
    toks.extend(raw("Is it a snake or a spider?"));
    toks.push(brace(vec![punct('/'), ident("match")]));
    let env = Env {
        texts: vec![
            raw_binding("Blub!"),
            raw_binding("Who 's a good boy!"),
            raw_binding("Give al mortal possessions to cat!"),
            raw_binding("Is it a snake or a spider?"),
        ],
        flags: vec![],
        iters: vec![],
        choices: vec![("my_pet".to_string(), 1)],
        parts: vec![],
    };
    assert_eq!(&render(&toks, &env), "Who 's a good boy!");

    // {#if age >= 21 && is_american == true} "<p>allowed to join the
    // military and drink</p>" {/if}
    let mut toks = vec![{
        let mut inner = vec![punct('#'), ident("if")];
        inner.extend(age_condition("21"));
        brace(inner)
    }];
    toks.extend(raw("<p>allowed to join the military and drink</p>"));
    toks.push(brace(vec![punct('/'), ident("if")]));
    let env = Env {
        texts: vec![raw_binding("<p>allowed to join the military and drink</p>")],
        flags: vec![(
            "age >= 21 && is_american == true".to_string(),
            age >= 21 && is_american == true,
        )],
        iters: vec![],
        choices: vec![],
        parts: vec![],
    };
    assert_eq!(&render(&toks, &env), "<p>allowed to join the military and drink</p>");

    // {#if false} … {:else} "<p>Go back to school</p>" {/if}
    let mut toks = vec![brace(vec![punct('#'), ident("if"), ident("false")])];
    toks.extend(raw("<p>allowed to join the military and drink</p>"));
    toks.push(brace(vec![punct(':'), ident("else")]));
    toks.extend(raw("<p>Go back to school</p>"));
    toks.push(brace(vec![punct('/'), ident("if")]));
    let env = Env {
        texts: vec![
            raw_binding("<p>allowed to join the military and drink</p>"),
            raw_binding("<p>Go back to school</p>"),
        ],
        flags: vec![("false".to_string(), false)],
        iters: vec![],
        choices: vec![],
        parts: vec![],
    };
    assert_eq!(&render(&toks, &env), "<p>Go back to school</p>");

    // {#if false} … {:else if true} "<p>allowed to join the military</p>" {/if}
    let mut toks = vec![brace(vec![punct('#'), ident("if"), ident("false")])];
    toks.extend(raw("<p>allowed to join the military and drink</p>"));
    toks.push(brace(vec![punct(':'), ident("else"), ident("if"), ident("true")]));
    toks.extend(raw("<p>allowed to join the military</p>"));
    toks.push(brace(vec![punct('/'), ident("if")]));
    let env = Env {
        texts: vec![
            raw_binding("<p>allowed to join the military and drink</p>"),
            raw_binding("<p>allowed to join the military</p>"),
        ],
        flags: vec![("false".to_string(), false), ("true".to_string(), true)],
        iters: vec![],
        choices: vec![],
        parts: vec![],
    };
    assert_eq!(&render(&toks, &env), "<p>allowed to join the military</p>");

    // {#if false} … {:else if false} … {:else if true} "<p>allowed to join
    // the military and drink</p>" {/if}
    let mut toks = vec![brace(vec![punct('#'), ident("if"), ident("false")])];
    toks.extend(raw("<p>allowed to join the military and drink</p>"));
    toks.push(brace(vec![punct(':'), ident("else"), ident("if"), ident("false")]));
    toks.extend(raw("<p>allowed to join the military</p>"));
    toks.push(brace(vec![punct(':'), ident("else"), ident("if"), ident("true")]));
    toks.extend(raw("<p>allowed to join the military and drink</p>"));
    toks.push(brace(vec![punct('/'), ident("if")]));
    let env = Env {
        texts: vec![
            raw_binding("<p>allowed to join the military and drink</p>"),
            raw_binding("<p>allowed to join the military</p>"),
        ],
        flags: vec![("false".to_string(), false), ("true".to_string(), true)],
        iters: vec![],
        choices: vec![],
        parts: vec![],
    };
    assert_eq!(&render(&toks, &env), "<p>allowed to join the military and drink</p>");

    // {#if false} … {:else if false} … {:else if false} … {:else}
    // "<p>Go back to school</p>" {/if}
    let mut toks = vec![brace(vec![punct('#'), ident("if"), ident("false")])];
    toks.extend(raw("<p>allowed to join the military and drink</p>"));
    toks.push(brace(vec![punct(':'), ident("else"), ident("if"), ident("false")]));
    toks.extend(raw("<p>allowed to join the military</p>"));
    toks.push(brace(vec![punct(':'), ident("else"), ident("if"), ident("false")]));
    toks.extend(raw("<p>allowed to join the military and drink</p>"));
    toks.push(brace(vec![punct(':'), ident("else")]));
    toks.extend(raw("<p>Go back to school</p>"));
    toks.push(brace(vec![punct('/'), ident("if")]));
    let env = Env {
        texts: vec![
            raw_binding("<p>allowed to join the military and drink</p>"),
            raw_binding("<p>allowed to join the military</p>"),
            raw_binding("<p>Go back to school</p>"),
        ],
        flags: vec![("false".to_string(), false)],
        iters: vec![],
        choices: vec![],
        parts: vec![],
    };
    assert_eq!(&render(&toks, &env), "<p>Go back to school</p>");

    // {#if false} … {:else if false} … {:else if true} … {:else} … {/if}
    let mut toks = vec![brace(vec![punct('#'), ident("if"), ident("false")])];
    toks.extend(raw("<p>allowed to join the military and drink</p>"));
    toks.push(brace(vec![punct(':'), ident("else"), ident("if"), ident("false")]));
    toks.extend(raw("<p>allowed to join the military</p>"));
    toks.push(brace(vec![punct(':'), ident("else"), ident("if"), ident("true")]));
    toks.extend(raw("<p>allowed to join the military and drink</p>"));
    toks.push(brace(vec![punct(':'), ident("else")]));
    toks.extend(raw("<p>Go back to school</p>"));
    toks.push(brace(vec![punct('/'), ident("if")]));
    let env = Env {
        texts: vec![
            raw_binding("<p>allowed to join the military and drink</p>"),
            raw_binding("<p>allowed to join the military</p>"),
            raw_binding("<p>Go back to school</p>"),
        ],
        flags: vec![("false".to_string(), false), ("true".to_string(), true)],
        iters: vec![],
        choices: vec![],
        parts: vec![],
    };
    assert_eq!(&render(&toks, &env), "<p>allowed to join the military and drink</p>");

    // view! { <p>hello</p> }
    let toks = vec![
        punct('<'),
        ident("p"),
        punct('>'),
        ident("hello"),
        punct('<'),
        punct('/'),
        ident("p"),
        punct('>'),
    ];
    let env = Env { texts: vec![], flags: vec![], iters: vec![], choices: vec![], parts: vec![] };
    assert_eq!(&render(&toks, &env), "<p>hello</p>");
}
