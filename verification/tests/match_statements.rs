use tidos::ast::Component;
use tidos::env::Env;
use tidos::ops::render_ops;
use tidos::tokens::{Delim, Spacing, Token};

fn ident(s: &str) -> Token {
    Token::Ident(s.to_string())
}

fn punct(c: char) -> Token {
    Token::Punct(c, Spacing::Alone)
}

fn punct_joint(c: char) -> Token {
    Token::Punct(c, Spacing::Joint)
}

fn strlit(s: &str) -> Token {
    Token::Literal(format!("\"{}\"", s))
}

fn brace(v: Vec<Token>) -> Token {
    Token::Group(Delim::Brace, v)
}

fn paren(v: Vec<Token>) -> Token {
    Token::Group(Delim::Paren, v)
}

fn render(toks: &Vec<Token>, env: &Env) -> String {
    let component = match Component::parse(toks) {
        Ok(c) => c,
        Err(e) => panic!("parse failed at token {}: {}", e.position, e.message),
    };
    let ops = match component.to_ops() {
        Ok(ops) => ops,
        Err(e) => panic!("compile failed: {}", e.message),
    };
    render_ops(&ops, env)
}

fn p_tag(body: Vec<Token>) -> Vec<Token> {
    let mut toks = vec![punct('<'), ident("p"), punct('>')];
    toks.extend(body);
    toks.extend(vec![punct('<'), punct('/'), ident("p"), punct('>')]);
    toks
}

fn open_match(subject: Vec<Token>) -> Token {
    let mut inner = vec![punct('#'), ident("match")];
    inner.extend(subject);
    brace(inner)
}

fn case_marker(pattern: Vec<Token>) -> Token {
    let mut inner = vec![punct(':'), ident("case")];
    inner.extend(pattern);
    brace(inner)
}

fn close_match() -> Token {
    brace(vec![punct('/'), ident("match")])
}

fn env_with_choice(subject: &str, case_index: usize) -> Env {
    Env {
        texts: vec![],
        flags: vec![],
        iters: vec![],
        choices: vec![(subject.to_string(), case_index)],
        parts: vec![],
    }
}

#[test]
fn a_simple_match_statement() {
    // {#match my_pet} {:case Fish} <p>Blub!</p> {:case Dog} <p>Good boy!</p>
    // {:case Cat} <p>Give al mortal possessions to cat!</p>
    // {:case _} <p>Is it a snake or a spider?</p> {/match}
    // with my_pet = Dog, which selects the second case.
    let mut toks = vec![open_match(vec![ident("my_pet")])];
    toks.push(case_marker(vec![ident("Fish")]));
    toks.extend(p_tag(vec![ident("Blub"), punct_joint('!')]));
    toks.push(case_marker(vec![ident("Dog")]));
    toks.extend(p_tag(vec![ident("Good"), ident("boy"), punct_joint('!')]));
    toks.push(case_marker(vec![ident("Cat")]));
    toks.extend(p_tag(vec![
        ident("Give"),
        ident("al"),
        ident("mortal"),
        ident("possessions"),
        ident("to"),
        ident("cat"),
        punct_joint('!'),
    ]));
    toks.push(case_marker(vec![ident("_")]));
    toks.extend(p_tag(vec![
        ident("Is"),
        ident("it"),
        ident("a"),
        ident("snake"),
        ident("or"),
        ident("a"),
        ident("spider"),
        punct_joint('?'),
    ]));
    toks.push(close_match());

    assert_eq!(
        &render(&toks, &env_with_choice("my_pet", 1)),
        "<p>Good boy!</p>"
    );
}

#[test]
fn a_complex_match_statement() {
    // my_pet = Other { name: String::from("spider") }, selecting the last
    // case, whose body interpolates format!("It is a {name}!").
    let mut toks = vec![open_match(vec![ident("my_pet")])];
    toks.push(case_marker(vec![ident("Fish")]));
    toks.extend(p_tag(vec![ident("Blub"), punct_joint('!')]));
    toks.push(case_marker(vec![ident("Dog")]));
    toks.extend(p_tag(vec![ident("Good"), ident("boy"), punct_joint('!')]));
    toks.push(case_marker(vec![ident("Cat")]));
    for _ in 0..3 {
        toks.extend(p_tag(vec![
            ident("Give"),
            ident("al"),
            ident("mortal"),
            ident("possessions"),
            ident("to"),
            ident("cat"),
            punct_joint('!'),
        ]));
    }
    toks.push(case_marker(vec![ident("Other"), brace(vec![ident("name")])]));
    toks.extend(p_tag(vec![
        ident("What"),
        ident("is"),
        ident("that"),
        punct_joint('?'),
    ]));
    toks.extend(p_tag(vec![brace(vec![
        ident("format"),
        punct('!'),
        paren(vec![strlit("It is a {name}!")]),
    ])]));
    toks.push(close_match());

    let env = Env {
        texts: vec![(
            "format ! (\"It is a {name}!\")".to_string(),
            "It is a spider!".to_string(),
        )],
        flags: vec![],
        iters: vec![],
        choices: vec![("my_pet".to_string(), 3)],
        parts: vec![],
    };

    assert_eq!(&render(&toks, &env), "<p>What is that?</p><p>It is a spider!</p>");
}

#[test]
fn missing_pattern_in_match_statement() {
    // A match whose subject never selects a case renders nothing: pattern
    // exhaustiveness belongs to the host, not to the compiler.
    let mut toks = vec![open_match(vec![ident("my_pet")])];
    toks.push(case_marker(vec![ident("Fish")]));
    toks.extend(p_tag(vec![ident("Blub"), punct_joint('!')]));
    toks.push(close_match());

    let env = Env {
        texts: vec![],
        flags: vec![],
        iters: vec![],
        choices: vec![],
        parts: vec![],
    };
    assert_eq!(&render(&toks, &env), "");
}

#[test]
fn degenerate_match_without_cases() {
    // {#match my_pet} {/match}: legal but unusual; it renders nothing.
    let toks = vec![open_match(vec![ident("my_pet")]), close_match()];
    assert_eq!(&render(&toks, &env_with_choice("my_pet", 0)), "");
}
