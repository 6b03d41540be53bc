use tidos::ast::Component;
use tidos::env::Env;
use tidos::ops::render_ops;
use tidos::sanitize;
use tidos::tokens::{Delim, Spacing, Token};

#[test]
fn escapes_the_five_special_characters() {
    assert_eq!(sanitize("&"), "&amp;");
    assert_eq!(sanitize("<"), "&lt;");
    assert_eq!(sanitize(">"), "&gt;");
    assert_eq!(sanitize("\""), "&quot;");
    assert_eq!(sanitize("'"), "&#x27;");
    assert_eq!(
        sanitize("<script>alert('x & y')</script>"),
        "&lt;script&gt;alert(&#x27;x &amp; y&#x27;)&lt;/script&gt;"
    );
}

#[test]
fn leaves_safe_text_unchanged() {
    assert_eq!(sanitize("hello world"), "hello world");
    assert_eq!(sanitize(""), "");
}

#[test]
fn preserves_non_ascii_text() {
    assert_eq!(sanitize("grüße aus München — ✓"), "grüße aus München — ✓");
    assert_eq!(sanitize("<grüße>"), "&lt;grüße&gt;");
}

#[test]
fn double_escaping_only_expands_ampersands() {
    // escape(escape(s)) double-encodes the `&` of each entity and nothing
    // else: escaping is not accidentally idempotent, and not destructive.
    assert_eq!(sanitize(&sanitize("&")), "&amp;amp;");
    assert_eq!(sanitize(&sanitize("<")), "&amp;lt;");
    assert_eq!(sanitize(&sanitize("a<b")), "a&amp;lt;b");
    // Text already free of `&` after one round stays intact but for the
    // entity heads.
    let once = sanitize("x < y & z");
    assert_eq!(once, "x &lt; y &amp; z");
    assert_eq!(sanitize(&once), "x &amp;lt; y &amp;amp; z");
}

#[test]
fn generator_escapes_interpolations_exactly_once() {
    // <p>{value}</p> with value = "Tom & Jerry <3"
    let toks = vec![
        Token::Punct('<', Spacing::Alone),
        Token::Ident("p".to_string()),
        Token::Punct('>', Spacing::Alone),
        Token::Group(Delim::Brace, vec![Token::Ident("value".to_string())]),
        Token::Punct('<', Spacing::Alone),
        Token::Punct('/', Spacing::Alone),
        Token::Ident("p".to_string()),
        Token::Punct('>', Spacing::Alone),
    ];
    let env = Env {
        texts: vec![("value".to_string(), "Tom & Jerry <3".to_string())],
        flags: vec![],
        iters: vec![],
        choices: vec![],
        parts: vec![],
    };
    let component = match Component::parse(&toks) {
        Ok(c) => c,
        Err(e) => panic!("parse failed at token {}: {}", e.position, e.message),
    };
    let ops = match component.to_ops() {
        Ok(ops) => ops,
        Err(e) => panic!("compile failed: {}", e.message),
    };
    assert_eq!(render_ops(&ops, &env), "<p>Tom &amp; Jerry &lt;3</p>");
}
