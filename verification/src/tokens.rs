use vstd::prelude::*;
use vstd::string::*;

verus! {

/// How closely a punctuation token sits to the token after it: `Joint`
/// punctuation glues to its successor (as in the two halves of `==`),
/// `Alone` punctuation does not.
#[derive(Debug, Clone, Copy, PartialEq, Eq, Structural)]
pub enum Spacing {
    Alone,
    Joint,
}

/// The delimiter of a token group.
#[derive(Debug, Clone, Copy, PartialEq, Eq, Structural)]
pub enum Delim {
    Brace,
    Paren,
    Bracket,
}

/// A single token of template input, as handed over by the host tokenizer:
/// an identifier, a punctuation character (with its spacing), a literal
/// carried as its source text (a string literal keeps its quotes), or a
/// delimited group of nested tokens.
pub enum Token {
    Ident(String),
    Punct(char, Spacing),
    Literal(String),
    Group(Delim, Vec<Token>),
}

/// Number of leaves in one token tree, counting through groups; at least 1.
pub open spec fn token_size(t: Token) -> nat
    decreases t,
{
    match t {
        Token::Group(_, inner) => 1 + tokens_size(inner@),
        _ => 1,
    }
}

/// Total number of leaves in a token sequence.
pub open spec fn tokens_size(ts: Seq<Token>) -> nat
    decreases ts,
{
    if ts.len() == 0 {
        0
    } else {
        token_size(ts[0]) + tokens_size(ts.skip(1))
    }
}

/// A well-formed token carries no empty identifier or literal text.
pub open spec fn token_wf(t: Token) -> bool
    decreases t,
{
    match t {
        Token::Ident(s) => s@.len() > 0,
        Token::Literal(s) => s@.len() > 0,
        Token::Punct(_, _) => true,
        Token::Group(_, inner) => tokens_wf(inner@),
    }
}

pub open spec fn tokens_wf(ts: Seq<Token>) -> bool
    decreases ts,
{
    forall|i: int| 0 <= i < ts.len() ==> token_wf(#[trigger] ts[i])
}

pub open spec fn open_delim(d: Delim) -> char {
    match d {
        Delim::Brace => '{',
        Delim::Paren => '(',
        Delim::Bracket => '[',
    }
}

pub open spec fn close_delim(d: Delim) -> char {
    match d {
        Delim::Brace => '}',
        Delim::Paren => ')',
        Delim::Bracket => ']',
    }
}

/// The text of one token in the canonical source form used for opaque
/// payloads: identifiers and literals print as themselves, punctuation as
/// its character, and a group as its delimiters around its payload text.
pub open spec fn token_text(t: Token) -> Seq<char>
    decreases t, 0nat,
{
    match t {
        Token::Ident(s) => s@,
        Token::Literal(s) => s@,
        Token::Punct(c, _) => seq![c],
        Token::Group(d, inner) => seq![open_delim(d)] + payload_src(inner@) + seq![close_delim(d)],
    }
}

/// Whether a space follows token `t` in canonical payload text: every token
/// is followed by one space, except joint punctuation, which glues to its
/// successor.
pub open spec fn payload_joiner(t: Token) -> Seq<char> {
    match t {
        Token::Punct(_, Spacing::Joint) => Seq::<char>::empty(),
        _ => seq![' '],
    }
}

/// Canonical source text of an opaque payload: token texts joined by
/// [`payload_joiner`].  This is the name under which an [`crate::env::Env`]
/// addresses the payload's runtime value.
pub open spec fn payload_src(ts: Seq<Token>) -> Seq<char>
    decreases ts, 1nat,
{
    if ts.len() == 0 {
        Seq::<char>::empty()
    } else if ts.len() == 1 {
        token_text(ts[0])
    } else {
        token_text(ts[0]) + payload_joiner(ts[0]) + payload_src(ts.skip(1))
    }
}

/// Whether one token is well formed.
pub fn token_wf_check(t: &Token) -> (r: bool)
    ensures
        r == token_wf(*t),
    decreases t, 0nat,
{
    match t {
        Token::Ident(s) => s.as_str().unicode_len() > 0,
        Token::Literal(s) => s.as_str().unicode_len() > 0,
        Token::Punct(_, _) => true,
        Token::Group(_, inner) => {
            proof {
                assert(inner@.subrange(0, inner@.len() as int) =~= inner@);
            }
            tokens_wf_check_range(inner, 0, inner.len())
        },
    }
}

/// Whether every token of `toks[from..to]` is well formed.
fn tokens_wf_check_range(toks: &Vec<Token>, from: usize, to: usize) -> (r: bool)
    requires
        from <= to <= toks@.len(),
    ensures
        r == tokens_wf(toks@.subrange(from as int, to as int)),
    decreases toks@.subrange(from as int, to as int), 1nat,
{
    proof {
        let sub = toks@.subrange(from as int, to as int);
        if from < to {
            assert(sub[0] == toks@[from as int]);
            assert(toks@.subrange(from as int + 1, to as int) =~= sub.skip(1));
        }
    }
    if from >= to {
        true
    } else {
        let head_ok = token_wf_check(&toks[from]);
        if !head_ok {
            proof {
                assert(!token_wf(toks@.subrange(from as int, to as int)[0]));
            }
            return false;
        }
        let rest_ok = tokens_wf_check_range(toks, from + 1, to);
        proof {
            let sub = toks@.subrange(from as int, to as int);
            let rest = toks@.subrange(from as int + 1, to as int);
            if rest_ok {
                assert forall|k: int| 0 <= k < sub.len() implies token_wf(#[trigger] sub[k]) by {
                    if k > 0 {
                        assert(sub[k] == rest[k - 1]);
                    }
                }
            } else {
                assert(!tokens_wf(rest));
                if tokens_wf(sub) {
                    assert forall|k: int| 0 <= k < rest.len() implies token_wf(
                        #[trigger] rest[k],
                    ) by {
                        assert(rest[k] == sub[k + 1]);
                    }
                }
            }
        }
        rest_ok
    }
}

/// Whether the whole token stream is well formed: the executable check the
/// parsers' precondition asks for, so a caller outside the library can test
/// it before parsing.
pub fn check_tokens_wf(toks: &Vec<Token>) -> (r: bool)
    ensures
        r == tokens_wf(toks@),
{
    proof {
        assert(toks@.subrange(0, toks@.len() as int) =~= toks@);
    }
    tokens_wf_check_range(toks, 0, toks.len())
}

/// The tokens inside a group token; empty for any other token.
pub open spec fn group_inner(t: Token) -> Seq<Token> {
    match t {
        Token::Group(_, inner) => inner@,
        _ => Seq::<Token>::empty(),
    }
}

/// The value a literal token contributes to rendered text: a plain quoted
/// string literal contributes its content without the surrounding quotes,
/// any other literal contributes its source text.  Escape sequences inside
/// a string literal and raw-string syntax are not interpreted: such a
/// literal's source text passes through as written.
pub open spec fn literal_value(s: Seq<char>) -> Seq<char> {
    if s.len() >= 2 && s[0] == '"' && s[s.len() - 1] == '"' {
        s.subrange(1, s.len() - 1)
    } else {
        s
    }
}

/// Relies on the standard library's `String::push`: it appends exactly the
/// given character at the end of the string.
pub assume_specification[ String::push ](s: &mut String, c: char)
    ensures
        final(s)@ == old(s)@.push(c),
;

impl Token {
    /// Canonical source text of this token, as [`token_text`] gives it.
    pub fn to_source(&self) -> (r: String)
        ensures
            r@ == token_text(*self),
        decreases self, 0nat,
    {
        match self {
            Token::Ident(s) => s.clone(),
            Token::Literal(s) => s.clone(),
            Token::Punct(c, _) => {
                let mut r = String::new();
                r.push(*c);
                proof {
                    assert(r@ =~= seq![*c]);
                }
                r
            },
            Token::Group(d, inner) => {
                let mut r = String::new();
                let od: char = match d {
                    Delim::Brace => '{',
                    Delim::Paren => '(',
                    Delim::Bracket => '[',
                };
                r.push(od);
                proof {
                    assert(inner@.subrange(0, inner@.len() as int) =~= inner@);
                }
                let body = payload_source(inner, 0, inner.len());
                r.append(body.as_str());
                let cd: char = match d {
                    Delim::Brace => '}',
                    Delim::Paren => ')',
                    Delim::Bracket => ']',
                };
                r.push(cd);
                proof {
                    assert(inner@.subrange(0, inner@.len() as int) =~= inner@);
                    assert(r@ =~= seq![open_delim(*d)] + payload_src(inner@) + seq![
                        close_delim(*d),
                    ]);
                }
                r
            },
        }
    }
}

/// Canonical source text of the payload `ts[from..to]`, as [`payload_src`]
/// gives it.
pub fn payload_source(ts: &Vec<Token>, from: usize, to: usize) -> (r: String)
    requires
        from <= to <= ts@.len(),
    ensures
        r@ == payload_src(ts@.subrange(from as int, to as int)),
    decreases ts@.subrange(from as int, to as int), 1nat,
{
    if from == to {
        let r = String::new();
        proof {
            assert(ts@.subrange(from as int, to as int).len() == 0);
        }
        r
    } else {
        proof {
            let sub = ts@.subrange(from as int, to as int);
            assert(sub[0] == ts@[from as int]);
            assert(ts@.subrange(from as int + 1, to as int) =~= sub.skip(1));
        }
        let mut r = ts[from].to_source();
        if from + 1 < to {
            let joint = match &ts[from] {
                Token::Punct(_, Spacing::Joint) => true,
                _ => false,
            };
            if !joint {
                r.push(' ');
            }
            let rest = payload_source(ts, from + 1, to);
            r.append(rest.as_str());
        }
        proof {
            let sub = ts@.subrange(from as int, to as int);
            if from + 1 < to {
                assert(r@ =~= token_text(sub[0]) + payload_joiner(sub[0]) + payload_src(
                    sub.skip(1),
                ));
            } else {
                assert(sub.len() == 1);
            }
        }
        r
    }
}

} // verus!
