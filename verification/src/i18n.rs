use vstd::prelude::*;
use vstd::string::*;
use crate::parsing::grammar::{gather, lemma_gather_done, lemma_gather_empty, lemma_gather_step,
    prepend, Parsed};
use crate::parsing::ParseError;
use crate::tokens::{token_text, Token, tokens_wf};

verus! {

/// Text of a literal token.
pub open spec fn lit_text(t: Token) -> Seq<char> {
    match t {
        Token::Literal(s) => s@,
        _ => Seq::<char>::empty(),
    }
}

/// The parameter pairs read from `p`: each a comma, a string-literal key,
/// a comma and a value token carried as source text, until no comma
/// follows; a malformed pair is a failure at its offending token.
pub open spec fn sp_i18n_params(ts: Seq<Token>, p: int) -> Parsed<Seq<(Seq<char>, Seq<char>)>>
    decreases ts.len() - p,
{
    if !(0 <= p < ts.len() && (ts[p] matches Token::Punct(c, _) && c == ',')) {
        Parsed::Found(Seq::<(Seq<char>, Seq<char>)>::empty(), p)
    } else if p + 1 >= ts.len() {
        Parsed::Failed("Expected param key as string literal"@, p + 1)
    } else if !(ts[p + 1] is Literal) {
        Parsed::Failed("Expected param key as string literal"@, p + 1)
    } else if p + 2 >= ts.len() || !(ts[p + 2] matches Token::Punct(c, _) && c == ',') {
        Parsed::Failed("Expected param value"@, p + 2)
    } else if p + 3 >= ts.len() {
        Parsed::Failed("Expected param value"@, p + 3)
    } else {
        prepend((lit_text(ts[p + 1]), token_text(ts[p + 3])), sp_i18n_params(ts, p + 4))
    }
}

/// The view of read parameter pairs.
pub open spec fn params_view(ps: Seq<(String, String)>) -> Seq<(Seq<char>, Seq<char>)> {
    Seq::new(ps.len(), |k: int| (ps[k].0@, ps[k].1@))
}

/// A parsed translation lookup: the message key (the source text of its
/// string literal) and the variables handed to the message, each a key
/// literal paired with an opaque value expression kept as source text.
pub struct I18n {
    pub key: String,
    pub params: Vec<(String, String)>,
}

impl I18n {
    /// Parse a translation lookup: a string-literal key, then any number
    /// of `, "name", value` pairs.  Tokens after the last pair are left
    /// unread.
    #[verifier::loop_isolation(false)]
    pub fn parse(toks: &Vec<Token>) -> (r: Result<I18n, ParseError>)
        requires
            tokens_wf(toks@),
        ensures
            match r {
                Ok(x) => toks@.len() >= 1 && (toks@[0] matches Token::Literal(s) && x.key@ == s@),
                Err(_) => true,
            },
            toks@.len() == 0 ==> (r matches Err(e) && e.position == 0 && e.message@
                == "Expected a string literal as key"@),
            (toks@.len() >= 1 && !(toks@[0] is Literal)) ==> (r matches Err(e) && e.position == 0
                && e.message@ == "Expected a string literal as key"@),
            (toks@.len() >= 1 && toks@[0] is Literal && (toks@.len() == 1 || !(
            toks@[1] matches Token::Punct(c, _) && c == ','))) ==> (r matches Ok(x) && x.params@.len()
                == 0),
            (toks@.len() >= 1 && toks@[0] is Literal) ==> (match r {
                Ok(x) => sp_i18n_params(toks@, 1) matches Parsed::Found(ps, _) && params_view(
                    x.params@,
                ) == ps,
                Err(e) => sp_i18n_params(toks@, 1) == Parsed::<Seq<(Seq<char>, Seq<
                    char,
                >)>>::Failed(e.message@, e.position as int),
            }),
    {
        if toks.len() == 0 {
            return Err(
                ParseError {
                    message: "Expected a string literal as key".to_owned(),
                    position: 0,
                },
            );
        }
        let key = match &toks[0] {
            Token::Literal(s) => s.clone(),
            _ => {
                return Err(
                    ParseError {
                        message: "Expected a string literal as key".to_owned(),
                        position: 0,
                    },
                );
            },
        };
        let mut params: Vec<(String, String)> = Vec::new();
        let mut p: usize = 1;
        proof {
            assert(params_view(params@) =~= Seq::<(Seq<char>, Seq<char>)>::empty());
            lemma_gather_empty(sp_i18n_params(toks@, 1));
        }
        while p < toks.len() && comma_at(toks, p)
            invariant
                1 <= p <= toks@.len(),
                p == 1 ==> params@.len() == 0,
                (toks@.len() == 1 || !(toks@[1] matches Token::Punct(c, _) && c == ',')) ==> p
                    == 1,
                sp_i18n_params(toks@, 1) == gather(
                    params_view(params@),
                    sp_i18n_params(toks@, p as int),
                ),
            decreases toks@.len() - p,
        {
            let ghost p0 = p as int;
            let ghost params0 = params@;
            let param_key = if p + 1 < toks.len() {
                match &toks[p + 1] {
                    Token::Literal(s) => s.clone(),
                    _ => {
                        return Err(
                            ParseError {
                                message: "Expected param key as string literal".to_owned(),
                                position: p + 1,
                            },
                        );
                    },
                }
            } else {
                return Err(
                    ParseError {
                        message: "Expected param key as string literal".to_owned(),
                        position: p + 1,
                    },
                );
            };
            if p + 2 >= toks.len() || !comma_at(toks, p + 2) {
                return Err(
                    ParseError { message: "Expected param value".to_owned(), position: p + 2 },
                );
            }
            if p + 3 >= toks.len() {
                return Err(
                    ParseError { message: "Expected param value".to_owned(), position: p + 3 },
                );
            }
            let value = toks[p + 3].to_source();
            params.push((param_key, value));
            p = p + 4;
            proof {
                let pair = params@[params@.len() - 1];
                assert(sp_i18n_params(toks@, p0) == prepend(
                    (pair.0@, pair.1@),
                    sp_i18n_params(toks@, p as int),
                ));
                lemma_gather_step(
                    params_view(params0),
                    (pair.0@, pair.1@),
                    sp_i18n_params(toks@, p as int),
                );
                assert(params_view(params0).push((pair.0@, pair.1@)) =~= params_view(params@));
            }
        }
        proof {
            assert(sp_i18n_params(toks@, p as int) == Parsed::<Seq<(Seq<char>, Seq<
                char,
            >)>>::Found(Seq::empty(), p as int));
            lemma_gather_done(params_view(params@), p as int);
        }
        Ok(I18n { key, params })
    }
}

/// A comma token stands at `i`.
fn comma_at(toks: &Vec<Token>, i: usize) -> (r: bool)
    requires
        i < toks@.len(),
    ensures
        r == (toks@[i as int] matches Token::Punct(c, _) && c == ','),
{
    match &toks[i] {
        Token::Punct(c, _) => *c == ',',
        _ => false,
    }
}

} // verus!
