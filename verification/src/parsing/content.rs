use vstd::prelude::*;
use vstd::string::*;
use vstd::pervasive::unreached;
use crate::ast::{Content, ControlTag, HTMLTag, content_wf};
use crate::parsing::ParseError;
use crate::parsing::grammar::{
    content_matches, content_view, sp_content, sp_raw, sp_text, ContentView, Parsed,
};
use crate::parsing::html_tag::{attrs_parse, attrs_view, self_close_at};
use crate::parsing::utils::name_from;
use crate::tokens::{group_inner, payload_source, payload_src, Delim, Spacing, Token, tokens_wf};

verus! {

/// A token that ends a run of literal text: an opening angle bracket or a
/// brace group.
pub open spec fn text_stop(t: Token) -> bool {
    ||| (t matches Token::Punct(c, _) && c == '<')
    ||| (t matches Token::Group(d, _) && d == Delim::Brace)
}

/// A `{#…}` command group stands at `i`.
pub open spec fn command_group_at(ts: Seq<Token>, i: int) -> bool {
    &&& 0 <= i < ts.len()
    &&& (ts[i] matches Token::Group(d, inner) && d == Delim::Brace && inner@.len() >= 1 && (
    inner@[0] matches Token::Punct(c, _) && c == '#'))
}

/// Whether the cursor stands on a control-command group.
fn is_cursor_at_command(toks: &Vec<Token>, i: usize) -> (r: bool)
    ensures
        r == command_group_at(toks@, i as int),
{
    if i >= toks.len() {
        return false;
    }
    match &toks[i] {
        Token::Group(Delim::Brace, inner) => {
            if inner.len() == 0 {
                return false;
            }
            match &inner[0] {
                Token::Punct(c, _) => *c == '#',
                _ => false,
            }
        },
        _ => false,
    }
}

/// The normalized text read from position `i` until the next text stop:
/// identifiers and literals joined by single spaces, punctuation glued to
/// the text before it, with a space after `Alone` punctuation only when
/// more punctuation follows.  Returns the text and the stop position;
/// `first` says whether nothing has been emitted yet.  A non-brace group
/// also stops the reading (the parser reports it as an error instead).
pub open spec fn text_norm_pos(ts: Seq<Token>, i: int, first: bool) -> (Seq<char>, int)
    decreases ts.len() - i,
{
    if 0 <= i < ts.len() && !text_stop(ts[i]) {
        match ts[i] {
            Token::Ident(s) => {
                let rest = text_norm_pos(ts, i + 1, false);
                ((if first {
                    s@
                } else {
                    seq![' '] + s@
                }) + rest.0, rest.1)
            },
            Token::Literal(s) => {
                let rest = text_norm_pos(ts, i + 1, false);
                ((if first {
                    s@
                } else {
                    seq![' '] + s@
                }) + rest.0, rest.1)
            },
            Token::Punct(c, sp) => {
                let rest = text_norm_pos(ts, i + 1, false);
                (seq![c] + (if sp == Spacing::Alone && i + 1 < ts.len() && ts[i + 1] is Punct {
                    seq![' ']
                } else {
                    Seq::<char>::empty()
                }) + rest.0, rest.1)
            },
            Token::Group(_, _) => (Seq::<char>::empty(), i),
        }
    } else {
        (Seq::<char>::empty(), i)
    }
}

/// Read normalized literal text from `i` to the next stop.
fn parse_text_scan(toks: &Vec<Token>, i: usize, first: bool) -> (r: Result<
    (String, usize),
    ParseError,
>)
    requires
        tokens_wf(toks@),
        i <= toks@.len(),
    ensures
        match r {
            Ok(p) => {
                &&& p.0@ == text_norm_pos(toks@, i as int, first).0
                &&& p.1 as int == text_norm_pos(toks@, i as int, first).1
                &&& i <= p.1 <= toks@.len()
                &&& (i < toks@.len() && !text_stop(toks@[i as int]) ==> p.1 > i)
                &&& sp_text(toks@, i as int, first) == Parsed::<Seq<char>>::Found(
                    p.0@,
                    p.1 as int,
                )
            },
            Err(e) => i <= e.position < toks@.len() && toks@[e.position as int] is Group
                && sp_text(toks@, i as int, first) == Parsed::<Seq<char>>::Failed(
                e.message@,
                e.position as int,
            ),
        },
    decreases toks@.len() - i,
{
    if i >= toks.len() {
        return Ok((String::new(), i));
    }
    match &toks[i] {
        Token::Punct(c, sp) => {
            if *c == '<' {
                return Ok((String::new(), i));
            }
            let mut out = String::new();
            out.push(*c);
            let next_is_punct = if i + 1 < toks.len() {
                match &toks[i + 1] {
                    Token::Punct(_, _) => true,
                    _ => false,
                }
            } else {
                false
            };
            if *sp == Spacing::Alone && next_is_punct {
                out.push(' ');
            }
            match parse_text_scan(toks, i + 1, false) {
                Err(e) => Err(e),
                Ok(p) => {
                    let (rest, j) = p;
                    out.append(rest.as_str());
                    Ok((out, j))
                },
            }
        },
        Token::Group(d, _) => {
            match d {
                Delim::Brace => Ok((String::new(), i)),
                _ => Err(
                    ParseError { message: "Unexpected group in text".to_owned(), position: i },
                ),
            }
        },
        Token::Ident(s) => {
            let mut out = String::new();
            if !first {
                out.push(' ');
            }
            out.append(s.as_str());
            match parse_text_scan(toks, i + 1, false) {
                Err(e) => Err(e),
                Ok(p) => {
                    let (rest, j) = p;
                    out.append(rest.as_str());
                    Ok((out, j))
                },
            }
        },
        Token::Literal(s) => {
            let mut out = String::new();
            if !first {
                out.push(' ');
            }
            out.append(s.as_str());
            match parse_text_scan(toks, i + 1, false) {
                Err(e) => Err(e),
                Ok(p) => {
                    let (rest, j) = p;
                    out.append(rest.as_str());
                    Ok((out, j))
                },
            }
        },
    }
}

impl Content {
    /// Parse one content node at `i`: an element after `<`, raw markup
    /// after `@`, a control construct or interpolation in a brace group,
    /// or a run of literal text.
    pub fn parse(toks: &Vec<Token>, i: usize) -> (r: Result<(Content, usize), ParseError>)
        requires
            tokens_wf(toks@),
        ensures
            match r {
                Ok(p) => i < p.1 <= toks@.len() && content_wf(p.0),
                Err(_) => true,
            },
            i >= toks@.len() ==> (r matches Err(e) && e.position == i && e.message@
                == "No tokens left to parse"@),
            (i < toks@.len() && (toks@[i as int] matches Token::Group(d, _) && d == Delim::Brace)
                && !command_group_at(toks@, i as int)) ==> (r matches Ok(p) && p.1 == i + 1 && (
            p.0 matches Content::Expression(s) && s@ == payload_src(
                group_inner(toks@[i as int]),
            ))),
            (i < toks@.len() && (toks@[i as int] matches Token::Punct(c, _) && c == '<')) ==> (
            match r {
                Ok(p) => p.0 matches Content::Tag(t) && t.tag@ == name_from(
                    toks@,
                    i as int + 1,
                ).0 && (attrs_parse(
                    toks@,
                    name_from(toks@, i as int + 1).1,
                ) matches Parsed::Found(avs, e) && attrs_view(t.attributes@) == avs && (
                t.is_self_closing ==> self_close_at(toks@, e) && p.1 as int == e + 2
                    && t.children@.len() == 0) && (!t.is_self_closing
                    ==> crate::parsing::html_tag::gt_at(toks@, e))),
                Err(_) => true,
            }),
            command_group_at(toks@, i as int) ==> (match r {
                Ok(p) => p.0 is ControlTag,
                Err(_) => true,
            }),
            ({
                let nm = name_from(toks@, i as int + 1);
                (i < toks@.len() && (toks@[i as int] matches Token::Punct(c, _) && c == '<') && i
                    + 1 < toks@.len() && toks@[i + 1] is Ident && (attrs_parse(
                    toks@,
                    nm.1,
                ) matches Parsed::Found(avs, e) && self_close_at(toks@, e))) ==> r is Ok
            }),
            content_matches(r, sp_content(toks@, i as int)),
            (i + 2 < toks@.len() && (toks@[i as int] matches Token::Punct(c, _) && c == '@') && (
            toks@[i + 1] matches Token::Ident(s) && s@ == "html"@) && toks@[i + 2] is Group)
                ==> (r matches Ok(p) && p.1 == i + 3 && (p.0 matches Content::RawHTMLExpression(
                pl,
            ) && pl@ == payload_src(group_inner(toks@[i + 2])))),
            (i < toks@.len() && !text_stop(toks@[i as int]) && !(toks@[i as int] is Group) && !(
            toks@[i as int] matches Token::Punct(c, _) && c == '@')) ==> (match r {
                Ok(p) => {
                    &&& (p.0 matches Content::Literal(s) && s@ == text_norm_pos(
                        toks@,
                        i as int,
                        true,
                    ).0)
                    &&& p.1 as int == text_norm_pos(toks@, i as int, true).1
                },
                Err(_) => true,
            }),
        decreases toks@.len() - i, 6nat,
    {
        if i >= toks.len() {
            return Err(
                ParseError { message: "No tokens left to parse".to_owned(), position: i },
            );
        }
        let starts_tag = match &toks[i] {
            Token::Punct(c, _) => *c == '<',
            _ => false,
        };
        let starts_raw = match &toks[i] {
            Token::Punct(c, _) => *c == '@',
            _ => false,
        };
        if starts_tag {
            match HTMLTag::parse(toks, i) {
                Err(e) => Err(e),
                Ok(p) => {
                    let (tag, j) = p;
                    Ok((Content::Tag(tag), j))
                },
            }
        } else if starts_raw {
            Self::parse_raw_html_statement(toks, i)
        } else if is_cursor_at_command(toks, i) {
            match ControlTag::parse(toks, i) {
                Err(e) => Err(e),
                Ok(p) => {
                    let (ct, j) = p;
                    Ok((Content::ControlTag(ct), j))
                },
            }
        } else {
            let is_expression = match &toks[i] {
                Token::Group(Delim::Brace, _) => true,
                _ => false,
            };
            if is_expression {
                match &toks[i] {
                    Token::Group(_, inner) => {
                        let payload = payload_source(inner, 0, inner.len());
                        proof {
                            assert(inner@.subrange(0, inner@.len() as int) =~= inner@);
                        }
                        Ok((Content::Expression(payload), i + 1))
                    },
                    _ => unreached(),
                }
            } else {
                Self::parse_text_between_tags(toks, i)
            }
        }
    }

    /// Read the run of literal text that starts at `i`.
    fn parse_text_between_tags(toks: &Vec<Token>, i: usize) -> (r: Result<
        (Content, usize),
        ParseError,
    >)
        requires
            tokens_wf(toks@),
            i < toks@.len(),
            !text_stop(toks@[i as int]),
        ensures
            match r {
                Ok(p) => {
                    &&& i < p.1 <= toks@.len()
                    &&& content_wf(p.0)
                    &&& (p.0 matches Content::Literal(s) && s@ == text_norm_pos(
                        toks@,
                        i as int,
                        true,
                    ).0)
                    &&& p.1 as int == text_norm_pos(toks@, i as int, true).1
                    &&& sp_text(toks@, i as int, true) matches Parsed::Found(txt, e)
                        && content_view(p.0) == ContentView::LitV(txt) && p.1 as int == e
                },
                Err(e) => i <= e.position < toks@.len() && toks@[e.position as int] is Group
                    && sp_text(toks@, i as int, true) == Parsed::<Seq<char>>::Failed(
                    e.message@,
                    e.position as int,
                ),
            },
        decreases toks@.len() - i, 5nat,
    {
        match parse_text_scan(toks, i, true) {
            Err(e) => Err(e),
            Ok(p) => {
                let (text, j) = p;
                Ok((Content::Literal(text), j))
            },
        }
    }

    /// Parse a raw-markup statement `@html{…}`; misspelling the fixed
    /// identifier is an error that names the expected spelling.
    fn parse_raw_html_statement(toks: &Vec<Token>, i: usize) -> (r: Result<
        (Content, usize),
        ParseError,
    >)
        requires
            tokens_wf(toks@),
            i < toks@.len(),
        ensures
            match r {
                Ok(p) => i < p.1 <= toks@.len() && content_wf(p.0),
                Err(_) => true,
            },
            i + 1 < toks@.len() && (toks@[i + 1] matches Token::Ident(s) && s@ != "html"@) ==> (
            r matches Err(e) && e.position == i + 1 && e.message@ == "Did you mean `html`?"@),
            (i + 2 < toks@.len() && (toks@[i + 1] matches Token::Ident(s) && s@ == "html"@)
                && toks@[i + 2] is Group) ==> (r matches Ok(p) && p.1 == i + 3 && (
            p.0 matches Content::RawHTMLExpression(pl) && pl@ == payload_src(
                group_inner(toks@[i + 2]),
            ))),
            content_matches(r, sp_raw(toks@, i as int)),
        decreases toks@.len() - i, 5nat,
    {
        if toks.len() - i < 2 {
            return Err(
                ParseError { message: "Expected an identifier".to_owned(), position: i + 1 },
            );
        }
        let kw_ok = match &toks[i + 1] {
            Token::Ident(s) => s.eq(&"html".to_owned()),
            _ => {
                return Err(
                    ParseError {
                        message: "Expected an identifier".to_owned(),
                        position: i + 1,
                    },
                );
            },
        };
        if !kw_ok {
            return Err(
                ParseError { message: "Did you mean `html`?".to_owned(), position: i + 1 },
            );
        }
        if toks.len() - i < 3 {
            return Err(ParseError { message: "Expected a group".to_owned(), position: i + 2 });
        }
        match &toks[i + 2] {
            Token::Group(_, inner) => {
                let payload = payload_source(inner, 0, inner.len());
                proof {
                    assert(inner@.subrange(0, inner@.len() as int) =~= inner@);
                }
                Ok((Content::RawHTMLExpression(payload), i + 3))
            },
            _ => Err(ParseError { message: "Expected a group".to_owned(), position: i + 2 }),
        }
    }
}

} // verus!
