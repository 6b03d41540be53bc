use vstd::prelude::*;
use vstd::string::*;
use vstd::pervasive::unreached;
use crate::ast::{Attribute, AttributeType, Content, HTMLTag, attributes_wf, contents_wf, tag_wf};
use crate::parsing::grammar::{
    contents_view, gather, html_matches, lemma_contents_view_push, lemma_gather_done,
    lemma_gather_empty, lemma_gather_step, prepend, sp_children, sp_html, ContentView, Parsed,
};
use crate::parsing::utils::{
    closing_tag_at, lemma_name_from_pos, matches_tag, name_from, read_name,
};
use crate::parsing::{missing_closing_tag_message, ParseError};
use crate::tokens::{payload_source, payload_src, Delim, Token, token_wf, tokens_wf};

verus! {

/// The shape of one parsed attribute: its toggle flag, its name, and its
/// value — absent, a literal's source text, or an opaque payload's source
/// text.
pub enum AttrValueView {
    Lit(Seq<char>),
    Expr(Seq<char>),
}

pub struct AttrView {
    pub is_toggle_attribute: bool,
    pub name: Seq<char>,
    pub value: Option<AttrValueView>,
}

pub open spec fn attr_view(a: Attribute) -> AttrView {
    AttrView {
        is_toggle_attribute: a.is_toggle_attribute,
        name: a.name@,
        value: match a.value {
            None => None,
            Some(AttributeType::Literal(l)) => Some(AttrValueView::Lit(l@)),
            Some(AttributeType::Group(g)) => Some(AttrValueView::Expr(g@)),
        },
    }
}

pub open spec fn attrs_view(s: Seq<Attribute>) -> Seq<AttrView> {
    Seq::new(s.len(), |k: int| attr_view(s[k]))
}

/// A self-closing `/>` stands at `p`.
pub open spec fn self_close_at(ts: Seq<Token>, p: int) -> bool {
    &&& 0 <= p
    &&& p + 1 < ts.len()
    &&& (ts[p] matches Token::Punct(c, _) && c == '/')
    &&& (ts[p + 1] matches Token::Punct(c, _) && c == '>')
}

/// A closing `>` stands at `p`.
pub open spec fn gt_at(ts: Seq<Token>, p: int) -> bool {
    &&& 0 <= p < ts.len()
    &&& (ts[p] matches Token::Punct(c, _) && c == '>')
}

/// The attribute list read from `p` up to the end of the opening tag: each
/// attribute's toggle marker, possibly hyphenated name, and optional value
/// (a literal, or a group carried as its payload's source text), ending at
/// the `/>` or `>` whose position comes back with the list.  Nothing comes
/// back when the list is malformed: a missing or misplaced name, a `=`
/// with nothing usable after it, a toggle bound to a literal, or input
/// that ends before the tag does.
pub open spec fn attrs_parse(ts: Seq<Token>, p: int) -> Parsed<Seq<AttrView>>
    decreases ts.len() - p,
    via attrs_parse_decreases
{
    if self_close_at(ts, p) || gt_at(ts, p) {
        Parsed::Found(Seq::<AttrView>::empty(), p)
    } else if p < 0 || p >= ts.len() {
        Parsed::Failed("Expected an attribute like `class` or `data-octo`"@, p)
    } else {
        let toggle = (ts[p] matches Token::Punct(c, _) && c == ':');
        let q = if toggle {
            p + 1
        } else {
            p
        };
        if q < ts.len() && ts[q] is Ident {
            let nm = name_from(ts, q);
            if nm.1 < ts.len() && (ts[nm.1] matches Token::Punct(c, _) && c == '=') {
                if nm.1 + 1 < ts.len() {
                    match ts[nm.1 + 1] {
                        Token::Literal(l) => if toggle {
                            Parsed::Failed(toggle_literal_msg(nm.0, l@), nm.1 + 1)
                        } else {
                            prepend(
                                AttrView {
                                    is_toggle_attribute: false,
                                    name: nm.0,
                                    value: Some(AttrValueView::Lit(l@)),
                                },
                                attrs_parse(ts, nm.1 + 2),
                            )
                        },
                        Token::Group(_, inner) => {
                            prepend(
                                AttrView {
                                    is_toggle_attribute: toggle,
                                    name: nm.0,
                                    value: Some(AttrValueView::Expr(payload_src(inner@))),
                                },
                                attrs_parse(ts, nm.1 + 2),
                            )
                        },
                        _ => Parsed::Failed(
                            if toggle {
                                "Expected a group {}"@
                            } else {
                                "Expected a literal \"\" or a group {}"@
                            },
                            nm.1,
                        ),
                    }
                } else {
                    Parsed::Failed("Expected a literal \"\" or a group {}"@, nm.1)
                }
            } else {
                prepend(
                    AttrView { is_toggle_attribute: toggle, name: nm.0, value: None },
                    attrs_parse(ts, nm.1),
                )
            }
        } else {
            Parsed::Failed("Expected an attribute like `class` or `data-octo`"@, q)
        }
    }
}

#[via_fn]
proof fn attrs_parse_decreases(ts: Seq<Token>, p: int) {
    lemma_name_from_pos(ts, p);
    lemma_name_from_pos(ts, p + 1);
}

fn is_self_close_at(toks: &Vec<Token>, p: usize) -> (r: bool)
    ensures
        r == self_close_at(toks@, p as int),
{
    if toks.len() < 2 || p >= toks.len() - 1 {
        return false;
    }
    let slash_ok = match &toks[p] {
        Token::Punct(c, _) => *c == '/',
        _ => false,
    };
    if !slash_ok {
        return false;
    }
    match &toks[p + 1] {
        Token::Punct(c, _) => *c == '>',
        _ => false,
    }
}

fn is_gt_at(toks: &Vec<Token>, p: usize) -> (r: bool)
    ensures
        r == gt_at(toks@, p as int),
{
    if p >= toks.len() {
        return false;
    }
    match &toks[p] {
        Token::Punct(c, _) => *c == '>',
        _ => false,
    }
}

/// The attribute list ends here: either `/>` or `>` follows.
fn at_tag_end(toks: &Vec<Token>, p: usize) -> (r: bool)
    ensures
        r == (self_close_at(toks@, p as int) || gt_at(toks@, p as int)),
{
    let sc = is_self_close_at(toks, p);
    let gt = is_gt_at(toks, p);
    sc || gt
}

/// The diagnostic for a toggle attribute bound to a literal, with the
/// rewrites that would be accepted instead.
pub open spec fn toggle_literal_msg(name: Seq<char>, lit: Seq<char>) -> Seq<char> {
    "Unable to have a toggle attribute from a literal, change it into the following:\n:"@ + name
        + "\n:"@ + name + "={ bool }\n"@ + name + "="@ + lit + "\n"@ + name + "={ "@ + lit
        + " }"@
}

/// Build the diagnostic for a toggle attribute bound to a literal, with
/// the rewrites that would be accepted instead.
fn toggle_literal_message(name: &String, lit: &String) -> (r: String)
    ensures
        r@ == toggle_literal_msg(name@, lit@),
{
    let mut m =
        "Unable to have a toggle attribute from a literal, change it into the following:\n:".to_owned();
    m.append(name.as_str());
    m.append("\n:");
    m.append(name.as_str());
    m.append("={ bool }\n");
    m.append(name.as_str());
    m.append("=");
    m.append(lit.as_str());
    m.append("\n");
    m.append(name.as_str());
    m.append("={ ");
    m.append(lit.as_str());
    m.append(" }");
    proof {
        assert(m@ =~= toggle_literal_msg(name@, lit@));
    }
    m
}

fn missing_closing_tag_message_for(tag: &String) -> (r: String)
    ensures
        r@ == missing_closing_tag_message(tag@),
{
    let mut m = "missing matching closing tag `</".to_owned();
    m.append(tag.as_str());
    m.append(">`");
    m
}

impl HTMLTag {
    /// Read a possibly hyphenated element or attribute name.
    fn extract_name(toks: &Vec<Token>, i: usize) -> (r: Result<(String, usize), ParseError>)
        requires
            tokens_wf(toks@),
        ensures
            match r {
                Ok(p) => {
                    &&& i < toks@.len()
                    &&& toks@[i as int] is Ident
                    &&& p.0@ == crate::parsing::utils::name_from(toks@, i as int).0
                    &&& p.1 as int == crate::parsing::utils::name_from(toks@, i as int).1
                    &&& i < p.1 <= toks@.len()
                    &&& p.0@.len() > 0
                },
                Err(e) => (i >= toks@.len() || !(toks@[i as int] is Ident)) && e.position == i,
            },
    {
        read_name(toks, i)
    }

    /// Parse one element at `i`: `<`, the tag name, attributes until `/>`
    /// or `>`, then — unless self-closing — children until the matching
    /// closing tag.  A missing closing tag is reported at the opening
    /// bracket, so the diagnostic points at the element left open.
    #[verifier::loop_isolation(false)]
    pub fn parse(toks: &Vec<Token>, i: usize) -> (r: Result<(HTMLTag, usize), ParseError>)
        requires
            tokens_wf(toks@),
        ensures
            match r {
                Ok(p) => {
                    &&& i < p.1 <= toks@.len()
                    &&& tag_wf(p.0)
                    &&& (toks@[i as int] matches Token::Punct(c, _) && c == '<')
                    &&& i + 1 < toks@.len()
                    &&& toks@[i + 1] is Ident
                    &&& p.0.tag@ == name_from(toks@, i as int + 1).0
                    &&& (p.0.is_self_closing ==> p.0.children@.len() == 0)
                },
                Err(_) => true,
            },
            ({
                let nm = name_from(toks@, i as int + 1);
                r matches Ok(p) ==> (attrs_parse(toks@, nm.1) matches Parsed::Found(avs, e)
                    && attrs_view(p.0.attributes@) == avs && (p.0.is_self_closing
                    ==> self_close_at(toks@, e) && p.1 as int == e + 2) && (!p.0.is_self_closing
                    ==> gt_at(toks@, e)))
            }),
            ({
                let nm = name_from(toks@, i as int + 1);
                (i < toks@.len() && (toks@[i as int] matches Token::Punct(c, _) && c == '<') && i
                    + 1 < toks@.len() && toks@[i + 1] is Ident && (attrs_parse(
                    toks@,
                    nm.1,
                ) matches Parsed::Found(avs, e) && self_close_at(toks@, e))) ==> r is Ok
            }),
            ({
                let nm = name_from(toks@, i as int + 1);
                (i < toks@.len() && (toks@[i as int] matches Token::Punct(c, _) && c == '<') && i
                    + 1 < toks@.len() && toks@[i + 1] is Ident && attrs_parse(toks@, nm.1)
                    is Failed) ==> r is Err
            }),
            html_matches(r, sp_html(toks@, i as int)),
            ({
                let nm = name_from(toks@, i as int + 1);
                (i < toks@.len() && (toks@[i as int] matches Token::Punct(c, _) && c == '<') && i
                    + 1 < toks@.len() && toks@[i + 1] is Ident && self_close_at(toks@, nm.1))
                    ==> (r matches Ok(p) && p.1 as int == nm.1 + 2 && p.0.tag@ == nm.0
                    && p.0.attributes@.len() == 0 && p.0.children@.len() == 0
                    && p.0.is_self_closing)
            }),
            ({
                let nm = name_from(toks@, i as int + 1);
                (i < toks@.len() && (toks@[i as int] matches Token::Punct(c, _) && c == '<') && i
                    + 1 < toks@.len() && toks@[i + 1] is Ident && gt_at(toks@, nm.1)
                    && closing_tag_at(toks@, nm.1 + 1, nm.0)) ==> (r matches Ok(p) && p.1 as int
                    == name_from(toks@, nm.1 + 3).1 + 1 && p.0.tag@ == nm.0
                    && p.0.attributes@.len() == 0 && p.0.children@.len() == 0
                    && !p.0.is_self_closing)
            }),
        decreases toks@.len() - i, 5nat,
    {
        if i >= toks.len() {
            return Err(
                ParseError { message: "No tokens left to parse".to_owned(), position: i },
            );
        }
        let lt_ok = match &toks[i] {
            Token::Punct(c, _) => *c == '<',
            _ => false,
        };
        if !lt_ok {
            return Err(ParseError { message: "Expected `<`".to_owned(), position: i });
        }
        let (tag, mut p) = match Self::extract_name(toks, i + 1) {
            Err(e) => {
                return Err(
                    ParseError {
                        message: "Expected an html like <p> or <custom-element>".to_owned(),
                        position: e.position,
                    },
                );
            },
            Ok(x) => x,
        };
        let ghost attrs_start = p as int;
        let mut attributes: Vec<Attribute> = Vec::new();
        proof {
            assert(attrs_view(attributes@) =~= Seq::<AttrView>::empty());
            crate::parsing::grammar::lemma_gather_empty(attrs_parse(toks@, attrs_start));
        }
        while !at_tag_end(toks, p)
            invariant
                tokens_wf(toks@),
                i < p <= toks@.len(),
                tag@.len() > 0,
                attributes_wf(attributes@),
                (self_close_at(toks@, attrs_start) || gt_at(toks@, attrs_start)) ==> (p as int
                    == attrs_start && attributes@.len() == 0),
                attrs_parse(toks@, attrs_start) == gather(
                    attrs_view(attributes@),
                    attrs_parse(toks@, p as int),
                ),
            decreases toks@.len() - p,
        {
            let ghost p0 = p as int;
            let ghost attrs0 = attributes@;
            if p >= toks.len() {
                return Err(
                    ParseError {
                        message: "Expected an attribute like `class` or `data-octo`".to_owned(),
                        position: p,
                    },
                );
            }
            let is_toggle_attribute = match &toks[p] {
                Token::Punct(c, _) => *c == ':',
                _ => false,
            };
            if is_toggle_attribute {
                p = p + 1;
            }
            let (attribute_name, p2) = match Self::extract_name(toks, p) {
                Err(e) => {
                    return Err(
                        ParseError {
                            message: "Expected an attribute like `class` or `data-octo`".to_owned(),
                            position: e.position,
                        },
                    );
                },
                Ok(x) => x,
            };
            p = p2;
            let has_equals = if p < toks.len() {
                match &toks[p] {
                    Token::Punct(c, _) => *c == '=',
                    _ => false,
                }
            } else {
                false
            };
            if has_equals {
                if p + 1 >= toks.len() {
                    return Err(
                        ParseError {
                            message: "Expected a literal \"\" or a group {}".to_owned(),
                            position: p,
                        },
                    );
                }
                match &toks[p + 1] {
                    Token::Literal(l) => {
                        if is_toggle_attribute {
                            return Err(
                                ParseError {
                                    message: toggle_literal_message(&attribute_name, l),
                                    position: p + 1,
                                },
                            );
                        }
                        attributes.push(
                            Attribute {
                                is_toggle_attribute,
                                name: attribute_name,
                                value: Some(AttributeType::Literal(l.clone())),
                            },
                        );
                        p = p + 2;
                        proof {
                            let a = attributes@[attributes@.len() - 1];
                            assert(attrs_parse(toks@, p0) == prepend(
                                attr_view(a),
                                attrs_parse(toks@, p as int),
                            ));
                            lemma_gather_step(
                                attrs_view(attrs0),
                                attr_view(a),
                                attrs_parse(toks@, p as int),
                            );
                            assert(attrs_view(attrs0).push(attr_view(a)) =~= attrs_view(
                                attributes@,
                            ));
                        }
                    },
                    Token::Group(_, inner) => {
                        proof {
                            assert(token_wf(toks@[p as int + 1]));
                        }
                        let payload = payload_source(inner, 0, inner.len());
                        proof {
                            assert(inner@.subrange(0, inner@.len() as int) =~= inner@);
                        }
                        attributes.push(
                            Attribute {
                                is_toggle_attribute,
                                name: attribute_name,
                                value: Some(AttributeType::Group(payload)),
                            },
                        );
                        p = p + 2;
                        proof {
                            let a = attributes@[attributes@.len() - 1];
                            assert(attrs_parse(toks@, p0) == prepend(
                                attr_view(a),
                                attrs_parse(toks@, p as int),
                            ));
                            lemma_gather_step(
                                attrs_view(attrs0),
                                attr_view(a),
                                attrs_parse(toks@, p as int),
                            );
                            assert(attrs_view(attrs0).push(attr_view(a)) =~= attrs_view(
                                attributes@,
                            ));
                        }
                    },
                    _ => {
                        return Err(
                            ParseError {
                                message: if is_toggle_attribute {
                                    "Expected a group {}".to_owned()
                                } else {
                                    "Expected a literal \"\" or a group {}".to_owned()
                                },
                                position: p,
                            },
                        );
                    },
                }
            } else {
                attributes.push(
                    Attribute { is_toggle_attribute, name: attribute_name, value: None },
                );
                proof {
                    let a = attributes@[attributes@.len() - 1];
                    assert(attrs_parse(toks@, p0) == prepend(
                        attr_view(a),
                        attrs_parse(toks@, p as int),
                    ));
                    lemma_gather_step(
                        attrs_view(attrs0),
                        attr_view(a),
                        attrs_parse(toks@, p as int),
                    );
                    assert(attrs_view(attrs0).push(attr_view(a)) =~= attrs_view(attributes@));
                }
            }
        }
        proof {
            assert(attrs_parse(toks@, p as int) == Parsed::<Seq<AttrView>>::Found(
                Seq::<AttrView>::empty(),
                p as int,
            ));
            crate::parsing::grammar::lemma_gather_done(attrs_view(attributes@), p as int);
        }
        if is_self_close_at(toks, p) {
            return Ok(
                (
                    HTMLTag { tag, attributes, children: Vec::new(), is_self_closing: true },
                    p + 2,
                ),
            );
        }
        p = p + 1;
        if p >= toks.len() {
            return Err(
                ParseError { message: missing_closing_tag_message_for(&tag), position: i },
            );
        }
        let ghost children_start = p as int;
        let mut children: Vec<Content> = Vec::new();
        proof {
            assert(contents_view(children@) =~= Seq::<ContentView>::empty());
            lemma_gather_empty(sp_children(toks@, children_start, tag@, i as int));
        }
        while !matches_tag(toks, p, &tag)
            invariant
                tokens_wf(toks@),
                i < p <= toks@.len(),
                p < toks@.len(),
                tag@.len() > 0,
                contents_wf(children@),
                closing_tag_at(toks@, children_start, tag@) ==> (p as int == children_start
                    && children@.len() == 0),
                sp_children(toks@, children_start, tag@, i as int) == gather(
                    contents_view(children@),
                    sp_children(toks@, p as int, tag@, i as int),
                ),
            decreases toks@.len() - p,
        {
            let ghost p_iter = p as int;
            let ghost kids0 = children@;
            // A closing tag that failed to match above can only close some
            // other element: report this element as left open, anchored at
            // its opening bracket.
            let looks_like_closing = if p + 1 < toks.len() {
                let lt_here = match &toks[p] {
                    Token::Punct(c, _) => *c == '<',
                    _ => false,
                };
                let slash_next = match &toks[p + 1] {
                    Token::Punct(c, _) => *c == '/',
                    _ => false,
                };
                lt_here && slash_next
            } else {
                false
            };
            if looks_like_closing {
                proof {
                    assert(sp_children(toks@, p_iter, tag@, i as int) == Parsed::<Seq<
                        ContentView,
                    >>::Failed(missing_closing_tag_message(tag@), i as int));
                }
                return Err(
                    ParseError { message: missing_closing_tag_message_for(&tag), position: i },
                );
            }
            match Content::parse(toks, p) {
                Err(e) => {
                    proof {
                        assert(sp_children(toks@, p_iter, tag@, i as int) == Parsed::<Seq<
                            ContentView,
                        >>::Failed(e.message@, e.position as int));
                    }
                    return Err(e);
                },
                Ok(item) => {
                    let (child, q) = item;
                    children.push(child);
                    p = q;
                },
            }
            if p >= toks.len() {
                proof {
                    assert(sp_children(toks@, p_iter, tag@, i as int) == Parsed::<Seq<
                        ContentView,
                    >>::Failed(missing_closing_tag_message(tag@), i as int));
                }
                return Err(
                    ParseError { message: missing_closing_tag_message_for(&tag), position: i },
                );
            }
            proof {
                let child = children@[children@.len() - 1];
                lemma_contents_view_push(kids0, child);
                assert(sp_children(toks@, p_iter, tag@, i as int) == prepend(
                    crate::parsing::grammar::content_view(child),
                    sp_children(toks@, p as int, tag@, i as int),
                ));
                lemma_gather_step(
                    contents_view(kids0),
                    crate::parsing::grammar::content_view(child),
                    sp_children(toks@, p as int, tag@, i as int),
                );
            }
        }
        proof {
            assert(closing_tag_at(toks@, p as int, tag@));
            assert(sp_children(toks@, p as int, tag@, i as int) == Parsed::<Seq<
                ContentView,
            >>::Found(Seq::empty(), p as int));
            lemma_gather_done(contents_view(children@), p as int);
        }
        let after_name = match read_name(toks, p + 2) {
            Err(_) => {
                return unreached();
            },
            Ok(x) => x.1,
        };
        Ok((HTMLTag { tag, attributes, children, is_self_closing: false }, after_name + 1))
    }
}

} // verus!
