use vstd::prelude::*;
use crate::ast::{Component, Content, contents_wf};
use crate::parsing::content::command_group_at;
use crate::parsing::grammar::{
    component_matches, contents_view, gather, lemma_gather_done, lemma_gather_empty,
    lemma_gather_step, prepend, sp_component, sp_content, sp_items, Parsed,
};
use crate::parsing::html_tag::{attrs_parse, attrs_view, self_close_at};
use crate::parsing::utils::name_from;
use crate::parsing::ParseError;
use crate::tokens::{group_inner, payload_src, Delim, Token, tokens_wf};

verus! {

impl Component {
    /// Parse a whole template: content nodes until the token stream is
    /// exhausted.  An empty stream is the empty template.
    #[verifier::loop_isolation(false)]
    pub fn parse(toks: &Vec<Token>) -> (r: Result<Component, ParseError>)
        requires
            tokens_wf(toks@),
        ensures
            match r {
                Ok(c) => contents_wf(c.children@) && (toks@.len() > 0 ==> c.children@.len() > 0),
                Err(_) => true,
            },
            toks@.len() == 0 ==> (r matches Ok(c) && c.children@.len() == 0),
            (toks@.len() == 1 && (toks@[0] matches Token::Group(d, _) && d == Delim::Brace)
                && !command_group_at(toks@, 0)) ==> (r matches Ok(c) && c.children@.len() == 1
                && (c.children@[0] matches Content::Expression(s) && s@ == payload_src(
                group_inner(toks@[0]),
            ))),
            component_matches(r, sp_component(toks@)),
            ({
                let nm = name_from(toks@, 1);
                (toks@.len() > 1 && (toks@[0] matches Token::Punct(ch, _) && ch == '<')
                    && toks@[1] is Ident && (attrs_parse(toks@, nm.1) matches Parsed::Found(
                    _,
                    e,
                ) && self_close_at(toks@, e) && e + 2 == toks@.len())) ==> (r matches Ok(c)
                    && c.children@.len() == 1 && (c.children@[0] matches Content::Tag(t)
                    && t.tag@ == nm.0 && attrs_view(t.attributes@) == attrs_parse(
                    toks@,
                    nm.1,
                )->Found_0 && t.is_self_closing && t.children@.len() == 0))
            }),
    {
        let mut children: Vec<Content> = Vec::new();
        let mut p: usize = 0;
        proof {
            assert(contents_view(children@) =~= Seq::<
                crate::parsing::grammar::ContentView,
            >::empty());
            lemma_gather_empty(sp_items(toks@, 0));
        }
        while p < toks.len()
            invariant
                tokens_wf(toks@),
                p <= toks@.len(),
                contents_wf(children@),
                children@.len() == 0 <==> p == 0,
                (toks@.len() == 1 && (toks@[0] matches Token::Group(d, _) && d == Delim::Brace)
                    && !command_group_at(toks@, 0) && p == 1) ==> (children@.len() == 1 && (
                children@[0] matches Content::Expression(s) && s@ == payload_src(
                    group_inner(toks@[0]),
                ))),
                ({
                    let nm = name_from(toks@, 1);
                    (toks@.len() > 1 && (toks@[0] matches Token::Punct(ch, _) && ch == '<')
                        && toks@[1] is Ident && (attrs_parse(toks@, nm.1) matches Parsed::Found(
                        _,
                        e,
                    ) && self_close_at(toks@, e) && e + 2 == toks@.len())) ==> ((p == 0 || p
                        == toks@.len()) && (p == toks@.len() ==> (children@.len() == 1 && (
                    children@[0] matches Content::Tag(t) && t.tag@ == nm.0 && attrs_view(
                        t.attributes@,
                    ) == attrs_parse(toks@, nm.1)->Found_0 && t.is_self_closing
                        && t.children@.len() == 0))))
                }),
                sp_items(toks@, 0) == gather(
                    contents_view(children@),
                    sp_items(toks@, p as int),
                ),
            decreases toks@.len() - p,
        {
            let ghost p0 = p as int;
            let ghost kids0 = children@;
            match Content::parse(toks, p) {
                Err(e) => {
                    proof {
                        assert(sp_items(toks@, p0) == Parsed::<Seq<
                            crate::parsing::grammar::ContentView,
                        >>::Failed(e.message@, e.position as int));
                    }
                    return Err(e);
                },
                Ok(item) => {
                    let (child, q) = item;
                    children.push(child);
                    p = q;
                    proof {
                        crate::parsing::grammar::lemma_contents_view_push(kids0, child);
                        assert(sp_items(toks@, p0) == prepend(
                            crate::parsing::grammar::content_view(child),
                            sp_items(toks@, p as int),
                        ));
                        lemma_gather_step(
                            contents_view(kids0),
                            crate::parsing::grammar::content_view(child),
                            sp_items(toks@, p as int),
                        );
                    }
                },
            }
        }
        proof {
            assert(sp_items(toks@, p as int) == Parsed::<Seq<
                crate::parsing::grammar::ContentView,
            >>::Found(Seq::empty(), p as int));
            lemma_gather_done(contents_view(children@), p as int);
        }
        Ok(Component { children })
    }
}

} // verus!
