use vstd::prelude::*;
use crate::ast::Component;
use crate::code_generation::{contents_lowerable, CompileError};
use crate::env::Env;
use crate::ops::render_ops;
use crate::page::Page;
use crate::parsing::ParseError;
use crate::semantics::render_contents;
use crate::tokens::{Token, tokens_wf};

verus! {

/// A whole page under construction: a template whose rendering becomes the
/// body of a fresh [`Page`].
pub struct PageWrapper {
    pub component: Component,
}

impl PageWrapper {
    /// Parse a page template: the same grammar as a bare template.
    pub fn parse(toks: &Vec<Token>) -> (r: Result<PageWrapper, ParseError>)
        requires
            tokens_wf(toks@),
        ensures
            match r {
                Ok(w) => crate::ast::contents_wf(w.component.children@) && (toks@.len() > 0
                    ==> w.component.children@.len() > 0),
                Err(_) => true,
            },
            toks@.len() == 0 ==> (r matches Ok(w) && w.component.children@.len() == 0),
            match r {
                Ok(w) => crate::parsing::grammar::sp_component(
                    toks@,
                ) matches crate::parsing::grammar::Parsed::Found(v, _)
                    && crate::parsing::grammar::contents_view(w.component.children@) == v,
                Err(e) => crate::parsing::grammar::sp_component(toks@)
                    == crate::parsing::grammar::Parsed::<Seq<
                    crate::parsing::grammar::ContentView,
                >>::Failed(e.message@, e.position as int),
            },
    {
        match Component::parse(toks) {
            Err(e) => Err(e),
            Ok(component) => Ok(PageWrapper { component }),
        }
    }

    /// Compile and expand the template into a fresh page: the rendering
    /// becomes the page body, and nothing is registered in the head.
    pub fn to_page(&self, env: &Env) -> (r: Result<Page, CompileError>)
        ensures
            match r {
                Ok(p) => {
                    &&& contents_lowerable(self.component.children@)
                    &&& p.template@ == render_contents(self.component.children@, *env)
                    &&& p.head@ == Seq::<char>::empty()
                    &&& p.ids() == Seq::<Seq<char>>::empty()
                },
                Err(_) => !contents_lowerable(self.component.children@),
            },
    {
        match self.component.to_ops() {
            Err(e) => Err(e),
            Ok(ops) => {
                let mut page = Page::new();
                page.template = render_ops(&ops, env);
                Ok(page)
            },
        }
    }
}

} // verus!
