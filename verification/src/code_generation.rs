pub mod attribute;
pub mod component;
pub mod content;
pub mod control_tag;
pub mod html_tag;

use vstd::prelude::*;
use crate::ast::{Content, ControlTag, HTMLTag, is_component_name};

verus! {

/// The code generator refuses exactly one shape: a component invocation
/// with a value-less attribute, since a component field cannot be bound to
/// mere attribute presence.
pub struct CompileError {
    pub message: String,
}

/// Whether every component invocation inside this element gives each of its
/// attributes a value.
pub open spec fn tag_lowerable(t: HTMLTag) -> bool
    decreases t, 1nat,
{
    if is_component_name(t.tag@) {
        forall|i: int| 0 <= i < t.attributes@.len() ==> (#[trigger] t.attributes@[i].value) is Some
    } else if t.is_self_closing {
        true
    } else {
        contents_lowerable(t.children@)
    }
}

pub open spec fn control_lowerable(ct: ControlTag) -> bool
    decreases ct, 1nat,
{
    match ct {
        ControlTag::IfChain { if_content, if_else_chain, else_content, .. } => {
            &&& contents_lowerable(if_content@)
            &&& (forall|i: int|
                0 <= i < if_else_chain@.len() ==> contents_lowerable(
                    #[trigger] if_else_chain@[i].1@,
                ))
            &&& (match else_content {
                Some(cs) => contents_lowerable(cs@),
                None => true,
            })
        },
        ControlTag::For { contents, .. } => contents_lowerable(contents@),
        ControlTag::Match { cases, .. } => {
            forall|i: int| 0 <= i < cases@.len() ==> contents_lowerable(#[trigger] cases@[i].1@)
        },
    }
}

/// Whether the code generator accepts this node: every component invocation
/// in it gives each of its attributes a value.
pub open spec fn content_lowerable(c: Content) -> bool
    decreases c, 2nat,
{
    match c {
        Content::Tag(t) => tag_lowerable(t),
        Content::ControlTag(ct) => control_lowerable(ct),
        Content::Literal(_) => true,
        Content::Expression(_) => true,
        Content::RawHTMLExpression(_) => true,
    }
}

pub open spec fn contents_lowerable(cs: Seq<Content>) -> bool
    decreases cs, 3nat,
{
    forall|i: int| 0 <= i < cs.len() ==> content_lowerable(#[trigger] cs[i])
}

/// A static node is always lowerable: component invocations are dynamic,
/// so a static subtree holds none.
pub proof fn lemma_static_lowerable(c: Content)
    requires
        crate::ast::content_is_static(c),
    ensures
        content_lowerable(c),
    decreases c, 2nat,
{
    match c {
        Content::Tag(t) => {
            lemma_static_lowerable_seq(t.children@);
        },
        _ => {},
    }
}

pub proof fn lemma_static_lowerable_seq(cs: Seq<Content>)
    requires
        crate::ast::contents_are_static(cs),
    ensures
        contents_lowerable(cs),
    decreases cs, 3nat,
{
    assert forall|i: int| 0 <= i < cs.len() implies content_lowerable(#[trigger] cs[i]) by {
        assert(crate::ast::content_is_static(cs[i]));
        lemma_static_lowerable(cs[i]);
    }
}

} // verus!
