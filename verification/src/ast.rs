use vstd::prelude::*;
use vstd::string::*;

verus! {

/// The value bound to an attribute: either text known at compile time (kept
/// as the literal's source text, quotes included for string literals), or an
/// opaque host expression, kept as its canonical source text.
pub enum AttributeType {
    Literal(String),
    Group(String),
}

/// One attribute of an element: a name, an optional value, and a toggle
/// flag.  A toggle attribute carries a host boolean and renders its bare
/// name when that boolean is true, nothing when it is false.
pub struct Attribute {
    pub is_toggle_attribute: bool,
    pub name: String,
    pub value: Option<AttributeType>,
}

/// A markup element or component invocation: tag name, attributes in source
/// order, child content, and whether the element closes itself.
pub struct HTMLTag {
    pub tag: String,
    pub attributes: Vec<Attribute>,
    pub children: Vec<Content>,
    pub is_self_closing: bool,
}

/// A control construct: a conditional chain, a loop, or a pattern match.
/// Conditions, binders, iterables, subjects and patterns are opaque host
/// code, kept as canonical source text.
pub enum ControlTag {
    IfChain {
        if_statement: String,
        if_content: Vec<Content>,
        if_else_chain: Vec<(String, Vec<Content>)>,
        else_content: Option<Vec<Content>>,
    },
    For { left_side: String, right_side: String, contents: Vec<Content> },
    Match { match_statement: String, cases: Vec<(String, Vec<Content>)> },
}

/// One node of a template: an element, a control construct, literal text,
/// an escaped interpolation, or a raw (unescaped) interpolation.
pub enum Content {
    Tag(HTMLTag),
    ControlTag(ControlTag),
    Literal(String),
    Expression(String),
    RawHTMLExpression(String),
}

/// A whole template: its top-level content nodes in source order.
pub struct Component {
    pub children: Vec<Content>,
}

/// The kind of control construct a `{#…}` command group opens.
pub enum TypeOfCommandTag {
    For { left_side: String, right_side: String },
    If(String),
    Match(String),
}

/// Whether a tag name names a component invocation: component names start
/// with an ASCII upper-case letter, markup element names do not.
pub open spec fn is_component_name(tag: Seq<char>) -> bool {
    tag.len() > 0 && 'A' <= tag[0] && tag[0] <= 'Z'
}

/// An attribute is static when it is not a toggle and its value is absent
/// or a literal; toggles and opaque payload values depend on runtime state.
pub open spec fn attribute_is_static(a: Attribute) -> bool {
    if a.is_toggle_attribute {
        false
    } else {
        match a.value {
            None => true,
            Some(AttributeType::Literal(_)) => true,
            Some(AttributeType::Group(_)) => false,
        }
    }
}

/// A node is static when its rendered text is the same on every expansion:
/// literals always, elements whose attributes and children are all static;
/// interpolations and control constructs never, the latter because branch
/// selection depends on runtime values even when every branch is static.
pub open spec fn content_is_static(c: Content) -> bool
    decreases c, 0nat,
{
    match c {
        Content::Tag(t) => tag_is_static(t),
        Content::ControlTag(_) => false,
        Content::Literal(_) => true,
        Content::Expression(_) => false,
        Content::RawHTMLExpression(_) => false,
    }
}

pub open spec fn contents_are_static(cs: Seq<Content>) -> bool
    decreases cs, 1nat,
{
    forall|i: int| 0 <= i < cs.len() ==> content_is_static(#[trigger] cs[i])
}

pub open spec fn attributes_are_static(attrs: Seq<Attribute>) -> bool {
    forall|i: int| 0 <= i < attrs.len() ==> attribute_is_static(#[trigger] attrs[i])
}

pub open spec fn tag_is_static(t: HTMLTag) -> bool
    decreases t, 1nat,
{
    &&& !is_component_name(t.tag@)
    &&& attributes_are_static(t.attributes@)
    &&& contents_are_static(t.children@)
}

impl Attribute {
    pub fn is_static(&self) -> (r: bool)
        ensures
            r == attribute_is_static(*self),
    {
        if self.is_toggle_attribute {
            false
        } else {
            match &self.value {
                None => true,
                Some(AttributeType::Literal(_)) => true,
                Some(AttributeType::Group(_)) => false,
            }
        }
    }
}

impl HTMLTag {
    pub fn is_static(&self) -> (r: bool)
        ensures
            r == tag_is_static(*self),
        decreases *self, 1nat,
    {
        if is_component_tag_name(&self.tag) {
            return false;
        }
        let na = self.attributes.len();
        for i in 0..na
            invariant
                na == self.attributes@.len(),
                forall|j: int| 0 <= j < i ==> attribute_is_static(#[trigger] self.attributes@[j]),
        {
            if !self.attributes[i].is_static() {
                return false;
            }
        }
        let nc = self.children.len();
        for i in 0..nc
            invariant
                nc == self.children@.len(),
                attributes_are_static(self.attributes@),
                forall|j: int| 0 <= j < i ==> content_is_static(#[trigger] self.children@[j]),
        {
            if !self.children[i].is_static() {
                return false;
            }
        }
        true
    }
}

impl Content {
    pub fn is_static(&self) -> (r: bool)
        ensures
            r == content_is_static(*self),
        decreases *self, 0nat,
    {
        match self {
            Content::Tag(t) => t.is_static(),
            Content::ControlTag(_) => false,
            Content::Literal(_) => true,
            Content::Expression(_) => false,
            Content::RawHTMLExpression(_) => false,
        }
    }
}

/// Whether a tag name (as source text) names a component invocation.
pub fn is_component_tag_name(tag: &String) -> (r: bool)
    ensures
        r == is_component_name(tag@),
{
    if tag.unicode_len() == 0 {
        return false;
    }
    let c = tag.as_str().get_char(0);
    'A' <= c && c <= 'Z'
}

/// An attribute is well formed when its name is not empty and it does not
/// bind a toggle to a literal, a combination the parser rejects.
pub open spec fn attribute_wf(a: Attribute) -> bool {
    &&& a.name@.len() > 0
    &&& !(a.is_toggle_attribute && a.value matches Some(AttributeType::Literal(_)))
}

pub open spec fn attributes_wf(attrs: Seq<Attribute>) -> bool {
    forall|i: int| 0 <= i < attrs.len() ==> attribute_wf(#[trigger] attrs[i])
}

/// An element is well formed when its tag name is not empty, its attributes
/// are well formed, and its children are.
pub open spec fn tag_wf(t: HTMLTag) -> bool
    decreases t, 1nat,
{
    &&& t.tag@.len() > 0
    &&& attributes_wf(t.attributes@)
    &&& contents_wf(t.children@)
}

pub open spec fn control_wf(ct: ControlTag) -> bool
    decreases ct, 1nat,
{
    match ct {
        ControlTag::IfChain { if_content, if_else_chain, else_content, .. } => {
            &&& contents_wf(if_content@)
            &&& (forall|i: int|
                0 <= i < if_else_chain@.len() ==> contents_wf(#[trigger] if_else_chain@[i].1@))
            &&& (match else_content {
                Some(cs) => contents_wf(cs@),
                None => true,
            })
        },
        ControlTag::For { contents, .. } => contents_wf(contents@),
        ControlTag::Match { cases, .. } => {
            forall|i: int| 0 <= i < cases@.len() ==> contents_wf(#[trigger] cases@[i].1@)
        },
    }
}

/// A node is well formed when every element in it is.
pub open spec fn content_wf(c: Content) -> bool
    decreases c, 2nat,
{
    match c {
        Content::Tag(t) => tag_wf(t),
        Content::ControlTag(ct) => control_wf(ct),
        Content::Literal(_) => true,
        Content::Expression(_) => true,
        Content::RawHTMLExpression(_) => true,
    }
}

pub open spec fn contents_wf(cs: Seq<Content>) -> bool
    decreases cs, 3nat,
{
    forall|i: int| 0 <= i < cs.len() ==> content_wf(#[trigger] cs[i])
}

} // verus!
