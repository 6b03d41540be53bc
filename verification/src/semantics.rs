use vstd::prelude::*;
use crate::ast::{
    Attribute, AttributeType, Content, ControlTag, HTMLTag, attribute_is_static,
    attributes_are_static, content_is_static, contents_are_static, is_component_name,
    tag_is_static,
};
use crate::env::Env;
use crate::internals::escape_text;
use crate::tokens::literal_value;

verus! {

/// The name an attribute renders under when it carries a value: a leading
/// raw-identifier prefix `r#` (needed in source for names such as `type`)
/// is stripped.  Bare presence attributes and toggles keep their name as
/// written.
pub open spec fn attr_display_name(name: Seq<char>) -> Seq<char> {
    if name.len() >= 2 && name[0] == 'r' && name[1] == '#' {
        name.skip(2)
    } else {
        name
    }
}

/// Rendered text of one static attribute, with its trailing space: a bare
/// name, or `name="value"` (the name without any `r#` prefix) where the
/// value is the literal's content with no escaping (it is
/// source-controlled).
pub open spec fn static_attribute_text(a: Attribute) -> Seq<char> {
    match a.value {
        None => a.name@ + seq![' '],
        Some(AttributeType::Literal(l)) => attr_display_name(a.name@) + seq!['=', '"']
            + literal_value(l@) + seq!['"', ' '],
        Some(AttributeType::Group(_)) => Seq::<char>::empty(),
    }
}

/// Rendered text of one dynamic attribute under an environment: a toggle
/// contributes its bare name when its boolean (the explicit payload, or for
/// the implicit form the attribute name itself) is true and nothing when it
/// is false; a payload-valued attribute contributes `name="…"` with the
/// evaluated payload escaped.
pub open spec fn dynamic_attribute_render(a: Attribute, env: Env) -> Seq<char> {
    if a.is_toggle_attribute {
        let key = match a.value {
            Some(AttributeType::Group(p)) => p@,
            _ => a.name@,
        };
        if env.flag(key) {
            a.name@ + seq![' ']
        } else {
            Seq::<char>::empty()
        }
    } else {
        match a.value {
            Some(AttributeType::Group(p)) => attr_display_name(a.name@) + seq!['=', '"']
                + escape_text(env.text(p@)) + seq!['"', ' '],
            _ => Seq::<char>::empty(),
        }
    }
}

/// Concatenated text of the static attributes among `attrs`, source order.
pub open spec fn static_attributes_text(attrs: Seq<Attribute>) -> Seq<char>
    decreases attrs,
{
    if attrs.len() == 0 {
        Seq::<char>::empty()
    } else {
        (if attribute_is_static(attrs[0]) {
            static_attribute_text(attrs[0])
        } else {
            Seq::<char>::empty()
        }) + static_attributes_text(attrs.skip(1))
    }
}

/// Concatenated rendering of the dynamic attributes among `attrs`, source
/// order.  All dynamic attributes render after all static ones, whatever
/// their interleaving in the source.
pub open spec fn dynamic_attributes_render(attrs: Seq<Attribute>, env: Env) -> Seq<char>
    decreases attrs,
{
    if attrs.len() == 0 {
        Seq::<char>::empty()
    } else {
        (if attribute_is_static(attrs[0]) {
            Seq::<char>::empty()
        } else {
            dynamic_attribute_render(attrs[0], env)
        }) + dynamic_attributes_render(attrs.skip(1), env)
    }
}

/// The source-text payload an attribute hands to a component field: the
/// literal's source text, the opaque expression's source text, or nothing.
pub open spec fn attribute_value_src(a: Attribute) -> Seq<char> {
    match a.value {
        Some(AttributeType::Literal(l)) => l@,
        Some(AttributeType::Group(p)) => p@,
        None => Seq::<char>::empty(),
    }
}

/// The field list of a component invocation as text: one ` name=payload`
/// part per attribute, in source order.
pub open spec fn component_args_text(attrs: Seq<Attribute>) -> Seq<char>
    decreases attrs,
{
    if attrs.len() == 0 {
        Seq::<char>::empty()
    } else {
        seq![' '] + attrs[0].name@ + seq!['='] + attribute_value_src(attrs[0])
            + component_args_text(attrs.skip(1))
    }
}

/// The key under which an environment holds one component invocation's
/// output: the component's name followed by its fields and payloads, so
/// that invocations of one component with different arguments are
/// distinguished.  What the component's own rendering does besides
/// returning text — registering head content on the page it is handed — is
/// the host's effect and outside this model.
pub open spec fn component_key(t: HTMLTag) -> Seq<char> {
    t.tag@ + component_args_text(t.attributes@)
}

/// Field-list text distributes over concatenation.
pub proof fn lemma_component_args_text_append(a: Seq<Attribute>, b: Seq<Attribute>)
    ensures
        component_args_text(a + b) == component_args_text(a) + component_args_text(b),
    decreases a,
{
    if a.len() == 0 {
        assert(a + b =~= b);
        assert(component_args_text(a) + component_args_text(b) =~= component_args_text(b));
    } else {
        lemma_component_args_text_append(a.skip(1), b);
        assert((a + b).skip(1) =~= a.skip(1) + b);
        assert((a + b)[0] == a[0]);
        assert(component_args_text(a) + component_args_text(b) =~= seq![' '] + a[0].name@ + seq![
            '=',
        ] + attribute_value_src(a[0]) + (component_args_text(a.skip(1)) + component_args_text(b)));
    }
}

/// Index of the first branch of a conditional chain whose condition the
/// environment makes true, if any.  The branch bodies may be of any type:
/// the same selection drives both the tree semantics and the semantics of
/// lowered operation sequences.
pub open spec fn chain_select<T>(branches: Seq<(String, T)>, env: Env) -> Option<int>
    decreases branches,
{
    if branches.len() == 0 {
        None
    } else if env.flag(branches[0].0@) {
        Some(0int)
    } else {
        match chain_select(branches.skip(1), env) {
            Some(i) => Some(i + 1),
            None => None,
        }
    }
}

/// A selected branch index lies in range, its condition holds, and every
/// condition before it fails; no selection means every condition fails.
pub proof fn lemma_chain_select_generic<T>(branches: Seq<(String, T)>, env: Env)
    ensures
        match chain_select(branches, env) {
            Some(i) => {
                &&& 0 <= i < branches.len()
                &&& env.flag(branches[i].0@)
                &&& forall|j: int| 0 <= j < i ==> !env.flag(#[trigger] branches[j].0@)
            },
            None => forall|j: int|
                0 <= j < branches.len() ==> !env.flag(#[trigger] branches[j].0@),
        },
    decreases branches,
{
    if branches.len() > 0 {
        lemma_chain_select_generic(branches.skip(1), env);
        let tl = branches.skip(1);
        if env.flag(branches[0].0@) {
        } else {
            match chain_select(tl, env) {
                Some(i2) => {
                    assert(branches[i2 + 1] == tl[i2]);
                    assert forall|j: int| 0 <= j < i2 + 1 implies !env.flag(
                        #[trigger] branches[j].0@,
                    ) by {
                        if j >= 1 {
                            assert(branches[j] == tl[j - 1]);
                            assert(!env.flag(tl[j - 1].0@));
                        }
                    }
                },
                None => {
                    assert forall|j: int| 0 <= j < branches.len() implies !env.flag(
                        #[trigger] branches[j].0@,
                    ) by {
                        if j >= 1 {
                            assert(branches[j] == tl[j - 1]);
                            assert(!env.flag(tl[j - 1].0@));
                        }
                    }
                },
            }
        }
    }
}

/// The meaning of one template node under an environment: the text the
/// generated code produces at expansion time, in document order.
pub open spec fn render_content(c: Content, env: Env) -> Seq<char>
    decreases c, 2nat,
{
    match c {
        Content::Tag(t) => render_tag(t, env),
        Content::Literal(s) => s@,
        Content::Expression(p) => escape_text(env.text(p@)),
        Content::RawHTMLExpression(p) => env.text(p@),
        Content::ControlTag(ct) => render_control(ct, env),
    }
}

/// Meaning of one control construct under an environment.  A conditional
/// chain renders exactly the first branch whose condition is true, the else
/// body when no condition is and one exists, and nothing otherwise.  A loop
/// renders its body once per iteration, in order.  A match renders the body
/// of the selected case, or nothing when the environment selects none (a
/// degenerate match with no cases renders nothing).
pub open spec fn render_control(ct: ControlTag, env: Env) -> Seq<char>
    decreases ct, 4nat,
{
    match ct {
        ControlTag::IfChain { if_statement, if_content, if_else_chain, else_content } => {
            if env.flag(if_statement@) {
                render_contents(if_content@, env)
            } else {
                match chain_select(if_else_chain@, env) {
                    Some(i) => if 0 <= i < if_else_chain@.len() {
                        render_contents(if_else_chain@[i].1@, env)
                    } else {
                        Seq::<char>::empty()
                    },
                    None => match else_content {
                        Some(cs) => render_contents(cs@, env),
                        None => Seq::<char>::empty(),
                    },
                }
            }
        },
        ControlTag::For { left_side: _, right_side, contents } => {
            loop_render(contents@, env.iterations(right_side@))
        },
        ControlTag::Match { match_statement, cases } => {
            match env.choice(match_statement@) {
                Some(i) => if (i as int) < cases@.len() {
                    render_contents(cases@[i as int].1@, env)
                } else {
                    Seq::<char>::empty()
                },
                None => Seq::<char>::empty(),
            }
        },
    }
}

/// Concatenated meaning of sibling nodes, in source order.
pub open spec fn render_contents(cs: Seq<Content>, env: Env) -> Seq<char>
    decreases cs, 0nat,
{
    if cs.len() == 0 {
        Seq::<char>::empty()
    } else {
        render_content(cs[0], env) + render_contents(cs.skip(1), env)
    }
}

/// Meaning of a loop body over its iterations: the concatenation of the
/// body's rendering under each iteration's environment, in iteration order;
/// the empty text for zero iterations.
pub open spec fn loop_render(body: Seq<Content>, envs: Seq<Env>) -> Seq<char>
    decreases body, envs.len(),
{
    if envs.len() == 0 {
        Seq::<char>::empty()
    } else {
        render_contents(body, envs[0]) + loop_render(body, envs.skip(1))
    }
}

/// Meaning of one element under an environment.  A component invocation
/// inserts the component's output unescaped.  A markup element renders its
/// opening tag with static attributes first and dynamic attributes after
/// them, then (unless self-closing) its children and the closing tag; an
/// element without attributes opens as `<tag>` with no space.
pub open spec fn render_tag(t: HTMLTag, env: Env) -> Seq<char>
    decreases t, 3nat,
{
    if is_component_name(t.tag@) {
        env.part(component_key(t))
    } else {
        let statics = static_attributes_text(t.attributes@);
        let dyns = dynamic_attributes_render(t.attributes@, env);
        if t.is_self_closing {
            seq!['<'] + t.tag@ + seq![' '] + statics + dyns + seq!['/', '>']
        } else {
            let opening = if t.attributes@.len() == 0 {
                seq!['<'] + t.tag@ + seq!['>']
            } else {
                seq!['<'] + t.tag@ + seq![' '] + statics + dyns + seq!['>']
            };
            opening + render_contents(t.children@, env) + seq!['<', '/'] + t.tag@ + seq!['>']
        }
    }
}

/// The fixed text of a static node: what it renders on every expansion.
pub open spec fn static_text(c: Content) -> Seq<char>
    decreases c, 2nat,
{
    match c {
        Content::Tag(t) => static_tag_text(t),
        Content::Literal(s) => s@,
        _ => Seq::<char>::empty(),
    }
}

/// Concatenated fixed text of sibling static nodes.
pub open spec fn static_texts(cs: Seq<Content>) -> Seq<char>
    decreases cs, 0nat,
{
    if cs.len() == 0 {
        Seq::<char>::empty()
    } else {
        static_text(cs[0]) + static_texts(cs.skip(1))
    }
}

/// The fixed text of a static element.
pub open spec fn static_tag_text(t: HTMLTag) -> Seq<char>
    decreases t, 3nat,
{
    let statics = static_attributes_text(t.attributes@);
    if t.is_self_closing {
        seq!['<'] + t.tag@ + seq![' '] + statics + seq!['/', '>']
    } else {
        let opening = if t.attributes@.len() == 0 {
            seq!['<'] + t.tag@ + seq!['>']
        } else {
            seq!['<'] + t.tag@ + seq![' '] + statics + seq!['>']
        };
        opening + static_texts(t.children@) + seq!['<', '/'] + t.tag@ + seq!['>']
    }
}

/// Rendering distributes over concatenation of sibling sequences.
pub proof fn lemma_render_contents_append(a: Seq<Content>, b: Seq<Content>, env: Env)
    ensures
        render_contents(a + b, env) == render_contents(a, env) + render_contents(b, env),
    decreases a,
{
    if a.len() == 0 {
        assert(a + b =~= b);
        assert(render_contents(a, env) + render_contents(b, env) =~= render_contents(b, env));
    } else {
        lemma_render_contents_append(a.skip(1), b, env);
        assert((a + b).skip(1) =~= a.skip(1) + b);
        assert((a + b)[0] == a[0]);
        assert(render_contents(a, env) + render_contents(b, env) =~= render_content(a[0], env) + (
        render_contents(a.skip(1), env) + render_contents(b, env)));
    }
}

/// Rendering one sibling alone.
pub proof fn lemma_render_contents_singleton(c: Content, env: Env)
    ensures
        render_contents(seq![c], env) == render_content(c, env),
{
    assert(seq![c].skip(1) =~= Seq::<Content>::empty());
    assert(render_contents(seq![c].skip(1), env) == Seq::<char>::empty());
    assert(render_contents(seq![c], env) =~= render_content(c, env));
}

/// Static text collection distributes over concatenation.
pub proof fn lemma_static_texts_append(a: Seq<Content>, b: Seq<Content>)
    ensures
        static_texts(a + b) == static_texts(a) + static_texts(b),
    decreases a,
{
    if a.len() == 0 {
        assert(a + b =~= b);
        assert(static_texts(a) + static_texts(b) =~= static_texts(b));
    } else {
        lemma_static_texts_append(a.skip(1), b);
        assert((a + b).skip(1) =~= a.skip(1) + b);
        assert((a + b)[0] == a[0]);
        assert(static_texts(a) + static_texts(b) =~= static_text(a[0]) + (static_texts(a.skip(1))
            + static_texts(b)));
    }
}

/// Two branch lists with the same conditions in the same order select the
/// same branch, whatever their bodies hold.
pub proof fn lemma_chain_select_parallel<T1, T2>(
    a: Seq<(String, T1)>,
    b: Seq<(String, T2)>,
    env: Env,
)
    requires
        a.len() == b.len(),
        forall|k: int| 0 <= k < a.len() ==> (#[trigger] a[k].0)@ == b[k].0@,
    ensures
        chain_select(a, env) == chain_select(b, env),
    decreases a,
{
    if a.len() > 0 {
        assert(forall|k: int|
            0 <= k < a.skip(1).len() ==> #[trigger] a.skip(1)[k] == a[k + 1]);
        assert(forall|k: int|
            0 <= k < b.skip(1).len() ==> #[trigger] b.skip(1)[k] == b[k + 1]);
        lemma_chain_select_parallel(a.skip(1), b.skip(1), env);
    }
}

/// Attributes that are all static render no dynamic text.
pub proof fn lemma_static_attributes_no_dynamic_render(attrs: Seq<Attribute>, env: Env)
    requires
        attributes_are_static(attrs),
    ensures
        dynamic_attributes_render(attrs, env) == Seq::<char>::empty(),
    decreases attrs,
{
    if attrs.len() > 0 {
        assert(attributes_are_static(attrs.skip(1))) by {
            assert(forall|j: int|
                0 <= j < attrs.skip(1).len() ==> #[trigger] attrs.skip(1)[j] == attrs[j + 1]);
        }
        lemma_static_attributes_no_dynamic_render(attrs.skip(1), env);
        assert(dynamic_attributes_render(attrs, env) =~= Seq::<char>::empty());
    } else {
        assert(dynamic_attributes_render(attrs, env) =~= Seq::<char>::empty());
    }
}

/// A static node renders its fixed text under every environment: the
/// classifier is sound, so fusing consecutive static siblings into one
/// precomputed literal cannot change any expansion's output.
pub proof fn lemma_static_render(c: Content, env: Env)
    requires
        content_is_static(c),
    ensures
        render_content(c, env) == static_text(c),
    decreases c, 2nat,
{
    match c {
        Content::Tag(t) => {
            lemma_static_render_tag(t, env);
        },
        _ => {},
    }
}

/// A template with no interpolation or control constructs renders its own
/// markup: the same fixed text on every expansion, equal to its static
/// text, with attribute spacing in the one normalized style.
pub proof fn lemma_static_template_renders_source(cs: Seq<Content>, env1: Env, env2: Env)
    requires
        contents_are_static(cs),
    ensures
        render_contents(cs, env1) == static_texts(cs),
        render_contents(cs, env1) == render_contents(cs, env2),
{
    lemma_static_render_seq(cs, env1);
    lemma_static_render_seq(cs, env2);
}

/// Toggle attribute round-trip: with its boolean true, a toggle renders
/// its bare name (and trailing separator); with it false, it renders
/// nothing; and the implicit-name form behaves exactly as the explicit
/// form whose payload is the attribute's own name.
pub proof fn lemma_toggle_attribute_roundtrip(name: String, payload: String, env: Env)
    ensures
        ({
            let explicit = Attribute {
                is_toggle_attribute: true,
                name: name,
                value: Some(AttributeType::Group(payload)),
            };
            dynamic_attribute_render(explicit, env) == if env.flag(payload@) {
                name@ + seq![' ']
            } else {
                Seq::<char>::empty()
            }
        }),
        ({
            let implicit = Attribute { is_toggle_attribute: true, name: name, value: None };
            dynamic_attribute_render(implicit, env) == if env.flag(name@) {
                name@ + seq![' ']
            } else {
                Seq::<char>::empty()
            }
        }),
{
}

/// A loop renders one body expansion per iteration, concatenated in
/// iteration order, and the empty text over an empty iteration sequence.
pub proof fn lemma_loop_rendering(body: Seq<Content>, envs: Seq<Env>)
    ensures
        envs.len() == 0 ==> loop_render(body, envs) == Seq::<char>::empty(),
        envs.len() > 0 ==> loop_render(body, envs) == render_contents(body, envs[0])
            + loop_render(body, envs.skip(1)),
{
}

/// A conditional chain renders exactly the first branch whose condition is
/// true; when no condition holds it renders the else body if one exists
/// and the empty text otherwise.
pub proof fn lemma_conditional_chain(
    if_statement: String,
    if_content: Vec<Content>,
    if_else_chain: Vec<(String, Vec<Content>)>,
    else_content: Option<Vec<Content>>,
    env: Env,
)
    ensures
        ({
            let ct = ControlTag::IfChain { if_statement, if_content, if_else_chain, else_content };
            let r = render_control(ct, env);
            &&& (env.flag(if_statement@) ==> r == render_contents(if_content@, env))
            &&& (!env.flag(if_statement@) ==> (chain_select(if_else_chain@, env) matches Some(i)
                ==> {
                &&& 0 <= i < if_else_chain@.len()
                &&& env.flag(if_else_chain@[i].0@)
                &&& (forall|j: int| 0 <= j < i ==> !env.flag(#[trigger] if_else_chain@[j].0@))
                &&& r == render_contents(if_else_chain@[i].1@, env)
            }))
            &&& (!env.flag(if_statement@) && chain_select(if_else_chain@, env) is None ==> {
                &&& (forall|j: int|
                    0 <= j < if_else_chain@.len() ==> !env.flag(#[trigger] if_else_chain@[j].0@))
                &&& (else_content matches Some(cs) ==> r == render_contents(cs@, env))
                &&& (else_content is None ==> r == Seq::<char>::empty())
            })
        }),
{
    lemma_chain_select_generic(if_else_chain@, env);
}

/// A match renders the body of the case its subject selects, and nothing
/// when no case is selected; in particular a match with no cases renders
/// nothing.
pub proof fn lemma_match_selects_case(
    match_statement: String,
    cases: Vec<(String, Vec<Content>)>,
    env: Env,
)
    ensures
        ({
            let ct = ControlTag::Match { match_statement, cases };
            let r = render_control(ct, env);
            &&& (env.choice(match_statement@) matches Some(i) ==> ((i as int) < cases@.len()
                ==> r == render_contents(cases@[i as int].1@, env)))
            &&& (env.choice(match_statement@) is None ==> r == Seq::<char>::empty())
            &&& (cases@.len() == 0 ==> r == Seq::<char>::empty())
        }),
{
}

pub proof fn lemma_static_render_seq(cs: Seq<Content>, env: Env)
    requires
        contents_are_static(cs),
    ensures
        render_contents(cs, env) == static_texts(cs),
    decreases cs, 0nat,
{
    if cs.len() > 0 {
        lemma_static_render(cs[0], env);
        assert(contents_are_static(cs.skip(1))) by {
            assert(forall|j: int|
                0 <= j < cs.skip(1).len() ==> #[trigger] cs.skip(1)[j] == cs[j + 1]);
        }
        lemma_static_render_seq(cs.skip(1), env);
    }
}

pub proof fn lemma_static_render_tag(t: HTMLTag, env: Env)
    requires
        tag_is_static(t),
    ensures
        render_tag(t, env) == static_tag_text(t),
    decreases t, 3nat,
{
    lemma_static_attributes_no_dynamic_render(t.attributes@, env);
    let statics = static_attributes_text(t.attributes@);
    let dyns = dynamic_attributes_render(t.attributes@, env);
    assert(statics + dyns =~= statics);
    if !t.is_self_closing {
        lemma_static_render_seq(t.children@, env);
        if t.attributes@.len() == 0 {
        } else {
            assert(seq!['<'] + t.tag@ + seq![' '] + statics + dyns + seq!['>'] =~= seq!['<']
                + t.tag@ + seq![' '] + statics + seq!['>']);
        }
    } else {
        assert(seq!['<'] + t.tag@ + seq![' '] + statics + dyns + seq!['/', '>'] =~= seq!['<']
            + t.tag@ + seq![' '] + statics + seq!['/', '>']);
    }
}

} // verus!
