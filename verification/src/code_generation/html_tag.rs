use vstd::prelude::*;
use vstd::string::*;
use crate::ast::{
    Attribute, AttributeType, Content, HTMLTag, content_is_static, contents_are_static,
    is_component_name, is_component_tag_name,
};
use crate::code_generation::attribute::{
    all_attributes_static, dynamic_attribute_ops_scan, static_attributes_text_scan,
};
use crate::code_generation::content::static_texts_of_range;
use crate::code_generation::{
    CompileError, content_lowerable, contents_lowerable, lemma_static_lowerable,
    lemma_static_lowerable_seq, tag_lowerable,
};
use crate::env::Env;
use crate::islands::{islands_wf, plan_islands};
use crate::ops::{
    Op, lemma_op_args_text_append, lemma_ops_sem_append, lemma_ops_sem_singleton, op_args_text,
    op_sem, ops_sem,
};
use crate::semantics::{
    attribute_value_src, component_args_text, component_key, lemma_component_args_text_append,
    lemma_render_contents_append, lemma_render_contents_singleton,
    lemma_static_attributes_no_dynamic_render, lemma_static_render_seq, render_contents,
    render_tag, static_attributes_text, static_texts,
};

verus! {

impl HTMLTag {
    /// Lower one element: a markup element to literal and attribute
    /// emissions around its children's islands, a component invocation to a
    /// call into the host's component interface.
    pub fn to_ops(&self) -> (r: Result<Vec<Op>, CompileError>)
        ensures
            match r {
                Ok(ops) => tag_lowerable(*self) && forall|env: Env|
                    ops_sem(ops@, env) == render_tag(*self, env),
                Err(_) => !tag_lowerable(*self),
            },
            crate::ast::tag_is_static(*self) ==> (r matches Ok(ops) && ops@.len() == 1 && ops@[0]
                is Lit),
            r matches Err(e) ==> e.message@ == "Empty attribute"@,
        decreases *self, 8nat, 0nat,
    {
        if is_component_tag_name(&self.tag) {
            custom_element_to_ops(self)
        } else {
            native_html_tag_to_ops(self)
        }
    }
}

/// Whether every child is static.
fn all_children_static(cs: &Vec<Content>) -> (r: bool)
    ensures
        r == contents_are_static(cs@),
{
    let n = cs.len();
    for i in 0..n
        invariant
            n == cs@.len(),
            forall|j: int| 0 <= j < i ==> content_is_static(#[trigger] cs@[j]),
    {
        if !cs[i].is_static() {
            return false;
        }
    }
    true
}

/// Semantics of a three-part operation sequence.
proof fn lemma_sem_concat3(a: Seq<Op>, b: Seq<Op>, c: Seq<Op>, env: Env)
    ensures
        ops_sem(a + b + c, env) == ops_sem(a, env) + ops_sem(b, env) + ops_sem(c, env),
{
    lemma_ops_sem_append(a + b, c, env);
    lemma_ops_sem_append(a, b, env);
}

/// Semantics of a five-part operation sequence.
proof fn lemma_sem_concat5(a: Seq<Op>, b: Seq<Op>, c: Seq<Op>, d: Seq<Op>, e: Seq<Op>, env: Env)
    ensures
        ops_sem(a + b + c + d + e, env) == ops_sem(a, env) + ops_sem(b, env) + ops_sem(c, env)
            + ops_sem(d, env) + ops_sem(e, env),
{
    lemma_ops_sem_append(a + b + c + d, e, env);
    lemma_ops_sem_append(a + b + c, d, env);
    lemma_ops_sem_append(a + b, c, env);
    lemma_ops_sem_append(a, b, env);
}

/// Lower a component invocation to a call that passes each attribute's
/// name and value payload as a field; an attribute without a value is
/// refused, since a component field cannot be presence-only.
#[verifier::loop_isolation(false)]
fn custom_element_to_ops(t: &HTMLTag) -> (r: Result<Vec<Op>, CompileError>)
    requires
        is_component_name(t.tag@),
    ensures
        match r {
            Ok(ops) => tag_lowerable(*t) && forall|env: Env|
                ops_sem(ops@, env) == render_tag(*t, env),
            Err(e) => !tag_lowerable(*t) && e.message@ == "Empty attribute"@,
        },
    decreases *t, 7nat, 0nat,
{
    let mut args: Vec<(String, String)> = Vec::new();
    let n = t.attributes.len();
    for i in 0..n
        invariant
            n == t.attributes@.len(),
            forall|j: int| 0 <= j < i ==> (#[trigger] t.attributes@[j].value) is Some,
            op_args_text(args@) == component_args_text(t.attributes@.take(i as int)),
    {
        let ghost args_before = args@;
        match &t.attributes[i].value {
            None => {
                proof {
                    assert(t.attributes@[i as int].value is None);
                    assert(!tag_lowerable(*t));
                }
                return Err(CompileError { message: "Empty attribute".to_owned() });
            },
            Some(AttributeType::Literal(v)) => {
                args.push((t.attributes[i].name.clone(), v.clone()));
            },
            Some(AttributeType::Group(v)) => {
                args.push((t.attributes[i].name.clone(), v.clone()));
            },
        }
        proof {
            let a = t.attributes@[i as int];
            let step = args@[args@.len() - 1];
            assert(step.0@ == a.name@ && step.1@ == attribute_value_src(a));
            assert(args@ =~= args_before + seq![step]);
            lemma_op_args_text_append(args_before, seq![step]);
            assert(t.attributes@.take(i + 1) =~= t.attributes@.take(i as int) + seq![a]);
            lemma_component_args_text_append(t.attributes@.take(i as int), seq![a]);
            assert(seq![step].skip(1) =~= Seq::<(String, String)>::empty());
            assert(op_args_text(Seq::<(String, String)>::empty()) == Seq::<char>::empty());
            assert(op_args_text(seq![step]) == seq![' '] + step.0@ + seq!['='] + step.1@
                + op_args_text(seq![step].skip(1)));
            assert(op_args_text(seq![step]) =~= seq![' '] + step.0@ + seq!['='] + step.1@);
            assert(seq![a].skip(1) =~= Seq::<Attribute>::empty());
            assert(component_args_text(Seq::<Attribute>::empty()) == Seq::<char>::empty());
            assert(component_args_text(seq![a]) == seq![' '] + a.name@ + seq!['=']
                + attribute_value_src(a) + component_args_text(seq![a].skip(1)));
            assert(component_args_text(seq![a]) =~= seq![' '] + a.name@ + seq!['=']
                + attribute_value_src(a));
        }
    }
    proof {
        assert(t.attributes@.take(n as int) =~= t.attributes@);
    }
    let op = Op::Call { name: t.tag.clone(), args };
    let mut r: Vec<Op> = Vec::new();
    r.push(op);
    proof {
        assert(r@ =~= seq![r@[0]]);
        assert forall|env: Env| ops_sem(r@, env) == render_tag(*t, env) by {
            lemma_ops_sem_singleton(r@[0], env);
            assert(t.tag@ + component_args_text(t.attributes@) == component_key(*t));
        }
    }
    Ok(r)
}

/// Lower the children of a markup element island by island: each maximal
/// run of static children becomes one precomputed literal, each dynamic
/// child its own operations.
#[verifier::loop_isolation(false)]
fn children_island_ops(children: &Vec<Content>) -> (r: Result<Vec<Op>, CompileError>)
    ensures
        match r {
            Ok(ops) => contents_lowerable(children@) && forall|env: Env|
                ops_sem(ops@, env) == render_contents(children@, env),
            Err(e) => !contents_lowerable(children@) && e.message@ == "Empty attribute"@,
        },
    decreases children@, 9nat, 0nat,
{
    let islands = plan_islands(children);
    let mut acc: Vec<Op> = Vec::new();
    let mut done: usize = 0;
    let ni = islands.len();
    for j in 0..ni
        invariant
            islands_wf(islands@, children@),
            ni == islands@.len(),
            done as int == (if j < ni {
                islands@[j as int].start as int
            } else {
                children@.len() as int
            }),
            forall|k: int|
                0 <= k < done ==> content_lowerable(#[trigger] children@[k]),
            forall|env: Env|
                ops_sem(acc@, env) == render_contents(children@.take(done as int), env),
    {
        let s = islands[j].start;
        let e = islands[j].end;
        proof {
            if j + 1 < ni {
                assert(islands@[j as int].end == islands@[j as int + 1].start);
            } else {
                assert(islands@[ni - 1].end == children@.len());
            }
        }
        if islands[j].is_static {
            proof {
                assert(forall|k: int| s <= k < e ==> content_is_static(#[trigger] children@[k]));
            }
            let text = static_texts_of_range(children, s, e);
            let ghost acc_spec = acc@;
            acc.push(Op::Lit(text));
            proof {
                let sub = children@.subrange(s as int, e as int);
                assert(forall|k: int| 0 <= k < sub.len() ==> content_is_static(#[trigger] sub[k]));
                assert forall|k: int| 0 <= k < e implies content_lowerable(
                    #[trigger] children@[k],
                ) by {
                    if s <= k {
                        lemma_static_lowerable(children@[k]);
                    }
                }
                assert(acc@ =~= acc_spec + seq![acc@[acc@.len() - 1]]);
                assert forall|env: Env|
                    ops_sem(acc@, env) == render_contents(children@.take(e as int), env) by {
                    lemma_ops_sem_append(acc_spec, seq![acc@[acc@.len() - 1]], env);
                    lemma_ops_sem_singleton(acc@[acc@.len() - 1], env);
                    assert(children@.take(e as int) =~= children@.take(s as int) + sub);
                    lemma_render_contents_append(children@.take(s as int), sub, env);
                    lemma_static_render_seq(sub, env);
                }
            }
            done = e;
        } else {
            let child_result = children[s].to_ops();
            match child_result {
                Err(err) => {
                    proof {
                        assert(!content_lowerable(children@[s as int]));
                    }
                    return Err(err);
                },
                Ok(mut cops) => {
                    let ghost acc_spec = acc@;
                    let ghost cops_spec = cops@;
                    acc.append(&mut cops);
                    proof {
                        assert(acc@ == acc_spec + cops_spec);
                        assert(e == s + 1);
                        assert forall|env: Env|
                            ops_sem(acc@, env) == render_contents(
                                children@.take(e as int),
                                env,
                            ) by {
                            lemma_ops_sem_append(acc_spec, cops_spec, env);
                            assert(children@.take(e as int) =~= children@.take(s as int) + seq![
                                children@[s as int],
                            ]);
                            lemma_render_contents_append(
                                children@.take(s as int),
                                seq![children@[s as int]],
                                env,
                            );
                            lemma_render_contents_singleton(children@[s as int], env);
                        }
                    }
                    done = e;
                },
            }
        }
    }
    proof {
        assert(children@.take(children@.len() as int) =~= children@);
    }
    Ok(acc)
}

/// Lower a markup element.  The opening bracket, tag name and static
/// attributes fuse into one literal; dynamic attributes follow as their own
/// operations; children are emitted island by island; and whenever the
/// attributes or the children are wholly static, the adjoining literals
/// fuse further, down to a single literal for a fully static element.
fn native_html_tag_to_ops(t: &HTMLTag) -> (r: Result<Vec<Op>, CompileError>)
    requires
        !is_component_name(t.tag@),
    ensures
        match r {
            Ok(ops) => tag_lowerable(*t) && forall|env: Env|
                ops_sem(ops@, env) == render_tag(*t, env),
            Err(e) => !tag_lowerable(*t) && e.message@ == "Empty attribute"@,
        },
        crate::ast::tag_is_static(*t) ==> (r matches Ok(ops) && ops@.len() == 1 && ops@[0]
            is Lit),
    decreases *t, 7nat, 0nat,
{
    let mut head = String::new();
    head.push('<');
    head.append(t.tag.as_str());
    let all_static = all_attributes_static(&t.attributes);
    proof {
        assert(t.attributes@.skip(0) =~= t.attributes@);
    }
    if t.is_self_closing {
        head.push(' ');
        let statics = static_attributes_text_scan(&t.attributes, 0);
        head.append(statics.as_str());
        let ghost head_spec = head@;
        proof {
            assert(head_spec =~= seq!['<'] + t.tag@ + seq![' '] + static_attributes_text(
                t.attributes@,
            ));
        }
        if all_static {
            head.push('/');
            head.push('>');
            let mut r: Vec<Op> = Vec::new();
            r.push(Op::Lit(head));
            proof {
                assert(r@ =~= seq![r@[0]]);
                assert forall|env: Env| ops_sem(r@, env) == render_tag(*t, env) by {
                    lemma_ops_sem_singleton(r@[0], env);
                    lemma_static_attributes_no_dynamic_render(t.attributes@, env);
                    assert(ops_sem(r@, env) =~= render_tag(*t, env));
                }
            }
            Ok(r)
        } else {
            let mut dyn_ops = dynamic_attribute_ops_scan(&t.attributes, 0);
            let ghost dyn_spec = dyn_ops@;
            let mut r: Vec<Op> = Vec::new();
            r.push(Op::Lit(head));
            let ghost lit_head = r@[0];
            r.append(&mut dyn_ops);
            let mut tail = String::new();
            tail.push('/');
            tail.push('>');
            r.push(Op::Lit(tail));
            let ghost lit_tail = r@[r@.len() - 1];
            proof {
                assert(r@ =~= seq![lit_head] + dyn_spec + seq![lit_tail]);
                assert forall|env: Env| ops_sem(r@, env) == render_tag(*t, env) by {
                    lemma_sem_concat3(seq![lit_head], dyn_spec, seq![lit_tail], env);
                    lemma_ops_sem_singleton(lit_head, env);
                    lemma_ops_sem_singleton(lit_tail, env);
                    assert(ops_sem(r@, env) =~= render_tag(*t, env));
                }
            }
            Ok(r)
        }
    } else {
        let children_static = all_children_static(&t.children);
        let has_attrs = t.attributes.len() > 0;
        if has_attrs {
            head.push(' ');
            let statics = static_attributes_text_scan(&t.attributes, 0);
            head.append(statics.as_str());
        }
        let ghost head_spec = head@;
        proof {
            if t.attributes@.len() == 0 {
                assert(head_spec =~= seq!['<'] + t.tag@);
            } else {
                assert(head_spec =~= seq!['<'] + t.tag@ + seq![' '] + static_attributes_text(
                    t.attributes@,
                ));
            }
        }
        if all_static && children_static {
            head.push('>');
            proof {
                assert(t.children@.subrange(0, t.children@.len() as int) =~= t.children@);
            }
            let body = static_texts_of_range(&t.children, 0, t.children.len());
            head.append(body.as_str());
            head.push('<');
            head.push('/');
            head.append(t.tag.as_str());
            head.push('>');
            let mut r: Vec<Op> = Vec::new();
            r.push(Op::Lit(head));
            proof {
                lemma_static_lowerable_seq(t.children@);
                assert(r@ =~= seq![r@[0]]);
                assert forall|env: Env| ops_sem(r@, env) == render_tag(*t, env) by {
                    lemma_ops_sem_singleton(r@[0], env);
                    lemma_static_attributes_no_dynamic_render(t.attributes@, env);
                    lemma_static_render_seq(t.children@, env);
                    assert(ops_sem(r@, env) =~= render_tag(*t, env));
                }
            }
            Ok(r)
        } else if all_static {
            match children_island_ops(&t.children) {
                Err(e) => Err(e),
                Ok(mut child_ops) => {
                    let ghost child_spec = child_ops@;
                    head.push('>');
                    let mut r: Vec<Op> = Vec::new();
                    r.push(Op::Lit(head));
                    let ghost lit_head = r@[0];
                    r.append(&mut child_ops);
                    let mut closing = String::new();
                    closing.push('<');
                    closing.push('/');
                    closing.append(t.tag.as_str());
                    closing.push('>');
                    r.push(Op::Lit(closing));
                    let ghost lit_tail = r@[r@.len() - 1];
                    proof {
                        assert(r@ =~= seq![lit_head] + child_spec + seq![lit_tail]);
                        assert forall|env: Env| ops_sem(r@, env) == render_tag(*t, env) by {
                            lemma_sem_concat3(seq![lit_head], child_spec, seq![lit_tail], env);
                            lemma_ops_sem_singleton(lit_head, env);
                            lemma_ops_sem_singleton(lit_tail, env);
                            lemma_static_attributes_no_dynamic_render(t.attributes@, env);
                            assert(ops_sem(r@, env) =~= render_tag(*t, env));
                        }
                    }
                    Ok(r)
                },
            }
        } else if children_static {
            let mut dyn_ops = dynamic_attribute_ops_scan(&t.attributes, 0);
            let ghost dyn_spec = dyn_ops@;
            let mut r: Vec<Op> = Vec::new();
            r.push(Op::Lit(head));
            let ghost lit_head = r@[0];
            r.append(&mut dyn_ops);
            let mut tail = String::new();
            tail.push('>');
            proof {
                assert(t.children@.subrange(0, t.children@.len() as int) =~= t.children@);
            }
            let body = static_texts_of_range(&t.children, 0, t.children.len());
            tail.append(body.as_str());
            tail.push('<');
            tail.push('/');
            tail.append(t.tag.as_str());
            tail.push('>');
            r.push(Op::Lit(tail));
            let ghost lit_tail = r@[r@.len() - 1];
            proof {
                lemma_static_lowerable_seq(t.children@);
                assert(t.attributes@.len() > 0);
                assert(r@ =~= seq![lit_head] + dyn_spec + seq![lit_tail]);
                assert forall|env: Env| ops_sem(r@, env) == render_tag(*t, env) by {
                    lemma_sem_concat3(seq![lit_head], dyn_spec, seq![lit_tail], env);
                    lemma_ops_sem_singleton(lit_head, env);
                    lemma_ops_sem_singleton(lit_tail, env);
                    lemma_static_render_seq(t.children@, env);
                    assert(ops_sem(r@, env) =~= render_tag(*t, env));
                }
            }
            Ok(r)
        } else {
            match children_island_ops(&t.children) {
                Err(e) => Err(e),
                Ok(mut child_ops) => {
                    let ghost child_spec = child_ops@;
                    let mut dyn_ops = dynamic_attribute_ops_scan(&t.attributes, 0);
                    let ghost dyn_spec = dyn_ops@;
                    let mut r: Vec<Op> = Vec::new();
                    r.push(Op::Lit(head));
                    let ghost lit_head = r@[0];
                    r.append(&mut dyn_ops);
                    let mut gt = String::new();
                    gt.push('>');
                    r.push(Op::Lit(gt));
                    let ghost lit_gt = r@[r@.len() - 1];
                    r.append(&mut child_ops);
                    let mut closing = String::new();
                    closing.push('<');
                    closing.push('/');
                    closing.append(t.tag.as_str());
                    closing.push('>');
                    r.push(Op::Lit(closing));
                    let ghost lit_tail = r@[r@.len() - 1];
                    proof {
                        assert(t.attributes@.len() > 0);
                        assert(r@ =~= seq![lit_head] + dyn_spec + seq![lit_gt] + child_spec + seq![
                            lit_tail,
                        ]);
                        assert forall|env: Env| ops_sem(r@, env) == render_tag(*t, env) by {
                            lemma_sem_concat5(
                                seq![lit_head],
                                dyn_spec,
                                seq![lit_gt],
                                child_spec,
                                seq![lit_tail],
                                env,
                            );
                            lemma_ops_sem_singleton(lit_head, env);
                            lemma_ops_sem_singleton(lit_gt, env);
                            lemma_ops_sem_singleton(lit_tail, env);
                            assert(ops_sem(r@, env) =~= render_tag(*t, env));
                        }
                    }
                    Ok(r)
                },
            }
        }
    }
}

} // verus!
