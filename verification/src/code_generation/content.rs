use vstd::prelude::*;
use vstd::string::*;
use vstd::pervasive::unreached;
use crate::ast::{Content, content_is_static, contents_are_static};
use crate::code_generation::attribute::static_attributes_text_scan;
use crate::code_generation::{CompileError, content_lowerable, contents_lowerable};
use crate::env::Env;
use crate::ops::{Op, lemma_ops_sem_append, lemma_ops_sem_singleton, op_sem, ops_sem};
use crate::semantics::{
    render_content, render_contents, static_attributes_text, static_text, static_texts,
};

verus! {

/// Fixed text of one static node: exactly what it renders on every
/// expansion.
pub fn static_text_of(c: &Content) -> (r: String)
    requires
        content_is_static(*c),
    ensures
        r@ == static_text(*c),
    decreases *c, 2nat, 0nat,
{
    match c {
        Content::Literal(s) => s.clone(),
        Content::Tag(t) => {
            let mut r = String::new();
            r.push('<');
            r.append(t.tag.as_str());
            proof {
                assert(t.attributes@.skip(0) =~= t.attributes@);
            }
            if t.is_self_closing {
                r.push(' ');
                let attrs = static_attributes_text_scan(&t.attributes, 0);
                r.append(attrs.as_str());
                r.push('/');
                r.push('>');
                proof {
                    assert(r@ =~= seq!['<'] + t.tag@ + seq![' '] + static_attributes_text(
                        t.attributes@,
                    ) + seq!['/', '>']);
                }
                r
            } else {
                if t.attributes.len() > 0 {
                    r.push(' ');
                    let attrs = static_attributes_text_scan(&t.attributes, 0);
                    r.append(attrs.as_str());
                }
                r.push('>');
                proof {
                    assert(t.children@.subrange(0, t.children@.len() as int) =~= t.children@);
                }
                let body = static_texts_of_range(&t.children, 0, t.children.len());
                r.append(body.as_str());
                r.push('<');
                r.push('/');
                r.append(t.tag.as_str());
                r.push('>');
                proof {
                    if t.attributes@.len() == 0 {
                        assert(r@ =~= (seq!['<'] + t.tag@ + seq!['>']) + static_texts(t.children@)
                            + seq!['<', '/'] + t.tag@ + seq!['>']);
                    } else {
                        assert(r@ =~= (seq!['<'] + t.tag@ + seq![' '] + static_attributes_text(
                            t.attributes@,
                        ) + seq!['>']) + static_texts(t.children@) + seq!['<', '/'] + t.tag@
                            + seq!['>']);
                    }
                }
                r
            }
        },
        _ => unreached(),
    }
}

/// Fixed text of the static children `cs[from..to]`, concatenated.
pub fn static_texts_of_range(cs: &Vec<Content>, from: usize, to: usize) -> (r: String)
    requires
        from <= to <= cs@.len(),
        forall|k: int| from <= k < to ==> content_is_static(#[trigger] cs@[k]),
    ensures
        r@ == static_texts(cs@.subrange(from as int, to as int)),
    decreases cs@.subrange(from as int, to as int), 3nat, 0nat,
{
    proof {
        let sub = cs@.subrange(from as int, to as int);
        if from < to {
            assert(sub[0] == cs@[from as int]);
            assert(cs@.subrange(from as int + 1, to as int) =~= sub.skip(1));
        } else {
            assert(sub.len() == 0);
        }
    }
    if from == to {
        String::new()
    } else {
        let mut r = static_text_of(&cs[from]);
        let rest = static_texts_of_range(cs, from + 1, to);
        r.append(rest.as_str());
        r
    }
}

impl Content {
    /// Lower one node to the operations that produce its text: a literal
    /// to a fixed emission, interpolations to escaped or raw emissions,
    /// elements and control constructs to their own lowerings.
    pub fn to_ops(&self) -> (r: Result<Vec<Op>, CompileError>)
        ensures
            match r {
                Ok(ops) => content_lowerable(*self) && forall|env: Env|
                    ops_sem(ops@, env) == render_content(*self, env),
                Err(e) => !content_lowerable(*self) && e.message@ == "Empty attribute"@,
            },
            content_is_static(*self) ==> (r matches Ok(ops) && ops@.len() == 1 && ops@[0] is Lit),
        decreases *self, 9nat, 0nat,
    {
        match self {
            Content::Tag(t) => {
                match t.to_ops() {
                    Ok(ops) => {
                        proof {
                            assert forall|env: Env|
                                ops_sem(ops@, env) == render_content(*self, env) by {
                                assert(ops_sem(ops@, env) == crate::semantics::render_tag(
                                    *t,
                                    env,
                                ));
                                assert(render_content(*self, env) == crate::semantics::render_tag(
                                    *t,
                                    env,
                                ));
                            }
                        }
                        Ok(ops)
                    },
                    Err(e) => Err(e),
                }
            },
            Content::ControlTag(ct) => {
                match ct.to_ops() {
                    Ok(op) => {
                        let mut v: Vec<Op> = Vec::new();
                        v.push(op);
                        proof {
                            assert(v@ =~= seq![v@[0]]);
                            assert forall|env: Env|
                                ops_sem(v@, env) == render_content(*self, env) by {
                                lemma_ops_sem_singleton(v@[0], env);
                                assert(op_sem(v@[0], env) == crate::semantics::render_control(
                                    *ct,
                                    env,
                                ));
                                assert(render_content(*self, env)
                                    == crate::semantics::render_control(*ct, env));
                            }
                        }
                        Ok(v)
                    },
                    Err(e) => Err(e),
                }
            },
            Content::Literal(s) => {
                let mut v: Vec<Op> = Vec::new();
                v.push(Op::Lit(s.clone()));
                proof {
                    assert(v@ =~= seq![v@[0]]);
                    assert forall|env: Env| ops_sem(v@, env) == render_content(*self, env) by {
                        lemma_ops_sem_singleton(v@[0], env);
                        assert(op_sem(v@[0], env) == s@);
                        assert(render_content(*self, env) == s@);
                    }
                }
                Ok(v)
            },
            Content::Expression(p) => {
                let mut v: Vec<Op> = Vec::new();
                v.push(Op::Esc(p.clone()));
                proof {
                    assert(v@ =~= seq![v@[0]]);
                    assert forall|env: Env| ops_sem(v@, env) == render_content(*self, env) by {
                        lemma_ops_sem_singleton(v@[0], env);
                        assert(op_sem(v@[0], env) == crate::internals::escape_text(
                            env.text(p@),
                        ));
                        assert(render_content(*self, env) == crate::internals::escape_text(
                            env.text(p@),
                        ));
                    }
                }
                Ok(v)
            },
            Content::RawHTMLExpression(p) => {
                let mut v: Vec<Op> = Vec::new();
                v.push(Op::Raw(p.clone()));
                proof {
                    assert(v@ =~= seq![v@[0]]);
                    assert forall|env: Env| ops_sem(v@, env) == render_content(*self, env) by {
                        lemma_ops_sem_singleton(v@[0], env);
                        assert(op_sem(v@[0], env) == env.text(p@));
                        assert(render_content(*self, env) == env.text(p@));
                    }
                }
                Ok(v)
            },
        }
    }
}

/// Lower the siblings `cs[i..]`, one operation group per sibling in order,
/// stopping at the first refused node.
pub fn contents_to_ops(cs: &Vec<Content>, i: usize) -> (r: Result<Vec<Op>, CompileError>)
    requires
        i <= cs@.len(),
    ensures
        match r {
            Ok(ops) => contents_lowerable(cs@.skip(i as int)) && forall|env: Env|
                ops_sem(ops@, env) == render_contents(cs@.skip(i as int), env),
            Err(e) => !contents_lowerable(cs@.skip(i as int)) && e.message@
                == "Empty attribute"@,
        },
        contents_are_static(cs@.skip(i as int)) ==> (r matches Ok(ops) && ops@.len()
            == cs@.skip(i as int).len() && (forall|k: int|
            0 <= k < ops@.len() ==> (#[trigger] ops@[k]) is Lit)),
    decreases cs@, 8nat, cs@.len() - i,
{
    proof {
        if i < cs@.len() {
            assert(cs@.skip(i as int)[0] == cs@[i as int]);
            assert(cs@.skip(i as int).skip(1) =~= cs@.skip(i as int + 1));
        } else {
            assert(cs@.skip(i as int).len() == 0);
        }
    }
    if i >= cs.len() {
        let r: Vec<Op> = Vec::new();
        proof {
            assert forall|env: Env|
                ops_sem(r@, env) == render_contents(cs@.skip(i as int), env) by {
                assert(ops_sem(r@, env) =~= Seq::<char>::empty());
            }
        }
        Ok(r)
    } else {
        match cs[i].to_ops() {
            Err(e) => {
                proof {
                    assert(!content_lowerable(cs@.skip(i as int)[0]));
                }
                Err(e)
            },
            Ok(mut head_ops) => {
                match contents_to_ops(cs, i + 1) {
                    Err(e) => {
                        proof {
                            if contents_lowerable(cs@.skip(i as int)) {
                                assert forall|k: int|
                                    0 <= k < cs@.skip(i as int + 1).len() implies content_lowerable(
                                    #[trigger] cs@.skip(i as int + 1)[k],
                                ) by {
                                    assert(cs@.skip(i as int + 1)[k] == cs@.skip(i as int)[k + 1]);
                                }
                            }
                        }
                        Err(e)
                    },
                    Ok(mut rest) => {
                        let ghost head_spec = head_ops@;
                        let ghost rest_spec = rest@;
                        head_ops.append(&mut rest);
                        proof {
                            assert(head_ops@ == head_spec + rest_spec);
                            assert forall|k: int|
                                0 <= k < cs@.skip(i as int).len() implies content_lowerable(
                                #[trigger] cs@.skip(i as int)[k],
                            ) by {
                                if k == 0 {
                                } else {
                                    assert(cs@.skip(i as int)[k] == cs@.skip(i as int + 1)[k - 1]);
                                }
                            }
                            assert forall|env: Env|
                                ops_sem(head_ops@, env) == render_contents(
                                    cs@.skip(i as int),
                                    env,
                                ) by {
                                lemma_ops_sem_append(head_spec, rest_spec, env);
                                assert(ops_sem(head_spec, env) == render_content(
                                    cs@[i as int],
                                    env,
                                ));
                                assert(ops_sem(rest_spec, env) == render_contents(
                                    cs@.skip(i as int + 1),
                                    env,
                                ));
                                assert(render_contents(cs@.skip(i as int), env) == render_content(
                                    cs@.skip(i as int)[0],
                                    env,
                                ) + render_contents(cs@.skip(i as int).skip(1), env));
                            }
                            if contents_are_static(cs@.skip(i as int)) {
                                assert(content_is_static(cs@[i as int]));
                                assert forall|k: int|
                                    0 <= k < cs@.skip(i as int + 1).len() implies content_is_static(
                                    #[trigger] cs@.skip(i as int + 1)[k],
                                ) by {
                                    assert(cs@.skip(i as int + 1)[k] == cs@.skip(i as int)[k + 1]);
                                }
                                assert(head_spec.len() == 1 && head_spec[0] is Lit);
                                assert(rest_spec.len() == cs@.skip(i as int + 1).len());
                                assert forall|k: int|
                                    0 <= k < head_ops@.len() implies (#[trigger] head_ops@[k])
                                    is Lit by {
                                    if k == 0 {
                                        assert(head_ops@[k] == head_spec[0]);
                                    } else {
                                        assert(head_ops@[k] == rest_spec[k - 1]);
                                    }
                                }
                            }
                        }
                        Ok(head_ops)
                    },
                }
            },
        }
    }
}

} // verus!
