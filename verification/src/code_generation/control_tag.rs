use vstd::prelude::*;
use crate::ast::{Content, ControlTag};
use crate::code_generation::content::contents_to_ops;
use crate::code_generation::{CompileError, contents_lowerable, control_lowerable};
use crate::env::Env;
use crate::ops::{Op, op_sem, ops_loop_sem, ops_sem};
use crate::semantics::{
    chain_select, lemma_chain_select_parallel, loop_render, render_contents, render_control,
};

verus! {

/// A lowered branch or case carries the same condition or pattern as its
/// source and produces the same text under every environment.
pub open spec fn branch_ops_match(a: (String, Vec<Op>), b: (String, Vec<Content>)) -> bool {
    &&& a.0@ == b.0@
    &&& forall|env: Env| ops_sem(a.1@, env) == render_contents(b.1@, env)
}

/// A lowered loop body that matches its source body produces, over any
/// iteration sequence, the source body's loop rendering.
proof fn lemma_loop_sem_equiv(body: Seq<Op>, cs: Seq<Content>, envs: Seq<Env>)
    requires
        forall|e: Env| #[trigger] ops_sem(body, e) == render_contents(cs, e),
    ensures
        ops_loop_sem(body, envs) == loop_render(cs, envs),
    decreases envs.len(),
{
    if envs.len() > 0 {
        lemma_loop_sem_equiv(body, cs, envs.skip(1));
        assert(ops_sem(body, envs[0]) == render_contents(cs, envs[0]));
        assert(ops_loop_sem(body, envs) == ops_sem(body, envs[0]) + ops_loop_sem(
            body,
            envs.skip(1),
        ));
        assert(loop_render(cs, envs) == render_contents(cs, envs[0]) + loop_render(
            cs,
            envs.skip(1),
        ));
    } else {
        assert(ops_loop_sem(body, envs) =~= loop_render(cs, envs));
    }
}

impl ControlTag {
    /// Lower one control construct: a loop to an iteration over its body's
    /// operations, a conditional chain to a branch dispatch in source
    /// order, a match to a case dispatch in source order.
    #[verifier::loop_isolation(false)]
    pub fn to_ops(&self) -> (r: Result<Op, CompileError>)
        ensures
            match r {
                Ok(op) => control_lowerable(*self) && forall|env: Env|
                    op_sem(op, env) == render_control(*self, env),
                Err(e) => !control_lowerable(*self) && e.message@ == "Empty attribute"@,
            },
        decreases *self, 8nat, 0nat,
    {
        match self {
            ControlTag::For { left_side, right_side, contents } => {
                proof {
                    assert(contents@.skip(0) =~= contents@);
                }
                match contents_to_ops(contents, 0) {
                    Err(e) => Err(e),
                    Ok(body) => {
                        let ghost body_spec = body@;
                        let op = Op::Loop {
                            binder: left_side.clone(),
                            iterable: right_side.clone(),
                            body,
                        };
                        proof {
                            assert forall|env: Env|
                                op_sem(op, env) == render_control(*self, env) by {
                                lemma_loop_sem_equiv(
                                    body_spec,
                                    contents@,
                                    env.iterations(right_side@),
                                );
                            }
                        }
                        Ok(op)
                    },
                }
            },
            ControlTag::Match { match_statement, cases } => {
                let mut opcases: Vec<(String, Vec<Op>)> = Vec::new();
                let n = cases.len();
                for k in 0..n
                    invariant
                        n == cases@.len(),
                        opcases@.len() == k,
                        forall|j: int|
                            0 <= j < k ==> branch_ops_match(
                                #[trigger] opcases@[j],
                                cases@[j],
                            ),
                        forall|j: int|
                            0 <= j < k ==> contents_lowerable(#[trigger] cases@[j].1@),
                {
                    proof {
                        assert(cases@[k as int].1@.skip(0) =~= cases@[k as int].1@);
                    }
                    match contents_to_ops(&cases[k].1, 0) {
                        Err(e) => {
                            proof {
                                assert(!contents_lowerable(cases@[k as int].1@));
                                assert(!control_lowerable(*self));
                            }
                            return Err(e);
                        },
                        Ok(body) => {
                            opcases.push((cases[k].0.clone(), body));
                        },
                    }
                }
                let ghost opcases_spec = opcases@;
                let op = Op::Match { subject: match_statement.clone(), cases: opcases };
                proof {
                    assert forall|env: Env| op_sem(op, env) == render_control(*self, env) by {
                        match env.choice(match_statement@) {
                            Some(i) => {
                                if (i as int) < cases@.len() {
                                    assert(branch_ops_match(
                                        opcases_spec[i as int],
                                        cases@[i as int],
                                    ));
                                    assert(ops_sem(opcases_spec[i as int].1@, env)
                                        == render_contents(cases@[i as int].1@, env));
                                    assert(op_sem(op, env) == ops_sem(
                                        opcases_spec[i as int].1@,
                                        env,
                                    ));
                                    assert(render_control(*self, env) == render_contents(
                                        cases@[i as int].1@,
                                        env,
                                    ));
                                } else {
                                    assert(op_sem(op, env) == Seq::<char>::empty());
                                    assert(render_control(*self, env) == Seq::<char>::empty());
                                }
                            },
                            None => {
                                assert(op_sem(op, env) == Seq::<char>::empty());
                                assert(render_control(*self, env) == Seq::<char>::empty());
                            },
                        }
                    }
                }
                Ok(op)
            },
            ControlTag::IfChain { if_statement, if_content, if_else_chain, else_content } => {
                proof {
                    assert(if_content@.skip(0) =~= if_content@);
                }
                let if_ops = match contents_to_ops(if_content, 0) {
                    Err(e) => {
                        return Err(e);
                    },
                    Ok(ops) => ops,
                };
                let mut branches: Vec<(String, Vec<Op>)> = Vec::new();
                branches.push((if_statement.clone(), if_ops));
                let n = if_else_chain.len();
                for k in 0..n
                    invariant
                        n == if_else_chain@.len(),
                        branches@.len() == k + 1,
                        branches@[0].0@ == if_statement@,
                        forall|env: Env|
                            #[trigger] ops_sem(branches@[0].1@, env) == render_contents(
                                if_content@,
                                env,
                            ),
                        forall|j: int|
                            1 <= j < k + 1 ==> branch_ops_match(
                                #[trigger] branches@[j],
                                if_else_chain@[j - 1],
                            ),
                        forall|j: int|
                            0 <= j < k ==> contents_lowerable(#[trigger] if_else_chain@[j].1@),
                {
                    proof {
                        assert(if_else_chain@[k as int].1@.skip(0) =~= if_else_chain@[k as int].1@);
                    }
                    match contents_to_ops(&if_else_chain[k].1, 0) {
                        Err(e) => {
                            proof {
                                assert(!contents_lowerable(if_else_chain@[k as int].1@));
                                assert(!control_lowerable(*self));
                            }
                            return Err(e);
                        },
                        Ok(body) => {
                            branches.push((if_else_chain[k].0.clone(), body));
                        },
                    }
                }
                let else_ops = match else_content {
                    Some(cs) => {
                        proof {
                            assert(cs@.skip(0) =~= cs@);
                        }
                        match contents_to_ops(cs, 0) {
                            Err(e) => {
                                return Err(e);
                            },
                            Ok(ops) => Some(ops),
                        }
                    },
                    None => None,
                };
                let ghost branches_spec = branches@;
                let ghost else_spec = (match else_ops {
                    Some(ref v) => v@,
                    None => Seq::<Op>::empty(),
                });
                let op = Op::IfChain { branches, else_ops };
                proof {
                    let obs = branches_spec;
                    let src = if_else_chain@;
                    assert(obs.len() == src.len() + 1);
                    assert forall|j: int|
                        0 <= j < obs.skip(1).len() implies (#[trigger] obs.skip(1)[j].0)@
                        == src[j].0@ by {
                        assert(obs.skip(1)[j] == obs[j + 1]);
                        assert(branch_ops_match(obs[j + 1], src[j]));
                    }
                    assert forall|env: Env| op_sem(op, env) == render_control(*self, env) by {
                        lemma_chain_select_parallel(obs.skip(1), src, env);
                        if env.flag(if_statement@) {
                            assert(env.flag(obs[0].0@));
                            assert(chain_select(obs, env) == Some(0int));
                            assert(op_sem(op, env) == ops_sem(obs[0].1@, env));
                            assert(ops_sem(obs[0].1@, env) == render_contents(if_content@, env));
                            assert(render_control(*self, env) == render_contents(
                                if_content@,
                                env,
                            ));
                        } else {
                            assert(!env.flag(obs[0].0@));
                            match chain_select(src, env) {
                                Some(i) => {
                                    assert(chain_select(obs.skip(1), env) == Some(i));
                                    assert(chain_select(obs, env) == Some(i + 1));
                                    crate::semantics::lemma_chain_select_generic(src, env);
                                    assert(obs[i + 1] == obs.skip(1)[i]);
                                    assert(branch_ops_match(obs[i + 1], src[i]));
                                    assert(op_sem(op, env) == ops_sem(obs[i + 1].1@, env));
                                    assert(ops_sem(obs[i + 1].1@, env) == render_contents(
                                        src[i].1@,
                                        env,
                                    ));
                                    assert(render_control(*self, env) == render_contents(
                                        src[i].1@,
                                        env,
                                    ));
                                },
                                None => {
                                    assert(chain_select(obs.skip(1), env) is None);
                                    assert(chain_select(obs, env) is None);
                                    match else_content {
                                        Some(cs) => {
                                            assert(op_sem(op, env) == ops_sem(else_spec, env));
                                            assert(ops_sem(else_spec, env) == render_contents(
                                                cs@,
                                                env,
                                            ));
                                            assert(render_control(*self, env) == render_contents(
                                                cs@,
                                                env,
                                            ));
                                        },
                                        None => {
                                            assert(op_sem(op, env) == Seq::<char>::empty());
                                            assert(render_control(*self, env)
                                                == Seq::<char>::empty());
                                        },
                                    }
                                },
                            }
                        }
                    }
                }
                Ok(op)
            },
        }
    }
}

} // verus!
