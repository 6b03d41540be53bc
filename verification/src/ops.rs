use vstd::prelude::*;
use vstd::string::*;
use crate::env::Env;
use crate::internals::{escape_text, sanitize};
use crate::semantics::{chain_select, lemma_chain_select_generic};

verus! {

/// One text-producing operation of a compiled template, in emission order:
/// a precomputed literal (one or more fused static islands), an escaped or
/// raw interpolation, a toggle attribute, a dynamic attribute, a lowered
/// control construct, or a component call.  Binders, iterables, conditions,
/// subjects and case patterns keep their canonical source text so a host
/// backend can emit real code from the plan.
pub enum Op {
    Lit(String),
    Esc(String),
    Raw(String),
    CondText { flag: String, text: String },
    DynAttr { name: String, payload: String },
    IfChain { branches: Vec<(String, Vec<Op>)>, else_ops: Option<Vec<Op>> },
    Loop { binder: String, iterable: String, body: Vec<Op> },
    Match { subject: String, cases: Vec<(String, Vec<Op>)> },
    Call { name: String, args: Vec<(String, String)> },
}

/// The text one operation produces under an environment.
pub open spec fn op_sem(o: Op, env: Env) -> Seq<char>
    decreases o, 2nat,
{
    match o {
        Op::Lit(s) => s@,
        Op::Esc(p) => escape_text(env.text(p@)),
        Op::Raw(p) => env.text(p@),
        Op::CondText { flag, text } => if env.flag(flag@) {
            text@
        } else {
            Seq::<char>::empty()
        },
        Op::DynAttr { name, payload } => name@ + seq!['=', '"'] + escape_text(env.text(payload@))
            + seq!['"', ' '],
        Op::IfChain { branches, else_ops } => {
            match chain_select(branches@, env) {
                Some(i) => if 0 <= i < branches@.len() {
                    ops_sem(branches@[i].1@, env)
                } else {
                    Seq::<char>::empty()
                },
                None => match else_ops {
                    Some(ops) => ops_sem(ops@, env),
                    None => Seq::<char>::empty(),
                },
            }
        },
        Op::Loop { binder: _, iterable, body } => ops_loop_sem(body@, env.iterations(iterable@)),
        Op::Match { subject, cases } => {
            match env.choice(subject@) {
                Some(i) => if (i as int) < cases@.len() {
                    ops_sem(cases@[i as int].1@, env)
                } else {
                    Seq::<char>::empty()
                },
                None => Seq::<char>::empty(),
            }
        },
        Op::Call { name, args } => env.part(name@ + op_args_text(args@)),
    }
}

/// The field list of a lowered component call as text: one ` name=payload`
/// part per argument, in order; together with the component name this is
/// the key under which the environment holds the call's output.
pub open spec fn op_args_text(args: Seq<(String, String)>) -> Seq<char>
    decreases args,
{
    if args.len() == 0 {
        Seq::<char>::empty()
    } else {
        seq![' '] + args[0].0@ + seq!['='] + args[0].1@ + op_args_text(args.skip(1))
    }
}

/// Field-list text distributes over concatenation.
pub proof fn lemma_op_args_text_append(a: Seq<(String, String)>, b: Seq<(String, String)>)
    ensures
        op_args_text(a + b) == op_args_text(a) + op_args_text(b),
    decreases a,
{
    if a.len() == 0 {
        assert(a + b =~= b);
        assert(op_args_text(a) + op_args_text(b) =~= op_args_text(b));
    } else {
        lemma_op_args_text_append(a.skip(1), b);
        assert((a + b).skip(1) =~= a.skip(1) + b);
        assert((a + b)[0] == a[0]);
        assert(op_args_text(a) + op_args_text(b) =~= seq![' '] + a[0].0@ + seq!['='] + a[0].1@ + (
        op_args_text(a.skip(1)) + op_args_text(b)));
    }
}

/// The text an operation sequence produces: each operation's text in order.
pub open spec fn ops_sem(ops: Seq<Op>, env: Env) -> Seq<char>
    decreases ops, 0nat,
{
    if ops.len() == 0 {
        Seq::<char>::empty()
    } else {
        op_sem(ops[0], env) + ops_sem(ops.skip(1), env)
    }
}

/// The text a loop body produces over its iterations, in iteration order.
pub open spec fn ops_loop_sem(body: Seq<Op>, envs: Seq<Env>) -> Seq<char>
    decreases body, envs.len(),
{
    if envs.len() == 0 {
        Seq::<char>::empty()
    } else {
        ops_sem(body, envs[0]) + ops_loop_sem(body, envs.skip(1))
    }
}

/// Operation semantics distributes over concatenation of sequences.
pub proof fn lemma_ops_sem_append(a: Seq<Op>, b: Seq<Op>, env: Env)
    ensures
        ops_sem(a + b, env) == ops_sem(a, env) + ops_sem(b, env),
    decreases a,
{
    if a.len() == 0 {
        assert(a + b =~= b);
        assert(ops_sem(a, env) + ops_sem(b, env) =~= ops_sem(b, env));
    } else {
        lemma_ops_sem_append(a.skip(1), b, env);
        assert((a + b).skip(1) =~= a.skip(1) + b);
        assert(ops_sem(a, env) + ops_sem(b, env) =~= op_sem(a[0], env) + (ops_sem(a.skip(1), env)
            + ops_sem(b, env)));
    }
}

/// The text of a single operation as a sequence.
pub proof fn lemma_ops_sem_singleton(o: Op, env: Env)
    ensures
        ops_sem(seq![o], env) == op_sem(o, env),
{
    assert(seq![o].skip(1) =~= Seq::<Op>::empty());
    assert(ops_sem(seq![o].skip(1), env) == Seq::<char>::empty());
    assert(ops_sem(seq![o], env) =~= op_sem(o, env));
}

/// Loop semantics distributes over concatenation of iteration sequences.
pub proof fn lemma_ops_loop_sem_append(body: Seq<Op>, e1: Seq<Env>, e2: Seq<Env>)
    ensures
        ops_loop_sem(body, e1 + e2) == ops_loop_sem(body, e1) + ops_loop_sem(body, e2),
    decreases e1,
{
    if e1.len() == 0 {
        assert(e1 + e2 =~= e2);
        assert(ops_loop_sem(body, e1) + ops_loop_sem(body, e2) =~= ops_loop_sem(body, e2));
    } else {
        lemma_ops_loop_sem_append(body, e1.skip(1), e2);
        assert((e1 + e2).skip(1) =~= e1.skip(1) + e2);
        assert((e1 + e2)[0] == e1[0]);
        assert(ops_loop_sem(body, e1) + ops_loop_sem(body, e2) =~= ops_sem(body, e1[0]) + (
        ops_loop_sem(body, e1.skip(1)) + ops_loop_sem(body, e2)));
    }
}

/// Run one operation under an environment.
#[verifier::loop_isolation(false)]
pub fn op_run(o: &Op, env: &Env) -> (r: String)
    ensures
        r@ == op_sem(*o, *env),
    decreases *o, 2nat,
{
    match o {
        Op::Lit(s) => s.clone(),
        Op::Esc(p) => {
            let v = env.text_of(p);
            sanitize(v.as_str())
        },
        Op::Raw(p) => env.text_of(p),
        Op::CondText { flag, text } => {
            if env.flag_of(flag) {
                text.clone()
            } else {
                String::new()
            }
        },
        Op::DynAttr { name, payload } => {
            let mut r = name.clone();
            r.append("=\"");
            let v = env.text_of(payload);
            let e = sanitize(v.as_str());
            r.append(e.as_str());
            r.append("\" ");
            proof {
                reveal_strlit("=\"");
                reveal_strlit("\" ");
                assert("=\""@ =~= seq!['=', '"']);
                assert("\" "@ =~= seq!['"', ' ']);
            }
            r
        },
        Op::IfChain { branches, else_ops } => {
            let n = branches.len();
            proof {
                lemma_chain_select_generic(branches@, *env);
            }
            for j in 0..n
                invariant
                    n == branches@.len(),
                    forall|k: int| 0 <= k < j ==> !env.flag(#[trigger] branches@[k].0@),
            {
                if env.flag_of(&branches[j].0) {
                    proof {
                        lemma_chain_select_generic(branches@, *env);
                        assert(chain_select(branches@, *env) == Some(j as int));
                    }
                    return render_ops(&branches[j].1, env);
                }
            }
            proof {
                lemma_chain_select_generic(branches@, *env);
                assert(chain_select(branches@, *env) is None);
            }
            match else_ops {
                Some(ops) => render_ops(ops, env),
                None => String::new(),
            }
        },
        Op::Loop { binder: _, iterable, body } => {
            let mut r = String::new();
            let found = env.iterations_of(iterable);
            match found {
                None => {
                    r
                },
                Some(envs) => {
                    let m = envs.len();
                    for k in 0..m
                        invariant
                            m == envs@.len(),
                            envs@ == env.iterations(iterable@),
                            r@ == ops_loop_sem(body@, envs@.take(k as int)),
                    {
                        let piece = render_ops(body, &envs[k]);
                        r.append(piece.as_str());
                        proof {
                            let pre = envs@.take(k as int);
                            let e = envs@[k as int];
                            let single = seq![e];
                            lemma_ops_loop_sem_append(body@, pre, single);
                            assert(envs@.take(k + 1) =~= pre + single);
                            assert(single.skip(1) =~= Seq::<Env>::empty());
                            assert(single.len() == 1 && single[0] == e);
                            assert(ops_loop_sem(body@, single) == ops_sem(body@, single[0])
                                + ops_loop_sem(body@, single.skip(1)));
                            assert(ops_loop_sem(body@, Seq::<Env>::empty())
                                == Seq::<char>::empty());
                            assert(ops_loop_sem(body@, single) =~= ops_sem(body@, e));
                        }
                    }
                    proof {
                        assert(envs@.take(m as int) =~= envs@);
                    }
                    r
                },
            }
        },
        Op::Match { subject, cases } => {
            let c = env.choice_of(subject);
            match c {
                Some(i) => {
                    if i < cases.len() {
                        render_ops(&cases[i].1, env)
                    } else {
                        String::new()
                    }
                },
                None => String::new(),
            }
        },
        Op::Call { name, args } => {
            let mut key = name.clone();
            proof {
                assert(args@.skip(0) =~= args@);
            }
            let tail = op_args_key_scan(args, 0);
            key.append(tail.as_str());
            env.part_of(&key)
        },
    }
}

/// The field-list text of the arguments `args[i..]`.
fn op_args_key_scan(args: &Vec<(String, String)>, i: usize) -> (r: String)
    requires
        i <= args@.len(),
    ensures
        r@ == op_args_text(args@.skip(i as int)),
    decreases args@.len() - i,
{
    proof {
        if i < args@.len() {
            assert(args@.skip(i as int)[0] == args@[i as int]);
            assert(args@.skip(i as int).skip(1) =~= args@.skip(i as int + 1));
        } else {
            assert(args@.skip(i as int).len() == 0);
        }
    }
    if i >= args.len() {
        String::new()
    } else {
        let mut r = String::new();
        r.push(' ');
        r.append(args[i].0.as_str());
        r.push('=');
        r.append(args[i].1.as_str());
        let rest = op_args_key_scan(args, i + 1);
        r.append(rest.as_str());
        proof {
            assert(r@ =~= seq![' '] + args@[i as int].0@ + seq!['='] + args@[i as int].1@
                + op_args_text(args@.skip(i as int + 1)));
        }
        r
    }
}

/// Run a compiled operation sequence under an environment, producing the
/// expansion's full text.
#[verifier::loop_isolation(false)]
pub fn render_ops(ops: &Vec<Op>, env: &Env) -> (r: String)
    ensures
        r@ == ops_sem(ops@, *env),
    decreases ops@, 3nat,
{
    let mut r = String::new();
    let n = ops.len();
    for i in 0..n
        invariant
            n == ops@.len(),
            r@ == ops_sem(ops@.take(i as int), *env),
    {
        let piece = op_run(&ops[i], env);
        r.append(piece.as_str());
        proof {
            let pre = ops@.take(i as int);
            let single = seq![ops@[i as int]];
            lemma_ops_sem_append(pre, single, *env);
            assert(ops@.take(i + 1) =~= pre + single);
            assert(single.skip(1) =~= Seq::<Op>::empty());
            assert(single.len() == 1 && single[0] == ops@[i as int]);
            assert(ops_sem(single, *env) == op_sem(single[0], *env) + ops_sem(
                single.skip(1),
                *env,
            ));
            assert(ops_sem(Seq::<Op>::empty(), *env) == Seq::<char>::empty());
            assert(ops_sem(single, *env) =~= op_sem(ops@[i as int], *env));
        }
    }
    proof {
        assert(ops@.take(n as int) =~= ops@);
    }
    r
}

} // verus!
