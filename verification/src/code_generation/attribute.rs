use vstd::prelude::*;
use vstd::string::*;
use vstd::pervasive::unreached;
use crate::ast::{Attribute, AttributeType, attribute_is_static, attributes_are_static};
use crate::env::Env;
use crate::ops::{Op, lemma_ops_sem_append, op_sem, ops_sem};
use crate::semantics::{
    attr_display_name, dynamic_attribute_render, dynamic_attributes_render,
    static_attribute_text, static_attributes_text,
};
use crate::tokens::literal_value;

verus! {

/// The text a literal token contributes to an attribute value: a string
/// literal without its quotes, any other literal as written.
pub fn literal_value_of(l: &String) -> (r: String)
    ensures
        r@ == literal_value(l@),
{
    let s = l.as_str();
    let n = s.unicode_len();
    if n >= 2 {
        let c0 = s.get_char(0);
        let cn = s.get_char(n - 1);
        if c0 == '"' && cn == '"' {
            let inner = s.substring_char(1, n - 1);
            return inner.to_owned();
        }
    }
    l.clone()
}

/// The name an attribute renders under when it carries a value: the
/// raw-identifier prefix `r#` stripped, anything else unchanged.
pub fn display_name_of(name: &String) -> (r: String)
    ensures
        r@ == attr_display_name(name@),
{
    let s = name.as_str();
    let n = s.unicode_len();
    if n >= 2 {
        let c0 = s.get_char(0);
        let c1 = s.get_char(1);
        if c0 == 'r' && c1 == '#' {
            let rest = s.substring_char(2, n);
            proof {
                assert(name@.subrange(2, name@.len() as int) =~= name@.skip(2));
            }
            return rest.to_owned();
        }
    }
    name.clone()
}

/// Text of one static attribute with its trailing space.
pub fn static_attribute_text_of(a: &Attribute) -> (r: String)
    requires
        attribute_is_static(*a),
    ensures
        r@ == static_attribute_text(*a),
{
    match &a.value {
        None => {
            let mut r = a.name.clone();
            r.push(' ');
            proof {
                assert(r@ =~= a.name@ + seq![' ']);
            }
            r
        },
        Some(AttributeType::Literal(l)) => {
            let mut r = display_name_of(&a.name);
            r.push('=');
            r.push('"');
            let v = literal_value_of(l);
            r.append(v.as_str());
            r.push('"');
            r.push(' ');
            proof {
                assert(r@ =~= attr_display_name(a.name@) + seq!['=', '"'] + literal_value(l@)
                    + seq!['"', ' ']);
            }
            r
        },
        Some(AttributeType::Group(_)) => unreached(),
    }
}

/// Concatenated text of the static attributes among `attrs[i..]`.
pub fn static_attributes_text_scan(attrs: &Vec<Attribute>, i: usize) -> (r: String)
    requires
        i <= attrs@.len(),
    ensures
        r@ == static_attributes_text(attrs@.skip(i as int)),
    decreases attrs@.len() - i,
{
    proof {
        if i < attrs@.len() {
            assert(attrs@.skip(i as int)[0] == attrs@[i as int]);
            assert(attrs@.skip(i as int).skip(1) =~= attrs@.skip(i as int + 1));
        } else {
            assert(attrs@.skip(i as int).len() == 0);
        }
    }
    if i >= attrs.len() {
        String::new()
    } else {
        let rest = static_attributes_text_scan(attrs, i + 1);
        if attrs[i].is_static() {
            let mut s = static_attribute_text_of(&attrs[i]);
            s.append(rest.as_str());
            s
        } else {
            proof {
                assert(Seq::<char>::empty() + static_attributes_text(attrs@.skip(i as int + 1))
                    =~= static_attributes_text(attrs@.skip(i as int + 1)));
            }
            rest
        }
    }
}

/// One lowered operation for a dynamic attribute: a toggle becomes a
/// conditional bare-name emission keyed by its payload (or, for the
/// implicit form, by the attribute's own name); a payload-valued attribute
/// becomes an escaped `name="…"` emission.
pub fn dynamic_attribute_op(a: &Attribute) -> (r: Op)
    requires
        !attribute_is_static(*a),
    ensures
        forall|env: Env| op_sem(r, env) == dynamic_attribute_render(*a, env),
{
    if a.is_toggle_attribute {
        let key = match &a.value {
            Some(AttributeType::Group(p)) => p.clone(),
            _ => a.name.clone(),
        };
        let mut text = a.name.clone();
        text.push(' ');
        proof {
            assert(text@ =~= a.name@ + seq![' ']);
        }
        Op::CondText { flag: key, text }
    } else {
        match &a.value {
            Some(AttributeType::Group(p)) => Op::DynAttr {
                name: display_name_of(&a.name),
                payload: p.clone(),
            },
            _ => unreached(),
        }
    }
}

/// The lowered operations of the dynamic attributes among `attrs[i..]`, in
/// source order.
pub fn dynamic_attribute_ops_scan(attrs: &Vec<Attribute>, i: usize) -> (r: Vec<Op>)
    requires
        i <= attrs@.len(),
    ensures
        forall|env: Env|
            ops_sem(r@, env) == dynamic_attributes_render(attrs@.skip(i as int), env),
    decreases attrs@.len() - i,
{
    proof {
        if i < attrs@.len() {
            assert(attrs@.skip(i as int)[0] == attrs@[i as int]);
            assert(attrs@.skip(i as int).skip(1) =~= attrs@.skip(i as int + 1));
        } else {
            assert(attrs@.skip(i as int).len() == 0);
        }
    }
    if i >= attrs.len() {
        let r: Vec<Op> = Vec::new();
        proof {
            assert(forall|env: Env| ops_sem(r@, env) =~= Seq::<char>::empty());
        }
        r
    } else {
        let mut rest = dynamic_attribute_ops_scan(attrs, i + 1);
        if attrs[i].is_static() {
            proof {
                assert forall|env: Env|
                    ops_sem(rest@, env) == dynamic_attributes_render(
                        attrs@.skip(i as int),
                        env,
                    ) by {
                    assert(Seq::<char>::empty() + dynamic_attributes_render(
                        attrs@.skip(i as int + 1),
                        env,
                    ) =~= dynamic_attributes_render(attrs@.skip(i as int + 1), env));
                }
            }
            rest
        } else {
            let op = dynamic_attribute_op(&attrs[i]);
            let mut r: Vec<Op> = Vec::new();
            r.push(op);
            let ghost op_spec = r@[0];
            let ghost rest_spec = rest@;
            r.append(&mut rest);
            proof {
                assert(r@ =~= seq![op_spec] + rest_spec);
                assert forall|env: Env|
                    ops_sem(r@, env) == dynamic_attributes_render(
                        attrs@.skip(i as int),
                        env,
                    ) by {
                    lemma_ops_sem_append(seq![op_spec], rest_spec, env);
                    assert(seq![op_spec].skip(1) =~= Seq::<Op>::empty());
                    assert(ops_sem(seq![op_spec], env) == op_sem(op_spec, env) + ops_sem(
                        Seq::<Op>::empty(),
                        env,
                    ));
                    assert(ops_sem(seq![op_spec], env) =~= op_sem(op_spec, env));
                    assert(dynamic_attributes_render(attrs@.skip(i as int), env)
                        == dynamic_attribute_render(attrs@[i as int], env)
                        + dynamic_attributes_render(attrs@.skip(i as int + 1), env));
                }
            }
            r
        }
    }
}

/// Whether every attribute is static.
pub fn all_attributes_static(attrs: &Vec<Attribute>) -> (r: bool)
    ensures
        r == attributes_are_static(attrs@),
{
    let n = attrs.len();
    for i in 0..n
        invariant
            n == attrs@.len(),
            forall|j: int| 0 <= j < i ==> attribute_is_static(#[trigger] attrs@[j]),
    {
        if !attrs[i].is_static() {
            return false;
        }
    }
    true
}

} // verus!
