//! The evaluator: a tree walker over nodes, dispatching on callable
//! values.

use vstd::prelude::*;
use crate::decimal::push_i64_chars;
use crate::position::Position;
use crate::model::{STy, SV, SNode, SErr, SCtx};
use crate::values::{V, Type, Nf, v_view, vs_view, lemma_vs_view, sv_wf, svs_wf, tys_view,
    lemma_tys_view, lemma_svs_wf_iff, ty_view, sv_typ};
use crate::parser::{Node, N, node_view, nodes_view, lemma_nodes_view, sn_wf, sns_wf,
    lemma_sns_wf_iff, node_dup};
use crate::context::{Context, sctx_wf, scope_view, scopes_view, lemma_scopes_view, sscope_wf,
    _def, _var, _set, _get, _if, _while, _print, _add, _sub, _mul, _div, _eq, _lt, _gt, _union,
    _exclude, _load, _assert};
use crate::error::E;
use crate::semantics::{spec_get, spec_eval, spec_native, spec_get_args, spec_get_pattern,
    spec_get_body, spec_get_vec, patt_mismatch, typ_or, poses_of, res_eout, arg_or};
use crate::text::chars_to_string;

verus! {

/// The control-flow tag carried beside every evaluated value.
#[derive(Debug, Clone, Copy, PartialEq, Eq, Structural)]
pub enum R {
    Norm,
    Return,
    Break,
    Continue,
}

/// The first pattern slot whose argument type fails to match
/// (executable).
fn patt_check(pattern: &Vec<Type>, args: &Vec<V>) -> (r: Option<usize>)
    ensures
        match r {
            Some(i) => patt_mismatch(tys_view(pattern@), vs_view(args@), 0) == Some(i as int) && i
                < pattern@.len(),
            None => patt_mismatch(tys_view(pattern@), vs_view(args@), 0) is None,
        },
{
    proof {
        lemma_tys_view(pattern@);
        lemma_vs_view(args@);
    }
    let n = pattern.len();
    let mut i: usize = 0;
    while i < n
        invariant
            n == pattern@.len(),
            i <= n,
            tys_view(pattern@).len() == n,
            vs_view(args@).len() == args@.len(),
            forall|k: int|
                0 <= k < n ==> #[trigger] tys_view(pattern@)[k] == ty_view(pattern@[k]),
            forall|k: int|
                0 <= k < args@.len() ==> #[trigger] vs_view(args@)[k] == v_view(args@[k]),
            patt_mismatch(tys_view(pattern@), vs_view(args@), i as int) == patt_mismatch(
                tys_view(pattern@),
                vs_view(args@),
                0,
            ),
        decreases n - i,
    {
        let at = if i < args.len() {
            args[i].typ()
        } else {
            Type::Undefined
        };
        if !pattern[i].matches(&at) {
            return Some(i);
        }
        i = i + 1;
    }
    None
}

/// Dispatch one native operation.
fn call_native(
    f: Nf,
    args: &Vec<V>,
    context: &mut Context,
    pos: &Position,
    poses: &Vec<Position>,
    fuel: u64,
) -> (r: Result<(V, R), E>)
    requires
        sctx_wf(old(context)@),
        svs_wf(vs_view(args@), 0),
        poses@.len() == vs_view(args@).len(),
    ensures
        ({
            let o = spec_native(f, vs_view(args@), poses@, *pos, old(context)@, fuel as nat);
            final(context)@ == o.c && sctx_wf(final(context)@) && res_eout(r, o.r)
        }),
    decreases fuel, 1int, 1int,
{
    match f {
        Nf::Def => _def(args, context, pos, poses),
        Nf::Var => _var(args, context, pos),
        Nf::Assign => _set(args, context, pos),
        Nf::Get => _get(args, context, pos),
        Nf::If => _if(args, context, fuel),
        Nf::While => _while(args, context, fuel),
        Nf::Add => _add(args, context, poses),
        Nf::Sub => _sub(args, context, poses),
        Nf::Mul => _mul(args, context, poses),
        Nf::Div => _div(args, context, poses),
        Nf::Eq => _eq(args, context),
        Nf::Lt => _lt(args, context, poses),
        Nf::Gt => _gt(args, context, poses),
        Nf::Union => _union(args, context, poses),
        Nf::Exclude => _exclude(args, context, poses),
        Nf::Print => _print(args, context),
        Nf::Load => _load(args, context, poses, fuel),
        Nf::Assert => _assert(args, context, pos),
    }
}

/// Dispatch on an evaluated head value.
#[verifier::rlimit(100)]
pub fn eval(
    head_value: V,
    head: &Node,
    args: Vec<V>,
    poses: Vec<Position>,
    node: &Node,
    context: &mut Context,
    fuel: u64,
) -> (r: Result<(V, R), E>)
    requires
        sctx_wf(old(context)@),
        sv_wf(v_view(head_value)),
        svs_wf(vs_view(args@), 0),
        poses@.len() == vs_view(args@).len(),
    ensures
        ({
            let o = spec_eval(
                v_view(head_value),
                head@.pos,
                vs_view(args@),
                poses@,
                node@.pos,
                old(context)@,
                fuel as nat,
            );
            final(context)@ == o.c && sctx_wf(final(context)@) && res_eout(r, o.r)
        }),
    decreases fuel, 2int, 0int,
{
    if fuel == 0 {
        return Err(E::Depth);
    }
    proof {
        reveal_with_fuel(crate::values::v_view, 3);
        reveal_with_fuel(crate::values::sv_wf, 3);
        lemma_vs_view(args@);
        lemma_svs_wf_iff(vs_view(args@), 0);
    }
    match head_value {
        V::NativFunction(params, f) => {
            match &*params {
                V::Pattern(pattern) => {
                    proof {
                        lemma_tys_view(pattern@);
                    }
                    match patt_check(pattern, &args) {
                        Some(i) => {
                            let rt = if i < args.len() {
                                args[i].typ()
                            } else {
                                Type::Undefined
                            };
                            let p = if i < poses.len() {
                                poses[i]
                            } else {
                                node.1
                            };
                            let et = pattern[i].dup();
                            context.trace(&p);
                            Err(E::ExpectedType { typ: et, recv_typ: rt })
                        },
                        None => call_native(f, &args, context, &node.1, &poses, fuel),
                    }
                },
                V::Null => call_native(f, &args, context, &node.1, &poses, fuel),
                other => {
                    let rt = other.typ();
                    context.trace(&head.1);
                    Err(E::ExpectedType { typ: Type::Pattern, recv_typ: rt })
                },
            }
        },
        V::Bool(b) => {
            if b && args.len() >= 1 {
                Ok((args[0].dup(), R::Norm))
            } else if args.len() >= 2 {
                Ok((args[1].dup(), R::Norm))
            } else {
                Ok((V::Bool(b), R::Norm))
            }
        },
        V::Closure(n, _cpath) => {
            context.push();
            proof {
                crate::context::lemma_scopes_view(context.scopes@);
            }
            context.args(&args);
            proof {
                assert(sctx_wf(context@)) by {
                    assert(forall|j: int|
                        0 <= j < context@.scopes.len() ==> #[trigger] crate::context::sscope_wf(
                            context@.scopes[j],
                        )) by {
                        assert(forall|j: int|
                            0 <= j < old(context)@.scopes.len()
                                ==> #[trigger] crate::context::sscope_wf(
                                old(context)@.scopes[j],
                            ));
                    }
                }
            }
            let res = get(&*n, context, fuel - 1);
            let popped = context.pop();
            res
        },
        V::Type(t) => {
            if args.len() == 0 {
                return Ok((V::Type(t), R::Norm));
            }
            if let Type::Function = &t {
                let is_patt = match &args[0] {
                    V::Pattern(_) => true,
                    _ => false,
                };
                if !is_patt {
                    return Err(E::ExpectedType { typ: Type::Pattern, recv_typ: args[0].typ() });
                }
                if args.len() >= 2 {
                    Ok(
                        (
                            V::Function(Box::new(args[0].dup()), Box::new(args[1].dup())),
                            R::Norm,
                        ),
                    )
                } else {
                    Ok((V::Function(Box::new(args[0].dup()), Box::new(V::Null)), R::Norm))
                }
            } else {
                Ok((t.cast(&args[0]), R::Norm))
            }
        },
        V::Function(params, body) => {
            match &*params {
                V::Pattern(pattern) => {
                    proof {
                        lemma_tys_view(pattern@);
                    }
                    match patt_check(pattern, &args) {
                        Some(i) => {
                            let rt = if i < args.len() {
                                args[i].typ()
                            } else {
                                Type::Undefined
                            };
                            let p = if i < poses.len() {
                                poses[i]
                            } else {
                                node.1
                            };
                            let et = pattern[i].dup();
                            context.trace(&p);
                            Err(E::ExpectedType { typ: et, recv_typ: rt })
                        },
                        None => eval(*body, head, args, poses, node, context, fuel - 1),
                    }
                },
                other => {
                    let rt = other.typ();
                    context.trace(&head.1);
                    Err(E::ExpectedType { typ: Type::Pattern, recv_typ: rt })
                },
            }
        },
        other => {
            let ghost hv = v_view(other);
            context.trace(&head.1);
            Err(E::HeadOperation(other))
        },
    }
}

/// Evaluate the argument children from `i` on.
fn get_args(ns: &Vec<Node>, i: usize, context: &mut Context, fuel: u64) -> (r: Result<Vec<V>, E>)
    requires
        sctx_wf(old(context)@),
        1 <= i,
        i <= ns@.len(),
        sns_wf(nodes_view(ns@), 0),
    ensures
        ({
            let o = spec_get_args(nodes_view(ns@), i as int, old(context)@, fuel as nat);
            final(context)@ == o.0 && sctx_wf(final(context)@) && match r {
                Ok(vs) => o.1 == Ok::<Seq<SV>, SErr>(vs_view(vs@)) && svs_wf(vs_view(vs@), 0)
                    && vs@.len() == ns@.len() - i,
                Err(e) => o.1 == Err::<Seq<SV>, SErr>(crate::error::e_view(e)),
            }
        }),
    decreases fuel, 0int, ns@.len() - i,
{
    if fuel == 0 {
        return Err(E::Depth);
    }
    proof {
        lemma_nodes_view(ns@);
        lemma_sns_wf_iff(nodes_view(ns@), 0);
    }
    if i >= ns.len() {
        let out: Vec<V> = Vec::new();
        proof {
            assert(vs_view(out@) =~= Seq::<SV>::empty());
        }
        return Ok(out);
    }
    let (v, _flow) = match get(&ns[i], context, fuel - 1) {
        Ok(p) => p,
        Err(e) => {
            return Err(e);
        },
    };
    let rest = match get_args(ns, i + 1, context, fuel) {
        Ok(vs) => vs,
        Err(e) => {
            return Err(e);
        },
    };
    let ghost vval = v;
    let ghost restq = rest@;
    let ghost restv = vs_view(rest@);
    let mut out = rest;
    out.insert(0, v);
    proof {
        restq.insert_ensures(0, vval);
        lemma_vs_view(out@);
        lemma_vs_view(restq);
        assert(vs_view(out@) =~= seq![v_view(vval)] + restv);
        lemma_svs_wf_iff(vs_view(out@), 0);
        lemma_svs_wf_iff(restv, 0);
    }
    Ok(out)
}

/// Evaluate the children of a pattern form.
fn get_pattern(ns: &Vec<Node>, i: usize, context: &mut Context, fuel: u64) -> (r: Result<
    Vec<Type>,
    E,
>)
    requires
        sctx_wf(old(context)@),
        i <= ns@.len(),
        sns_wf(nodes_view(ns@), 0),
    ensures
        ({
            let o = spec_get_pattern(nodes_view(ns@), i as int, old(context)@, fuel as nat);
            final(context)@ == o.0 && sctx_wf(final(context)@) && match r {
                Ok(ts) => o.1 == Ok::<Seq<STy>, SErr>(tys_view(ts@)),
                Err(e) => o.1 == Err::<Seq<STy>, SErr>(crate::error::e_view(e)),
            }
        }),
    decreases fuel, 0int, ns@.len() - i,
{
    if fuel == 0 {
        return Err(E::Depth);
    }
    proof {
        lemma_nodes_view(ns@);
        lemma_sns_wf_iff(nodes_view(ns@), 0);
    }
    if i >= ns.len() {
        let out: Vec<Type> = Vec::new();
        proof {
            assert(tys_view(out@) =~= Seq::<STy>::empty());
        }
        return Ok(out);
    }
    let (v, _flow) = match get(&ns[i], context, fuel - 1) {
        Ok(p) => p,
        Err(e) => {
            return Err(e);
        },
    };
    match v {
        V::Type(t) => {
            let rest = match get_pattern(ns, i + 1, context, fuel) {
                Ok(ts) => ts,
                Err(e) => {
                    return Err(e);
                },
            };
            let ghost tval = t;
            let ghost restq = rest@;
            let ghost restv = tys_view(rest@);
            let mut out = rest;
            out.insert(0, t);
            proof {
                restq.insert_ensures(0, tval);
                lemma_tys_view(out@);
                lemma_tys_view(restq);
                assert(tys_view(out@) =~= seq![ty_view(tval)] + restv);
            }
            Ok(out)
        },
        other => {
            let rt = other.typ();
            context.trace(&ns[i].1);
            Err(E::ExpectedType { typ: Type::Type, recv_typ: rt })
        },
    }
}

/// Evaluate the statements of a body in order.
fn get_body(ns: &Vec<Node>, i: usize, context: &mut Context, fuel: u64) -> (r: Result<(V, R), E>)
    requires
        sctx_wf(old(context)@),
        i <= ns@.len(),
        sns_wf(nodes_view(ns@), 0),
    ensures
        ({
            let o = spec_get_body(nodes_view(ns@), i as int, old(context)@, fuel as nat);
            final(context)@ == o.c && sctx_wf(final(context)@) && res_eout(r, o.r)
        }),
    decreases fuel, 0int, ns@.len() - i,
{
    if fuel == 0 {
        return Err(E::Depth);
    }
    proof {
        lemma_nodes_view(ns@);
        lemma_sns_wf_iff(nodes_view(ns@), 0);
    }
    if i >= ns.len() {
        return Ok((V::Null, R::Norm));
    }
    let (v, flow) = match get(&ns[i], context, fuel - 1) {
        Ok(p) => p,
        Err(e) => {
            return Err(e);
        },
    };
    if !matches!(flow, R::Norm) {
        return Ok((v, flow));
    }
    get_body(ns, i + 1, context, fuel)
}

/// Evaluate the elements of a vector form.
fn get_vector(
    ns: &Vec<Node>,
    i: usize,
    context: &mut Context,
    fuel: u64,
    vals: Vec<V>,
    tys: Vec<Type>,
) -> (r: Result<(V, R), E>)
    requires
        sctx_wf(old(context)@),
        i <= ns@.len(),
        sns_wf(nodes_view(ns@), 0),
        svs_wf(vs_view(vals@), 0),
    ensures
        ({
            let o = spec_get_vec(
                nodes_view(ns@),
                i as int,
                old(context)@,
                fuel as nat,
                vs_view(vals@),
                tys_view(tys@),
            );
            final(context)@ == o.c && sctx_wf(final(context)@) && res_eout(r, o.r)
        }),
    decreases fuel, 0int, ns@.len() - i,
{
    if fuel == 0 {
        return Err(E::Depth);
    }
    proof {
        lemma_nodes_view(ns@);
        lemma_sns_wf_iff(nodes_view(ns@), 0);
        lemma_vs_view(vals@);
        lemma_svs_wf_iff(vs_view(vals@), 0);
        lemma_tys_view(tys@);
    }
    if i >= ns.len() {
        let ghost tysv = tys_view(tys@);
        let mut tys = tys;
        let t = if tys.len() == 0 {
            Type::Any
        } else if tys.len() == 1 {
            let t0 = tys.remove(0);
            t0
        } else {
            Type::Union(tys)
        };
        proof {
            reveal_with_fuel(crate::values::v_view, 3);
            reveal_with_fuel(crate::values::sv_wf, 3);
        }
        return Ok((V::Vector(vals, t), R::Norm));
    }
    let (v, _flow) = match get(&ns[i], context, fuel - 1) {
        Ok(p) => p,
        Err(e) => {
            return Err(e);
        },
    };
    let vt = v.typ();
    let seen = crate::values::ty_in_list(&tys, &vt);
    let ghost vals0 = vals@;
    let ghost tys0 = tys@;
    let mut vals = vals;
    let mut tys = tys;
    let ghost vv = v_view(v);
    let ghost vtv = ty_view(vt);
    vals.push(v);
    if !seen {
        tys.push(vt);
        proof {
            crate::values::lemma_tys_push(tys0, tys@.last());
            assert(tys_view(tys@) =~= tys_view(tys0).push(vtv));
        }
    }
    proof {
        crate::values::lemma_vs_push(vals0, vals@.last());
        assert(vs_view(vals@) =~= vs_view(vals0).push(vv));
        lemma_svs_wf_iff(vs_view(vals@), 0);
        lemma_svs_wf_iff(vs_view(vals0), 0);
    }
    get_vector(ns, i + 1, context, fuel, vals, tys)
}

/// Evaluate a node against the context.
#[verifier::rlimit(100)]
pub fn get(node: &Node, context: &mut Context, fuel: u64) -> (r: Result<(V, R), E>)
    requires
        sctx_wf(old(context)@),
        sn_wf(node@),
    ensures
        ({
            let o = spec_get(node@, old(context)@, fuel as nat);
            final(context)@ == o.c && sctx_wf(final(context)@) && res_eout(r, o.r)
        }),
    decreases fuel, 1int, 0int,
{
    if fuel == 0 {
        return Err(E::Depth);
    }
    proof {
        reveal_with_fuel(crate::parser::node_view, 3);
        reveal_with_fuel(crate::parser::n_view, 3);
        reveal_with_fuel(crate::values::v_view, 3);
    }
    match &node.0 {
        N::Null => Ok((V::Null, R::Norm)),
        N::Wildcard => Ok((V::Wildcard, R::Norm)),
        N::Int(v) => Ok((V::Int(*v), R::Norm)),
        N::Float(f) => Ok((V::Float(*f), R::Norm)),
        N::Bool(b) => Ok((V::Bool(*b), R::Norm)),
        N::Str(s) => Ok((V::Str(s.clone()), R::Norm)),
        N::Type(t) => Ok((V::Type(t.dup()), R::Norm)),
        N::Word(w) => {
            match context.get(w) {
                Some(v) => Ok((v, R::Norm)),
                None => Ok((V::Null, R::Norm)),
            }
        },
        N::Closure(b) => Ok(
            (V::Closure(Box::new(node_dup(b)), context.path.clone()), R::Norm),
        ),
        N::Addr(b) => {
            if let N::Word(w) = &b.0 {
                return Ok((V::Addr(w.clone()), R::Norm));
            }
            let (v, _flow) = match get(b, context, fuel - 1) {
                Ok(p) => p,
                Err(e) => {
                    return Err(e);
                },
            };
            let cast = Type::Str.cast(&v);
            match cast {
                V::Str(s) => Ok((V::Addr(s), R::Norm)),
                other => {
                    let rt = other.typ();
                    context.trace(&node.1);
                    Err(E::ExpectedType { typ: Type::Str, recv_typ: rt })
                },
            }
        },
        N::Arg(b) => {
            let (v, _flow) = match get(b, context, fuel - 1) {
                Ok(p) => p,
                Err(e) => {
                    return Err(e);
                },
            };
            let cast = Type::Int.cast(&v);
            match cast {
                V::Int(idx) => {
                    let mut ds: Vec<char> = Vec::new();
                    push_i64_chars(idx, &mut ds);
                    let w = chars_to_string(&ds);
                    let nsc = context.scopes.len();
                    if nsc > 0 {
                        proof {
                            lemma_scopes_view(context.scopes@);
                            assert(scopes_view(context.scopes@)[nsc - 1] == scope_view(
                                context.scopes@[nsc - 1],
                            ));
                            assert(sscope_wf(scopes_view(context.scopes@)[nsc - 1]));
                        }
                        let g = context.scopes[nsc - 1].get(&w);
                        match g {
                            Some(av) => Ok((av, R::Norm)),
                            None => Ok((V::Null, R::Norm)),
                        }
                    } else {
                        Ok((V::Null, R::Norm))
                    }
                },
                other => {
                    let rt = other.typ();
                    context.trace(&node.1);
                    Err(E::ExpectedType { typ: Type::Str, recv_typ: rt })
                },
            }
        },
        N::Pattern(ns) => {
            match get_pattern(ns, 0, context, fuel) {
                Ok(ts) => Ok((V::Pattern(ts), R::Norm)),
                Err(e) => Err(e),
            }
        },
        N::Body(ns) => get_body(ns, 0, context, fuel),
        N::Vector(ns) => {
            let vals: Vec<V> = Vec::new();
            let tys: Vec<Type> = Vec::new();
            proof {
                assert(vs_view(vals@) =~= Seq::<SV>::empty());
                assert(tys_view(tys@) =~= Seq::<STy>::empty());
            }
            get_vector(ns, 0, context, fuel, vals, tys)
        },
        N::Eval(ns) => {
            if ns.len() == 0 {
                return Ok((V::Null, R::Norm));
            }
            let args = match get_args(ns, 1, context, fuel) {
                Ok(vs) => vs,
                Err(e) => {
                    return Err(e);
                },
            };
            let mut poses: Vec<Position> = Vec::new();
            let n = ns.len();
            let mut k: usize = 1;
            while k < n
                invariant
                    1 <= k <= n,
                    n == ns@.len(),
                    poses@.len() == k - 1,
                    forall|j: int| 0 <= j < k - 1 ==> #[trigger] poses@[j] == ns@[j + 1].1,
                decreases n - k,
            {
                let p = ns[k].1;
                poses.push(p);
                k = k + 1;
            }
            proof {
                lemma_nodes_view(ns@);
                assert(poses@ =~= poses_of(nodes_view(ns@)));
                lemma_sns_wf_iff(nodes_view(ns@), 0);
            }
            let (hv, _f) = match get(&ns[0], context, fuel - 1) {
                Ok(p) => p,
                Err(e) => {
                    return Err(e);
                },
            };
            proof {
                lemma_vs_view(args@);
            }
            eval(hv, &ns[0], args, poses, node, context, fuel - 1)
        },
    }
}

} // verus!
