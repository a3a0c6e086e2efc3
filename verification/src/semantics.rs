//! The meaning of evaluation: a mathematical interpreter over the model.
//!
//! Every function here is a total specification; a `fuel` budget bounds
//! the recursion, and an exhausted budget is the `Depth` error. The
//! executable evaluator is proved to return exactly what these functions
//! say, step for step: the context (scopes, globals, trace, output) after
//! a call equals the model context these functions compute.

use vstd::prelude::*;
use crate::decimal::spec_int_chars;
use crate::position::Position;
use crate::model::{STy, SV, SNode, SN, SErr, SCtx, SScope};
use crate::values::{Nf, ty_match, sv_typ, sv_eq, sv_add, sv_sub, sv_mul, sv_div, sv_lt, sv_gt};
use crate::display::{ty_cast, show_vs};
use crate::context::{spec_ctx_var, spec_ctx_set, spec_ctx_def, spec_ctx_get, spec_scope_get,
    ctx_traced};
use crate::lexer::{spec_lex, LexPos};
use crate::parser::spec_parse;
use crate::evaluator::R;

verus! {

/// A context and a value with its flow, or an error.
pub struct EOut {
    pub c: SCtx,
    pub r: Result<(SV, R), SErr>,
}

/// The argument at `i`, or null when the call is shorter: operations read
/// an absent argument as null.
pub open spec fn arg_or(args: Seq<SV>, i: int) -> SV {
    if 0 <= i < args.len() {
        args[i]
    } else {
        SV::Null
    }
}

/// The type of the argument at `i`; a missing argument is undefined.
pub open spec fn typ_or(args: Seq<SV>, i: int) -> STy {
    if 0 <= i < args.len() {
        sv_typ(args[i])
    } else {
        STy::Undefined
    }
}

/// The position of the argument at `i`, or `fb` for an absent argument.
pub open spec fn pose_or(poses: Seq<Position>, i: int, fb: Position) -> Position {
    if 0 <= i < poses.len() {
        poses[i]
    } else {
        fb
    }
}

/// The text of the first file named `p`, scanning from `i`.
pub open spec fn file_lookup(files: Seq<(Seq<char>, Seq<char>)>, p: Seq<char>, i: int) -> Option<
    Seq<char>,
>
    decreases files.len() - i,
{
    if i < 0 || i >= files.len() {
        None
    } else if files[i].0 == p {
        Some(files[i].1)
    } else {
        file_lookup(files, p, i + 1)
    }
}

/// The first pattern slot (from `i` on) that the matching argument type
/// fails to match.
pub open spec fn patt_mismatch(pattern: Seq<STy>, args: Seq<SV>, i: int) -> Option<int>
    decreases pattern.len() - i,
{
    if i < 0 || i >= pattern.len() {
        None
    } else if !ty_match(pattern[i], typ_or(args, i)) {
        Some(i)
    } else {
        patt_mismatch(pattern, args, i + 1)
    }
}

/// All arguments are mutually equal under the equality of the language.
pub open spec fn all_eq(args: Seq<SV>) -> bool {
    forall|i: int, j: int|
        0 <= i < args.len() && 0 <= j < args.len() ==> sv_eq(
            #[trigger] args[i],
            #[trigger] args[j],
        )
}

/// The scopes with the last one dropped (a no-op on an empty stack).
pub open spec fn ctx_pop(c: SCtx) -> SCtx {
    if c.scopes.len() > 0 {
        SCtx { scopes: c.scopes.drop_last(), ..c }
    } else {
        c
    }
}

/// The scopes with a fresh innermost scope holding `args`.
pub open spec fn ctx_push_args(c: SCtx, args: Seq<SV>) -> SCtx {
    SCtx {
        scopes: c.scopes.push(SScope { vars: Seq::empty(), args: Seq::empty() }).update(
            c.scopes.len() as int,
            SScope { vars: Seq::empty(), args: args },
        ),
        ..c
    }
}

/// Evaluate a node: leaves become values, a word is looked up, the
/// quoting forms quote, and an evaluation form evaluates its arguments
/// left to right, then its head, then dispatches on the head value.
pub open spec fn spec_get(node: SNode, c: SCtx, fuel: nat) -> EOut
    decreases fuel, 1int, 0int,
{
    if fuel == 0 {
        EOut { c, r: Err(SErr::Depth) }
    } else {
        match node.n {
            SN::Null => EOut { c, r: Ok((SV::Null, R::Norm)) },
            SN::Wildcard => EOut { c, r: Ok((SV::Wildcard, R::Norm)) },
            SN::Int(i) => EOut { c, r: Ok((SV::Int(i), R::Norm)) },
            SN::Float(f) => EOut { c, r: Ok((SV::Float(f), R::Norm)) },
            SN::Bool(b) => EOut { c, r: Ok((SV::Bool(b), R::Norm)) },
            SN::Str(s) => EOut { c, r: Ok((SV::Str(s), R::Norm)) },
            SN::Type(t) => EOut { c, r: Ok((SV::Type(t), R::Norm)) },
            SN::Word(w) => match spec_ctx_get(c, w) {
                Some(v) => EOut { c, r: Ok((v, R::Norm)) },
                None => EOut { c, r: Ok((SV::Null, R::Norm)) },
            },
            SN::Closure(b) => EOut { c, r: Ok((SV::Closure(*b, c.path), R::Norm)) },
            SN::Addr(b) => {
                if b.n is Word {
                    EOut { c, r: Ok((SV::Addr(b.n->Word_0), R::Norm)) }
                } else {
                    let o = spec_get(*b, c, (fuel - 1) as nat);
                    match o.r {
                        Err(e) => EOut { c: o.c, r: Err(e) },
                        Ok((v, _)) => {
                            let cast = ty_cast(STy::Str, v);
                            if cast is Str {
                                EOut { c: o.c, r: Ok((SV::Addr(cast->Str_0), R::Norm)) }
                            } else {
                                EOut {
                                    c: ctx_traced(o.c, node.pos),
                                    r: Err(
                                        SErr::ExpectedType {
                                            typ: STy::Str,
                                            recv_typ: sv_typ(cast),
                                        },
                                    ),
                                }
                            }
                        },
                    }
                }
            },
            SN::Arg(b) => {
                let o = spec_get(*b, c, (fuel - 1) as nat);
                match o.r {
                    Err(e) => EOut { c: o.c, r: Err(e) },
                    Ok((v, _)) => {
                        let cast = ty_cast(STy::Int, v);
                        if cast is Int {
                            let w = spec_int_chars(cast->Int_0 as int);
                            if o.c.scopes.len() > 0 {
                                match spec_scope_get(o.c.scopes.last(), w) {
                                    Some(av) => EOut { c: o.c, r: Ok((av, R::Norm)) },
                                    None => EOut { c: o.c, r: Ok((SV::Null, R::Norm)) },
                                }
                            } else {
                                EOut { c: o.c, r: Ok((SV::Null, R::Norm)) }
                            }
                        } else {
                            EOut {
                                c: ctx_traced(o.c, node.pos),
                                r: Err(
                                    SErr::ExpectedType { typ: STy::Str, recv_typ: sv_typ(cast) },
                                ),
                            }
                        }
                    },
                }
            },
            SN::Pattern(ns) => {
                let o = spec_get_pattern(ns, 0, c, fuel);
                match o.1 {
                    Err(e) => EOut { c: o.0, r: Err(e) },
                    Ok(ts) => EOut { c: o.0, r: Ok((SV::Pattern(ts), R::Norm)) },
                }
            },
            SN::Body(ns) => spec_get_body(ns, 0, c, fuel),
            SN::Vector(ns) => {
                let o = spec_get_vec(ns, 0, c, fuel, Seq::empty(), Seq::empty());
                match o.r {
                    Err(e) => EOut { c: o.c, r: Err(e) },
                    Ok(_) => o,
                }
            },
            SN::Eval(ns) => {
                if ns.len() == 0 {
                    EOut { c, r: Ok((SV::Null, R::Norm)) }
                } else {
                    let a = spec_get_args(ns, 1, c, fuel);
                    match a.1 {
                        Err(e) => EOut { c: a.0, r: Err(e) },
                        Ok(args) => {
                            let h = spec_get(ns[0], a.0, (fuel - 1) as nat);
                            match h.r {
                                Err(e) => EOut { c: h.c, r: Err(e) },
                                Ok((hv, _)) => spec_eval(
                                    hv,
                                    ns[0].pos,
                                    args,
                                    poses_of(ns),
                                    node.pos,
                                    h.c,
                                    (fuel - 1) as nat,
                                ),
                            }
                        },
                    }
                }
            },
        }
    }
}

/// The positions of the argument nodes of an evaluation form.
pub open spec fn poses_of(ns: Seq<SNode>) -> Seq<Position> {
    Seq::new((ns.len() - 1) as nat, |i: int| ns[i + 1].pos)
}

/// Evaluate the argument children from `i` on, collecting their values.
pub open spec fn spec_get_args(ns: Seq<SNode>, i: int, c: SCtx, fuel: nat) -> (
    SCtx,
    Result<Seq<SV>, SErr>,
)
    decreases fuel, 0int, ns.len() - i,
{
    if fuel == 0 {
        (c, Err(SErr::Depth))
    } else if i < 1 || i >= ns.len() {
        (c, Ok(Seq::empty()))
    } else {
        let o = spec_get(ns[i], c, (fuel - 1) as nat);
        match o.r {
            Err(e) => (o.c, Err(e)),
            Ok((v, _)) => {
                let rest = spec_get_args(ns, i + 1, o.c, fuel);
                match rest.1 {
                    Err(e) => (rest.0, Err(e)),
                    Ok(vs) => (rest.0, Ok(seq![v] + vs)),
                }
            },
        }
    }
}

/// Evaluate the children of a pattern form, each of which must be a type.
pub open spec fn spec_get_pattern(ns: Seq<SNode>, i: int, c: SCtx, fuel: nat) -> (
    SCtx,
    Result<Seq<STy>, SErr>,
)
    decreases fuel, 0int, ns.len() - i,
{
    if fuel == 0 {
        (c, Err(SErr::Depth))
    } else if i < 0 || i >= ns.len() {
        (c, Ok(Seq::empty()))
    } else {
        let o = spec_get(ns[i], c, (fuel - 1) as nat);
        match o.r {
            Err(e) => (o.c, Err(e)),
            Ok((v, _)) => {
                if v is Type {
                    let rest = spec_get_pattern(ns, i + 1, o.c, fuel);
                    match rest.1 {
                        Err(e) => (rest.0, Err(e)),
                        Ok(ts) => (rest.0, Ok(seq![v->Type_0] + ts)),
                    }
                } else {
                    (
                        ctx_traced(o.c, ns[i].pos),
                        Err(SErr::ExpectedType { typ: STy::Type, recv_typ: sv_typ(v) }),
                    )
                }
            },
        }
    }
}

/// Evaluate the statements of a body in order; a flow other than `None`
/// stops and propagates.
pub open spec fn spec_get_body(ns: Seq<SNode>, i: int, c: SCtx, fuel: nat) -> EOut
    decreases fuel, 0int, ns.len() - i,
{
    if fuel == 0 {
        EOut { c, r: Err(SErr::Depth) }
    } else if i < 0 || i >= ns.len() {
        EOut { c, r: Ok((SV::Null, R::Norm)) }
    } else {
        let o = spec_get(ns[i], c, (fuel - 1) as nat);
        match o.r {
            Err(e) => EOut { c: o.c, r: Err(e) },
            Ok((v, flow)) => {
                if flow != R::Norm {
                    EOut { c: o.c, r: Ok((v, flow)) }
                } else {
                    spec_get_body(ns, i + 1, o.c, fuel)
                }
            },
        }
    }
}

/// Evaluate the elements of a vector form, collecting the values and the
/// distinct element types in order of first appearance (distinct under
/// the match relation); the vector's declared type is the sole type, or
/// the union of them, or `Any` when empty.
pub open spec fn spec_get_vec(
    ns: Seq<SNode>,
    i: int,
    c: SCtx,
    fuel: nat,
    vals: Seq<SV>,
    tys: Seq<STy>,
) -> EOut
    decreases fuel, 0int, ns.len() - i,
{
    if fuel == 0 {
        EOut { c, r: Err(SErr::Depth) }
    } else if i < 0 || i >= ns.len() {
        let t = if tys.len() == 0 {
            STy::Any
        } else if tys.len() == 1 {
            tys[0]
        } else {
            STy::Union(tys)
        };
        EOut { c, r: Ok((SV::Vector(vals, t), R::Norm)) }
    } else {
        let o = spec_get(ns[i], c, (fuel - 1) as nat);
        match o.r {
            Err(e) => EOut { c: o.c, r: Err(e) },
            Ok((v, _)) => {
                let t = sv_typ(v);
                let tys2 = if crate::values::ty_contains(tys, 0, t) {
                    tys
                } else {
                    tys.push(t)
                };
                spec_get_vec(ns, i + 1, o.c, fuel, vals.push(v), tys2)
            },
        }
    }
}

/// Dispatch on an evaluated head value, as the language defines it: a
/// native operation checks its typed pattern and runs; a boolean selects
/// among the arguments; a closure runs its body in a fresh scope holding
/// the arguments; a type with arguments casts (or, for the function type,
/// builds a function); a function re-checks the pattern and re-dispatches
/// on its body; anything else cannot stand as a head.
pub open spec fn spec_eval(
    hv: SV,
    hpos: Position,
    args: Seq<SV>,
    poses: Seq<Position>,
    pos: Position,
    c: SCtx,
    fuel: nat,
) -> EOut
    decreases fuel, 2int, 0int,
{
    if fuel == 0 {
        EOut { c, r: Err(SErr::Depth) }
    } else {
        match hv {
            SV::NativFunction(params, f) => {
                if (*params) is Pattern {
                    let pattern = (*params)->Pattern_0;
                    match patt_mismatch(pattern, args, 0) {
                        Some(i) => EOut {
                            c: ctx_traced(c, pose_or(poses, i, pos)),
                            r: Err(
                                SErr::ExpectedType {
                                    typ: pattern[i],
                                    recv_typ: typ_or(args, i),
                                },
                            ),
                        },
                        None => spec_native(f, args, poses, pos, c, fuel),
                    }
                } else if (*params) != SV::Null {
                    EOut {
                        c: ctx_traced(c, hpos),
                        r: Err(
                            SErr::ExpectedType {
                                typ: STy::Pattern,
                                recv_typ: sv_typ(*params),
                            },
                        ),
                    }
                } else {
                    spec_native(f, args, poses, pos, c, fuel)
                }
            },
            SV::Bool(b) => {
                if b && args.len() >= 1 {
                    EOut { c, r: Ok((args[0], R::Norm)) }
                } else if args.len() >= 2 {
                    EOut { c, r: Ok((args[1], R::Norm)) }
                } else {
                    EOut { c, r: Ok((hv, R::Norm)) }
                }
            },
            SV::Closure(n, _) => {
                let o = spec_get(n, ctx_push_args(c, args), (fuel - 1) as nat);
                EOut { c: ctx_pop(o.c), r: o.r }
            },
            SV::Type(t) => {
                if args.len() == 0 {
                    EOut { c, r: Ok((SV::Type(t), R::Norm)) }
                } else if t is Function {
                    if sv_typ(args[0]) != STy::Pattern {
                        EOut {
                            c,
                            r: Err(
                                SErr::ExpectedType {
                                    typ: STy::Pattern,
                                    recv_typ: sv_typ(args[0]),
                                },
                            ),
                        }
                    } else if args.len() >= 2 {
                        EOut {
                            c,
                            r: Ok(
                                (
                                    SV::Function(Box::new(args[0]), Box::new(args[1])),
                                    R::Norm,
                                ),
                            ),
                        }
                    } else {
                        EOut {
                            c,
                            r: Ok(
                                (SV::Function(Box::new(args[0]), Box::new(SV::Null)), R::Norm),
                            ),
                        }
                    }
                } else {
                    EOut { c, r: Ok((ty_cast(t, args[0]), R::Norm)) }
                }
            },
            SV::Function(params, body) => {
                if (*params) is Pattern {
                    let pattern = (*params)->Pattern_0;
                    match patt_mismatch(pattern, args, 0) {
                        Some(i) => EOut {
                            c: ctx_traced(c, pose_or(poses, i, pos)),
                            r: Err(
                                SErr::ExpectedType {
                                    typ: pattern[i],
                                    recv_typ: typ_or(args, i),
                                },
                            ),
                        },
                        None => spec_eval(*body, hpos, args, poses, pos, c, (fuel - 1) as nat),
                    }
                } else {
                    EOut {
                        c: ctx_traced(c, hpos),
                        r: Err(
                            SErr::ExpectedType {
                                typ: STy::Pattern,
                                recv_typ: sv_typ(*params),
                            },
                        ),
                    }
                }
            },
            _ => EOut { c: ctx_traced(c, hpos), r: Err(SErr::HeadOperation(hv)) },
        }
    }
}

/// Run one native operation.
pub open spec fn spec_native(
    f: Nf,
    args: Seq<SV>,
    poses: Seq<Position>,
    pos: Position,
    c: SCtx,
    fuel: nat,
) -> EOut
    decreases fuel, 1int, 1int,
{
    match f {
        Nf::Def => spec_def(args, poses, pos, c),
        Nf::Var => spec_var(args, pos, c),
        Nf::Assign => spec_assign(args, pos, c),
        Nf::Get => spec_getw(args, pos, c),
        Nf::If => spec_if(args, c, fuel),
        Nf::While => spec_while(args, c, fuel),
        Nf::Add => spec_addn(args, poses, c),
        Nf::Sub => spec_subn(args, poses, c),
        Nf::Mul => spec_muln(args, poses, c),
        Nf::Div => spec_divn(args, poses, c),
        Nf::Eq => spec_eqn(args, c),
        Nf::Lt => spec_ltn(args, poses, c),
        Nf::Gt => spec_gtn(args, poses, c),
        Nf::Union => spec_union(args, poses, c),
        Nf::Exclude => spec_exclude(args, poses, c),
        Nf::Print => spec_printn(args, c),
        Nf::Load => spec_load(args, poses, c, fuel),
        Nf::Assert => spec_assertn(args, pos, c),
    }
}

/// `def`: bind a quoted name in the global scope; the value defaults to
/// null; a second binding of the same name fails.
pub open spec fn spec_def(args: Seq<SV>, poses: Seq<Position>, pos: Position, c: SCtx) -> EOut {
    let addr = arg_or(args, 0);
    let value = arg_or(args, 1);
    if addr is Addr {
        let w = addr->Addr_0;
        match spec_ctx_def(c, w, value) {
            Some(c2) => EOut { c: c2, r: Ok((SV::Null, R::Norm)) },
            None => EOut {
                c: ctx_traced(c, pose_or(poses, 0, pos)),
                r: Err(SErr::AlreadyDefined(w)),
            },
        }
    } else {
        EOut {
            c: ctx_traced(c, pos),
            r: Err(SErr::ExpectedType { typ: STy::Addr, recv_typ: sv_typ(addr) }),
        }
    }
}

/// `var`: bind a quoted name in the innermost scope; a name visible in
/// any lexical scope cannot be declared again.
pub open spec fn spec_var(args: Seq<SV>, pos: Position, c: SCtx) -> EOut {
    let addr = arg_or(args, 0);
    let value = arg_or(args, 1);
    if addr is Addr {
        let w = addr->Addr_0;
        match spec_ctx_var(c, w, value) {
            Some(c2) => EOut { c: c2, r: Ok((SV::Null, R::Norm)) },
            None => EOut { c: ctx_traced(c, pos), r: Err(SErr::AlreadyDefined(w)) },
        }
    } else {
        EOut {
            c: ctx_traced(c, pos),
            r: Err(SErr::ExpectedType { typ: STy::Addr, recv_typ: sv_typ(addr) }),
        }
    }
}

/// `set`: mutate the nearest lexical binding; a global name is immutable;
/// an unbound name cannot be set.
pub open spec fn spec_assign(args: Seq<SV>, pos: Position, c: SCtx) -> EOut {
    let addr = arg_or(args, 0);
    let value = arg_or(args, 1);
    if addr is Addr {
        let w = addr->Addr_0;
        if spec_scope_get(c.global, w) is Some {
            EOut { c: ctx_traced(c, pos), r: Err(SErr::Immutable(w)) }
        } else {
            match spec_ctx_set(c, w, value) {
                Some(c2) => EOut { c: c2, r: Ok((SV::Null, R::Norm)) },
                None => EOut { c: ctx_traced(c, pos), r: Err(SErr::NotDefined(w)) },
            }
        }
    } else {
        EOut {
            c: ctx_traced(c, pos),
            r: Err(SErr::ExpectedType { typ: STy::Addr, recv_typ: sv_typ(addr) }),
        }
    }
}

/// `get`: the value bound to a quoted name, or null.
pub open spec fn spec_getw(args: Seq<SV>, pos: Position, c: SCtx) -> EOut {
    let addr = arg_or(args, 0);
    if addr is Addr {
        match spec_ctx_get(c, addr->Addr_0) {
            Some(v) => EOut { c, r: Ok((v, R::Norm)) },
            None => EOut { c, r: Ok((SV::Null, R::Norm)) },
        }
    } else {
        EOut {
            c: ctx_traced(c, pos),
            r: Err(SErr::ExpectedType { typ: STy::Addr, recv_typ: sv_typ(addr) }),
        }
    }
}

/// Invoke a closure argument under its defining path, keeping the effects
/// and discarding the outcome (as the conditional does).
pub open spec fn spec_invoke_quiet(v: SV, c: SCtx, fuel: nat) -> SCtx
    decreases fuel, 0int, 0int,
{
    if fuel == 0 {
        c
    } else if v is Closure {
        let n = v->Closure_0;
        let cpath = v->Closure_1;
        let o = spec_get(n, SCtx { path: cpath, ..c }, (fuel - 1) as nat);
        SCtx { path: c.path, ..o.c }
    } else {
        c
    }
}

/// `if`: on a true condition the second argument (a closure argument is
/// also invoked for its effects), else the third when it is not null,
/// else null.
pub open spec fn spec_if(args: Seq<SV>, c: SCtx, fuel: nat) -> EOut
    decreases fuel, 1int, 0int,
{
    if fuel == 0 {
        EOut { c, r: Err(SErr::Depth) }
    } else {
        let cond = arg_or(args, 0);
        let case = arg_or(args, 1);
        let else_case = arg_or(args, 2);
        if sv_eq(cond, SV::Bool(true)) {
            EOut { c: spec_invoke_quiet(case, c, fuel), r: Ok((case, R::Norm)) }
        } else if !sv_eq(else_case, SV::Null) {
            EOut { c: spec_invoke_quiet(else_case, c, fuel), r: Ok((else_case, R::Norm)) }
        } else {
            EOut { c, r: Ok((SV::Null, R::Norm)) }
        }
    }
}

/// Invoke a closure under its defining path, restoring the path on
/// success (the loop's condition and body run this way).
pub open spec fn spec_invoke(n: SNode, cpath: Seq<char>, c: SCtx, fuel: nat) -> EOut
    decreases fuel, 0int, 0int,
{
    if fuel == 0 {
        EOut { c, r: Err(SErr::Depth) }
    } else {
        let o = spec_get(n, SCtx { path: cpath, ..c }, (fuel - 1) as nat);
        match o.r {
            Err(e) => EOut { c: o.c, r: Err(e) },
            Ok((v, flow)) => EOut { c: SCtx { path: c.path, ..o.c }, r: Ok((v, flow)) },
        }
    }
}

/// `while`: re-evaluate the condition (fresh when it is a closure) and
/// run the body while the condition casts to true; a returning body ends
/// the loop with its value and flow; a breaking body ends it with its
/// value and no flow.
pub open spec fn spec_while(args: Seq<SV>, c: SCtx, fuel: nat) -> EOut
    decreases fuel, 1int, 0int,
{
    if fuel == 0 {
        EOut { c, r: Err(SErr::Depth) }
    } else {
        let first = arg_or(args, 0);
        let case = arg_or(args, 1);
        if first is Closure {
            let o = spec_invoke(first->Closure_0, first->Closure_1, c, fuel);
            match o.r {
                Err(e) => EOut { c: o.c, r: Err(e) },
                Ok((v, _)) => spec_while_loop(
                    ty_cast(STy::Bool, v),
                    first,
                    case,
                    o.c,
                    (fuel - 1) as nat,
                ),
            }
        } else {
            spec_while_loop(ty_cast(STy::Bool, first), first, case, c, (fuel - 1) as nat)
        }
    }
}

/// One round of the loop: run the body, then the condition again.
pub open spec fn spec_while_loop(cond: SV, first: SV, case: SV, c: SCtx, fuel: nat) -> EOut
    decreases fuel, 0int, 2int,
{
    if fuel == 0 {
        EOut { c, r: Err(SErr::Depth) }
    } else if !sv_eq(cond, SV::Bool(true)) {
        EOut { c, r: Ok((SV::Null, R::Norm)) }
    } else if case is Closure {
        let o = spec_invoke(case->Closure_0, case->Closure_1, c, fuel);
        match o.r {
            Err(e) => EOut { c: o.c, r: Err(e) },
            Ok((v, flow)) => {
                if flow == R::Return {
                    EOut { c: o.c, r: Ok((v, R::Return)) }
                } else if flow == R::Break {
                    EOut { c: o.c, r: Ok((v, R::Norm)) }
                } else {
                    spec_while_next(first, case, o.c, fuel)
                }
            },
        }
    } else {
        spec_while_next(first, case, c, fuel)
    }
}

/// After the body: evaluate the condition afresh and go round again.
pub open spec fn spec_while_next(first: SV, case: SV, c: SCtx, fuel: nat) -> EOut
    decreases fuel, 0int, 1int,
{
    if fuel == 0 {
        EOut { c, r: Err(SErr::Depth) }
    } else if first is Closure {
        let o = spec_invoke(first->Closure_0, first->Closure_1, c, fuel);
        match o.r {
            Err(e) => EOut { c: o.c, r: Err(e) },
            Ok((v, _)) => spec_while_loop(
                ty_cast(STy::Bool, v),
                first,
                case,
                o.c,
                (fuel - 1) as nat,
            ),
        }
    } else {
        spec_while_loop(ty_cast(STy::Bool, first), first, case, c, (fuel - 1) as nat)
    }
}

/// `print`: the written forms of the arguments, space-separated with a
/// final line break, appended to the output; printing nothing writes
/// nothing.
pub open spec fn spec_printn(args: Seq<SV>, c: SCtx) -> EOut {
    let text = if args.len() > 0 {
        show_vs(args, 0) + seq!['\n']
    } else {
        Seq::<char>::empty()
    };
    EOut { c: SCtx { out: c.out + text, ..c }, r: Ok((SV::Null, R::Norm)) }
}

/// Fold a binary numeric operation left to right from `acc`.
pub open spec fn spec_fold(
    op: Nf,
    acc: SV,
    args: Seq<SV>,
    poses: Seq<Position>,
    i: int,
    c: SCtx,
) -> EOut
    decreases args.len() - i,
{
    if i < 1 || i >= args.len() {
        EOut { c, r: Ok((acc, R::Norm)) }
    } else {
        let step = if op is Add {
            sv_add(acc, args[i])
        } else if op is Sub {
            sv_sub(acc, args[i])
        } else if op is Mul {
            sv_mul(acc, args[i])
        } else {
            sv_div(acc, args[i])
        };
        match step {
            None => EOut {
                c: ctx_traced(c, pose_or(poses, i, poses.last())),
                r: Err(
                    SErr::BinaryOperation { type1: sv_typ(acc), type2: sv_typ(args[i]) },
                ),
            },
            Some(v) => spec_fold(op, v, args, poses, i + 1, c),
        }
    }
}

/// `+`: fold addition; an empty call gives null.
pub open spec fn spec_addn(args: Seq<SV>, poses: Seq<Position>, c: SCtx) -> EOut {
    if args.len() == 0 {
        EOut { c, r: Ok((SV::Null, R::Norm)) }
    } else {
        spec_fold(Nf::Add, args[0], args, poses, 1, c)
    }
}

/// `-`: fold subtraction; one argument negates; an empty call gives null.
pub open spec fn spec_subn(args: Seq<SV>, poses: Seq<Position>, c: SCtx) -> EOut {
    if args.len() == 0 {
        EOut { c, r: Ok((SV::Null, R::Norm)) }
    } else if args.len() == 1 {
        match sv_sub(SV::Int(0), args[0]) {
            None => EOut {
                c: ctx_traced(c, pose_or(poses, 0, poses.last())),
                r: Err(SErr::UnaryOperation(sv_typ(args[0]))),
            },
            Some(v) => EOut { c, r: Ok((v, R::Norm)) },
        }
    } else {
        spec_fold(Nf::Sub, args[0], args, poses, 1, c)
    }
}

/// `*`: fold multiplication; an empty call gives null.
pub open spec fn spec_muln(args: Seq<SV>, poses: Seq<Position>, c: SCtx) -> EOut {
    if args.len() == 0 {
        EOut { c, r: Ok((SV::Null, R::Norm)) }
    } else {
        spec_fold(Nf::Mul, args[0], args, poses, 1, c)
    }
}

/// `/`: fold division; an empty call gives null.
pub open spec fn spec_divn(args: Seq<SV>, poses: Seq<Position>, c: SCtx) -> EOut {
    if args.len() == 0 {
        EOut { c, r: Ok((SV::Null, R::Norm)) }
    } else {
        spec_fold(Nf::Div, args[0], args, poses, 1, c)
    }
}

/// `=`: whether all arguments are mutually equal; with at most one
/// argument, false.
pub open spec fn spec_eqn(args: Seq<SV>, c: SCtx) -> EOut {
    if args.len() <= 1 {
        EOut { c, r: Ok((SV::Bool(false), R::Norm)) }
    } else {
        EOut { c, r: Ok((SV::Bool(all_eq(args)), R::Norm)) }
    }
}

/// A chained comparison from index `i`.
pub open spec fn spec_chain(
    gt: bool,
    args: Seq<SV>,
    poses: Seq<Position>,
    i: int,
    c: SCtx,
) -> EOut
    decreases args.len() - i,
{
    if i < 0 || i + 1 >= args.len() {
        EOut { c, r: Ok((SV::Bool(true), R::Norm)) }
    } else {
        let step = if gt {
            sv_gt(args[i], args[i + 1])
        } else {
            sv_lt(args[i], args[i + 1])
        };
        match step {
            None => EOut {
                c: ctx_traced(c, pose_or(poses, i, poses.last())),
                r: Err(
                    SErr::BinaryOperation { type1: sv_typ(args[i]), type2: sv_typ(args[i + 1]) },
                ),
            },
            Some(b) => if b {
                spec_chain(gt, args, poses, i + 1, c)
            } else {
                EOut { c, r: Ok((SV::Bool(false), R::Norm)) }
            },
        }
    }
}

/// `lt`: a chained less-than; an empty call gives null.
pub open spec fn spec_ltn(args: Seq<SV>, poses: Seq<Position>, c: SCtx) -> EOut {
    if args.len() == 0 {
        EOut { c, r: Ok((SV::Null, R::Norm)) }
    } else {
        spec_chain(false, args, poses, 0, c)
    }
}

/// `gt`: a chained greater-than; an empty call gives null.
pub open spec fn spec_gtn(args: Seq<SV>, poses: Seq<Position>, c: SCtx) -> EOut {
    if args.len() == 0 {
        EOut { c, r: Ok((SV::Null, R::Norm)) }
    } else {
        spec_chain(true, args, poses, 0, c)
    }
}

/// Collect type arguments, which must all be types.
pub open spec fn spec_collect_types(args: Seq<SV>, poses: Seq<Position>, i: int, c: SCtx) -> (
    SCtx,
    Result<Seq<STy>, SErr>,
)
    decreases args.len() - i,
{
    if i < 0 || i >= args.len() {
        (c, Ok(Seq::empty()))
    } else if args[i] is Type {
        let rest = spec_collect_types(args, poses, i + 1, c);
        match rest.1 {
            Err(e) => (rest.0, Err(e)),
            Ok(ts) => (rest.0, Ok(seq![args[i]->Type_0] + ts)),
        }
    } else {
        (
            ctx_traced(c, pose_or(poses, i, poses.last())),
            Err(SErr::ExpectedType { typ: STy::Type, recv_typ: sv_typ(args[i]) }),
        )
    }
}

/// `union`: the union of the type arguments; empty gives the union of
/// `Any`.
pub open spec fn spec_union(args: Seq<SV>, poses: Seq<Position>, c: SCtx) -> EOut {
    if args.len() == 0 {
        EOut { c, r: Ok((SV::Type(STy::Union(seq![STy::Any])), R::Norm)) }
    } else {
        let o = spec_collect_types(args, poses, 0, c);
        match o.1 {
            Err(e) => EOut { c: o.0, r: Err(e) },
            Ok(ts) => EOut { c: o.0, r: Ok((SV::Type(STy::Union(ts)), R::Norm)) },
        }
    }
}

/// `exclude`: the exclusion of the type arguments; empty gives the union
/// of `Any`.
pub open spec fn spec_exclude(args: Seq<SV>, poses: Seq<Position>, c: SCtx) -> EOut {
    if args.len() == 0 {
        EOut { c, r: Ok((SV::Type(STy::Union(seq![STy::Any])), R::Norm)) }
    } else {
        let o = spec_collect_types(args, poses, 0, c);
        match o.1 {
            Err(e) => EOut { c: o.0, r: Err(e) },
            Ok(ts) => EOut { c: o.0, r: Ok((SV::Type(STy::Exclusion(ts)), R::Norm)) },
        }
    }
}

/// `assert`: fails exactly when the first argument equals false (an
/// absent argument is null, which does not).
pub open spec fn spec_assertn(args: Seq<SV>, pos: Position, c: SCtx) -> EOut {
    if sv_eq(arg_or(args, 0), SV::Bool(false)) {
        EOut { c: ctx_traced(c, pos), r: Err(SErr::AssertError) }
    } else {
        EOut { c, r: Ok((SV::Null, R::Norm)) }
    }
}

/// `load`: run another file from the table under its own path; the
/// caller's path is restored whether or not the file ran to completion.
pub open spec fn spec_load(args: Seq<SV>, poses: Seq<Position>, c: SCtx, fuel: nat) -> EOut
    decreases fuel, 1int, 0int,
{
    if fuel == 0 {
        EOut { c, r: Err(SErr::Depth) }
    } else if args.len() == 0 {
        EOut { c, r: Ok((SV::Null, R::Norm)) }
    } else if args[0] is Str {
        let p = args[0]->Str_0;
        let o = spec_runfile(p, SCtx { path: p, ..c }, (fuel - 1) as nat);
        let c2 = SCtx { path: c.path, ..o.c };
        match o.r {
            Err(e) => EOut { c: c2, r: Err(e) },
            Ok(_) => EOut { c: c2, r: Ok((SV::Null, R::Norm)) },
        }
    } else {
        EOut {
            c: ctx_traced(c, pose_or(poses, 0, poses.last())),
            r: Err(SErr::ExpectedType { typ: STy::Str, recv_typ: sv_typ(args[0]) }),
        }
    }
}

/// Run the file named `path` from the table: missing is an error,
/// otherwise its text runs.
pub open spec fn spec_runfile(path: Seq<char>, c: SCtx, fuel: nat) -> EOut
    decreases fuel, 3int, 0int,
{
    match file_lookup(c.files, path, 0) {
        None => EOut { c, r: Err(SErr::FileNotFound(path)) },
        Some(text) => spec_run(text, c, fuel),
    }
}

/// Run a source text: lex, parse (an empty token stream is a null run),
/// evaluate.
pub open spec fn spec_run(text: Seq<char>, c: SCtx, fuel: nat) -> EOut
    decreases fuel, 2int, 1int,
{
    match spec_lex(text, LexPos { i: 0, ln: 0, col: 0 }) {
        Err(e) => EOut { c, r: Err(e) },
        Ok(toks) => {
            if toks.len() == 0 {
                EOut { c, r: Ok((SV::Null, R::Norm)) }
            } else {
                let po = spec_parse(toks);
                match po.r {
                    Err(e) => EOut { c: ctx_traced(c, po.tpos), r: Err(e) },
                    Ok(node) => spec_get(node, c, fuel),
                }
            }
        },
    }
}

/// The executable outcome `r` is exactly the model outcome `s`, and a
/// returned value is well formed.
pub open spec fn res_eout(r: Result<(crate::values::V, R), crate::error::E>, s: Result<(SV, R), SErr>) -> bool {
    match r {
        Ok(p) => s == Ok::<(SV, R), SErr>((crate::values::v_view(p.0), p.1)) && crate::values::sv_wf(
            crate::values::v_view(p.0),
        ),
        Err(e) => s == Err::<(SV, R), SErr>(crate::error::e_view(e)),
    }
}

/// The native operation bound to each name of the prelude.
pub open spec fn funx_globals() -> Seq<(Seq<char>, SV)> {
    seq![
        (
            "var"@,
            SV::NativFunction(
                Box::new(SV::Pattern(seq![STy::Addr, STy::Any])),
                Nf::Var,
            ),
        ),
        (
            "set"@,
            SV::NativFunction(
                Box::new(SV::Pattern(seq![STy::Addr, STy::Any])),
                Nf::Assign,
            ),
        ),
        (
            "def"@,
            SV::NativFunction(
                Box::new(SV::Pattern(seq![STy::Addr, STy::Any])),
                Nf::Def,
            ),
        ),
        ("get"@, SV::NativFunction(Box::new(SV::Pattern(seq![STy::Addr])), Nf::Get)),
        (
            "if"@,
            SV::NativFunction(
                Box::new(
                    SV::Pattern(
                        seq![
                            STy::Bool,
                            STy::Exclusion(seq![STy::Undefined]),
                            STy::Any,
                        ],
                    ),
                ),
                Nf::If,
            ),
        ),
        (
            "while"@,
            SV::NativFunction(
                Box::new(
                    SV::Pattern(
                        seq![STy::Union(seq![STy::Bool, STy::Closure]), STy::Closure],
                    ),
                ),
                Nf::While,
            ),
        ),
        ("+"@, SV::NativFunction(Box::new(SV::Null), Nf::Add)),
        ("-"@, SV::NativFunction(Box::new(SV::Null), Nf::Sub)),
        ("*"@, SV::NativFunction(Box::new(SV::Null), Nf::Mul)),
        ("/"@, SV::NativFunction(Box::new(SV::Null), Nf::Div)),
        ("="@, SV::NativFunction(Box::new(SV::Null), Nf::Eq)),
        (
            "lt"@,
            SV::NativFunction(
                Box::new(
                    SV::Pattern(
                        seq![
                            STy::Union(seq![STy::Int, STy::Float]),
                            STy::Union(seq![STy::Int, STy::Float]),
                        ],
                    ),
                ),
                Nf::Lt,
            ),
        ),
        (
            "gt"@,
            SV::NativFunction(
                Box::new(
                    SV::Pattern(
                        seq![
                            STy::Union(seq![STy::Int, STy::Float]),
                            STy::Union(seq![STy::Int, STy::Float]),
                        ],
                    ),
                ),
                Nf::Gt,
            ),
        ),
        ("union"@, SV::NativFunction(Box::new(SV::Null), Nf::Union)),
        ("exclude"@, SV::NativFunction(Box::new(SV::Null), Nf::Exclude)),
        ("print"@, SV::NativFunction(Box::new(SV::Null), Nf::Print)),
        ("load"@, SV::NativFunction(Box::new(SV::Null), Nf::Load)),
        ("assert"@, SV::NativFunction(Box::new(SV::Null), Nf::Assert)),
    ]
}

/// A fresh context with the prelude installed in the global scope.
pub open spec fn spec_funx_context(path: Seq<char>) -> SCtx {
    SCtx {
        path: path,
        scopes: seq![SScope { vars: Seq::empty(), args: Seq::empty() }],
        global: SScope { vars: funx_globals(), args: Seq::empty() },
        trace: Seq::empty(),
        files: Seq::empty(),
        out: Seq::empty(),
    }
}

/// Run the prelude file, then the target file, in a fresh context over the
/// given file table.
pub open spec fn spec_runfile_core(
    path: Seq<char>,
    files: Seq<(Seq<char>, Seq<char>)>,
    fuel: nat,
) -> EOut {
    let c = SCtx { files, path: "std/core.funx"@, ..spec_funx_context(path) };
    let o1 = spec_runfile("std/core.funx"@, c, fuel);
    match o1.r {
        Err(e) => EOut { c: o1.c, r: Err(e) },
        Ok(_) => {
            let c2 = SCtx { path: path, ..o1.c };
            spec_runfile(path, c2, fuel)
        },
    }
}

} // verus!
