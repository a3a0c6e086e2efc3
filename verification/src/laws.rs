//! Laws of the language, stated over the model and proved once and for
//! all: scope layering, global immutability, positional arguments,
//! boolean selection, the reach of `Any`, loop control flow, load
//! isolation and wildcard equality.

use vstd::prelude::*;
use crate::decimal::{dec_digits, digit_char, spec_int_chars};
use crate::position::Position;
use crate::model::{STy, SV, SN, SNode, SErr, SCtx};
use crate::values::{ty_match, sv_eq};
use crate::context::{spec_ctx_var, spec_scope_var, spec_scope_get, scopes_any_get, vars_get,
    vars_has, lemma_vars_get_has, args_get, spec_scopes_set};
use crate::semantics::{spec_get, spec_eval, spec_assign, spec_while_loop, spec_invoke, spec_load,
    arg_or, EOut};
use crate::evaluator::R;

verus! {

/// Scope layering: a `var` declaration whose name any lexical scope
/// already resolves is refused; when no scope resolves it (and a scope
/// exists to hold it), the declaration is accepted.
pub proof fn lemma_var_shadowing(c: SCtx, w: Seq<char>, v: SV)
    ensures
        scopes_any_get(c.scopes, w, c.scopes.len() as int) ==> spec_ctx_var(c, w, v) is None,
        !scopes_any_get(c.scopes, w, c.scopes.len() as int) && c.scopes.len() > 0 ==> spec_ctx_var(
            c,
            w,
            v,
        ) is Some,
{
    if !scopes_any_get(c.scopes, w, c.scopes.len() as int) && c.scopes.len() > 0 {
        assert(spec_scope_get(c.scopes.last(), w) is None);
        lemma_vars_get_has(c.scopes.last().vars, w, 0);
    }
}

/// Global immutability: `set` on a name the global scope binds fails
/// `Immutable`; on a name some lexical scope binds (and the global scope
/// does not), `set` succeeds.
pub proof fn lemma_set_immutable(c: SCtx, w: Seq<char>, v: SV, pos: Position)
    ensures
        spec_scope_get(c.global, w) is Some ==> spec_assign(
            seq![SV::Addr(w), v],
            pos,
            c,
        ).r == Err::<(SV, R), SErr>(SErr::Immutable(w)),
        spec_scope_get(c.global, w) is None && spec_scopes_set(
            c.scopes,
            w,
            v,
            c.scopes.len() as int,
        ) is Some ==> spec_assign(seq![SV::Addr(w), v], pos, c).r == Ok::<(SV, R), SErr>(
            (SV::Null, R::Norm),
        ),
{
}

/// Boolean as selection: a true head takes the first argument, a false
/// head the second; short calls give the boolean itself.
pub proof fn lemma_bool_select(
    b: bool,
    hpos: Position,
    args: Seq<SV>,
    poses: Seq<Position>,
    pos: Position,
    c: SCtx,
    fuel: nat,
)
    requires
        fuel > 0,
    ensures
        b && args.len() >= 1 ==> spec_eval(SV::Bool(b), hpos, args, poses, pos, c, fuel) == (EOut {
            c,
            r: Ok((args[0], R::Norm)),
        }),
        !b && args.len() >= 2 ==> spec_eval(SV::Bool(b), hpos, args, poses, pos, c, fuel) == (
        EOut { c, r: Ok((args[1], R::Norm)) }),
        b && args.len() == 0 ==> spec_eval(SV::Bool(b), hpos, args, poses, pos, c, fuel).r == Ok::<
            (SV, R),
            SErr,
        >((SV::Bool(b), R::Norm)),
        !b && args.len() <= 1 ==> spec_eval(SV::Bool(b), hpos, args, poses, pos, c, fuel).r
            == Ok::<(SV, R), SErr>((SV::Bool(b), R::Norm)),
{
}

/// `Any` matches every type, on either side.
pub proof fn lemma_any_matches(t: STy)
    ensures
        ty_match(STy::Any, t),
        ty_match(t, STy::Any),
{
}

/// The wildcard equals every value, on either side.
pub proof fn lemma_wildcard_eq(v: SV)
    ensures
        sv_eq(SV::Wildcard, v),
        sv_eq(v, SV::Wildcard),
{
}

/// Loop control flow: when the condition holds and the body is a closure,
/// a body outcome `Break` with value `v` ends the loop with `(v, Norm)`,
/// and a body outcome `Return` ends it with `(v, Return)`.
pub proof fn lemma_while_flow(
    cond: SV,
    first: SV,
    case: SV,
    c: SCtx,
    fuel: nat,
    v: SV,
    flow: R,
)
    requires
        fuel > 0,
        sv_eq(cond, SV::Bool(true)),
        case is Closure,
        spec_invoke(case->Closure_0, case->Closure_1, c, fuel).r == Ok::<(SV, R), SErr>(
            (v, flow),
        ),
    ensures
        flow == R::Break ==> spec_while_loop(cond, first, case, c, fuel).r == Ok::<(SV, R), SErr>(
            (v, R::Norm),
        ),
        flow == R::Return ==> spec_while_loop(cond, first, case, c, fuel).r == Ok::<
            (SV, R),
            SErr,
        >((v, R::Return)),
{
}

/// Load isolation: whatever `load` does — runs the file, fails to find
/// it, or rejects its argument — the caller's path stands afterwards.
pub proof fn lemma_load_path(args: Seq<SV>, poses: Seq<Position>, c: SCtx, fuel: nat)
    ensures
        spec_load(args, poses, c, fuel).c.path == c.path,
{
}

/// Distinct numbers have distinct digit strings.
proof fn lemma_dec_digits_len(n: nat)
    ensures
        dec_digits(n).len() >= 1,
        n >= 10 ==> dec_digits(n).len() >= 2,
    decreases n,
{
    if n >= 10 {
        lemma_dec_digits_len(n / 10);
    }
}

proof fn lemma_dec_digits_inj(a: nat, b: nat)
    requires
        dec_digits(a) == dec_digits(b),
    ensures
        a == b,
    decreases a,
{
    lemma_dec_digits_len(a);
    lemma_dec_digits_len(b);
    if a < 10 && b < 10 {
        assert(dec_digits(a) == seq![digit_char(a)]);
        assert(dec_digits(b) == seq![digit_char(b)]);
        assert(seq![digit_char(a)][0] == digit_char(a));
        assert(seq![digit_char(b)][0] == digit_char(b));
        assert(digit_char(a) == digit_char(b));
    } else if a < 10 {
        assert(dec_digits(a).len() == 1);
        assert(dec_digits(b).len() >= 2);
    } else if b < 10 {
        assert(dec_digits(b).len() == 1);
        assert(dec_digits(a).len() >= 2);
    } else {
        assert(dec_digits(a).last() == digit_char(a % 10));
        assert(dec_digits(b).last() == digit_char(b % 10));
        assert(a % 10 == b % 10);
        assert(dec_digits(a).drop_last() =~= dec_digits(a / 10));
        assert(dec_digits(b).drop_last() =~= dec_digits(b / 10));
        lemma_dec_digits_inj(a / 10, b / 10);
    }
}

/// The positional argument spelled like `i` is the argument at `i`.
proof fn lemma_args_get_at(args: Seq<SV>, i: int, k: int)
    requires
        0 <= k <= i < args.len(),
    ensures
        args_get(args, dec_digits(i as nat), k) == Some(args[i]),
    decreases i - k,
{
    if k < i {
        if dec_digits(i as nat) == dec_digits(k as nat) {
            lemma_dec_digits_inj(i as nat, k as nat);
        }
        lemma_args_get_at(args, i, k + 1);
    }
}

/// No positional argument is spelled like an index past the end.
proof fn lemma_args_get_miss(args: Seq<SV>, i: int, k: int)
    requires
        0 <= k,
        i >= args.len(),
        i >= 0,
    ensures
        args_get(args, dec_digits(i as nat), k) is None,
    decreases args.len() - k,
{
    if k < args.len() {
        if dec_digits(i as nat) == dec_digits(k as nat) {
            lemma_dec_digits_inj(i as nat, k as nat);
        }
        lemma_args_get_miss(args, i, k + 1);
    }
}

/// Positional arguments: inside a scope whose call brought arguments `A`,
/// the expression `%i` is `A[i]` when `i` is in range, and null when it
/// is past the end (and no binding of the innermost scope spells it).
pub proof fn lemma_positional_args(p1: Position, p2: Position, i: i64, c: SCtx, fuel: nat)
    requires
        fuel >= 2,
        i >= 0,
        c.scopes.len() > 0,
    ensures
        ({
            let node = SNode { n: SN::Arg(Box::new(SNode { n: SN::Int(i), pos: p2 })), pos: p1 };
            let argl = c.scopes.last().args;
            &&& (i < argl.len() ==> spec_get(node, c, fuel) == (EOut {
                c,
                r: Ok((argl[i as int], R::Norm)),
            }))
            &&& (i >= argl.len() && !vars_has(c.scopes.last().vars, dec_digits(i as nat), 0)
                ==> spec_get(node, c, fuel) == (EOut { c, r: Ok((SV::Null, R::Norm)) }))
        }),
{
    reveal_with_fuel(spec_get, 3);
    let node = SNode { n: SN::Arg(Box::new(SNode { n: SN::Int(i), pos: p2 })), pos: p1 };
    let argl = c.scopes.last().args;
    assert(spec_int_chars(i as int) == dec_digits(i as nat));
    if i < argl.len() {
        lemma_args_get_at(argl, i as int, 0);
    } else {
        lemma_args_get_miss(argl, i as int, 0);
        lemma_vars_get_has(c.scopes.last().vars, dec_digits(i as nat), 0);
    }
}

} // verus!
