//! Values and types of the language: the type-match relation, value
//! equality, and arithmetic.

use vstd::prelude::*;
use crate::decimal::{Fl, fl_wf, fl_add, fl_sub, fl_mul, fl_div, fl_lt, fl_eq, int_to_fl, spec_fl_add, spec_fl_sub, spec_fl_mul, spec_fl_div, spec_fl_lt, spec_fl_eq, spec_int_to_fl};
use crate::model::{STy, SV};
use crate::parser::{Node, node_view, node_eq, node_eq_exec, node_dup, sn_wf};

verus! {

/// The native operations installed in the global scope.
#[derive(Debug, Clone, Copy, PartialEq, Eq, Structural)]
pub enum Nf {
    Def,
    Var,
    Assign,
    Get,
    If,
    While,
    Add,
    Sub,
    Mul,
    Div,
    Eq,
    Lt,
    Gt,
    Union,
    Exclude,
    Print,
    Load,
    Assert,
}

/// A type of the language, itself a first-class value.
#[derive(Debug, PartialEq)]
pub enum Type {
    Undefined,
    Any,
    Int,
    Float,
    Bool,
    Str,
    Vector(Box<Type>),
    NativFunction,
    Function,
    Addr,
    Closure,
    Pattern,
    Union(Vec<Type>),
    Exclusion(Vec<Type>),
    Type,
}

/// The model of a type.
pub open spec fn ty_view(t: Type) -> STy
    decreases t,
{
    match t {
        Type::Undefined => STy::Undefined,
        Type::Any => STy::Any,
        Type::Int => STy::Int,
        Type::Float => STy::Float,
        Type::Bool => STy::Bool,
        Type::Str => STy::Str,
        Type::Vector(b) => STy::Vector(Box::new(ty_view(*b))),
        Type::NativFunction => STy::NativFunction,
        Type::Function => STy::Function,
        Type::Addr => STy::Addr,
        Type::Closure => STy::Closure,
        Type::Pattern => STy::Pattern,
        Type::Union(ts) => STy::Union(tys_view(ts@)),
        Type::Exclusion(ts) => STy::Exclusion(tys_view(ts@)),
        Type::Type => STy::Type,
    }
}

/// The models of a list of types.
pub open spec fn tys_view(ts: Seq<Type>) -> Seq<STy>
    decreases ts, ts.len(),
{
    if ts.len() == 0 {
        Seq::empty()
    } else {
        seq![ty_view(ts[0])] + tys_view(ts.drop_first())
    }
}

/// A list view indexes elementwise.
pub proof fn lemma_tys_view(ts: Seq<Type>)
    ensures
        tys_view(ts).len() == ts.len(),
        forall|i: int| 0 <= i < ts.len() ==> #[trigger] tys_view(ts)[i] == ty_view(ts[i]),
    decreases ts, ts.len(),
{
    if ts.len() > 0 {
        lemma_tys_view(ts.drop_first());
    }
}

impl View for Type {
    type V = STy;

    open spec fn view(&self) -> STy {
        ty_view(*self)
    }
}

/// The size of a type model, for termination measures.
pub open spec fn sty_size(t: STy) -> nat
    decreases t,
{
    match t {
        STy::Vector(b) => 1 + sty_size(*b),
        STy::Union(ts) => 1 + sty_list_size(ts, 0),
        STy::Exclusion(ts) => 1 + sty_list_size(ts, 0),
        _ => 1,
    }
}

/// The joint size of the type models from index `i` on.
pub open spec fn sty_list_size(ts: Seq<STy>, i: int) -> nat
    decreases ts, ts.len() - i,
{
    if i < 0 || i >= ts.len() {
        0
    } else {
        sty_size(ts[i]) + 1 + sty_list_size(ts, i + 1)
    }
}

/// The match relation on types. `Any` matches everything; a union matches
/// what some member matches; an exclusion matches what no member matches;
/// two unions (or two exclusions) match when every member of the left list
/// matches some member of the right list; otherwise types match their own
/// constructor, with vectors compared on the element type. This is a match
/// predicate, not an equivalence.
pub open spec fn ty_match(a: STy, b: STy) -> bool
    decreases sty_size(a) + sty_size(b),
{
    if a is Any {
        true
    } else if b is Any {
        true
    } else {
        match a {
            STy::Union(xs) => match b {
                STy::Union(ys) => ty_all_mem(xs, ys, 0),
                STy::Exclusion(ys) => ty_none_mem(xs, ys, 0),
                _ => ty_contains(xs, 0, b),
            },
            STy::Exclusion(xs) => match b {
                STy::Exclusion(ys) => ty_all_mem(xs, ys, 0),
                STy::Union(ys) => ty_none_mem(xs, ys, 0),
                _ => !ty_contains(xs, 0, b),
            },
            _ => match b {
                STy::Union(ys) => ty_contains(ys, 0, a),
                STy::Exclusion(ys) => !ty_contains(ys, 0, a),
                _ => match (a, b) {
                    (STy::Undefined, STy::Undefined) => true,
                    (STy::Int, STy::Int) => true,
                    (STy::Float, STy::Float) => true,
                    (STy::Bool, STy::Bool) => true,
                    (STy::Str, STy::Str) => true,
                    (STy::Vector(t1), STy::Vector(t2)) => ty_match(*t1, *t2),
                    (STy::Addr, STy::Addr) => true,
                    (STy::Closure, STy::Closure) => true,
                    (STy::Pattern, STy::Pattern) => true,
                    (STy::NativFunction, STy::NativFunction) => true,
                    (STy::Function, STy::Function) => true,
                    (STy::Type, STy::Type) => true,
                    _ => false,
                },
            },
        }
    }
}

/// Some member of `xs` (from index `i` on) matches `y`.
pub open spec fn ty_contains(xs: Seq<STy>, i: int, y: STy) -> bool
    decreases sty_list_size(xs, i) + sty_size(y),
{
    if i < 0 || i >= xs.len() {
        false
    } else {
        ty_match(xs[i], y) || ty_contains(xs, i + 1, y)
    }
}

/// `x` matches some member of `ys` (from index `j` on).
pub open spec fn ty_mem(x: STy, ys: Seq<STy>, j: int) -> bool
    decreases sty_size(x) + sty_list_size(ys, j),
{
    if j < 0 || j >= ys.len() {
        false
    } else {
        ty_match(x, ys[j]) || ty_mem(x, ys, j + 1)
    }
}

/// Every member of `xs` (from index `i` on) matches some member of `ys`.
pub open spec fn ty_all_mem(xs: Seq<STy>, ys: Seq<STy>, i: int) -> bool
    decreases sty_list_size(xs, i) + sty_list_size(ys, 0),
{
    if i < 0 || i >= xs.len() {
        true
    } else {
        ty_mem(xs[i], ys, 0) && ty_all_mem(xs, ys, i + 1)
    }
}

/// No member of `xs` (from index `i` on) matches any member of `ys`.
pub open spec fn ty_none_mem(xs: Seq<STy>, ys: Seq<STy>, i: int) -> bool
    decreases sty_list_size(xs, i) + sty_list_size(ys, 0),
{
    if i < 0 || i >= xs.len() {
        true
    } else {
        !ty_mem(xs[i], ys, 0) && ty_none_mem(xs, ys, i + 1)
    }
}

/// Some member of `xs` from index `i` on matches `y` (executable).
fn ty_contains_exec(xs: &Vec<Type>, i: usize, y: &Type) -> (r: bool)
    requires
        i <= xs@.len(),
    ensures
        r == ty_contains(tys_view(xs@), i as int, ty_view(*y)),
    decreases sty_list_size(tys_view(xs@), i as int) + sty_size(ty_view(*y)),
{
    proof {
        lemma_tys_view(xs@);
    }
    if i >= xs.len() {
        false
    } else if xs[i].matches(y) {
        true
    } else {
        ty_contains_exec(xs, i + 1, y)
    }
}

/// `x` matches some member of `ys` from index `j` on (executable).
fn ty_mem_exec(x: &Type, ys: &Vec<Type>, j: usize) -> (r: bool)
    requires
        j <= ys@.len(),
    ensures
        r == ty_mem(ty_view(*x), tys_view(ys@), j as int),
    decreases sty_size(ty_view(*x)) + sty_list_size(tys_view(ys@), j as int),
{
    proof {
        lemma_tys_view(ys@);
    }
    if j >= ys.len() {
        false
    } else if x.matches(&ys[j]) {
        true
    } else {
        ty_mem_exec(x, ys, j + 1)
    }
}

/// Every member of `xs` from `i` on matches some member of `ys` (executable).
fn ty_all_mem_exec(xs: &Vec<Type>, i: usize, ys: &Vec<Type>) -> (r: bool)
    requires
        i <= xs@.len(),
    ensures
        r == ty_all_mem(tys_view(xs@), tys_view(ys@), i as int),
    decreases sty_list_size(tys_view(xs@), i as int) + sty_list_size(tys_view(ys@), 0),
{
    proof {
        lemma_tys_view(xs@);
    }
    if i >= xs.len() {
        true
    } else if !ty_mem_exec(&xs[i], ys, 0) {
        false
    } else {
        ty_all_mem_exec(xs, i + 1, ys)
    }
}

/// No member of `xs` from `i` on matches any member of `ys` (executable).
fn ty_none_mem_exec(xs: &Vec<Type>, i: usize, ys: &Vec<Type>) -> (r: bool)
    requires
        i <= xs@.len(),
    ensures
        r == ty_none_mem(tys_view(xs@), tys_view(ys@), i as int),
    decreases sty_list_size(tys_view(xs@), i as int) + sty_list_size(tys_view(ys@), 0),
{
    proof {
        lemma_tys_view(xs@);
    }
    if i >= xs.len() {
        true
    } else if ty_mem_exec(&xs[i], ys, 0) {
        false
    } else {
        ty_none_mem_exec(xs, i + 1, ys)
    }
}

impl Type {
    /// The pattern slot that accepts any defined value.
    pub fn some() -> (r: Type)
        ensures
            r@ == STy::Exclusion(seq![STy::Undefined]),
    {
        let mut ts: Vec<Type> = Vec::new();
        ts.push(Type::Undefined);
        let r = Type::Exclusion(ts);
        proof {
            reveal_with_fuel(tys_view, 3);
            assert(ts@ =~= seq![Type::Undefined]);
            assert(ts@.drop_first().len() == 0);
            assert(tys_view(ts@.drop_first()) =~= Seq::<STy>::empty());
            assert(tys_view(ts@) =~= seq![STy::Undefined]);
            assert(r@->Exclusion_0 =~= seq![STy::Undefined]);
        }
        r
    }

    /// Whether `self` matches `other` under the match relation of the
    /// language.
    pub fn matches(&self, other: &Type) -> (r: bool)
        ensures
            r == ty_match(self@, other@),
        decreases sty_size(self@) + sty_size(other@),
    {
        if let Type::Any = self {
            return true;
        }
        if let Type::Any = other {
            return true;
        }
        if let Type::Union(xs) = self {
            if let Type::Union(ys) = other {
                return ty_all_mem_exec(xs, 0, ys);
            }
            if let Type::Exclusion(ys) = other {
                return ty_none_mem_exec(xs, 0, ys);
            }
            return ty_contains_exec(xs, 0, other);
        }
        if let Type::Exclusion(xs) = self {
            if let Type::Exclusion(ys) = other {
                return ty_all_mem_exec(xs, 0, ys);
            }
            if let Type::Union(ys) = other {
                return ty_none_mem_exec(xs, 0, ys);
            }
            return !ty_contains_exec(xs, 0, other);
        }
        if let Type::Union(ys) = other {
            return ty_contains_exec(ys, 0, self);
        }
        if let Type::Exclusion(ys) = other {
            return !ty_contains_exec(ys, 0, self);
        }
        match (self, other) {
            (Type::Undefined, Type::Undefined) => true,
            (Type::Int, Type::Int) => true,
            (Type::Float, Type::Float) => true,
            (Type::Bool, Type::Bool) => true,
            (Type::Str, Type::Str) => true,
            (Type::Vector(t1), Type::Vector(t2)) => t1.matches(t2),
            (Type::Addr, Type::Addr) => true,
            (Type::Closure, Type::Closure) => true,
            (Type::Pattern, Type::Pattern) => true,
            (Type::NativFunction, Type::NativFunction) => true,
            (Type::Function, Type::Function) => true,
            (Type::Type, Type::Type) => true,
            _ => false,
        }
    }

    /// An exact copy.
    pub fn dup(&self) -> (r: Type)
        ensures
            r@ == self@,
        decreases sty_size(self@),
    {
        match self {
            Type::Undefined => Type::Undefined,
            Type::Any => Type::Any,
            Type::Int => Type::Int,
            Type::Float => Type::Float,
            Type::Bool => Type::Bool,
            Type::Str => Type::Str,
            Type::Vector(b) => Type::Vector(Box::new(b.dup())),
            Type::NativFunction => Type::NativFunction,
            Type::Function => Type::Function,
            Type::Addr => Type::Addr,
            Type::Closure => Type::Closure,
            Type::Pattern => Type::Pattern,
            Type::Union(ts) => Type::Union(tys_dup(ts)),
            Type::Exclusion(ts) => Type::Exclusion(tys_dup(ts)),
            Type::Type => Type::Type,
        }
    }
}

/// An exact copy of a list of types.
pub fn tys_dup(ts: &Vec<Type>) -> (r: Vec<Type>)
    ensures
        tys_view(r@) == tys_view(ts@),
        r@.len() == ts@.len(),
    decreases sty_list_size(tys_view(ts@), 0), 0int,
{
    let mut r: Vec<Type> = Vec::new();
    let mut i: usize = 0;
    while i < ts.len()
        invariant
            i <= ts@.len(),
            r@.len() == i,
            forall|k: int| 0 <= k < i ==> ty_view(r@[k]) == ty_view(ts@[k]),
        decreases ts@.len() - i,
    {
        proof {
            lemma_tys_view(ts@);
            lemma_sty_list_size_ge(tys_view(ts@), 0, i as int);
        }
        let d = ts[i].dup();
        r.push(d);
        i = i + 1;
    }
    proof {
        lemma_tys_view(ts@);
        lemma_tys_view(r@);
        assert(tys_view(r@) =~= tys_view(ts@));
    }
    r
}

/// The joint size from `i` on bounds the size of any later element.
proof fn lemma_sty_list_size_ge(ts: Seq<STy>, i: int, k: int)
    requires
        0 <= i <= k < ts.len(),
    ensures
        sty_size(ts[k]) < sty_list_size(ts, i),
    decreases k - i,
{
    if i < k {
        lemma_sty_list_size_ge(ts, i + 1, k);
    }
}

/// A runtime value. A closure keeps the node it quotes and the path of the
/// file it was written in.
#[derive(Debug, PartialEq)]
pub enum V {
    Null,
    Wildcard,
    Int(i64),
    Float(Fl),
    Bool(bool),
    Str(String),
    Vector(Vec<V>, Type),
    Addr(String),
    Closure(Box<Node>, String),
    Pattern(Vec<Type>),
    NativFunction(Box<V>, Nf),
    Function(Box<V>, Box<V>),
    Type(Type),
}

/// The model of a value.
pub open spec fn v_view(v: V) -> SV
    decreases v,
{
    match v {
        V::Null => SV::Null,
        V::Wildcard => SV::Wildcard,
        V::Int(i) => SV::Int(i),
        V::Float(f) => SV::Float(f),
        V::Bool(b) => SV::Bool(b),
        V::Str(s) => SV::Str(s@),
        V::Vector(vs, t) => SV::Vector(vs_view(vs@), ty_view(t)),
        V::Addr(w) => SV::Addr(w@),
        V::Closure(n, p) => SV::Closure(node_view(*n), p@),
        V::Pattern(ts) => SV::Pattern(tys_view(ts@)),
        V::NativFunction(p, f) => SV::NativFunction(Box::new(v_view(*p)), f),
        V::Function(p, b) => SV::Function(Box::new(v_view(*p)), Box::new(v_view(*b))),
        V::Type(t) => SV::Type(ty_view(t)),
    }
}

/// The models of a list of values.
pub open spec fn vs_view(vs: Seq<V>) -> Seq<SV>
    decreases vs, vs.len(),
{
    if vs.len() == 0 {
        Seq::empty()
    } else {
        seq![v_view(vs[0])] + vs_view(vs.drop_first())
    }
}

/// A list view indexes elementwise.
pub proof fn lemma_vs_view(vs: Seq<V>)
    ensures
        vs_view(vs).len() == vs.len(),
        forall|i: int| 0 <= i < vs.len() ==> #[trigger] vs_view(vs)[i] == v_view(vs[i]),
    decreases vs, vs.len(),
{
    if vs.len() > 0 {
        lemma_vs_view(vs.drop_first());
    }
}

impl View for V {
    type V = SV;

    open spec fn view(&self) -> SV {
        v_view(*self)
    }
}

/// The size of a value model, for termination measures.
pub open spec fn sv_size(v: SV) -> nat
    decreases v,
{
    match v {
        SV::Vector(vs, _) => 1 + sv_list_size(vs, 0),
        SV::NativFunction(p, _) => 1 + sv_size(*p),
        SV::Function(p, b) => 1 + sv_size(*p) + sv_size(*b),
        _ => 1,
    }
}

/// The joint size of the value models from index `i` on.
pub open spec fn sv_list_size(vs: Seq<SV>, i: int) -> nat
    decreases vs, vs.len() - i,
{
    if i < 0 || i >= vs.len() {
        0
    } else {
        sv_size(vs[i]) + 1 + sv_list_size(vs, i + 1)
    }
}

/// Well-formedness of a value: every float in it is canonical.
pub open spec fn sv_wf(v: SV) -> bool
    decreases sv_size(v),
{
    match v {
        SV::Float(f) => fl_wf(f),
        SV::Vector(vs, _) => svs_wf(vs, 0),
        SV::Closure(n, _) => sn_wf(n),
        SV::NativFunction(p, _) => sv_wf(*p),
        SV::Function(p, b) => sv_wf(*p) && sv_wf(*b),
        _ => true,
    }
}

/// Well-formedness of the values from index `i` on.
pub open spec fn svs_wf(vs: Seq<SV>, i: int) -> bool
    decreases sv_list_size(vs, i),
{
    if i < 0 || i >= vs.len() {
        true
    } else {
        sv_wf(vs[i]) && svs_wf(vs, i + 1)
    }
}

/// Value equality of the language. The wildcard equals everything; numbers
/// compare across `Int` and `Float`; vectors compare elementwise (their
/// declared element types are ignored); patterns and types compare under
/// the type-match relation; closures compare on their quoted syntax;
/// functions never compare equal.
pub open spec fn sv_eq(a: SV, b: SV) -> bool
    decreases sv_size(a) + sv_size(b),
{
    if a is Wildcard {
        true
    } else if b is Wildcard {
        true
    } else {
        match (a, b) {
            (SV::Null, SV::Null) => true,
            (SV::Int(x), SV::Int(y)) => x == y,
            (SV::Int(x), SV::Float(y)) => spec_fl_eq(spec_int_to_fl(x), y),
            (SV::Float(x), SV::Int(y)) => spec_fl_eq(x, spec_int_to_fl(y)),
            (SV::Float(x), SV::Float(y)) => spec_fl_eq(x, y),
            (SV::Bool(x), SV::Bool(y)) => x == y,
            (SV::Str(x), SV::Str(y)) => x == y,
            (SV::Vector(x, _), SV::Vector(y, _)) => svs_eq(x, y, 0),
            (SV::Addr(x), SV::Addr(y)) => x == y,
            (SV::Closure(x, _), SV::Closure(y, _)) => node_eq(x, y),
            (SV::Pattern(x), SV::Pattern(y)) => tys_pairwise(x, y, 0),
            (SV::Type(x), SV::Type(y)) => ty_match(x, y),
            _ => false,
        }
    }
}

/// Pairwise value equality of lists from index `i` on.
pub open spec fn svs_eq(x: Seq<SV>, y: Seq<SV>, i: int) -> bool
    decreases sv_list_size(x, i) + sv_list_size(y, i),
{
    if x.len() != y.len() {
        false
    } else if i < 0 || i >= x.len() {
        true
    } else {
        sv_eq(x[i], y[i]) && svs_eq(x, y, i + 1)
    }
}

/// Pairwise type matching of equally long lists from index `i` on.
pub open spec fn tys_pairwise(x: Seq<STy>, y: Seq<STy>, i: int) -> bool
    decreases x.len() - i,
{
    if x.len() != y.len() {
        false
    } else if i < 0 || i >= x.len() {
        true
    } else {
        ty_match(x[i], y[i]) && tys_pairwise(x, y, i + 1)
    }
}

/// The model of an optional value.
pub open spec fn opt_v_view(r: Option<V>) -> Option<SV> {
    match r {
        Option::Some(v) => Option::Some(v_view(v)),
        Option::None => Option::None,
    }
}

/// `x` reduced to the signed 64-bit range.
pub open spec fn wrap_i64(x: int) -> i64 {
    if x > i64::MAX {
        (x - 0x10000000000000000) as i64
    } else if x < i64::MIN {
        (x + 0x10000000000000000) as i64
    } else {
        x as i64
    }
}

/// The sum of two values, when their types combine: integers add (wrapping),
/// a mixed pair adds as floats, strings concatenate.
pub open spec fn sv_add(a: SV, b: SV) -> Option<SV> {
    match (a, b) {
        (SV::Int(x), SV::Int(y)) => Option::Some(SV::Int(wrap_i64(x + y))),
        (SV::Int(x), SV::Float(y)) => Option::Some(SV::Float(spec_fl_add(spec_int_to_fl(x), y))),
        (SV::Float(x), SV::Float(y)) => Option::Some(SV::Float(spec_fl_add(x, y))),
        (SV::Float(x), SV::Int(y)) => Option::Some(SV::Float(spec_fl_add(x, spec_int_to_fl(y)))),
        (SV::Str(x), SV::Str(y)) => Option::Some(SV::Str(x + y)),
        _ => Option::None,
    }
}

/// The difference of two numeric values.
pub open spec fn sv_sub(a: SV, b: SV) -> Option<SV> {
    match (a, b) {
        (SV::Int(x), SV::Int(y)) => Option::Some(SV::Int(wrap_i64(x - y))),
        (SV::Int(x), SV::Float(y)) => Option::Some(SV::Float(spec_fl_sub(spec_int_to_fl(x), y))),
        (SV::Float(x), SV::Float(y)) => Option::Some(SV::Float(spec_fl_sub(x, y))),
        (SV::Float(x), SV::Int(y)) => Option::Some(SV::Float(spec_fl_sub(x, spec_int_to_fl(y)))),
        _ => Option::None,
    }
}

/// The product of two numeric values.
pub open spec fn sv_mul(a: SV, b: SV) -> Option<SV> {
    match (a, b) {
        (SV::Int(x), SV::Int(y)) => Option::Some(
            SV::Int(vstd::wrapping::i64_specs::wrapping_mul(x, y)),
        ),
        (SV::Int(x), SV::Float(y)) => Option::Some(SV::Float(spec_fl_mul(spec_int_to_fl(x), y))),
        (SV::Float(x), SV::Float(y)) => Option::Some(SV::Float(spec_fl_mul(x, y))),
        (SV::Float(x), SV::Int(y)) => Option::Some(SV::Float(spec_fl_mul(x, spec_int_to_fl(y)))),
        _ => Option::None,
    }
}

/// The quotient of two numeric values, always a float.
pub open spec fn sv_div(a: SV, b: SV) -> Option<SV> {
    match (a, b) {
        (SV::Int(x), SV::Int(y)) => Option::Some(
            SV::Float(spec_fl_div(spec_int_to_fl(x), spec_int_to_fl(y))),
        ),
        (SV::Int(x), SV::Float(y)) => Option::Some(SV::Float(spec_fl_div(spec_int_to_fl(x), y))),
        (SV::Float(x), SV::Float(y)) => Option::Some(SV::Float(spec_fl_div(x, y))),
        (SV::Float(x), SV::Int(y)) => Option::Some(SV::Float(spec_fl_div(x, spec_int_to_fl(y)))),
        _ => Option::None,
    }
}

/// Whether `a < b`, on a numeric pair.
pub open spec fn sv_lt(a: SV, b: SV) -> Option<bool> {
    match (a, b) {
        (SV::Int(x), SV::Int(y)) => Option::Some(x < y),
        (SV::Int(x), SV::Float(y)) => Option::Some(spec_fl_lt(spec_int_to_fl(x), y)),
        (SV::Float(x), SV::Float(y)) => Option::Some(spec_fl_lt(x, y)),
        (SV::Float(x), SV::Int(y)) => Option::Some(spec_fl_lt(x, spec_int_to_fl(y))),
        _ => Option::None,
    }
}

/// Whether `a > b`, on a numeric pair.
pub open spec fn sv_gt(a: SV, b: SV) -> Option<bool> {
    match (a, b) {
        (SV::Int(x), SV::Int(y)) => Option::Some(x > y),
        (SV::Int(x), SV::Float(y)) => Option::Some(spec_fl_lt(y, spec_int_to_fl(x))),
        (SV::Float(x), SV::Float(y)) => Option::Some(spec_fl_lt(y, x)),
        (SV::Float(x), SV::Int(y)) => Option::Some(spec_fl_lt(spec_int_to_fl(y), x)),
        _ => Option::None,
    }
}

/// The type of a value.
pub open spec fn sv_typ(v: SV) -> STy {
    match v {
        SV::Null => STy::Undefined,
        SV::Wildcard => STy::Any,
        SV::Int(_) => STy::Int,
        SV::Float(_) => STy::Float,
        SV::Bool(_) => STy::Bool,
        SV::Str(_) => STy::Str,
        SV::Vector(_, t) => STy::Vector(Box::new(t)),
        SV::Addr(_) => STy::Addr,
        SV::Closure(_, _) => STy::Closure,
        SV::Pattern(_) => STy::Pattern,
        SV::NativFunction(_, _) => STy::NativFunction,
        SV::Function(_, _) => STy::Function,
        SV::Type(_) => STy::Type,
    }
}

impl V {
    /// The type of this value.
    pub fn typ(&self) -> (r: Type)
        ensures
            r@ == sv_typ(self@),
    {
        match self {
            V::Null => Type::Undefined,
            V::Wildcard => Type::Any,
            V::Int(_) => Type::Int,
            V::Float(_) => Type::Float,
            V::Bool(_) => Type::Bool,
            V::Str(_) => Type::Str,
            V::Vector(_, t) => Type::Vector(Box::new(t.dup())),
            V::Addr(_) => Type::Addr,
            V::Closure(_, _) => Type::Closure,
            V::Pattern(_) => Type::Pattern,
            V::NativFunction(_, _) => Type::NativFunction,
            V::Function(_, _) => Type::Function,
            V::Type(_) => Type::Type,
        }
    }

    /// Whether this value equals `other` under the equality of the
    /// language.
    pub fn equals(&self, other: &V) -> (r: bool)
        requires
            sv_wf(self@),
            sv_wf(other@),
        ensures
            r == sv_eq(self@, other@),
        decreases sv_size(self@) + sv_size(other@),
    {
        if let V::Wildcard = self {
            return true;
        }
        if let V::Wildcard = other {
            return true;
        }
        match (self, other) {
            (V::Null, V::Null) => true,
            (V::Int(x), V::Int(y)) => *x == *y,
            (V::Int(x), V::Float(y)) => {
                let fx = int_to_fl(*x);
                fl_eq(&fx, y)
            },
            (V::Float(x), V::Int(y)) => {
                let fy = int_to_fl(*y);
                fl_eq(x, &fy)
            },
            (V::Float(x), V::Float(y)) => fl_eq(x, y),
            (V::Bool(x), V::Bool(y)) => *x == *y,
            (V::Str(x), V::Str(y)) => *x == *y,
            (V::Vector(x, _), V::Vector(y, _)) => vs_eq_exec(x, y, 0),
            (V::Addr(x), V::Addr(y)) => *x == *y,
            (V::Closure(x, _), V::Closure(y, _)) => node_eq_exec(x, y),
            (V::Pattern(x), V::Pattern(y)) => tys_pairwise_exec(x, y, 0),
            (V::Type(x), V::Type(y)) => x.matches(y),
            _ => false,
        }
    }

    /// The sum, when the types combine.
    pub fn add(&self, other: &V) -> (r: Option<V>)
        requires
            sv_wf(self@),
            sv_wf(other@),
        ensures
            opt_v_view(r) == sv_add(self@, other@),
            r is Some ==> sv_wf(v_view(r->0)),
    {
        match (self, other) {
            (V::Int(x), V::Int(y)) => Option::Some(V::Int(x.wrapping_add(*y))),
            (V::Int(x), V::Float(y)) => {
                let fx = int_to_fl(*x);
                Option::Some(V::Float(fl_add(&fx, y)))
            },
            (V::Float(x), V::Float(y)) => Option::Some(V::Float(fl_add(x, y))),
            (V::Float(x), V::Int(y)) => {
                let fy = int_to_fl(*y);
                Option::Some(V::Float(fl_add(x, &fy)))
            },
            (V::Str(x), V::Str(y)) => Option::Some(V::Str(x.clone().concat(y.as_str()))),
            _ => Option::None,
        }
    }

    /// The difference, when the types combine.
    pub fn sub(&self, other: &V) -> (r: Option<V>)
        requires
            sv_wf(self@),
            sv_wf(other@),
        ensures
            opt_v_view(r) == sv_sub(self@, other@),
            r is Some ==> sv_wf(v_view(r->0)),
    {
        match (self, other) {
            (V::Int(x), V::Int(y)) => Option::Some(V::Int(x.wrapping_sub(*y))),
            (V::Int(x), V::Float(y)) => {
                let fx = int_to_fl(*x);
                Option::Some(V::Float(fl_sub(&fx, y)))
            },
            (V::Float(x), V::Float(y)) => Option::Some(V::Float(fl_sub(x, y))),
            (V::Float(x), V::Int(y)) => {
                let fy = int_to_fl(*y);
                Option::Some(V::Float(fl_sub(x, &fy)))
            },
            _ => Option::None,
        }
    }

    /// The product, when the types combine.
    pub fn mul(&self, other: &V) -> (r: Option<V>)
        requires
            sv_wf(self@),
            sv_wf(other@),
        ensures
            opt_v_view(r) == sv_mul(self@, other@),
            r is Some ==> sv_wf(v_view(r->0)),
    {
        match (self, other) {
            (V::Int(x), V::Int(y)) => Option::Some(V::Int(x.wrapping_mul(*y))),
            (V::Int(x), V::Float(y)) => {
                let fx = int_to_fl(*x);
                Option::Some(V::Float(fl_mul(&fx, y)))
            },
            (V::Float(x), V::Float(y)) => Option::Some(V::Float(fl_mul(x, y))),
            (V::Float(x), V::Int(y)) => {
                let fy = int_to_fl(*y);
                Option::Some(V::Float(fl_mul(x, &fy)))
            },
            _ => Option::None,
        }
    }

    /// The quotient, when the types combine; always a float.
    pub fn div(&self, other: &V) -> (r: Option<V>)
        requires
            sv_wf(self@),
            sv_wf(other@),
        ensures
            opt_v_view(r) == sv_div(self@, other@),
            r is Some ==> sv_wf(v_view(r->0)),
    {
        match (self, other) {
            (V::Int(x), V::Int(y)) => {
                let fx = int_to_fl(*x);
                let fy = int_to_fl(*y);
                Option::Some(V::Float(fl_div(&fx, &fy)))
            },
            (V::Int(x), V::Float(y)) => {
                let fx = int_to_fl(*x);
                Option::Some(V::Float(fl_div(&fx, y)))
            },
            (V::Float(x), V::Float(y)) => Option::Some(V::Float(fl_div(x, y))),
            (V::Float(x), V::Int(y)) => {
                let fy = int_to_fl(*y);
                Option::Some(V::Float(fl_div(x, &fy)))
            },
            _ => Option::None,
        }
    }

    /// Whether `self < other`, on a numeric pair.
    pub fn lt_v(&self, other: &V) -> (r: Option<bool>)
        requires
            sv_wf(self@),
            sv_wf(other@),
        ensures
            r == sv_lt(self@, other@),
    {
        match (self, other) {
            (V::Int(x), V::Int(y)) => Option::Some(*x < *y),
            (V::Int(x), V::Float(y)) => {
                let fx = int_to_fl(*x);
                Option::Some(fl_lt(&fx, y))
            },
            (V::Float(x), V::Float(y)) => Option::Some(fl_lt(x, y)),
            (V::Float(x), V::Int(y)) => {
                let fy = int_to_fl(*y);
                Option::Some(fl_lt(x, &fy))
            },
            _ => Option::None,
        }
    }

    /// Whether `self > other`, on a numeric pair.
    pub fn gt_v(&self, other: &V) -> (r: Option<bool>)
        requires
            sv_wf(self@),
            sv_wf(other@),
        ensures
            r == sv_gt(self@, other@),
    {
        match (self, other) {
            (V::Int(x), V::Int(y)) => Option::Some(*x > *y),
            (V::Int(x), V::Float(y)) => {
                let fx = int_to_fl(*x);
                Option::Some(fl_lt(y, &fx))
            },
            (V::Float(x), V::Float(y)) => Option::Some(fl_lt(y, x)),
            (V::Float(x), V::Int(y)) => {
                let fy = int_to_fl(*y);
                Option::Some(fl_lt(&fy, x))
            },
            _ => Option::None,
        }
    }

    /// An exact copy.
    pub fn dup(&self) -> (r: V)
        ensures
            r@ == self@,
        decreases sv_size(self@), 1int,
    {
        match self {
            V::Null => V::Null,
            V::Wildcard => V::Wildcard,
            V::Int(i) => V::Int(*i),
            V::Float(f) => V::Float(*f),
            V::Bool(b) => V::Bool(*b),
            V::Str(s) => V::Str(s.clone()),
            V::Vector(vs, t) => V::Vector(vs_dup(vs), t.dup()),
            V::Addr(w) => V::Addr(w.clone()),
            V::Closure(n, p) => V::Closure(Box::new(node_dup(n)), p.clone()),
            V::Pattern(ts) => V::Pattern(tys_dup(ts)),
            V::NativFunction(p, f) => V::NativFunction(Box::new(p.dup()), *f),
            V::Function(p, b) => V::Function(Box::new(p.dup()), Box::new(b.dup())),
            V::Type(t) => V::Type(t.dup()),
        }
    }
}

/// Pairwise value equality of lists from index `i` on (executable).
fn vs_eq_exec(x: &Vec<V>, y: &Vec<V>, i: usize) -> (r: bool)
    requires
        i <= x@.len(),
        svs_wf(vs_view(x@), i as int),
        svs_wf(vs_view(y@), i as int),
    ensures
        r == svs_eq(vs_view(x@), vs_view(y@), i as int),
    decreases sv_list_size(vs_view(x@), i as int) + sv_list_size(vs_view(y@), i as int),
{
    proof {
        lemma_vs_view(x@);
        lemma_vs_view(y@);
    }
    if x.len() != y.len() {
        false
    } else if i >= x.len() {
        true
    } else if !x[i].equals(&y[i]) {
        false
    } else {
        vs_eq_exec(x, y, i + 1)
    }
}

/// Pairwise type matching of lists from index `i` on (executable).
fn tys_pairwise_exec(x: &Vec<Type>, y: &Vec<Type>, i: usize) -> (r: bool)
    requires
        i <= x@.len(),
    ensures
        r == tys_pairwise(tys_view(x@), tys_view(y@), i as int),
    decreases x@.len() - i,
{
    proof {
        lemma_tys_view(x@);
        lemma_tys_view(y@);
    }
    if x.len() != y.len() {
        false
    } else if i >= x.len() {
        true
    } else if !x[i].matches(&y[i]) {
        false
    } else {
        tys_pairwise_exec(x, y, i + 1)
    }
}

/// An exact copy of a list of values.
pub fn vs_dup(vs: &Vec<V>) -> (r: Vec<V>)
    ensures
        vs_view(r@) == vs_view(vs@),
        r@.len() == vs@.len(),
    decreases sv_list_size(vs_view(vs@), 0), 0int,
{
    let mut r: Vec<V> = Vec::new();
    let mut i: usize = 0;
    while i < vs.len()
        invariant
            i <= vs@.len(),
            r@.len() == i,
            forall|k: int| 0 <= k < i ==> v_view(r@[k]) == v_view(vs@[k]),
        decreases vs@.len() - i,
    {
        proof {
            lemma_vs_view(vs@);
            lemma_sv_list_size_ge(vs_view(vs@), 0, i as int);
        }
        let d = vs[i].dup();
        r.push(d);
        i = i + 1;
    }
    proof {
        lemma_vs_view(vs@);
        lemma_vs_view(r@);
        assert(vs_view(r@) =~= vs_view(vs@));
    }
    r
}

/// The joint size from `i` on bounds the size of any later element.
proof fn lemma_sv_list_size_ge(vs: Seq<SV>, i: int, k: int)
    requires
        0 <= i <= k < vs.len(),
    ensures
        sv_size(vs[k]) < sv_list_size(vs, i),
    decreases k - i,
{
    if i < k {
        lemma_sv_list_size_ge(vs, i + 1, k);
    }
}

/// `svs_wf` says exactly that every value from `i` on is well formed.
pub proof fn lemma_svs_wf_iff(vs: Seq<SV>, i: int)
    requires
        0 <= i,
    ensures
        svs_wf(vs, i) <==> (forall|k: int| i <= k < vs.len() ==> sv_wf(#[trigger] vs[k])),
    decreases vs.len() - i,
{
    if i < vs.len() {
        lemma_svs_wf_iff(vs, i + 1);
    }
}

/// Pushing one type extends the list view by its model.
pub proof fn lemma_tys_push(ts: Seq<Type>, t: Type)
    ensures
        tys_view(ts.push(t)) == tys_view(ts) + seq![ty_view(t)],
{
    lemma_tys_view(ts);
    lemma_tys_view(ts.push(t));
    assert(tys_view(ts.push(t)) =~= tys_view(ts) + seq![ty_view(t)]);
}

/// Pushing one value extends the list view by its model.
pub proof fn lemma_vs_push(vs: Seq<V>, v: V)
    ensures
        vs_view(vs.push(v)) == vs_view(vs) + seq![v_view(v)],
{
    lemma_vs_view(vs);
    lemma_vs_view(vs.push(v));
    assert(vs_view(vs.push(v)) =~= vs_view(vs) + seq![v_view(v)]);
}

/// Whether `y` is matched by some member of the list (executable).
pub fn ty_in_list(ts: &Vec<Type>, y: &Type) -> (r: bool)
    ensures
        r == ty_contains(tys_view(ts@), 0, ty_view(*y)),
{
    proof {
        lemma_tys_view(ts@);
    }
    ty_contains_exec(ts, 0, y)
}

} // verus!
