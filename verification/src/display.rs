//! The written form of types, values and nodes, and the casts that use it.

use vstd::prelude::*;
use crate::decimal::{Fl, fl_wf, fl_trunc, fl_push_chars, int_to_fl, push_i64_chars,
    spec_fl_chars, spec_fl_trunc, spec_int_chars, spec_int_to_fl, fl_zero};
use crate::model::{STy, SV, SN, SNode};
use crate::values::{Type, V, ty_view, tys_view, sty_size, sty_list_size, lemma_tys_view, v_view,
    vs_view, sv_size, sv_list_size, lemma_vs_view, sv_wf, svs_wf, sv_typ};
use crate::parser::{Node, N, node_view, nodes_view, sn_size, sn_list_size, lemma_nodes_view,
    sn_wf, sns_wf};
use crate::text::{chars_to_string, push_str_chars, push_string_chars};

verus! {

/// The written form of a type, as the type keywords of the language spell
/// it; a union or exclusion lists its members between brackets, separated
/// by bars.
pub open spec fn show_ty(t: STy) -> Seq<char>
    decreases sty_size(t),
{
    match t {
        STy::Undefined => "undefined"@,
        STy::Any => "any"@,
        STy::Int => "int"@,
        STy::Float => "float"@,
        STy::Bool => "bool"@,
        STy::Str => "str"@,
        STy::Vector(b) => "vec<"@ + show_ty(*b) + ">"@,
        STy::NativFunction => "nativ-function"@,
        STy::Function => "function"@,
        STy::Addr => "addr"@,
        STy::Closure => "closure"@,
        STy::Pattern => "pattern"@,
        STy::Union(ts) => "union["@ + show_tys(ts, 0, "|"@) + "]"@,
        STy::Exclusion(ts) => "exclude["@ + show_tys(ts, 0, "|"@) + "]"@,
        STy::Type => "type"@,
    }
}

/// The written forms of the types from index `i` on, joined by `sep`.
pub open spec fn show_tys(ts: Seq<STy>, i: int, sep: Seq<char>) -> Seq<char>
    decreases sty_list_size(ts, i),
{
    if i < 0 || i >= ts.len() {
        Seq::empty()
    } else if i + 1 < ts.len() {
        show_ty(ts[i]) + sep + show_tys(ts, i + 1, sep)
    } else {
        show_ty(ts[i])
    }
}

/// The escape of one character inside a written string literal.
pub open spec fn esc_char(c: char) -> Seq<char> {
    if c == '\n' {
        seq!['\\', 'n']
    } else if c == '\t' {
        seq!['\\', 't']
    } else if c == '\r' {
        seq!['\\', 'r']
    } else if c == '"' {
        seq!['\\', '"']
    } else if c == '\\' {
        seq!['\\', '\\']
    } else {
        seq![c]
    }
}

/// The escapes of the characters of `s` from index `i` on.
pub open spec fn esc_str(s: Seq<char>, i: int) -> Seq<char>
    decreases s.len() - i,
{
    if i < 0 || i >= s.len() {
        Seq::empty()
    } else {
        esc_char(s[i]) + esc_str(s, i + 1)
    }
}

/// The written form of a node: the source text it stands for. A body
/// separates its statements by semicolons; a string literal is quoted and
/// escaped.
pub open spec fn show_node(node: SNode) -> Seq<char>
    decreases sn_size(node),
{
    match node.n {
        SN::Eval(ns) => "("@ + show_nodes(ns, 0, " "@) + ")"@,
        SN::Body(ns) => "{"@ + show_nodes(ns, 0, "; "@) + "}"@,
        SN::Pattern(ns) => "<"@ + show_nodes(ns, 0, " "@) + ">"@,
        SN::Vector(ns) => "["@ + show_nodes(ns, 0, " "@) + "]"@,
        SN::Addr(b) => "@"@ + show_node(*b),
        SN::Arg(b) => "%"@ + show_node(*b),
        SN::Closure(b) => "#"@ + show_node(*b),
        SN::Null => "null"@,
        SN::Wildcard => "_"@,
        SN::Word(w) => w,
        SN::Int(i) => spec_int_chars(i as int),
        SN::Float(f) => spec_fl_chars(f),
        SN::Bool(b) => if b {
            "true"@
        } else {
            "false"@
        },
        SN::Str(s) => "\""@ + esc_str(s, 0) + "\""@,
        SN::Type(t) => show_ty(t),
    }
}

/// The written forms of the nodes from index `i` on, joined by `sep`.
pub open spec fn show_nodes(ns: Seq<SNode>, i: int, sep: Seq<char>) -> Seq<char>
    decreases sn_list_size(ns, i),
{
    if i < 0 || i >= ns.len() {
        Seq::empty()
    } else if i + 1 < ns.len() {
        show_node(ns[i]) + sep + show_nodes(ns, i + 1, sep)
    } else {
        show_node(ns[i])
    }
}

/// The written form of a value. A string shows its bare characters; a
/// vector lists its elements between brackets; a closure shows its quoted
/// syntax after a hash; functions show only their kind.
pub open spec fn show_v(v: SV) -> Seq<char>
    decreases sv_size(v),
{
    match v {
        SV::Null => "null"@,
        SV::Wildcard => "_"@,
        SV::Int(i) => spec_int_chars(i as int),
        SV::Float(f) => spec_fl_chars(f),
        SV::Bool(b) => if b {
            "true"@
        } else {
            "false"@
        },
        SV::Str(s) => s,
        SV::Vector(vs, _) => "["@ + show_vs(vs, 0) + "]"@,
        SV::Addr(w) => "@"@ + w,
        SV::Closure(n, _) => "#"@ + show_node(n),
        SV::Pattern(ts) => "<"@ + show_tys(ts, 0, " "@) + ">"@,
        SV::NativFunction(_, _) => "nativ-function"@,
        SV::Function(_, _) => "function"@,
        SV::Type(t) => show_ty(t),
    }
}

/// The written forms of the values from index `i` on, joined by spaces.
pub open spec fn show_vs(vs: Seq<SV>, i: int) -> Seq<char>
    decreases sv_list_size(vs, i),
{
    if i < 0 || i >= vs.len() {
        Seq::empty()
    } else if i + 1 < vs.len() {
        show_v(vs[i]) + " "@ + show_vs(vs, i + 1)
    } else {
        show_v(vs[i])
    }
}

/// Append the written form of `t`.
pub fn push_ty_chars(t: &Type, out: &mut Vec<char>)
    ensures
        final(out)@ == old(out)@ + show_ty(t@),
    decreases sty_size(t@), 1int,
{
    match t {
        Type::Undefined => push_str_chars(out, "undefined"),
        Type::Any => push_str_chars(out, "any"),
        Type::Int => push_str_chars(out, "int"),
        Type::Float => push_str_chars(out, "float"),
        Type::Bool => push_str_chars(out, "bool"),
        Type::Str => push_str_chars(out, "str"),
        Type::Vector(b) => {
            push_str_chars(out, "vec<");
            push_ty_chars(b, out);
            push_str_chars(out, ">");
        },
        Type::NativFunction => push_str_chars(out, "nativ-function"),
        Type::Function => push_str_chars(out, "function"),
        Type::Addr => push_str_chars(out, "addr"),
        Type::Closure => push_str_chars(out, "closure"),
        Type::Pattern => push_str_chars(out, "pattern"),
        Type::Union(ts) => {
            push_str_chars(out, "union[");
            push_tys_chars(ts, 0, "|", out);
            push_str_chars(out, "]");
        },
        Type::Exclusion(ts) => {
            push_str_chars(out, "exclude[");
            push_tys_chars(ts, 0, "|", out);
            push_str_chars(out, "]");
        },
        Type::Type => push_str_chars(out, "type"),
    }
}

/// Append the written forms of the types from index `i` on, joined by
/// `sep`.
fn push_tys_chars(ts: &Vec<Type>, i: usize, sep: &str, out: &mut Vec<char>)
    requires
        i <= ts@.len(),
    ensures
        final(out)@ == old(out)@ + show_tys(tys_view(ts@), i as int, sep@),
    decreases sty_list_size(tys_view(ts@), i as int), 0int,
{
    proof {
        lemma_tys_view(ts@);
    }
    if i < ts.len() {
        push_ty_chars(&ts[i], out);
        if i + 1 < ts.len() {
            push_str_chars(out, sep);
            push_tys_chars(ts, i + 1, sep, out);
        }
    }
}

/// Append the written form of `node`.
pub fn push_node_chars(node: &Node, out: &mut Vec<char>)
    requires
        sn_wf(node@),
    ensures
        final(out)@ == old(out)@ + show_node(node@),
    decreases sn_size(node@), 1int,
{
    match &node.0 {
        N::Eval(ns) => {
            push_str_chars(out, "(");
            push_nodes_chars(ns, 0, " ", out);
            push_str_chars(out, ")");
        },
        N::Body(ns) => {
            push_str_chars(out, "{");
            push_nodes_chars(ns, 0, "; ", out);
            push_str_chars(out, "}");
        },
        N::Pattern(ns) => {
            push_str_chars(out, "<");
            push_nodes_chars(ns, 0, " ", out);
            push_str_chars(out, ">");
        },
        N::Vector(ns) => {
            push_str_chars(out, "[");
            push_nodes_chars(ns, 0, " ", out);
            push_str_chars(out, "]");
        },
        N::Addr(b) => {
            push_str_chars(out, "@");
            push_node_chars(b, out);
        },
        N::Arg(b) => {
            push_str_chars(out, "%");
            push_node_chars(b, out);
        },
        N::Closure(b) => {
            push_str_chars(out, "#");
            push_node_chars(b, out);
        },
        N::Null => push_str_chars(out, "null"),
        N::Wildcard => push_str_chars(out, "_"),
        N::Word(w) => push_string_chars(out, w),
        N::Int(i) => push_i64_chars(*i, out),
        N::Float(f) => fl_push_chars(f, out),
        N::Bool(b) => {
            if *b {
                push_str_chars(out, "true");
            } else {
                push_str_chars(out, "false");
            }
        },
        N::Str(s) => {
            push_str_chars(out, "\"");
            push_esc_chars(s.as_str(), 0, out);
            push_str_chars(out, "\"");
        },
        N::Type(t) => push_ty_chars(t, out),
    }
}

/// Append the written forms of the nodes from index `i` on, joined by
/// `sep`.
fn push_nodes_chars(ns: &Vec<Node>, i: usize, sep: &str, out: &mut Vec<char>)
    requires
        i <= ns@.len(),
        sns_wf(nodes_view(ns@), i as int),
    ensures
        final(out)@ == old(out)@ + show_nodes(nodes_view(ns@), i as int, sep@),
    decreases sn_list_size(nodes_view(ns@), i as int), 0int,
{
    proof {
        lemma_nodes_view(ns@);
    }
    if i < ns.len() {
        push_node_chars(&ns[i], out);
        if i + 1 < ns.len() {
            push_str_chars(out, sep);
            push_nodes_chars(ns, i + 1, sep, out);
        }
    }
}

/// Append the escaped characters of `s` from index `i` on.
fn push_esc_chars(s: &str, i: usize, out: &mut Vec<char>)
    requires
        i <= s@.len(),
    ensures
        final(out)@ == old(out)@ + esc_str(s@, i as int),
    decreases s@.len() - i,
{
    if i < s.unicode_len() {
        let c = s.get_char(i);
        if c == '\n' {
            push_str_chars(out, "\\n");
            proof {
                reveal_strlit("\\n");
                assert("\\n"@ =~= esc_char('\n'));
            }
        } else if c == '\t' {
            push_str_chars(out, "\\t");
            proof {
                reveal_strlit("\\t");
                assert("\\t"@ =~= esc_char('\t'));
            }
        } else if c == '\r' {
            push_str_chars(out, "\\r");
            proof {
                reveal_strlit("\\r");
                assert("\\r"@ =~= esc_char('\r'));
            }
        } else if c == '"' {
            push_str_chars(out, "\\\"");
            proof {
                reveal_strlit("\\\"");
                assert("\\\""@ =~= esc_char('"'));
            }
        } else if c == '\\' {
            push_str_chars(out, "\\\\");
            proof {
                reveal_strlit("\\\\");
                assert("\\\\"@ =~= esc_char('\\'));
            }
        } else {
            out.push(c);
            assert(out@ =~= old(out)@ + esc_char(c));
        }
        push_esc_chars(s, i + 1, out);
    }
}

/// Append the written form of `v`.
pub fn push_v_chars(v: &V, out: &mut Vec<char>)
    requires
        sv_wf(v@),
    ensures
        final(out)@ == old(out)@ + show_v(v@),
    decreases sv_size(v@), 1int,
{
    match v {
        V::Null => push_str_chars(out, "null"),
        V::Wildcard => push_str_chars(out, "_"),
        V::Int(i) => push_i64_chars(*i, out),
        V::Float(f) => fl_push_chars(f, out),
        V::Bool(b) => {
            if *b {
                push_str_chars(out, "true");
            } else {
                push_str_chars(out, "false");
            }
        },
        V::Str(s) => push_string_chars(out, s),
        V::Vector(vs, _) => {
            push_str_chars(out, "[");
            push_vs_chars(vs, 0, out);
            push_str_chars(out, "]");
        },
        V::Addr(w) => {
            push_str_chars(out, "@");
            push_string_chars(out, w);
        },
        V::Closure(n, _) => {
            push_str_chars(out, "#");
            push_node_chars(n, out);
        },
        V::Pattern(ts) => {
            push_str_chars(out, "<");
            push_tys_chars(ts, 0, " ", out);
            push_str_chars(out, ">");
        },
        V::NativFunction(_, _) => push_str_chars(out, "nativ-function"),
        V::Function(_, _) => push_str_chars(out, "function"),
        V::Type(t) => push_ty_chars(t, out),
    }
}

/// Append the written forms of the values from index `i` on, joined by
/// spaces.
fn push_vs_chars(vs: &Vec<V>, i: usize, out: &mut Vec<char>)
    requires
        i <= vs@.len(),
        svs_wf(vs_view(vs@), i as int),
    ensures
        final(out)@ == old(out)@ + show_vs(vs_view(vs@), i as int),
    decreases sv_list_size(vs_view(vs@), i as int), 0int,
{
    proof {
        lemma_vs_view(vs@);
    }
    if i < vs.len() {
        push_v_chars(&vs[i], out);
        if i + 1 < vs.len() {
            push_str_chars(out, " ");
            push_vs_chars(vs, i + 1, out);
        }
    }
}

impl Type {
    /// The written form of this type.
    pub fn show(&self) -> (r: String)
        ensures
            r@ == show_ty(self@),
    {
        let mut out: Vec<char> = Vec::new();
        push_ty_chars(self, &mut out);
        chars_to_string(&out)
    }
}

impl V {
    /// The written form of this value.
    pub fn show(&self) -> (r: String)
        requires
            sv_wf(self@),
        ensures
            r@ == show_v(self@),
    {
        let mut out: Vec<char> = Vec::new();
        push_v_chars(self, &mut out);
        chars_to_string(&out)
    }
}

impl Node {
    /// The written form of this node: source text for its tree.
    pub fn show(&self) -> (r: String)
        requires
            sn_wf(self@),
        ensures
            r@ == show_node(self@),
    {
        let mut out: Vec<char> = Vec::new();
        push_node_chars(self, &mut out);
        chars_to_string(&out)
    }
}

/// The cast of `v` to the type `t`. `Any` is the identity; `Undefined`
/// gives null; numeric and boolean targets convert among null, numbers and
/// booleans (anything else gives null); `Str` and `Addr` take the written
/// form; `Type` takes the type of the value; every other target gives
/// null.
pub open spec fn ty_cast(t: STy, v: SV) -> SV {
    match t {
        STy::Undefined => SV::Null,
        STy::Any => v,
        STy::Int => match v {
            SV::Null => SV::Int(0),
            SV::Int(i) => SV::Int(i),
            SV::Float(f) => SV::Int(spec_fl_trunc(f) as i64),
            SV::Bool(b) => SV::Int(
                if b {
                    1
                } else {
                    0
                },
            ),
            _ => SV::Null,
        },
        STy::Float => match v {
            SV::Null => SV::Float(fl_zero()),
            SV::Int(i) => SV::Float(spec_int_to_fl(i)),
            SV::Float(f) => SV::Float(f),
            SV::Bool(b) => SV::Float(
                spec_int_to_fl(
                    if b {
                        1
                    } else {
                        0
                    },
                ),
            ),
            _ => SV::Null,
        },
        STy::Bool => match v {
            SV::Null => SV::Bool(false),
            SV::Int(i) => SV::Bool(i != 0),
            SV::Float(f) => SV::Bool(f.mant != 0),
            SV::Bool(b) => SV::Bool(b),
            _ => SV::Null,
        },
        STy::Str => SV::Str(show_v(v)),
        STy::Addr => SV::Addr(show_v(v)),
        STy::Type => SV::Type(sv_typ(v)),
        _ => SV::Null,
    }
}

impl Type {
    /// The value `v` cast to this type.
    pub fn cast(&self, value: &V) -> (r: V)
        requires
            sv_wf(value@),
        ensures
            r@ == ty_cast(self@, value@),
            sv_wf(r@),
    {
        match self {
            Type::Undefined => V::Null,
            Type::Any => value.dup(),
            Type::Int => match value {
                V::Null => V::Int(0),
                V::Int(i) => V::Int(*i),
                V::Float(f) => V::Int(fl_trunc(f)),
                V::Bool(b) => V::Int(
                    if *b {
                        1
                    } else {
                        0
                    },
                ),
                _ => V::Null,
            },
            Type::Float => match value {
                V::Null => V::Float(Fl { neg: false, mant: 0, scale: 0 }),
                V::Int(i) => V::Float(int_to_fl(*i)),
                V::Float(f) => V::Float(*f),
                V::Bool(b) => V::Float(int_to_fl(
                    if *b {
                        1
                    } else {
                        0
                    },
                )),
                _ => V::Null,
            },
            Type::Bool => match value {
                V::Null => V::Bool(false),
                V::Int(i) => V::Bool(*i != 0),
                V::Float(f) => V::Bool(f.mant != 0),
                V::Bool(b) => V::Bool(*b),
                _ => V::Null,
            },
            Type::Str => V::Str(value.show()),
            Type::Addr => V::Addr(value.show()),
            Type::Type => V::Type(value.typ()),
            _ => V::Null,
        }
    }
}

/// Append the written forms of all the values, joined by spaces.
pub fn push_vs_chars_pub(vs: &Vec<V>, out: &mut Vec<char>)
    requires
        svs_wf(vs_view(vs@), 0),
    ensures
        final(out)@ == old(out)@ + show_vs(vs_view(vs@), 0),
{
    push_vs_chars(vs, 0, out);
}

} // verus!
