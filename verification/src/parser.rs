//! Nodes of the syntax tree, and the recursive-descent parser.

use vstd::prelude::*;
use crate::decimal::{Fl, fl_wf};
use crate::position::Position;
use crate::model::{SN, SNode, STk, STok, SErr, SCtx};
use crate::values::{Type, ty_view, ty_match, sty_size};
use crate::lexer::{T, Token, t_view, token_view, toks_view, lemma_toks_view, toks_dup, stoks_wf, stok_wf};
use crate::error::{E, e_view};
use crate::context::{Context, ctx_traced};

verus! {

/// A node shape: composite forms, quoting forms and leaf atoms.
#[derive(Debug, PartialEq)]
pub enum N {
    Eval(Vec<Node>),
    Body(Vec<Node>),
    Pattern(Vec<Node>),
    Vector(Vec<Node>),
    Addr(Box<Node>),
    Arg(Box<Node>),
    Closure(Box<Node>),
    Null,
    Wildcard,
    Word(String),
    Int(i64),
    Float(Fl),
    Bool(bool),
    Str(String),
    Type(Type),
}

/// A node: a shape at a position.
#[derive(Debug, PartialEq)]
pub struct Node(pub N, pub Position);

/// The model of a node.
pub open spec fn node_view(node: Node) -> SNode
    decreases node,
{
    SNode { n: n_view(node.0), pos: node.1 }
}

/// The model of a node shape.
pub open spec fn n_view(n: N) -> SN
    decreases n,
{
    match n {
        N::Eval(ns) => SN::Eval(nodes_view(ns@)),
        N::Body(ns) => SN::Body(nodes_view(ns@)),
        N::Pattern(ns) => SN::Pattern(nodes_view(ns@)),
        N::Vector(ns) => SN::Vector(nodes_view(ns@)),
        N::Addr(b) => SN::Addr(Box::new(node_view(*b))),
        N::Arg(b) => SN::Arg(Box::new(node_view(*b))),
        N::Closure(b) => SN::Closure(Box::new(node_view(*b))),
        N::Null => SN::Null,
        N::Wildcard => SN::Wildcard,
        N::Word(w) => SN::Word(w@),
        N::Int(i) => SN::Int(i),
        N::Float(f) => SN::Float(f),
        N::Bool(b) => SN::Bool(b),
        N::Str(s) => SN::Str(s@),
        N::Type(t) => SN::Type(ty_view(t)),
    }
}

/// The models of a list of nodes.
pub open spec fn nodes_view(ns: Seq<Node>) -> Seq<SNode>
    decreases ns, ns.len(),
{
    if ns.len() == 0 {
        Seq::empty()
    } else {
        seq![node_view(ns[0])] + nodes_view(ns.drop_first())
    }
}

/// A list view indexes elementwise.
pub proof fn lemma_nodes_view(ns: Seq<Node>)
    ensures
        nodes_view(ns).len() == ns.len(),
        forall|i: int| 0 <= i < ns.len() ==> #[trigger] nodes_view(ns)[i] == node_view(ns[i]),
    decreases ns, ns.len(),
{
    if ns.len() > 0 {
        lemma_nodes_view(ns.drop_first());
    }
}

impl View for Node {
    type V = SNode;

    open spec fn view(&self) -> SNode {
        node_view(*self)
    }
}

/// The size of a node model, for termination measures.
pub open spec fn sn_size(node: SNode) -> nat
    decreases node,
{
    match node.n {
        SN::Eval(ns) => 1 + sn_list_size(ns, 0),
        SN::Body(ns) => 1 + sn_list_size(ns, 0),
        SN::Pattern(ns) => 1 + sn_list_size(ns, 0),
        SN::Vector(ns) => 1 + sn_list_size(ns, 0),
        SN::Addr(b) => 1 + sn_size(*b),
        SN::Arg(b) => 1 + sn_size(*b),
        SN::Closure(b) => 1 + sn_size(*b),
        _ => 1,
    }
}

/// The joint size of the node models from index `i` on.
pub open spec fn sn_list_size(ns: Seq<SNode>, i: int) -> nat
    decreases ns, ns.len() - i,
{
    if i < 0 || i >= ns.len() {
        0
    } else {
        sn_size(ns[i]) + 1 + sn_list_size(ns, i + 1)
    }
}

/// Well-formedness of a node: every float literal in it is canonical.
pub open spec fn sn_wf(node: SNode) -> bool
    decreases sn_size(node),
{
    match node.n {
        SN::Eval(ns) => sns_wf(ns, 0),
        SN::Body(ns) => sns_wf(ns, 0),
        SN::Pattern(ns) => sns_wf(ns, 0),
        SN::Vector(ns) => sns_wf(ns, 0),
        SN::Addr(b) => sn_wf(*b),
        SN::Arg(b) => sn_wf(*b),
        SN::Closure(b) => sn_wf(*b),
        SN::Float(f) => fl_wf(f),
        _ => true,
    }
}

/// Well-formedness of the nodes from index `i` on.
pub open spec fn sns_wf(ns: Seq<SNode>, i: int) -> bool
    decreases sn_list_size(ns, i),
{
    if i < 0 || i >= ns.len() {
        true
    } else {
        sn_wf(ns[i]) && sns_wf(ns, i + 1)
    }
}

/// Structural equality of nodes: shapes, texts and positions agree, and an
/// embedded type agrees under the type-match relation (as the executable
/// comparison of the language has it).
pub open spec fn node_eq(a: SNode, b: SNode) -> bool
    decreases sn_size(a) + sn_size(b),
{
    a.pos == b.pos && match (a.n, b.n) {
        (SN::Eval(x), SN::Eval(y)) => nodes_eq(x, y, 0),
        (SN::Body(x), SN::Body(y)) => nodes_eq(x, y, 0),
        (SN::Pattern(x), SN::Pattern(y)) => nodes_eq(x, y, 0),
        (SN::Vector(x), SN::Vector(y)) => nodes_eq(x, y, 0),
        (SN::Addr(x), SN::Addr(y)) => node_eq(*x, *y),
        (SN::Arg(x), SN::Arg(y)) => node_eq(*x, *y),
        (SN::Closure(x), SN::Closure(y)) => node_eq(*x, *y),
        (SN::Null, SN::Null) => true,
        (SN::Wildcard, SN::Wildcard) => true,
        (SN::Word(x), SN::Word(y)) => x == y,
        (SN::Int(x), SN::Int(y)) => x == y,
        (SN::Float(x), SN::Float(y)) => x == y,
        (SN::Bool(x), SN::Bool(y)) => x == y,
        (SN::Str(x), SN::Str(y)) => x == y,
        (SN::Type(x), SN::Type(y)) => ty_match(x, y),
        _ => false,
    }
}

/// Pairwise structural equality of node lists from index `i` on.
pub open spec fn nodes_eq(x: Seq<SNode>, y: Seq<SNode>, i: int) -> bool
    decreases sn_list_size(x, i) + sn_list_size(y, i),
{
    if x.len() != y.len() {
        false
    } else if i < 0 || i >= x.len() {
        true
    } else {
        node_eq(x[i], y[i]) && nodes_eq(x, y, i + 1)
    }
}

/// Whether two nodes are structurally equal (executable).
pub fn node_eq_exec(a: &Node, b: &Node) -> (r: bool)
    ensures
        r == node_eq(a@, b@),
    decreases sn_size(a@) + sn_size(b@),
{
    let pos_eq = a.1 == b.1;
    let shape_eq = match (&a.0, &b.0) {
        (N::Eval(x), N::Eval(y)) => nodes_eq_exec(x, y, 0),
        (N::Body(x), N::Body(y)) => nodes_eq_exec(x, y, 0),
        (N::Pattern(x), N::Pattern(y)) => nodes_eq_exec(x, y, 0),
        (N::Vector(x), N::Vector(y)) => nodes_eq_exec(x, y, 0),
        (N::Addr(x), N::Addr(y)) => node_eq_exec(x, y),
        (N::Arg(x), N::Arg(y)) => node_eq_exec(x, y),
        (N::Closure(x), N::Closure(y)) => node_eq_exec(x, y),
        (N::Null, N::Null) => true,
        (N::Wildcard, N::Wildcard) => true,
        (N::Word(x), N::Word(y)) => *x == *y,
        (N::Int(x), N::Int(y)) => *x == *y,
        (N::Float(x), N::Float(y)) => *x == *y,
        (N::Bool(x), N::Bool(y)) => *x == *y,
        (N::Str(x), N::Str(y)) => *x == *y,
        (N::Type(x), N::Type(y)) => x.matches(y),
        _ => false,
    };
    pos_eq && shape_eq
}

/// Pairwise structural equality of node lists from `i` on (executable).
fn nodes_eq_exec(x: &Vec<Node>, y: &Vec<Node>, i: usize) -> (r: bool)
    requires
        i <= x@.len(),
    ensures
        r == nodes_eq(nodes_view(x@), nodes_view(y@), i as int),
    decreases sn_list_size(nodes_view(x@), i as int) + sn_list_size(nodes_view(y@), i as int),
{
    proof {
        lemma_nodes_view(x@);
        lemma_nodes_view(y@);
    }
    if x.len() != y.len() {
        false
    } else if i >= x.len() {
        true
    } else if !node_eq_exec(&x[i], &y[i]) {
        false
    } else {
        nodes_eq_exec(x, y, i + 1)
    }
}

/// An exact copy of a node.
pub fn node_dup(node: &Node) -> (r: Node)
    ensures
        r@ == node@,
    decreases sn_size(node@), 1int,
{
    let shape = match &node.0 {
        N::Eval(ns) => N::Eval(nodes_dup(ns)),
        N::Body(ns) => N::Body(nodes_dup(ns)),
        N::Pattern(ns) => N::Pattern(nodes_dup(ns)),
        N::Vector(ns) => N::Vector(nodes_dup(ns)),
        N::Addr(b) => N::Addr(Box::new(node_dup(b))),
        N::Arg(b) => N::Arg(Box::new(node_dup(b))),
        N::Closure(b) => N::Closure(Box::new(node_dup(b))),
        N::Null => N::Null,
        N::Wildcard => N::Wildcard,
        N::Word(w) => N::Word(w.clone()),
        N::Int(i) => N::Int(*i),
        N::Float(f) => N::Float(*f),
        N::Bool(b) => N::Bool(*b),
        N::Str(s) => N::Str(s.clone()),
        N::Type(t) => N::Type(t.dup()),
    };
    Node(shape, node.1)
}

/// An exact copy of a list of nodes.
pub fn nodes_dup(ns: &Vec<Node>) -> (r: Vec<Node>)
    ensures
        nodes_view(r@) == nodes_view(ns@),
        r@.len() == ns@.len(),
    decreases sn_list_size(nodes_view(ns@), 0), 0int,
{
    let mut r: Vec<Node> = Vec::new();
    let mut i: usize = 0;
    while i < ns.len()
        invariant
            i <= ns@.len(),
            r@.len() == i,
            forall|k: int| 0 <= k < i ==> node_view(r@[k]) == node_view(ns@[k]),
        decreases ns@.len() - i,
    {
        proof {
            lemma_nodes_view(ns@);
            lemma_sn_list_size_ge(nodes_view(ns@), 0, i as int);
        }
        let d = node_dup(&ns[i]);
        r.push(d);
        i = i + 1;
    }
    proof {
        lemma_nodes_view(ns@);
        lemma_nodes_view(r@);
        assert(nodes_view(r@) =~= nodes_view(ns@));
    }
    r
}

/// The joint size from `i` on bounds the size of any later element.
proof fn lemma_sn_list_size_ge(ns: Seq<SNode>, i: int, k: int)
    requires
        0 <= i <= k < ns.len(),
    ensures
        sn_size(ns[k]) < sn_list_size(ns, i),
    decreases k - i,
{
    if i < k {
        lemma_sn_list_size_ge(ns, i + 1, k);
    }
}

/// The kind of the token at `i`; past the end it is `NO`.
pub open spec fn spec_tok(toks: Seq<STok>, i: int) -> STk {
    if 0 <= i < toks.len() {
        toks[i].t
    } else {
        STk::NO
    }
}

/// The position of the token at `i`, or of the last token past the end.
pub open spec fn spec_pos_at(toks: Seq<STok>, i: int) -> Position {
    if 0 <= i < toks.len() {
        toks[i].pos
    } else if toks.len() > 0 {
        toks[toks.len() - 1].pos
    } else {
        Position { ls: 0, le: 0, cs: 0, ce: 0 }
    }
}

/// The span from the start of `a` to the end of `b`.
pub open spec fn span(a: Position, b: Position) -> Position {
    Position { ls: a.ls, le: b.le, cs: a.cs, ce: b.ce }
}

/// The outcome of parsing one expression: the index after it, the node or
/// the error, and the position a failure was traced at.
pub struct POut {
    pub i: int,
    pub r: Result<SNode, SErr>,
    pub tpos: Position,
}

/// The outcome of parsing a list of expressions or statements.
pub struct PListOut {
    pub i: int,
    pub r: Result<Seq<SNode>, SErr>,
    pub tpos: Position,
}

/// Parse one expression at `i`: a bracketed form, a quoting form or an
/// atom; any other token is unexpected.
pub open spec fn spec_pnext(toks: Seq<STok>, i: int) -> POut
    decreases toks.len() - i, 0int,
{
    let start = spec_pos_at(toks, i);
    match spec_tok(toks, i) {
        STk::EvalIn => {
            let l = spec_plist(toks, i + 1, STk::EvalOut);
            match l.r {
                Ok(ns) => POut {
                    i: l.i,
                    r: Ok(SNode { n: SN::Eval(ns), pos: span(start, spec_pos_at(toks, l.i)) }),
                    tpos: l.tpos,
                },
                Err(e) => POut { i: l.i, r: Err(e), tpos: l.tpos },
            }
        },
        STk::BodyIn => {
            let l = spec_pstmts(toks, i + 1);
            match l.r {
                Ok(ns) => POut {
                    i: l.i,
                    r: Ok(SNode { n: SN::Body(ns), pos: span(start, spec_pos_at(toks, l.i)) }),
                    tpos: l.tpos,
                },
                Err(e) => POut { i: l.i, r: Err(e), tpos: l.tpos },
            }
        },
        STk::PattIn => {
            let l = spec_plist(toks, i + 1, STk::PattOut);
            match l.r {
                Ok(ns) => POut {
                    i: l.i,
                    r: Ok(
                        SNode { n: SN::Pattern(ns), pos: span(start, spec_pos_at(toks, l.i)) },
                    ),
                    tpos: l.tpos,
                },
                Err(e) => POut { i: l.i, r: Err(e), tpos: l.tpos },
            }
        },
        STk::VecIn => {
            let l = spec_plist(toks, i + 1, STk::VecOut);
            match l.r {
                Ok(ns) => POut {
                    i: l.i,
                    r: Ok(SNode { n: SN::Vector(ns), pos: span(start, spec_pos_at(toks, l.i)) }),
                    tpos: l.tpos,
                },
                Err(e) => POut { i: l.i, r: Err(e), tpos: l.tpos },
            }
        },
        STk::Addr => {
            let c = spec_pnext(toks, i + 1);
            match c.r {
                Ok(nd) => POut {
                    i: c.i,
                    r: Ok(
                        SNode { n: SN::Addr(Box::new(nd)), pos: span(start, nd.pos) },
                    ),
                    tpos: c.tpos,
                },
                Err(e) => POut { i: c.i, r: Err(e), tpos: c.tpos },
            }
        },
        STk::Arg => {
            let c = spec_pnext(toks, i + 1);
            match c.r {
                Ok(nd) => POut {
                    i: c.i,
                    r: Ok(SNode { n: SN::Arg(Box::new(nd)), pos: span(start, nd.pos) }),
                    tpos: c.tpos,
                },
                Err(e) => POut { i: c.i, r: Err(e), tpos: c.tpos },
            }
        },
        STk::Closure => {
            let c = spec_pnext(toks, i + 1);
            match c.r {
                Ok(nd) => POut {
                    i: c.i,
                    r: Ok(
                        SNode { n: SN::Closure(Box::new(nd)), pos: span(start, nd.pos) },
                    ),
                    tpos: c.tpos,
                },
                Err(e) => POut { i: c.i, r: Err(e), tpos: c.tpos },
            }
        },
        STk::Int(v) => POut { i: i + 1, r: Ok(SNode { n: SN::Int(v), pos: start }), tpos: start },
        STk::Float(v) => POut {
            i: i + 1,
            r: Ok(SNode { n: SN::Float(v), pos: start }),
            tpos: start,
        },
        STk::Bool(v) => POut {
            i: i + 1,
            r: Ok(SNode { n: SN::Bool(v), pos: start }),
            tpos: start,
        },
        STk::Str(v) => POut { i: i + 1, r: Ok(SNode { n: SN::Str(v), pos: start }), tpos: start },
        STk::Type(v) => POut {
            i: i + 1,
            r: Ok(SNode { n: SN::Type(v), pos: start }),
            tpos: start,
        },
        STk::Word(v) => POut {
            i: i + 1,
            r: Ok(SNode { n: SN::Word(v), pos: start }),
            tpos: start,
        },
        STk::Null => POut { i: i + 1, r: Ok(SNode { n: SN::Null, pos: start }), tpos: start },
        STk::Wildcard => POut {
            i: i + 1,
            r: Ok(SNode { n: SN::Wildcard, pos: start }),
            tpos: start,
        },
        _ => POut { i: i, r: Err(SErr::UnexpectedToken(spec_tok(toks, i))), tpos: start },
    }
}

/// Parse expressions until the closing token, which is consumed.
pub open spec fn spec_plist(toks: Seq<STok>, j: int, close: STk) -> PListOut
    decreases toks.len() - j, 1int,
{
    if spec_tok(toks, j) == close {
        PListOut { i: j + 1, r: Ok(Seq::empty()), tpos: spec_pos_at(toks, j) }
    } else {
        let n = spec_pnext(toks, j);
        match n.r {
            Err(e) => PListOut { i: n.i, r: Err(e), tpos: n.tpos },
            Ok(nd) => if j < n.i <= toks.len() {
                let rest = spec_plist(toks, n.i, close);
                match rest.r {
                    Ok(ns) => PListOut { i: rest.i, r: Ok(seq![nd] + ns), tpos: rest.tpos },
                    Err(e) => PListOut { i: rest.i, r: Err(e), tpos: rest.tpos },
                }
            } else {
                PListOut { i: n.i, r: Ok(seq![nd]), tpos: n.tpos }
            },
        }
    }
}

/// Parse one statement: one expression, standing for itself (none at a
/// terminator gives an empty evaluation), with a terminator after it
/// consumed.
pub open spec fn spec_pstmt(toks: Seq<STok>, j: int, body: bool) -> POut
    decreases toks.len() - j, 3int,
{
    let start = spec_pos_at(toks, j);
    let t = spec_tok(toks, j);
    if t == STk::End || (body && t == STk::BodyOut) || (!body && t == STk::NO) {
        let i2: int = if t == STk::End {
            j + 1
        } else {
            j
        };
        POut {
            i: i2,
            r: Ok(
                SNode { n: SN::Eval(Seq::empty()), pos: span(start, spec_pos_at(toks, i2)) },
            ),
            tpos: start,
        }
    } else {
        let n = spec_pnext(toks, j);
        match n.r {
            Err(e) => POut { i: n.i, r: Err(e), tpos: n.tpos },
            Ok(nd) => {
                let i2: int = if spec_tok(toks, n.i) == STk::End {
                    n.i + 1
                } else {
                    n.i
                };
                POut { i: i2, r: Ok(nd), tpos: start }
            },
        }
    }
}

/// Parse statements until the body close, which is consumed.
pub open spec fn spec_pstmts(toks: Seq<STok>, j: int) -> PListOut
    decreases toks.len() - j, 4int,
{
    if spec_tok(toks, j) == STk::BodyOut {
        PListOut { i: j + 1, r: Ok(Seq::empty()), tpos: spec_pos_at(toks, j) }
    } else {
        let st = spec_pstmt(toks, j, true);
        match st.r {
            Err(e) => PListOut { i: st.i, r: Err(e), tpos: st.tpos },
            Ok(nd) => if j < st.i <= toks.len() {
                let rest = spec_pstmts(toks, st.i);
                match rest.r {
                    Ok(ns) => PListOut { i: rest.i, r: Ok(seq![nd] + ns), tpos: rest.tpos },
                    Err(e) => PListOut { i: rest.i, r: Err(e), tpos: rest.tpos },
                }
            } else {
                PListOut { i: st.i, r: Ok(seq![nd]), tpos: st.tpos }
            },
        }
    }
}

/// Parse top-level statements to the end of the stream.
pub open spec fn spec_ptop(toks: Seq<STok>, j: int) -> PListOut
    decreases toks.len() - j, 5int,
{
    if spec_tok(toks, j) == STk::NO {
        PListOut { i: j, r: Ok(Seq::empty()), tpos: spec_pos_at(toks, j) }
    } else {
        let st = spec_pstmt(toks, j, false);
        match st.r {
            Err(e) => PListOut { i: st.i, r: Err(e), tpos: st.tpos },
            Ok(nd) => if j < st.i <= toks.len() {
                let rest = spec_ptop(toks, st.i);
                match rest.r {
                    Ok(ns) => PListOut { i: rest.i, r: Ok(seq![nd] + ns), tpos: rest.tpos },
                    Err(e) => PListOut { i: rest.i, r: Err(e), tpos: rest.tpos },
                }
            } else {
                PListOut { i: st.i, r: Ok(seq![nd]), tpos: st.tpos }
            },
        }
    }
}

/// Parse a whole file: its statements, collapsed to the sole statement
/// when there is exactly one.
pub open spec fn spec_parse(toks: Seq<STok>) -> POut {
    let tp = spec_ptop(toks, 0);
    match tp.r {
        Err(e) => POut { i: tp.i, r: Err(e), tpos: tp.tpos },
        Ok(ns) => if ns.len() == 1 {
            POut { i: tp.i, r: Ok(ns[0]), tpos: tp.tpos }
        } else {
            POut {
                i: tp.i,
                r: Ok(
                    SNode {
                        n: SN::Body(ns),
                        pos: span(spec_pos_at(toks, 0), spec_pos_at(toks, tp.i)),
                    },
                ),
                tpos: tp.tpos,
            }
        },
    }
}

/// A successful parse moves forward and stays inside the stream.
pub proof fn lemma_pnext_bounds(toks: Seq<STok>, i: int)
    requires
        0 <= i <= toks.len(),
    ensures
        spec_pnext(toks, i).r is Ok ==> i < spec_pnext(toks, i).i <= toks.len(),
    decreases toks.len() - i, 0int,
{
    match spec_tok(toks, i) {
        STk::EvalIn => lemma_plist_bounds(toks, i + 1, STk::EvalOut),
        STk::BodyIn => lemma_pstmts_bounds(toks, i + 1),
        STk::PattIn => lemma_plist_bounds(toks, i + 1, STk::PattOut),
        STk::VecIn => lemma_plist_bounds(toks, i + 1, STk::VecOut),
        STk::Addr => lemma_pnext_bounds(toks, i + 1),
        STk::Arg => lemma_pnext_bounds(toks, i + 1),
        STk::Closure => lemma_pnext_bounds(toks, i + 1),
        _ => {},
    }
}

/// A successful list parse consumes the closing token and stays inside.
pub proof fn lemma_plist_bounds(toks: Seq<STok>, j: int, close: STk)
    requires
        0 <= j <= toks.len() + 1,
        !(close is NO),
    ensures
        spec_plist(toks, j, close).r is Ok ==> j < spec_plist(toks, j, close).i <= toks.len(),
    decreases toks.len() - j, 1int,
{
    if spec_tok(toks, j) == close {
    } else if j <= toks.len() {
        lemma_pnext_bounds(toks, j);
        let n = spec_pnext(toks, j);
        match n.r {
            Ok(_) => {
                if j < n.i <= toks.len() {
                    lemma_plist_bounds(toks, n.i, close);
                }
            },
            Err(_) => {},
        }
    }
}

/// A successful statement stays inside and moves forward unless it stands
/// at its enclosing stop token.
pub proof fn lemma_pstmt_bounds(toks: Seq<STok>, j: int, body: bool)
    requires
        0 <= j <= toks.len(),
    ensures
        spec_pstmt(toks, j, body).r is Ok ==> j <= spec_pstmt(toks, j, body).i <= toks.len(),
        spec_pstmt(toks, j, body).r is Ok && body && spec_tok(toks, j) != STk::BodyOut
            ==> spec_pstmt(toks, j, body).i > j,
        spec_pstmt(toks, j, body).r is Ok && !body && spec_tok(toks, j) != STk::NO
            ==> spec_pstmt(toks, j, body).i > j,
    decreases toks.len() - j, 3int,
{
    lemma_pnext_bounds(toks, j);
}

/// A successful statement run consumes the body close and stays inside.
pub proof fn lemma_pstmts_bounds(toks: Seq<STok>, j: int)
    requires
        0 <= j <= toks.len() + 1,
    ensures
        spec_pstmts(toks, j).r is Ok ==> j < spec_pstmts(toks, j).i <= toks.len(),
    decreases toks.len() - j, 4int,
{
    if spec_tok(toks, j) == STk::BodyOut {
    } else if j <= toks.len() {
        lemma_pstmt_bounds(toks, j, true);
        let st = spec_pstmt(toks, j, true);
        match st.r {
            Ok(_) => {
                if j < st.i <= toks.len() {
                    lemma_pstmts_bounds(toks, st.i);
                }
            },
            Err(_) => {},
        }
    }
}

/// A successful top-level run stays inside the stream.
pub proof fn lemma_ptop_bounds(toks: Seq<STok>, j: int)
    requires
        0 <= j <= toks.len(),
    ensures
        spec_ptop(toks, j).r is Ok ==> j <= spec_ptop(toks, j).i <= toks.len(),
    decreases toks.len() - j, 5int,
{
    if spec_tok(toks, j) == STk::NO {
    } else {
        lemma_pstmt_bounds(toks, j, false);
        let st = spec_pstmt(toks, j, false);
        match st.r {
            Ok(_) => {
                if j < st.i <= toks.len() {
                    lemma_ptop_bounds(toks, st.i);
                }
            },
            Err(_) => {},
        }
    }
}

/// `sns_wf` says exactly that every node from `i` on is well formed.
pub proof fn lemma_sns_wf_iff(ns: Seq<SNode>, i: int)
    requires
        0 <= i,
    ensures
        sns_wf(ns, i) <==> (forall|k: int| i <= k < ns.len() ==> sn_wf(#[trigger] ns[k])),
    decreases ns.len() - i,
{
    if i < ns.len() {
        lemma_sns_wf_iff(ns, i + 1);
    }
}

/// Which closing bracket a list of expressions ends at.
#[derive(Debug, Clone, Copy)]
pub enum CloseK {
    Paren,
    Angle,
    Square,
}

/// The closing token of a bracket kind.
pub open spec fn closek_tok(c: CloseK) -> STk {
    match c {
        CloseK::Paren => STk::EvalOut,
        CloseK::Angle => STk::PattOut,
        CloseK::Square => STk::VecOut,
    }
}

/// What holds after parsing one expression: the node or the error agrees
/// with the model, a parsed node is well formed, and a failure traced its
/// position.
pub open spec fn pnode_post(o: POut, r: Result<Node, E>, c0: SCtx, c1: SCtx) -> bool {
    match r {
        Ok(nd) => o.r == Ok::<SNode, SErr>(node_view(nd)) && sn_wf(node_view(nd)) && c1 == c0,
        Err(e) => o.r == Err::<SNode, SErr>(e_view(e)) && c1 == ctx_traced(c0, o.tpos),
    }
}

/// The same for a list of parsed nodes.
pub open spec fn plist_post(o: PListOut, r: Result<Vec<Node>, E>, c0: SCtx, c1: SCtx) -> bool {
    match r {
        Ok(ns) => o.r == Ok::<Seq<SNode>, SErr>(nodes_view(ns@)) && sns_wf(nodes_view(ns@), 0)
            && c1 == c0,
        Err(e) => o.r == Err::<Seq<SNode>, SErr>(e_view(e)) && c1 == ctx_traced(c0, o.tpos),
    }
}

/// The parser state: the token stream and a place in it.
#[derive(Debug)]
pub struct Parser {
    pub tokens: Vec<Token>,
    pub idx: usize,
}

impl Parser {
    /// A parser at the start of the stream.
    pub fn new(tokens: &Vec<Token>) -> (r: Parser)
        ensures
            toks_view(r.tokens@) == toks_view(tokens@),
            r.tokens@.len() == tokens@.len(),
            r.idx == 0,
    {
        Parser { tokens: toks_dup(tokens), idx: 0 }
    }

    /// One token forward.
    pub fn advance(&mut self)
        requires
            old(self).idx < old(self).tokens@.len(),
        ensures
            final(self).tokens == old(self).tokens,
            final(self).idx == old(self).idx + 1,
    {
        let n = self.tokens.len();
        self.idx = self.idx + 1;
    }

    /// The token under the parser, or an empty one past the end.
    pub fn token_pos(&self) -> (r: Token)
        ensures
            self.idx < self.tokens@.len() ==> token_view(r) == toks_view(self.tokens@)[
                self.idx as int
            ],
            self.idx >= self.tokens@.len() ==> token_view(r) == (STok {
                t: STk::NO,
                pos: Position { ls: 0, le: 0, cs: 0, ce: 0 },
            }),
    {
        proof {
            lemma_toks_view(self.tokens@);
        }
        if self.idx < self.tokens.len() {
            self.tokens[self.idx].dup()
        } else {
            Token(T::NO, Position::new(0, 0, 0, 0))
        }
    }

    /// The kind of the token under the parser.
    pub fn token(&self) -> (r: T)
        ensures
            t_view(r) == spec_tok(toks_view(self.tokens@), self.idx as int),
    {
        proof {
            lemma_toks_view(self.tokens@);
        }
        if self.idx < self.tokens.len() {
            self.tokens[self.idx].0.dup()
        } else {
            T::NO
        }
    }

    /// The position under the parser, or of the last token past the end.
    pub fn pos(&self) -> (r: Position)
        requires
            self.tokens@.len() > 0,
        ensures
            r == spec_pos_at(toks_view(self.tokens@), self.idx as int),
    {
        proof {
            lemma_toks_view(self.tokens@);
        }
        if self.idx < self.tokens.len() {
            self.tokens[self.idx].1
        } else {
            self.tokens[self.tokens.len() - 1].1
        }
    }

    /// Parse one expression.
    pub fn next(&mut self, context: &mut Context) -> (r: Result<Node, E>)
        requires
            old(self).tokens@.len() > 0,
            old(self).idx <= old(self).tokens@.len(),
            stoks_wf(toks_view(old(self).tokens@)),
        ensures
            final(self).tokens == old(self).tokens,
            final(self).idx as int == spec_pnext(
                toks_view(old(self).tokens@),
                old(self).idx as int,
            ).i,
            final(self).idx <= final(self).tokens@.len(),
            pnode_post(
                spec_pnext(toks_view(old(self).tokens@), old(self).idx as int),
                r,
                old(context)@,
                final(context)@,
            ),
        decreases old(self).tokens@.len() - old(self).idx, 6int,
    {
        proof {
            lemma_toks_view(self.tokens@);
        }
        let ghost tv = toks_view(self.tokens@);
        let ghost i0 = self.idx as int;
        if self.idx >= self.tokens.len() {
            let p = self.pos();
            context.trace(&p);
            return Err(E::UnexpectedToken(T::NO));
        }
        let start = self.pos();
        match &self.tokens[self.idx].0 {
            T::EvalIn => {
                self.advance();
                match self.plist(context, CloseK::Paren) {
                    Ok(nodes) => {
                        let endp = self.pos();
                        proof {
                            lemma_sns_wf_iff(nodes_view(nodes@), 0);
                        }
                        Ok(Node(N::Eval(nodes), start.to(&endp)))
                    },
                    Err(e) => Err(e),
                }
            },
            T::BodyIn => {
                self.advance();
                match self.pstmts(context) {
                    Ok(nodes) => {
                        let endp = self.pos();
                        proof {
                            lemma_sns_wf_iff(nodes_view(nodes@), 0);
                        }
                        Ok(Node(N::Body(nodes), start.to(&endp)))
                    },
                    Err(e) => Err(e),
                }
            },
            T::PattIn => {
                self.advance();
                match self.plist(context, CloseK::Angle) {
                    Ok(nodes) => {
                        let endp = self.pos();
                        proof {
                            lemma_sns_wf_iff(nodes_view(nodes@), 0);
                        }
                        Ok(Node(N::Pattern(nodes), start.to(&endp)))
                    },
                    Err(e) => Err(e),
                }
            },
            T::VecIn => {
                self.advance();
                match self.plist(context, CloseK::Square) {
                    Ok(nodes) => {
                        let endp = self.pos();
                        proof {
                            lemma_sns_wf_iff(nodes_view(nodes@), 0);
                        }
                        Ok(Node(N::Vector(nodes), start.to(&endp)))
                    },
                    Err(e) => Err(e),
                }
            },
            T::Addr => {
                self.advance();
                match self.next(context) {
                    Ok(nd) => {
                        let p = nd.1;
                        Ok(Node(N::Addr(Box::new(nd)), start.to(&p)))
                    },
                    Err(e) => Err(e),
                }
            },
            T::Arg => {
                self.advance();
                match self.next(context) {
                    Ok(nd) => {
                        let p = nd.1;
                        Ok(Node(N::Arg(Box::new(nd)), start.to(&p)))
                    },
                    Err(e) => Err(e),
                }
            },
            T::Closure => {
                self.advance();
                match self.next(context) {
                    Ok(nd) => {
                        let p = nd.1;
                        Ok(Node(N::Closure(Box::new(nd)), start.to(&p)))
                    },
                    Err(e) => Err(e),
                }
            },
            T::Int(v) => {
                let node = Node(N::Int(*v), start);
                self.advance();
                Ok(node)
            },
            T::Float(f) => {
                proof {
                    assert(stok_wf(toks_view(self.tokens@)[self.idx as int]));
                }
                let node = Node(N::Float(*f), start);
                self.advance();
                Ok(node)
            },
            T::Bool(b) => {
                let node = Node(N::Bool(*b), start);
                self.advance();
                Ok(node)
            },
            T::Str(st) => {
                let node = Node(N::Str(st.clone()), start);
                self.advance();
                Ok(node)
            },
            T::Type(t) => {
                let node = Node(N::Type(t.dup()), start);
                self.advance();
                Ok(node)
            },
            T::Word(w) => {
                let node = Node(N::Word(w.clone()), start);
                self.advance();
                Ok(node)
            },
            T::Null => {
                let node = Node(N::Null, start);
                self.advance();
                Ok(node)
            },
            T::Wildcard => {
                let node = Node(N::Wildcard, start);
                self.advance();
                Ok(node)
            },
            _ => {
                let p = self.pos();
                context.trace(&p);
                Err(E::UnexpectedToken(self.tokens[self.idx].0.dup()))
            },
        }
    }

    /// Parse expressions to a closing bracket.
    fn plist(&mut self, context: &mut Context, close: CloseK) -> (r: Result<Vec<Node>, E>)
        requires
            old(self).tokens@.len() > 0,
            old(self).idx <= old(self).tokens@.len(),
            stoks_wf(toks_view(old(self).tokens@)),
        ensures
            final(self).tokens == old(self).tokens,
            final(self).idx as int == spec_plist(
                toks_view(old(self).tokens@),
                old(self).idx as int,
                closek_tok(close),
            ).i,
            final(self).idx <= final(self).tokens@.len(),
            plist_post(
                spec_plist(toks_view(old(self).tokens@), old(self).idx as int, closek_tok(close)),
                r,
                old(context)@,
                final(context)@,
            ),
        decreases old(self).tokens@.len() - old(self).idx, 7int,
    {
        proof {
            lemma_toks_view(self.tokens@);
        }
        let ghost tv = toks_view(self.tokens@);
        let ghost i0 = self.idx as int;
        let at_close = if self.idx < self.tokens.len() {
            match (&self.tokens[self.idx].0, close) {
                (T::EvalOut, CloseK::Paren) => true,
                (T::PattOut, CloseK::Angle) => true,
                (T::VecOut, CloseK::Square) => true,
                _ => false,
            }
        } else {
            false
        };
        if at_close {
            self.advance();
            let out: Vec<Node> = Vec::new();
            proof {
                assert(nodes_view(out@) =~= Seq::<SNode>::empty());
            }
            return Ok(out);
        }
        let nd = match self.next(context) {
            Ok(n) => n,
            Err(e) => {
                return Err(e);
            },
        };
        proof {
            lemma_pnext_bounds(tv, i0);
        }
        let ghost ndv = node_view(nd);
        let rest = match self.plist(context, close) {
            Ok(v) => v,
            Err(e) => {
                return Err(e);
            },
        };
        let ghost ndval = nd;
        let ghost restv = nodes_view(rest@);
        let ghost restq = rest@;
        let mut out = rest;
        out.insert(0, nd);
        proof {
            restq.insert_ensures(0, ndval);
            lemma_nodes_view(out@);
            lemma_nodes_view(restq);
            assert(nodes_view(out@) =~= seq![ndv] + restv);
            lemma_sns_wf_iff(nodes_view(out@), 0);
            lemma_sns_wf_iff(restv, 0);
        }
        Ok(out)
    }

    /// Parse statements to the body close.
    fn pstmts(&mut self, context: &mut Context) -> (r: Result<Vec<Node>, E>)
        requires
            old(self).tokens@.len() > 0,
            old(self).idx <= old(self).tokens@.len(),
            stoks_wf(toks_view(old(self).tokens@)),
        ensures
            final(self).tokens == old(self).tokens,
            final(self).idx as int == spec_pstmts(
                toks_view(old(self).tokens@),
                old(self).idx as int,
            ).i,
            final(self).idx <= final(self).tokens@.len(),
            plist_post(
                spec_pstmts(toks_view(old(self).tokens@), old(self).idx as int),
                r,
                old(context)@,
                final(context)@,
            ),
        decreases old(self).tokens@.len() - old(self).idx, 9int,
    {
        proof {
            lemma_toks_view(self.tokens@);
        }
        let ghost tv = toks_view(self.tokens@);
        let ghost i0 = self.idx as int;
        let at_close = if self.idx < self.tokens.len() {
            match &self.tokens[self.idx].0 {
                T::BodyOut => true,
                _ => false,
            }
        } else {
            false
        };
        if at_close {
            self.advance();
            let out: Vec<Node> = Vec::new();
            proof {
                assert(nodes_view(out@) =~= Seq::<SNode>::empty());
            }
            return Ok(out);
        }
        let nd = match self.pstmt(context, true) {
            Ok(n) => n,
            Err(e) => {
                return Err(e);
            },
        };
        proof {
            lemma_pstmt_bounds(tv, i0, true);
        }
        let ghost ndv = node_view(nd);
        let rest = match self.pstmts(context) {
            Ok(v) => v,
            Err(e) => {
                return Err(e);
            },
        };
        let ghost ndval = nd;
        let ghost restv = nodes_view(rest@);
        let ghost restq = rest@;
        let mut out = rest;
        out.insert(0, nd);
        proof {
            restq.insert_ensures(0, ndval);
            lemma_nodes_view(out@);
            lemma_nodes_view(restq);
            assert(nodes_view(out@) =~= seq![ndv] + restv);
            lemma_sns_wf_iff(nodes_view(out@), 0);
            lemma_sns_wf_iff(restv, 0);
        }
        Ok(out)
    }

    /// Parse top-level statements to the end of the stream.
    fn ptop(&mut self, context: &mut Context) -> (r: Result<Vec<Node>, E>)
        requires
            old(self).tokens@.len() > 0,
            old(self).idx <= old(self).tokens@.len(),
            stoks_wf(toks_view(old(self).tokens@)),
        ensures
            final(self).tokens == old(self).tokens,
            final(self).idx as int == spec_ptop(
                toks_view(old(self).tokens@),
                old(self).idx as int,
            ).i,
            final(self).idx <= final(self).tokens@.len(),
            plist_post(
                spec_ptop(toks_view(old(self).tokens@), old(self).idx as int),
                r,
                old(context)@,
                final(context)@,
            ),
        decreases old(self).tokens@.len() - old(self).idx, 10int,
    {
        proof {
            lemma_toks_view(self.tokens@);
        }
        let ghost tv = toks_view(self.tokens@);
        let ghost i0 = self.idx as int;
        let at_no = if self.idx < self.tokens.len() {
            match &self.tokens[self.idx].0 {
                T::NO => true,
                _ => false,
            }
        } else {
            true
        };
        if at_no {
            let out: Vec<Node> = Vec::new();
            proof {
                assert(nodes_view(out@) =~= Seq::<SNode>::empty());
            }
            return Ok(out);
        }
        let nd = match self.pstmt(context, false) {
            Ok(n) => n,
            Err(e) => {
                return Err(e);
            },
        };
        proof {
            lemma_pstmt_bounds(tv, i0, false);
        }
        let ghost ndv = node_view(nd);
        let rest = match self.ptop(context) {
            Ok(v) => v,
            Err(e) => {
                return Err(e);
            },
        };
        let ghost ndval = nd;
        let ghost restv = nodes_view(rest@);
        let ghost restq = rest@;
        let mut out = rest;
        out.insert(0, nd);
        proof {
            restq.insert_ensures(0, ndval);
            lemma_nodes_view(out@);
            lemma_nodes_view(restq);
            assert(nodes_view(out@) =~= seq![ndv] + restv);
            lemma_sns_wf_iff(nodes_view(out@), 0);
            lemma_sns_wf_iff(restv, 0);
        }
        Ok(out)
    }

    /// Parse one statement.
    fn pstmt(&mut self, context: &mut Context, body: bool) -> (r: Result<Node, E>)
        requires
            old(self).tokens@.len() > 0,
            old(self).idx <= old(self).tokens@.len(),
            stoks_wf(toks_view(old(self).tokens@)),
        ensures
            final(self).tokens == old(self).tokens,
            final(self).idx as int == spec_pstmt(
                toks_view(old(self).tokens@),
                old(self).idx as int,
                body,
            ).i,
            final(self).idx <= final(self).tokens@.len(),
            pnode_post(
                spec_pstmt(toks_view(old(self).tokens@), old(self).idx as int, body),
                r,
                old(context)@,
                final(context)@,
            ),
        decreases old(self).tokens@.len() - old(self).idx, 8int,
    {
        proof {
            lemma_toks_view(self.tokens@);
        }
        let start = self.pos();
        let stopped = if self.idx < self.tokens.len() {
            match &self.tokens[self.idx].0 {
                T::End => true,
                T::BodyOut => body,
                T::NO => !body,
                _ => false,
            }
        } else {
            !body
        };
        if stopped {
            let at_end = if self.idx < self.tokens.len() {
                match &self.tokens[self.idx].0 {
                    T::End => true,
                    _ => false,
                }
            } else {
                false
            };
            if at_end {
                self.advance();
            }
            let endp = self.pos();
            let ns: Vec<Node> = Vec::new();
            proof {
                assert(nodes_view(ns@) =~= Seq::<SNode>::empty());
            }
            let nd = Node(N::Eval(ns), start.to(&endp));
            proof {
                assert(nd@.n->Eval_0 =~= Seq::<SNode>::empty());
                assert(sns_wf(Seq::<SNode>::empty(), 0));
                assert(sn_wf(nd@));
            }
            return Ok(nd);
        }
        let nd = match self.next(context) {
            Ok(n) => n,
            Err(e) => {
                return Err(e);
            },
        };
        let at_end = if self.idx < self.tokens.len() {
            match &self.tokens[self.idx].0 {
                T::End => true,
                _ => false,
            }
        } else {
            false
        };
        if at_end {
            self.advance();
        }
        Ok(nd)
    }

    /// Parse the whole stream.
    pub fn parse(&mut self, context: &mut Context) -> (r: Result<Node, E>)
        requires
            old(self).tokens@.len() > 0,
            old(self).idx == 0,
            stoks_wf(toks_view(old(self).tokens@)),
        ensures
            pnode_post(
                spec_parse(toks_view(old(self).tokens@)),
                r,
                old(context)@,
                final(context)@,
            ),
    {
        proof {
            lemma_toks_view(self.tokens@);
        }
        let start = self.pos();
        let mut ns = match self.ptop(context) {
            Ok(v) => v,
            Err(e) => {
                return Err(e);
            },
        };
        proof {
            lemma_nodes_view(ns@);
        }
        if ns.len() == 1 {
            let ghost nsv = nodes_view(ns@);
            let nd = ns.remove(0);
            proof {
                lemma_sns_wf_iff(nsv, 0);
            }
            Ok(nd)
        } else {
            let endp = self.pos();
            proof {
                lemma_sns_wf_iff(nodes_view(ns@), 0);
            }
            Ok(Node(N::Body(ns), start.to(&endp)))
        }
    }
}

/// Parse a token stream against a context (the context only records a
/// trace when parsing fails).
pub fn parse(tokens: &Vec<Token>, context: &mut Context) -> (r: Result<Node, E>)
    requires
        tokens@.len() > 0,
        stoks_wf(toks_view(tokens@)),
    ensures
        pnode_post(spec_parse(toks_view(tokens@)), r, old(context)@, final(context)@),
{
    let mut parser = Parser::new(tokens);
    parser.parse(context)
}

} // verus!
