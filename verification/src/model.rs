//! The mathematical model of the language: ghost counterparts of the
//! executable token, node, type, value, error and context types, with text
//! as `Seq<char>` and lists as `Seq`. Every executable type has a view into
//! this model, and every phase of the interpreter is specified as a function
//! over it (see `semantics`).

use vstd::prelude::*;
use crate::decimal::Fl;
use crate::position::Position;
use crate::values::Nf;

verus! {

/// A type of the language.
pub enum STy {
    Undefined,
    Any,
    Int,
    Float,
    Bool,
    Str,
    Vector(Box<STy>),
    NativFunction,
    Function,
    Addr,
    Closure,
    Pattern,
    Union(Seq<STy>),
    Exclusion(Seq<STy>),
    Type,
}

/// A token kind.
pub enum STk {
    NO,
    EvalIn,
    EvalOut,
    BodyIn,
    BodyOut,
    PattIn,
    PattOut,
    VecIn,
    VecOut,
    Addr,
    Arg,
    Closure,
    End,
    Null,
    Wildcard,
    Word(Seq<char>),
    Int(i64),
    Float(Fl),
    Bool(bool),
    Str(Seq<char>),
    Type(STy),
}

/// A token: a kind at a position.
pub struct STok {
    pub t: STk,
    pub pos: Position,
}

/// A node shape.
pub enum SN {
    Eval(Seq<SNode>),
    Body(Seq<SNode>),
    Pattern(Seq<SNode>),
    Vector(Seq<SNode>),
    Addr(Box<SNode>),
    Arg(Box<SNode>),
    Closure(Box<SNode>),
    Null,
    Wildcard,
    Word(Seq<char>),
    Int(i64),
    Float(Fl),
    Bool(bool),
    Str(Seq<char>),
    Type(STy),
}

/// A node: a shape at a position.
pub struct SNode {
    pub n: SN,
    pub pos: Position,
}

/// A value of the language. A closure carries its syntax and the path of
/// the file it was written in; it captures no environment.
pub enum SV {
    Null,
    Wildcard,
    Int(i64),
    Float(Fl),
    Bool(bool),
    Str(Seq<char>),
    Vector(Seq<SV>, STy),
    Addr(Seq<char>),
    Closure(SNode, Seq<char>),
    Pattern(Seq<STy>),
    NativFunction(Box<SV>, Nf),
    Function(Box<SV>, Box<SV>),
    Type(STy),
}

/// An error of any phase.
pub enum SErr {
    TargetNotFound(Seq<char>),
    FileNotFound(Seq<char>),
    Char(Seq<char>),
    UnexpectedToken(STk),
    HeadOperation(SV),
    ExpectedType { typ: STy, recv_typ: STy },
    NotDefined(Seq<char>),
    AlreadyDefined(Seq<char>),
    Immutable(Seq<char>),
    BinaryOperation { type1: STy, type2: STy },
    UnaryOperation(STy),
    PatternMissmatch { pattern1: SV, pattern2: SV },
    ExpectedLen { len: int, recv_len: int },
    AssertError,
    Depth,
}

/// One lexical scope: named bindings in order of declaration, and the
/// positional arguments of the call that opened the scope.
pub struct SScope {
    pub vars: Seq<(Seq<char>, SV)>,
    pub args: Seq<SV>,
}

/// The interpreter context: the current file path, the stack of lexical
/// scopes (outermost first), the immutable global scope, the error trace,
/// the table of loadable files and the text printed so far.
pub struct SCtx {
    pub path: Seq<char>,
    pub scopes: Seq<SScope>,
    pub global: SScope,
    pub trace: Seq<(Position, Seq<char>)>,
    pub files: Seq<(Seq<char>, Seq<char>)>,
    pub out: Seq<char>,
}

} // verus!
