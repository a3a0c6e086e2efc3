//! The lexer: from source text to tokens.
//!
//! The scanner walks the text character by character, tracking a line and a
//! column. Whitespace separates tokens; `$` starts a comment that runs to
//! the end of the line. A run of digits (with at most one dot) is a number;
//! numbers clamp at the largest magnitude the value types carry, and a
//! fraction keeps at most the digits the float type keeps. A quote opens a
//! string, closed by the same quote: an unterminated string is an error;
//! after the closing quote a bare `n` keeps embedded line breaks, otherwise
//! they are stripped; the escapes `\n`, `\t`, `\r` are expanded. Single
//! reserved characters become bracket and sigil tokens; any other run of
//! characters is a keyword or a word.

use vstd::prelude::*;
use crate::decimal::{Fl, fl_make, fl_make_exec, fl_wf, MANT_MAX, SCALE_MAX};
use crate::position::Position;
use crate::model::{STk, STok, SErr};
use crate::values::{Type, ty_view};
use crate::error::{E, e_view};
use crate::text::{chars_to_string, string_to_chars, chars_eq_str};

verus! {

/// A token kind.
#[derive(Debug, PartialEq)]
pub enum T {
    NO,
    EvalIn,
    EvalOut,
    BodyIn,
    BodyOut,
    PattIn,
    PattOut,
    VecIn,
    VecOut,
    Addr,
    Arg,
    Closure,
    End,
    Null,
    Wildcard,
    Word(String),
    Int(i64),
    Float(Fl),
    Bool(bool),
    Str(String),
    Type(Type),
}

/// The model of a token kind.
pub open spec fn t_view(t: T) -> STk {
    match t {
        T::NO => STk::NO,
        T::EvalIn => STk::EvalIn,
        T::EvalOut => STk::EvalOut,
        T::BodyIn => STk::BodyIn,
        T::BodyOut => STk::BodyOut,
        T::PattIn => STk::PattIn,
        T::PattOut => STk::PattOut,
        T::VecIn => STk::VecIn,
        T::VecOut => STk::VecOut,
        T::Addr => STk::Addr,
        T::Arg => STk::Arg,
        T::Closure => STk::Closure,
        T::End => STk::End,
        T::Null => STk::Null,
        T::Wildcard => STk::Wildcard,
        T::Word(w) => STk::Word(w@),
        T::Int(i) => STk::Int(i),
        T::Float(f) => STk::Float(f),
        T::Bool(b) => STk::Bool(b),
        T::Str(s) => STk::Str(s@),
        T::Type(ty) => STk::Type(ty_view(ty)),
    }
}

impl View for T {
    type V = STk;

    open spec fn view(&self) -> STk {
        t_view(*self)
    }
}

/// A token: a kind at a position.
#[derive(Debug, PartialEq)]
pub struct Token(pub T, pub Position);

/// The model of a token.
pub open spec fn token_view(tok: Token) -> STok {
    STok { t: t_view(tok.0), pos: tok.1 }
}

impl View for Token {
    type V = STok;

    open spec fn view(&self) -> STok {
        token_view(*self)
    }
}

/// The models of a list of tokens.
pub open spec fn toks_view(toks: Seq<Token>) -> Seq<STok>
    decreases toks, toks.len(),
{
    if toks.len() == 0 {
        Seq::empty()
    } else {
        seq![token_view(toks[0])] + toks_view(toks.drop_first())
    }
}

/// A list view indexes elementwise.
pub proof fn lemma_toks_view(toks: Seq<Token>)
    ensures
        toks_view(toks).len() == toks.len(),
        forall|i: int|
            0 <= i < toks.len() ==> #[trigger] toks_view(toks)[i] == token_view(toks[i]),
    decreases toks, toks.len(),
{
    if toks.len() > 0 {
        lemma_toks_view(toks.drop_first());
    }
}

impl T {
    /// The display name of this kind of token, as diagnostics spell it.
    pub fn name(&self) -> (r: &str)
        ensures
            r@ == spec_t_name(self@),
    {
        match self {
            T::NO => "()",
            T::EvalIn => "'('",
            T::EvalOut => "')'",
            T::BodyIn => "'{'",
            T::BodyOut => "'}'",
            T::PattIn => "'<'",
            T::PattOut => "'>'",
            T::VecIn => "'['",
            T::VecOut => "']'",
            T::Addr => "'@'",
            T::Arg => "'%'",
            T::Closure => "'#'",
            T::End => "';'",
            T::Null => "'null'",
            T::Wildcard => "'_'",
            T::Word(_) => "word",
            T::Int(_) => "int",
            T::Float(_) => "float",
            T::Bool(_) => "boolean",
            T::Str(_) => "string",
            T::Type(_) => "type",
        }
    }
}

/// The display name of a kind of token.
pub open spec fn spec_t_name(t: STk) -> Seq<char> {
    match t {
        STk::NO => "()"@,
        STk::EvalIn => "'('"@,
        STk::EvalOut => "')'"@,
        STk::BodyIn => "'{'"@,
        STk::BodyOut => "'}'"@,
        STk::PattIn => "'<'"@,
        STk::PattOut => "'>'"@,
        STk::VecIn => "'['"@,
        STk::VecOut => "']'"@,
        STk::Addr => "'@'"@,
        STk::Arg => "'%'"@,
        STk::Closure => "'#'"@,
        STk::End => "';'"@,
        STk::Null => "'null'"@,
        STk::Wildcard => "'_'"@,
        STk::Word(_) => "word"@,
        STk::Int(_) => "int"@,
        STk::Float(_) => "float"@,
        STk::Bool(_) => "boolean"@,
        STk::Str(_) => "string"@,
        STk::Type(_) => "type"@,
    }
}

/// A place in the text: index, line, column.
pub struct LexPos {
    pub i: int,
    pub ln: int,
    pub col: int,
}

/// Whitespace between tokens.
pub open spec fn is_ws(c: char) -> bool {
    c == ' ' || c == '\n' || c == '\r' || c == '\t'
}

/// A decimal digit.
pub open spec fn is_digit(c: char) -> bool {
    c == '0' || c == '1' || c == '2' || c == '3' || c == '4' || c == '5' || c == '6' || c == '7'
        || c == '8' || c == '9'
}

/// A reserved single character.
pub open spec fn is_symbol(c: char) -> bool {
    c == '(' || c == ')' || c == '{' || c == '}' || c == '<' || c == '>' || c == '[' || c == ']'
        || c == '@' || c == '%' || c == '#' || c == '"' || c == '\'' || c == ';'
}

/// The value of a digit character.
pub open spec fn digit_val(c: char) -> nat {
    if c == '0' {
        0
    } else if c == '1' {
        1
    } else if c == '2' {
        2
    } else if c == '3' {
        3
    } else if c == '4' {
        4
    } else if c == '5' {
        5
    } else if c == '6' {
        6
    } else if c == '7' {
        7
    } else if c == '8' {
        8
    } else {
        9
    }
}

/// One step forward: a line break starts a new line.
pub open spec fn lex_adv(text: Seq<char>, p: LexPos) -> LexPos {
    if 0 <= p.i < text.len() && text[p.i] == '\n' {
        LexPos { i: p.i + 1, ln: p.ln + 1, col: 0 }
    } else {
        LexPos { i: p.i + 1, ln: p.ln, col: p.col + 1 }
    }
}

/// Past any whitespace.
pub open spec fn skip_ws(text: Seq<char>, p: LexPos) -> LexPos
    decreases text.len() - p.i,
{
    if 0 <= p.i < text.len() && is_ws(text[p.i]) {
        skip_ws(text, lex_adv(text, p))
    } else {
        p
    }
}

/// Past the rest of the line, and past its line break.
pub open spec fn skip_line(text: Seq<char>, p: LexPos) -> LexPos
    decreases text.len() - p.i,
{
    if p.i < 0 || p.i >= text.len() {
        p
    } else if text[p.i] == '\n' {
        lex_adv(text, p)
    } else {
        skip_line(text, lex_adv(text, p))
    }
}

/// Past whitespace and comments.
pub open spec fn skip_trivia(text: Seq<char>, p: LexPos) -> LexPos
    decreases text.len() - p.i,
{
    let w = skip_ws(text, p);
    if 0 <= w.i < text.len() && text[w.i] == '$' {
        let c = skip_line(text, lex_adv(text, w));
        if c.i > p.i && c.i <= text.len() {
            skip_trivia(text, c)
        } else {
            w
        }
    } else {
        w
    }
}

pub proof fn lemma_skip_ws_ge(text: Seq<char>, p: LexPos)
    ensures
        skip_ws(text, p).i >= p.i,
        p.i <= text.len() ==> skip_ws(text, p).i <= text.len(),
    decreases text.len() - p.i,
{
    if 0 <= p.i < text.len() && is_ws(text[p.i]) {
        lemma_skip_ws_ge(text, lex_adv(text, p));
    }
}

pub proof fn lemma_skip_line_ge(text: Seq<char>, p: LexPos)
    ensures
        skip_line(text, p).i >= p.i,
        p.i <= text.len() ==> skip_line(text, p).i <= text.len(),
    decreases text.len() - p.i,
{
    if 0 <= p.i < text.len() && text[p.i] != '\n' {
        lemma_skip_line_ge(text, lex_adv(text, p));
    }
}

pub proof fn lemma_skip_ws_stop(text: Seq<char>, p: LexPos)
    ensures
        0 <= skip_ws(text, p).i < text.len() ==> !is_ws(text[skip_ws(text, p).i]),
    decreases text.len() - p.i,
{
    if 0 <= p.i < text.len() && is_ws(text[p.i]) {
        lemma_skip_ws_stop(text, lex_adv(text, p));
    }
}

pub proof fn lemma_skip_trivia_stop(text: Seq<char>, p: LexPos)
    ensures
        0 <= skip_trivia(text, p).i < text.len() ==> !is_ws(text[skip_trivia(text, p).i]),
    decreases text.len() - p.i,
{
    lemma_skip_ws_stop(text, p);
    let w = skip_ws(text, p);
    if 0 <= w.i < text.len() && text[w.i] == '$' {
        let c = skip_line(text, lex_adv(text, w));
        if c.i > p.i && c.i <= text.len() {
            lemma_skip_trivia_stop(text, c);
        }
    }
}

pub proof fn lemma_skip_trivia_ge(text: Seq<char>, p: LexPos)
    ensures
        skip_trivia(text, p).i >= p.i,
        p.i <= text.len() ==> skip_trivia(text, p).i <= text.len(),
    decreases text.len() - p.i,
{
    lemma_skip_ws_ge(text, p);
    let w = skip_ws(text, p);
    if 0 <= w.i < text.len() && text[w.i] == '$' {
        lemma_skip_line_ge(text, lex_adv(text, w));
        let c = skip_line(text, lex_adv(text, w));
        if c.i > p.i && c.i <= text.len() {
            lemma_skip_trivia_ge(text, c);
        }
    }
}

/// The next digit folded into a clamped magnitude.
pub open spec fn clamp10(m: nat, d: nat) -> nat {
    if 10 * m + d > MANT_MAX {
        MANT_MAX as nat
    } else {
        10 * m + d
    }
}

/// The state after a number scan.
pub struct NumOut {
    pub st: LexPos,
    pub m: nat,
    pub s: nat,
    pub dot: bool,
}

/// Scan a run of digits with at most one dot. The integer part clamps at
/// `MANT_MAX`; fractional digits are kept only while the magnitude still
/// fits and at most `SCALE_MAX` of them.
pub open spec fn scan_num(text: Seq<char>, p: LexPos, m: nat, s: nat, dot: bool) -> NumOut
    decreases text.len() - p.i,
{
    if 0 <= p.i < text.len() && is_digit(text[p.i]) {
        let d = digit_val(text[p.i]);
        if !dot {
            scan_num(text, lex_adv(text, p), clamp10(m, d), s, dot)
        } else if s < SCALE_MAX && 10 * m + d <= MANT_MAX {
            scan_num(text, lex_adv(text, p), 10 * m + d, s + 1, dot)
        } else {
            scan_num(text, lex_adv(text, p), m, s, dot)
        }
    } else if 0 <= p.i < text.len() && text[p.i] == '.' && !dot {
        scan_num(text, lex_adv(text, p), m, s, true)
    } else {
        NumOut { st: p, m, s, dot }
    }
}

pub proof fn lemma_scan_num_ge(text: Seq<char>, p: LexPos, m: nat, s: nat, dot: bool)
    requires
        m <= MANT_MAX,
    ensures
        scan_num(text, p, m, s, dot).st.i >= p.i,
        p.i <= text.len() ==> scan_num(text, p, m, s, dot).st.i <= text.len(),
        scan_num(text, p, m, s, dot).m <= MANT_MAX,
        scan_num(text, p, m, s, dot).s <= SCALE_MAX || (s > SCALE_MAX && scan_num(
            text,
            p,
            m,
            s,
            dot,
        ).s == s),
    decreases text.len() - p.i,
{
    if 0 <= p.i < text.len() && is_digit(text[p.i]) {
        let d = digit_val(text[p.i]);
        if !dot {
            lemma_scan_num_ge(text, lex_adv(text, p), clamp10(m, d), s, dot);
        } else if s < SCALE_MAX && 10 * m + d <= MANT_MAX {
            lemma_scan_num_ge(text, lex_adv(text, p), 10 * m + d, s + 1, dot);
        } else {
            lemma_scan_num_ge(text, lex_adv(text, p), m, s, dot);
        }
    } else if 0 <= p.i < text.len() && text[p.i] == '.' && !dot {
        lemma_scan_num_ge(text, lex_adv(text, p), m, s, true);
    }
}

/// The state after a string scan.
pub struct StrOut {
    pub st: LexPos,
    pub body: Seq<char>,
    pub ok: bool,
}

/// Scan to the closing delimiter, collecting the raw body. `ok` is false
/// when the text ends first.
pub open spec fn scan_str(text: Seq<char>, p: LexPos, end: char) -> StrOut
    decreases text.len() - p.i,
{
    if p.i < 0 || p.i >= text.len() {
        StrOut { st: p, body: Seq::empty(), ok: false }
    } else if text[p.i] == end {
        StrOut { st: lex_adv(text, p), body: Seq::empty(), ok: true }
    } else {
        let r = scan_str(text, lex_adv(text, p), end);
        StrOut { st: r.st, body: seq![text[p.i]] + r.body, ok: r.ok }
    }
}

pub proof fn lemma_scan_str_ge(text: Seq<char>, p: LexPos, end: char)
    ensures
        scan_str(text, p, end).st.i >= p.i,
        p.i <= text.len() ==> scan_str(text, p, end).st.i <= text.len(),
    decreases text.len() - p.i,
{
    if 0 <= p.i < text.len() && text[p.i] != end {
        lemma_scan_str_ge(text, lex_adv(text, p), end);
    }
}

/// The body with embedded line breaks removed, from index `i` on.
pub open spec fn strip_nl(s: Seq<char>, i: int) -> Seq<char>
    decreases s.len() - i,
{
    if i < 0 || i >= s.len() {
        Seq::empty()
    } else if s[i] == '\n' || s[i] == '\r' {
        strip_nl(s, i + 1)
    } else {
        seq![s[i]] + strip_nl(s, i + 1)
    }
}

/// The body with the escapes `\n`, `\t`, `\r` expanded, from index `i` on.
pub open spec fn expand_esc(s: Seq<char>, i: int) -> Seq<char>
    decreases s.len() - i,
{
    if i < 0 || i >= s.len() {
        Seq::empty()
    } else if i + 1 < s.len() && s[i] == '\\' && s[i + 1] == 'n' {
        seq!['\n'] + expand_esc(s, i + 2)
    } else if i + 1 < s.len() && s[i] == '\\' && s[i + 1] == 't' {
        seq!['\t'] + expand_esc(s, i + 2)
    } else if i + 1 < s.len() && s[i] == '\\' && s[i + 1] == 'r' {
        seq!['\r'] + expand_esc(s, i + 2)
    } else {
        seq![s[i]] + expand_esc(s, i + 1)
    }
}

/// The state after a word scan.
pub struct WordOut {
    pub st: LexPos,
    pub w: Seq<char>,
}

/// Scan a maximal run of characters that are neither whitespace nor
/// reserved.
pub open spec fn scan_word(text: Seq<char>, p: LexPos) -> WordOut
    decreases text.len() - p.i,
{
    if 0 <= p.i < text.len() && !is_ws(text[p.i]) && !is_symbol(text[p.i]) {
        let r = scan_word(text, lex_adv(text, p));
        WordOut { st: r.st, w: seq![text[p.i]] + r.w }
    } else {
        WordOut { st: p, w: Seq::empty() }
    }
}

pub proof fn lemma_scan_word_ge(text: Seq<char>, p: LexPos)
    ensures
        scan_word(text, p).st.i >= p.i,
        p.i <= text.len() ==> scan_word(text, p).st.i <= text.len(),
    decreases text.len() - p.i,
{
    if 0 <= p.i < text.len() && !is_ws(text[p.i]) && !is_symbol(text[p.i]) {
        lemma_scan_word_ge(text, lex_adv(text, p));
    }
}

/// The token a finished word stands for: a reserved keyword or a plain
/// word.
pub open spec fn kw_token(w: Seq<char>) -> STk {
    if w == "null"@ {
        STk::Null
    } else if w == "_"@ {
        STk::Wildcard
    } else if w == "true"@ {
        STk::Bool(true)
    } else if w == "false"@ {
        STk::Bool(false)
    } else if w == "undefined"@ {
        STk::Type(crate::model::STy::Undefined)
    } else if w == "any"@ {
        STk::Type(crate::model::STy::Any)
    } else if w == "int"@ {
        STk::Type(crate::model::STy::Int)
    } else if w == "float"@ {
        STk::Type(crate::model::STy::Float)
    } else if w == "bool"@ {
        STk::Type(crate::model::STy::Bool)
    } else if w == "str"@ {
        STk::Type(crate::model::STy::Str)
    } else if w == "nativ-function"@ {
        STk::Type(crate::model::STy::NativFunction)
    } else if w == "function"@ {
        STk::Type(crate::model::STy::Function)
    } else if w == "addr"@ {
        STk::Type(crate::model::STy::Addr)
    } else if w == "closure"@ {
        STk::Type(crate::model::STy::Closure)
    } else if w == "pattern"@ {
        STk::Type(crate::model::STy::Pattern)
    } else if w == "type"@ {
        STk::Type(crate::model::STy::Type)
    } else {
        STk::Word(w)
    }
}

/// The span from `a` to `b`.
pub open spec fn spec_pos(a: LexPos, b: LexPos) -> Position {
    Position { ls: a.ln as usize, le: b.ln as usize, cs: a.col as usize, ce: b.col as usize }
}

/// The result of one scanner step.
pub struct LexOut {
    pub st: LexPos,
    pub r: Result<Option<STok>, SErr>,
}

/// One scanner step: past trivia, then the next token, the end of the
/// text, or an unterminated string.
pub open spec fn spec_next(text: Seq<char>, p: LexPos) -> LexOut {
    let t = skip_trivia(text, p);
    if t.i < 0 || t.i >= text.len() {
        LexOut { st: t, r: Ok(None) }
    } else {
        let c = text[t.i];
        if is_digit(c) {
            let n = scan_num(text, t, 0, 0, false);
            let tok = if n.dot {
                STk::Float(fl_make(false, n.m, n.s))
            } else {
                STk::Int(n.m as i64)
            };
            LexOut { st: n.st, r: Ok(Some(STok { t: tok, pos: spec_pos(t, n.st) })) }
        } else if c == '"' || c == '\'' {
            let sc = scan_str(text, lex_adv(text, t), c);
            if !sc.ok {
                LexOut { st: sc.st, r: Err(SErr::Char(seq![c])) }
            } else {
                let keep = 0 <= sc.st.i < text.len() && text[sc.st.i] == 'n';
                let fin = if keep {
                    lex_adv(text, sc.st)
                } else {
                    sc.st
                };
                let body = if keep {
                    sc.body
                } else {
                    strip_nl(sc.body, 0)
                };
                LexOut {
                    st: fin,
                    r: Ok(
                        Some(
                            STok { t: STk::Str(expand_esc(body, 0)), pos: spec_pos(t, fin) },
                        ),
                    ),
                }
            }
        } else if is_symbol(c) && c != '"' && c != '\'' {
            let q = lex_adv(text, t);
            let tok = if c == '@' {
                STk::Addr
            } else if c == '%' {
                STk::Arg
            } else if c == '#' {
                STk::Closure
            } else if c == ';' {
                STk::End
            } else if c == '(' {
                STk::EvalIn
            } else if c == ')' {
                STk::EvalOut
            } else if c == '{' {
                STk::BodyIn
            } else if c == '}' {
                STk::BodyOut
            } else if c == '<' {
                STk::PattIn
            } else if c == '>' {
                STk::PattOut
            } else if c == '[' {
                STk::VecIn
            } else {
                STk::VecOut
            };
            LexOut { st: q, r: Ok(Some(STok { t: tok, pos: spec_pos(t, q) })) }
        } else {
            let wr = scan_word(text, t);
            LexOut {
                st: wr.st,
                r: Ok(Some(STok { t: kw_token(wr.w), pos: spec_pos(t, wr.st) })),
            }
        }
    }
}

/// Every token step moves forward.
pub proof fn lemma_next_progress(text: Seq<char>, p: LexPos)
    requires
        p.i >= 0,
    ensures
        spec_next(text, p).st.i >= p.i,
        p.i <= text.len() ==> spec_next(text, p).st.i <= text.len(),
        (spec_next(text, p).r matches Ok(Some(_))) ==> spec_next(text, p).st.i > p.i,
{
    lemma_skip_trivia_ge(text, p);
    let t = skip_trivia(text, p);
    if 0 <= t.i < text.len() {
        let c = text[t.i];
        if is_digit(c) {
            lemma_scan_num_ge(text, t, 0, 0, false);
            assert(scan_num(text, t, 0, 0, false).st.i >= lex_adv(text, t).i) by {
                lemma_scan_num_ge(text, lex_adv(text, t), clamp10(0, digit_val(c)), 0, false);
            }
        } else if c == '"' || c == '\'' {
            lemma_scan_str_ge(text, lex_adv(text, t), c);
        } else if is_symbol(c) {
        } else {
            lemma_skip_trivia_stop(text, p);
            lemma_scan_word_ge(text, lex_adv(text, t));
        }
    }
}

/// The whole token stream from `p` on.
pub open spec fn spec_lex(text: Seq<char>, p: LexPos) -> Result<Seq<STok>, SErr>
    decreases text.len() - p.i + 1,
{
    let o = spec_next(text, p);
    match o.r {
        Err(e) => Err(e),
        Ok(None) => Ok(Seq::empty()),
        Ok(Some(tok)) => if p.i < o.st.i && o.st.i <= text.len() {
            match spec_lex(text, o.st) {
                Ok(rest) => Ok(seq![tok] + rest),
                Err(e) => Err(e),
            }
        } else {
            Ok(seq![tok])
        },
    }
}

/// A token stream with tokens already taken prepended to what remains.
pub open spec fn lex_prepend(pre: Seq<STok>, r: Result<Seq<STok>, SErr>) -> Result<
    Seq<STok>,
    SErr,
> {
    match r {
        Ok(rest) => Ok(pre + rest),
        Err(e) => Err(e),
    }
}

/// The model of one scanner step's result.
pub open spec fn lex_res_view(r: Result<Option<Token>, E>) -> Result<Option<STok>, SErr> {
    match r {
        Ok(Some(tok)) => Ok(Some(token_view(tok))),
        Ok(None) => Ok(None),
        Err(e) => Err(e_view(e)),
    }
}

/// The scanner state: the text and a place in it.
pub struct Lexer {
    pub text: Vec<char>,
    pub idx: usize,
    pub ln: usize,
    pub col: usize,
}

/// The scanner never leaves the text, and lines and columns never run
/// ahead of the index.
pub open spec fn lexer_wf(l: Lexer) -> bool {
    l.idx <= l.text@.len() && l.ln <= l.idx && l.col <= l.idx
}

/// The place the scanner stands at.
pub open spec fn lexer_pos(l: Lexer) -> LexPos {
    LexPos { i: l.idx as int, ln: l.ln as int, col: l.col as int }
}

/// Whitespace between tokens (executable).
fn is_ws_exec(c: char) -> (r: bool)
    ensures
        r == is_ws(c),
{
    c == ' ' || c == '\n' || c == '\r' || c == '\t'
}

/// A decimal digit (executable).
fn is_digit_exec(c: char) -> (r: bool)
    ensures
        r == is_digit(c),
{
    c == '0' || c == '1' || c == '2' || c == '3' || c == '4' || c == '5' || c == '6' || c == '7'
        || c == '8' || c == '9'
}

/// A reserved single character (executable).
fn is_symbol_exec(c: char) -> (r: bool)
    ensures
        r == is_symbol(c),
{
    c == '(' || c == ')' || c == '{' || c == '}' || c == '<' || c == '>' || c == '[' || c == ']'
        || c == '@' || c == '%' || c == '#' || c == '"' || c == '\'' || c == ';'
}

/// The value of a digit character (executable).
fn digit_val_exec(c: char) -> (r: u64)
    ensures
        r as nat == digit_val(c),
        r <= 9,
{
    if c == '0' {
        0
    } else if c == '1' {
        1
    } else if c == '2' {
        2
    } else if c == '3' {
        3
    } else if c == '4' {
        4
    } else if c == '5' {
        5
    } else if c == '6' {
        6
    } else if c == '7' {
        7
    } else if c == '8' {
        8
    } else {
        9
    }
}

impl Lexer {
    /// A scanner at the start of `text`.
    pub fn new(text: &String) -> (r: Lexer)
        ensures
            r.text@ == text@,
            lexer_pos(r) == (LexPos { i: 0, ln: 0, col: 0 }),
            lexer_wf(r),
    {
        Lexer { text: string_to_chars(text), idx: 0, ln: 0, col: 0 }
    }

    /// The character under the scanner, if any.
    pub fn char(&self) -> (r: Option<char>)
        ensures
            self.idx < self.text@.len() ==> r == Some(self.text@[self.idx as int]),
            self.idx >= self.text@.len() ==> r is None,
    {
        if self.idx < self.text.len() {
            Some(self.text[self.idx])
        } else {
            None
        }
    }

    /// One step forward.
    pub fn advance(&mut self)
        requires
            lexer_wf(*old(self)),
            old(self).idx < old(self).text@.len(),
        ensures
            lexer_wf(*final(self)),
            final(self).text == old(self).text,
            lexer_pos(*final(self)) == lex_adv(old(self).text@, lexer_pos(*old(self))),
    {
        let n = self.text.len();
        if self.text[self.idx] == '\n' {
            self.ln = self.ln + 1;
            self.col = 0;
            self.idx = self.idx + 1;
        } else {
            self.idx = self.idx + 1;
            self.col = self.col + 1;
        }
    }

    /// The line and column the scanner stands at.
    pub fn pos(&self) -> (r: (usize, usize))
        ensures
            r.0 == self.ln,
            r.1 == self.col,
    {
        (self.ln, self.col)
    }

    /// Step past whitespace.
    fn skip_ws_m(&mut self)
        requires
            lexer_wf(*old(self)),
        ensures
            lexer_wf(*final(self)),
            final(self).text == old(self).text,
            lexer_pos(*final(self)) == skip_ws(old(self).text@, lexer_pos(*old(self))),
    {
        while self.idx < self.text.len() && is_ws_exec(self.text[self.idx])
            invariant
                lexer_wf(*self),
                self.text == old(self).text,
                skip_ws(self.text@, lexer_pos(*self)) == skip_ws(
                    old(self).text@,
                    lexer_pos(*old(self)),
                ),
            decreases self.text@.len() - self.idx,
        {
            self.advance();
        }
    }

    /// Step past the rest of the line and its break.
    fn skip_line_m(&mut self)
        requires
            lexer_wf(*old(self)),
        ensures
            lexer_wf(*final(self)),
            final(self).text == old(self).text,
            lexer_pos(*final(self)) == skip_line(old(self).text@, lexer_pos(*old(self))),
    {
        while self.idx < self.text.len() && self.text[self.idx] != '\n'
            invariant
                lexer_wf(*self),
                self.text == old(self).text,
                skip_line(self.text@, lexer_pos(*self)) == skip_line(
                    old(self).text@,
                    lexer_pos(*old(self)),
                ),
            decreases self.text@.len() - self.idx,
        {
            self.advance();
        }
        if self.idx < self.text.len() {
            self.advance();
        }
    }

    /// Step past whitespace and comments.
    fn skip_trivia_m(&mut self)
        requires
            lexer_wf(*old(self)),
        ensures
            lexer_wf(*final(self)),
            final(self).text == old(self).text,
            lexer_pos(*final(self)) == skip_trivia(old(self).text@, lexer_pos(*old(self))),
        decreases old(self).text@.len() - old(self).idx,
    {
        let ghost p0 = lexer_pos(*old(self));
        self.skip_ws_m();
        if self.idx < self.text.len() && self.text[self.idx] == '$' {
            proof {
                lemma_skip_ws_ge(self.text@, p0);
            }
            self.advance();
            let ghost pa = lexer_pos(*self);
            self.skip_line_m();
            proof {
                lemma_skip_line_ge(self.text@, pa);
            }
            self.skip_trivia_m();
        }
    }
}

/// The next clamped magnitude, as machine words.
fn clamp10_exec(m: u64, d: u64) -> (r: u64)
    requires
        m <= MANT_MAX,
        d <= 9,
    ensures
        r as nat == clamp10(m as nat, d as nat),
        r <= MANT_MAX,
{
    let t: u128 = m as u128 * 10 + d as u128;
    if t > MANT_MAX as u128 {
        MANT_MAX
    } else {
        t as u64
    }
}

/// The body with embedded line breaks removed (executable).
fn strip_nl_exec(s: &Vec<char>) -> (r: Vec<char>)
    ensures
        r@ == strip_nl(s@, 0),
{
    let mut out: Vec<char> = Vec::new();
    let mut j: usize = 0;
    while j < s.len()
        invariant
            j <= s@.len(),
            strip_nl(s@, 0) == out@ + strip_nl(s@, j as int),
        decreases s@.len() - j,
    {
        let c = s[j];
        let ghost out0 = out@;
        if c != '\n' && c != '\r' {
            out.push(c);
            proof {
                assert(out0 + strip_nl(s@, j as int) =~= out@ + strip_nl(s@, j + 1));
            }
        } else {
            proof {
                assert(out0 + strip_nl(s@, j as int) =~= out@ + strip_nl(s@, j + 1));
            }
        }
        j = j + 1;
    }
    proof {
        assert(out@ + strip_nl(s@, s@.len() as int) =~= out@);
    }
    out
}

/// The body with the escapes expanded (executable).
fn expand_esc_exec(s: &Vec<char>) -> (r: Vec<char>)
    ensures
        r@ == expand_esc(s@, 0),
{
    let mut out: Vec<char> = Vec::new();
    let mut j: usize = 0;
    while j < s.len()
        invariant
            j <= s@.len(),
            expand_esc(s@, 0) == out@ + expand_esc(s@, j as int),
        decreases s@.len() - j,
    {
        let c = s[j];
        let ghost out0 = out@;
        let ghost j0 = j as int;
        if j + 1 < s.len() && c == '\\' && s[j + 1] == 'n' {
            out.push('\n');
            j = j + 2;
        } else if j + 1 < s.len() && c == '\\' && s[j + 1] == 't' {
            out.push('\t');
            j = j + 2;
        } else if j + 1 < s.len() && c == '\\' && s[j + 1] == 'r' {
            out.push('\r');
            j = j + 2;
        } else {
            out.push(c);
            j = j + 1;
        }
        proof {
            assert(out0 + expand_esc(s@, j0) =~= out@ + expand_esc(s@, j as int));
        }
    }
    proof {
        assert(out@ + expand_esc(s@, s@.len() as int) =~= out@);
    }
    out
}

impl Lexer {
    /// The next token, the end of the text, or an unterminated string.
    pub fn next(&mut self) -> (r: Result<Option<Token>, E>)
        requires
            lexer_wf(*old(self)),
        ensures
            lexer_wf(*final(self)),
            final(self).text == old(self).text,
            lexer_pos(*final(self)) == spec_next(old(self).text@, lexer_pos(*old(self))).st,
            lex_res_view(r) == spec_next(old(self).text@, lexer_pos(*old(self))).r,
            r matches Ok(Some(tk)) ==> stok_wf(token_view(tk)),
    {
        self.skip_trivia_m();
        let ghost t = lexer_pos(*self);
        if self.idx >= self.text.len() {
            return Ok(None);
        }
        let ln0 = self.ln;
        let col0 = self.col;
        let c = self.text[self.idx];
        if is_digit_exec(c) {
            let mut m: u64 = 0;
            let mut s: u32 = 0;
            let mut dot = false;
            while self.idx < self.text.len() && (is_digit_exec(self.text[self.idx]) || (
            self.text[self.idx] == '.' && !dot))
                invariant
                    lexer_wf(*self),
                    self.text == old(self).text,
                    m <= MANT_MAX,
                    s <= SCALE_MAX,
                    scan_num(self.text@, lexer_pos(*self), m as nat, s as nat, dot) == scan_num(
                        self.text@,
                        t,
                        0,
                        0,
                        false,
                    ),
                decreases self.text@.len() - self.idx,
            {
                let ch = self.text[self.idx];
                if is_digit_exec(ch) {
                    let d = digit_val_exec(ch);
                    if !dot {
                        m = clamp10_exec(m, d);
                    } else {
                        if s < SCALE_MAX {
                            let tt: u128 = m as u128 * 10 + d as u128;
                            if tt <= MANT_MAX as u128 {
                                m = tt as u64;
                                s = s + 1;
                            }
                        }
                    }
                } else {
                    dot = true;
                }
                self.advance();
            }
            if dot {
                let f = fl_make_exec(false, m as u128, s);
                return Ok(
                    Some(Token(T::Float(f), Position::new(ln0, self.ln, col0, self.col))),
                );
            }
            return Ok(
                Some(Token(T::Int(m as i64), Position::new(ln0, self.ln, col0, self.col))),
            );
        }
        if c == '"' || c == '\'' {
            self.advance();
            let ghost pa = lexer_pos(*self);
            let mut body: Vec<char> = Vec::new();
            while self.idx < self.text.len() && self.text[self.idx] != c
                invariant
                    lexer_wf(*self),
                    self.text == old(self).text,
                    scan_str(self.text@, pa, c) == (StrOut {
                        st: scan_str(self.text@, lexer_pos(*self), c).st,
                        body: body@ + scan_str(self.text@, lexer_pos(*self), c).body,
                        ok: scan_str(self.text@, lexer_pos(*self), c).ok,
                    }),
                decreases self.text@.len() - self.idx,
            {
                let ch = self.text[self.idx];
                let ghost b0 = body@;
                let ghost pc = lexer_pos(*self);
                body.push(ch);
                self.advance();
                proof {
                    let rr = scan_str(self.text@, lexer_pos(*self), c);
                    assert(b0 + (seq![ch] + rr.body) =~= body@ + rr.body);
                }
            }
            if self.idx >= self.text.len() {
                let mut cv: Vec<char> = Vec::new();
                cv.push(c);
                proof {
                    assert(cv@ =~= seq![c]);
                }
                return Err(E::Char(chars_to_string(&cv)));
            }
            self.advance();
            let mut keep = false;
            if self.idx < self.text.len() {
                if self.text[self.idx] == 'n' {
                    keep = true;
                    self.advance();
                }
            }
            let body2 = if keep {
                body
            } else {
                strip_nl_exec(&body)
            };
            let body3 = expand_esc_exec(&body2);
            return Ok(
                Some(
                    Token(
                        T::Str(chars_to_string(&body3)),
                        Position::new(ln0, self.ln, col0, self.col),
                    ),
                ),
            );
        }
        if is_symbol_exec(c) {
            self.advance();
            let tk = if c == '@' {
                T::Addr
            } else if c == '%' {
                T::Arg
            } else if c == '#' {
                T::Closure
            } else if c == ';' {
                T::End
            } else if c == '(' {
                T::EvalIn
            } else if c == ')' {
                T::EvalOut
            } else if c == '{' {
                T::BodyIn
            } else if c == '}' {
                T::BodyOut
            } else if c == '<' {
                T::PattIn
            } else if c == '>' {
                T::PattOut
            } else if c == '[' {
                T::VecIn
            } else {
                T::VecOut
            };
            return Ok(Some(Token(tk, Position::new(ln0, self.ln, col0, self.col))));
        }
        let mut w: Vec<char> = Vec::new();
        while self.idx < self.text.len() && !is_ws_exec(self.text[self.idx]) && !is_symbol_exec(
        self.text[self.idx])
            invariant
                lexer_wf(*self),
                self.text == old(self).text,
                scan_word(self.text@, t) == (WordOut {
                    st: scan_word(self.text@, lexer_pos(*self)).st,
                    w: w@ + scan_word(self.text@, lexer_pos(*self)).w,
                }),
            decreases self.text@.len() - self.idx,
        {
            let ch = self.text[self.idx];
            let ghost w0 = w@;
            w.push(ch);
            self.advance();
            proof {
                let rr = scan_word(self.text@, lexer_pos(*self));
                assert(w0 + (seq![ch] + rr.w) =~= w@ + rr.w);
            }
        }
        proof {
            assert(w@ + Seq::<char>::empty() =~= w@);
        }
        let tk = if chars_eq_str(&w, "null") {
            T::Null
        } else if chars_eq_str(&w, "_") {
            T::Wildcard
        } else if chars_eq_str(&w, "true") {
            T::Bool(true)
        } else if chars_eq_str(&w, "false") {
            T::Bool(false)
        } else if chars_eq_str(&w, "undefined") {
            T::Type(Type::Undefined)
        } else if chars_eq_str(&w, "any") {
            T::Type(Type::Any)
        } else if chars_eq_str(&w, "int") {
            T::Type(Type::Int)
        } else if chars_eq_str(&w, "float") {
            T::Type(Type::Float)
        } else if chars_eq_str(&w, "bool") {
            T::Type(Type::Bool)
        } else if chars_eq_str(&w, "str") {
            T::Type(Type::Str)
        } else if chars_eq_str(&w, "nativ-function") {
            T::Type(Type::NativFunction)
        } else if chars_eq_str(&w, "function") {
            T::Type(Type::Function)
        } else if chars_eq_str(&w, "addr") {
            T::Type(Type::Addr)
        } else if chars_eq_str(&w, "closure") {
            T::Type(Type::Closure)
        } else if chars_eq_str(&w, "pattern") {
            T::Type(Type::Pattern)
        } else if chars_eq_str(&w, "type") {
            T::Type(Type::Type)
        } else {
            T::Word(chars_to_string(&w))
        };
        Ok(Some(Token(tk, Position::new(ln0, self.ln, col0, self.col))))
    }
}

/// The token stream of `text`, or the error of an unterminated string.
pub fn lex(text: &String) -> (r: Result<Vec<Token>, E>)
    ensures
        ({
            let full = spec_lex(text@, LexPos { i: 0, ln: 0, col: 0 });
            match r {
                Ok(toks) => full == Ok::<Seq<STok>, SErr>(toks_view(toks@)) && stoks_wf(
                    toks_view(toks@),
                ),
                Err(e) => full == Err::<Seq<STok>, SErr>(e_view(e)),
            }
        }),
{
    let mut lexer = Lexer::new(text);
    let mut tokens: Vec<Token> = Vec::new();
    loop
        invariant
            lexer_wf(lexer),
            lexer.text@ == text@,
            spec_lex(text@, LexPos { i: 0, ln: 0, col: 0 }) == lex_prepend(
                toks_view(tokens@),
                spec_lex(text@, lexer_pos(lexer)),
            ),
            stoks_wf(toks_view(tokens@)),
        decreases text@.len() - lexer.idx,
    {
        let ghost p = lexer_pos(lexer);
        let tok = lexer.next();
        proof {
            lemma_next_progress(text@, p);
        }
        match tok {
            Err(e) => {
                return Err(e);
            },
            Ok(None) => {
                proof {
                    lemma_toks_view(tokens@);
                    assert(toks_view(tokens@) + Seq::<STok>::empty() =~= toks_view(tokens@));
                }
                return Ok(tokens);
            },
            Ok(Some(tk)) => {
                let ghost pre = toks_view(tokens@);
                let ghost toks0 = tokens@;
                let ghost tkv = token_view(tk);
                tokens.push(tk);
                proof {
                    lemma_toks_push(toks0, tokens@.last());
                    assert(stoks_wf(toks_view(tokens@))) by {
                        lemma_toks_view(tokens@);
                        lemma_toks_view(toks0);
                        assert(forall|i: int|
                            0 <= i < toks_view(tokens@).len() ==> #[trigger] stok_wf(
                                toks_view(tokens@)[i],
                            )) by {
                            assert(forall|i: int|
                                0 <= i < toks_view(toks0).len() ==> #[trigger] stok_wf(
                                    toks_view(toks0)[i],
                                ));
                            assert(toks_view(tokens@) == toks_view(toks0) + seq![tkv]);
                            assert(stok_wf(tkv));
                        }
                    }
                    let rest = spec_lex(text@, lexer_pos(lexer));
                    match rest {
                        Ok(rs) => {
                            assert(pre + (seq![tkv] + rs) =~= (pre + seq![tkv]) + rs);
                        },
                        Err(_) => {},
                    }
                }
            },
        }
    }
}

/// Pushing one token extends the list view by its model.
pub proof fn lemma_toks_push(toks: Seq<Token>, tk: Token)
    ensures
        toks_view(toks.push(tk)) == toks_view(toks) + seq![token_view(tk)],
{
    lemma_toks_view(toks);
    lemma_toks_view(toks.push(tk));
    assert(toks_view(toks.push(tk)) =~= toks_view(toks) + seq![token_view(tk)]);
}

/// Well-formedness of a token: a float literal in it is canonical.
pub open spec fn stok_wf(t: STok) -> bool {
    match t.t {
        STk::Float(f) => fl_wf(f),
        _ => true,
    }
}

/// Well-formedness of every token of the stream.
pub open spec fn stoks_wf(toks: Seq<STok>) -> bool {
    forall|i: int| 0 <= i < toks.len() ==> #[trigger] stok_wf(toks[i])
}

impl T {
    /// An exact copy.
    pub fn dup(&self) -> (r: T)
        ensures
            t_view(r) == t_view(*self),
    {
        match self {
            T::NO => T::NO,
            T::EvalIn => T::EvalIn,
            T::EvalOut => T::EvalOut,
            T::BodyIn => T::BodyIn,
            T::BodyOut => T::BodyOut,
            T::PattIn => T::PattIn,
            T::PattOut => T::PattOut,
            T::VecIn => T::VecIn,
            T::VecOut => T::VecOut,
            T::Addr => T::Addr,
            T::Arg => T::Arg,
            T::Closure => T::Closure,
            T::End => T::End,
            T::Null => T::Null,
            T::Wildcard => T::Wildcard,
            T::Word(w) => T::Word(w.clone()),
            T::Int(i) => T::Int(*i),
            T::Float(f) => T::Float(*f),
            T::Bool(b) => T::Bool(*b),
            T::Str(s) => T::Str(s.clone()),
            T::Type(t) => T::Type(t.dup()),
        }
    }
}

impl Token {
    /// An exact copy.
    pub fn dup(&self) -> (r: Token)
        ensures
            token_view(r) == token_view(*self),
    {
        Token(self.0.dup(), self.1)
    }
}

/// An exact copy of a list of tokens.
pub fn toks_dup(toks: &Vec<Token>) -> (r: Vec<Token>)
    ensures
        toks_view(r@) == toks_view(toks@),
        r@.len() == toks@.len(),
{
    let mut r: Vec<Token> = Vec::new();
    let mut i: usize = 0;
    while i < toks.len()
        invariant
            i <= toks@.len(),
            r@.len() == i,
            forall|k: int| 0 <= k < i ==> token_view(r@[k]) == token_view(toks@[k]),
        decreases toks@.len() - i,
    {
        let d = toks[i].dup();
        r.push(d);
        i = i + 1;
    }
    proof {
        lemma_toks_view(toks@);
        lemma_toks_view(r@);
        assert(toks_view(r@) =~= toks_view(toks@));
    }
    r
}

} // verus!
