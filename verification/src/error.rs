//! The error sum of every phase, and its rendering.

use vstd::prelude::*;
use crate::model::{SErr, STk, SCtx};
use crate::position::Position;
use crate::context::Context;
use crate::decimal::dec_digits;
use crate::values::{Type, V, ty_view, v_view};
use crate::lexer::{T, t_view};

verus! {

/// An error of the lexer, the parser or the evaluator. `Depth` reports an
/// exhausted evaluation budget (the evaluator bounds its recursion).
#[derive(Debug)]
pub enum E {
    TargetNotFound(String),
    FileNotFound(String),
    Char(String),
    UnexpectedToken(T),
    HeadOperation(V),
    ExpectedType { typ: Type, recv_typ: Type },
    NotDefined(String),
    AlreadyDefined(String),
    Immutable(String),
    BinaryOperation { type1: Type, type2: Type },
    UnaryOperation(Type),
    PatternMissmatch { pattern1: V, pattern2: V },
    ExpectedLen { len: usize, recv_len: usize },
    AssertError,
    Depth,
}

/// The model of an error.
pub open spec fn e_view(e: E) -> SErr {
    match e {
        E::TargetNotFound(p) => SErr::TargetNotFound(p@),
        E::FileNotFound(p) => SErr::FileNotFound(p@),
        E::Char(s) => SErr::Char(s@),
        E::UnexpectedToken(t) => SErr::UnexpectedToken(t_view(t)),
        E::HeadOperation(v) => SErr::HeadOperation(v_view(v)),
        E::ExpectedType { typ, recv_typ } => SErr::ExpectedType {
            typ: ty_view(typ),
            recv_typ: ty_view(recv_typ),
        },
        E::NotDefined(w) => SErr::NotDefined(w@),
        E::AlreadyDefined(w) => SErr::AlreadyDefined(w@),
        E::Immutable(w) => SErr::Immutable(w@),
        E::BinaryOperation { type1, type2 } => SErr::BinaryOperation {
            type1: ty_view(type1),
            type2: ty_view(type2),
        },
        E::UnaryOperation(t) => SErr::UnaryOperation(ty_view(t)),
        E::PatternMissmatch { pattern1, pattern2 } => SErr::PatternMissmatch {
            pattern1: v_view(pattern1),
            pattern2: v_view(pattern2),
        },
        E::ExpectedLen { len, recv_len } => SErr::ExpectedLen {
            len: len as int,
            recv_len: recv_len as int,
        },
        E::AssertError => SErr::AssertError,
        E::Depth => SErr::Depth,
    }
}

impl View for E {
    type V = SErr;

    open spec fn view(&self) -> SErr {
        e_view(*self)
    }
}

/// The message line of an error.
pub open spec fn show_err(e: SErr) -> Seq<char> {
    match e {
        SErr::TargetNotFound(p) => "ERROR: target file "@ + p + " could not be found"@,
        SErr::FileNotFound(p) => "ERROR: file "@ + p + " could not be found"@,
        SErr::Char(s) => "ERROR: bad character "@ + s,
        SErr::UnexpectedToken(t) => "ERROR: unexpected "@ + crate::lexer::spec_t_name(t),
        SErr::HeadOperation(v) => "ERROR: unexpected "@ + crate::display::show_ty(
            crate::values::sv_typ(v),
        ) + " as head operation"@,
        SErr::ExpectedType { typ, recv_typ } => "ERROR: expected type "@
            + crate::display::show_ty(typ) + " but got type "@ + crate::display::show_ty(
            recv_typ,
        ),
        SErr::NotDefined(w) => "ERROR: word "@ + w + " is not defined"@,
        SErr::AlreadyDefined(w) => "ERROR: word "@ + w + " is already defined"@,
        SErr::Immutable(w) => "ERROR: word "@ + w + " is immutable"@,
        SErr::BinaryOperation { type1, type2 } => "ERROR: illegal operation between type "@
            + crate::display::show_ty(type1) + " and type "@ + crate::display::show_ty(type2),
        SErr::UnaryOperation(t) => "ERROR: illegal operation on type "@
            + crate::display::show_ty(t),
        SErr::PatternMissmatch { pattern1, pattern2 } => "ERROR: pattern "@
            + crate::display::show_v(pattern1) + " does not match "@ + crate::display::show_v(
            pattern2,
        ),
        SErr::ExpectedLen { len, recv_len } => "ERROR: expected pattern to be at least of length "@
            + crate::decimal::spec_int_chars(len) + " not "@ + crate::decimal::spec_int_chars(
            recv_len,
        ),
        SErr::AssertError => "ERROR: assertion is false"@,
        SErr::Depth => "ERROR: the evaluation budget is exhausted"@,
    }
}

impl E {
    /// The message line of this error.
    pub fn message(&self) -> (r: String)
        requires
            err_wf(self@),
        ensures
            r@ == show_err(self@),
    {
        let mut out: Vec<char> = Vec::new();
        match self {
            E::TargetNotFound(p) => {
                crate::text::push_str_chars(&mut out, "ERROR: target file ");
                crate::text::push_string_chars(&mut out, p);
                crate::text::push_str_chars(&mut out, " could not be found");
            },
            E::FileNotFound(p) => {
                crate::text::push_str_chars(&mut out, "ERROR: file ");
                crate::text::push_string_chars(&mut out, p);
                crate::text::push_str_chars(&mut out, " could not be found");
            },
            E::Char(s) => {
                crate::text::push_str_chars(&mut out, "ERROR: bad character ");
                crate::text::push_string_chars(&mut out, s);
            },
            E::UnexpectedToken(t) => {
                crate::text::push_str_chars(&mut out, "ERROR: unexpected ");
                let n = t.name();
                crate::text::push_str_chars(&mut out, n);
            },
            E::HeadOperation(v) => {
                crate::text::push_str_chars(&mut out, "ERROR: unexpected ");
                let t = v.typ();
                crate::display::push_ty_chars(&t, &mut out);
                crate::text::push_str_chars(&mut out, " as head operation");
            },
            E::ExpectedType { typ, recv_typ } => {
                crate::text::push_str_chars(&mut out, "ERROR: expected type ");
                crate::display::push_ty_chars(typ, &mut out);
                crate::text::push_str_chars(&mut out, " but got type ");
                crate::display::push_ty_chars(recv_typ, &mut out);
            },
            E::NotDefined(w) => {
                crate::text::push_str_chars(&mut out, "ERROR: word ");
                crate::text::push_string_chars(&mut out, w);
                crate::text::push_str_chars(&mut out, " is not defined");
            },
            E::AlreadyDefined(w) => {
                crate::text::push_str_chars(&mut out, "ERROR: word ");
                crate::text::push_string_chars(&mut out, w);
                crate::text::push_str_chars(&mut out, " is already defined");
            },
            E::Immutable(w) => {
                crate::text::push_str_chars(&mut out, "ERROR: word ");
                crate::text::push_string_chars(&mut out, w);
                crate::text::push_str_chars(&mut out, " is immutable");
            },
            E::BinaryOperation { type1, type2 } => {
                crate::text::push_str_chars(&mut out, "ERROR: illegal operation between type ");
                crate::display::push_ty_chars(type1, &mut out);
                crate::text::push_str_chars(&mut out, " and type ");
                crate::display::push_ty_chars(type2, &mut out);
            },
            E::UnaryOperation(t) => {
                crate::text::push_str_chars(&mut out, "ERROR: illegal operation on type ");
                crate::display::push_ty_chars(t, &mut out);
            },
            E::PatternMissmatch { pattern1, pattern2 } => {
                crate::text::push_str_chars(&mut out, "ERROR: pattern ");
                crate::display::push_v_chars(pattern1, &mut out);
                crate::text::push_str_chars(&mut out, " does not match ");
                crate::display::push_v_chars(pattern2, &mut out);
            },
            E::ExpectedLen { len, recv_len } => {
                crate::text::push_str_chars(
                    &mut out,
                    "ERROR: expected pattern to be at least of length ",
                );
                push_usize_chars(*len, &mut out);
                crate::text::push_str_chars(&mut out, " not ");
                push_usize_chars(*recv_len, &mut out);
            },
            E::AssertError => {
                crate::text::push_str_chars(&mut out, "ERROR: assertion is false");
            },
            E::Depth => {
                crate::text::push_str_chars(&mut out, "ERROR: the evaluation budget is exhausted");
            },
        }
        crate::text::chars_to_string(&out)
    }
}

/// Well-formedness of an error: the value payloads its message writes
/// out are well formed.
pub open spec fn err_wf(e: SErr) -> bool {
    match e {
        SErr::HeadOperation(v) => crate::values::sv_wf(v),
        SErr::PatternMissmatch { pattern1, pattern2 } => crate::values::sv_wf(pattern1)
            && crate::values::sv_wf(pattern2),
        _ => true,
    }
}

/// Append the decimal digits of a machine word.
fn push_usize_chars(n: usize, out: &mut Vec<char>)
    ensures
        final(out)@ == old(out)@ + crate::decimal::spec_int_chars(n as int),
{
    crate::decimal::push_u64_chars(n as u64, out);
}

/// The characters of lines `ls..=le` of `text` (scanning from `i` on
/// line `ln`), joined as they stand, without the closing line's break.
pub open spec fn excerpt(text: Seq<char>, i: int, ln: int, ls: int, le: int) -> Seq<char>
    decreases text.len() - i,
{
    if i < 0 || i >= text.len() {
        Seq::empty()
    } else {
        let c = text[i];
        let keep = ls <= ln <= le && !(c == '\n' && ln == le);
        let nln: int = if c == '\n' {
            ln + 1
        } else {
            ln
        };
        (if keep {
            seq![c]
        } else {
            Seq::<char>::empty()
        }) + excerpt(text, i + 1, nln, ls, le)
    }
}

/// The rendering of one trace frame: where it points, and the lines of
/// the file it spans; a file the table does not hold renders as a bare
/// line break.
pub open spec fn frame_text(
    pos: Position,
    path: Seq<char>,
    files: Seq<(Seq<char>, Seq<char>)>,
) -> Seq<char> {
    match crate::semantics::file_lookup(files, path, 0) {
        Some(text) => if text.len() > 0 {
            path + ":"@ + dec_digits((pos.ls + 1) as nat) + ":"@ + dec_digits((pos.cs + 1) as nat)
                + " - "@ + dec_digits((pos.le + 1) as nat) + ":"@ + dec_digits(
                (pos.ce + 1) as nat,
            ) + "\n"@ + excerpt(text, 0, 0, pos.ls as int, pos.le as int) + "\n"@
        } else {
            "\n"@
        },
        None => "\n"@,
    }
}

/// The renderings of the trace frames from `i` on.
pub open spec fn frames_text(
    trace: Seq<(Position, Seq<char>)>,
    i: int,
    files: Seq<(Seq<char>, Seq<char>)>,
) -> Seq<char>
    decreases trace.len() - i,
{
    if i < 0 || i >= trace.len() {
        Seq::empty()
    } else {
        frame_text(trace[i].0, trace[i].1, files) + frames_text(trace, i + 1, files)
    }
}

/// The full rendering of an error against a context: its message line,
/// then every trace frame with the lines it spans.
pub open spec fn spec_display(e: SErr, c: SCtx) -> Seq<char> {
    show_err(e) + "\n"@ + frames_text(c.trace, 0, c.files)
}

impl E {
    /// The full rendering of this error against `context`: the message
    /// line, then each trace frame with the file lines it spans.
    pub fn display(&self, context: &Context) -> (r: String)
        requires
            err_wf(self@),
        ensures
            r@ == spec_display(self@, context@),
    {
        let msg = self.message();
        let mut out: Vec<char> = Vec::new();
        crate::text::push_string_chars(&mut out, &msg);
        crate::text::push_str_chars(&mut out, "\n");
        proof {
            crate::context::lemma_trace_view(context.trace@);
            crate::context::lemma_strs_view(context.files@);
        }
        let ghost tr = crate::context::trace_view(context.trace@);
        let ghost fls = crate::context::strs_view(context.files@);
        let ghost head = out@;
        let n = context.trace.len();
        let mut i: usize = 0;
        while i < n
            invariant
                n == context.trace@.len(),
                i <= n,
                tr == crate::context::trace_view(context.trace@),
                fls == crate::context::strs_view(context.files@),
                tr.len() == n,
                forall|k: int|
                    0 <= k < n ==> #[trigger] tr[k] == (
                    context.trace@[k].0,
                    context.trace@[k].1@,
                    ),
                head + frames_text(tr, 0, fls) == out@ + frames_text(tr, i as int, fls),
            decreases n - i,
        {
            let ghost out0 = out@;
            let pos = context.trace[i].0;
            let text = crate::context::files_find(&context.files, &context.trace[i].1);
            match text {
                Some(t) => {
                    if t.unicode_len() > 0 {
                        crate::text::push_string_chars(&mut out, &context.trace[i].1);
                        crate::text::push_str_chars(&mut out, ":");
                        crate::decimal::push_u128_chars(pos.ls as u128 + 1, &mut out);
                        crate::text::push_str_chars(&mut out, ":");
                        crate::decimal::push_u128_chars(pos.cs as u128 + 1, &mut out);
                        crate::text::push_str_chars(&mut out, " - ");
                        crate::decimal::push_u128_chars(pos.le as u128 + 1, &mut out);
                        crate::text::push_str_chars(&mut out, ":");
                        crate::decimal::push_u128_chars(pos.ce as u128 + 1, &mut out);
                        crate::text::push_str_chars(&mut out, "\n");
                        push_excerpt(&t, pos.ls, pos.le, &mut out);
                        crate::text::push_str_chars(&mut out, "\n");
                    } else {
                        crate::text::push_str_chars(&mut out, "\n");
                    }
                },
                None => {
                    crate::text::push_str_chars(&mut out, "\n");
                },
            }
            proof {
                assert(out@ =~= out0 + frame_text(tr[i as int].0, tr[i as int].1, fls));
                assert(out0 + (frame_text(tr[i as int].0, tr[i as int].1, fls) + frames_text(
                    tr,
                    i + 1,
                    fls,
                )) =~= out@ + frames_text(tr, i + 1, fls));
            }
            i = i + 1;
        }
        proof {
            assert(out@ + frames_text(tr, n as int, fls) =~= out@);
        }
        crate::text::chars_to_string(&out)
    }
}

/// Append the lines `ls..=le` of `text`.
fn push_excerpt(text: &String, ls: usize, le: usize, out: &mut Vec<char>)
    ensures
        final(out)@ == old(out)@ + excerpt(text@, 0, 0, ls as int, le as int),
{
    let s = text.as_str();
    let n = s.unicode_len();
    let mut i: usize = 0;
    let mut ln: u128 = 0;
    while i < n
        invariant
            n == text@.len(),
            s@ == text@,
            i <= n,
            ln <= i,
            out@ + excerpt(text@, i as int, ln as int, ls as int, le as int) == old(out)@
                + excerpt(text@, 0, 0, ls as int, le as int),
        decreases n - i,
    {
        let c = s.get_char(i);
        let lsw = ls as u128;
        let lew = le as u128;
        let keep = lsw <= ln && ln <= lew && !(c == '\n' && ln == lew);
        let ghost outp = out@;
        let ghost ln0 = ln as int;
        if keep {
            out.push(c);
        }
        if c == '\n' {
            ln = ln + 1;
        }
        proof {
            assert(outp + excerpt(text@, i as int, ln0, ls as int, le as int) =~= out@ + excerpt(
                text@,
                i + 1,
                ln as int,
                ls as int,
                le as int,
            ));
        }
        i = i + 1;
    }
    proof {
        assert(out@ + excerpt(text@, n as int, ln as int, ls as int, le as int) =~= out@);
    }
}

} // verus!
