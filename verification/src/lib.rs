//! Funx: a small homoiconic, S-expression-shaped scripting language.
//!
//! A source text is lexed into tokens, parsed into a tree of nodes, and
//! evaluated against a context that holds nested lexical scopes, an immutable
//! global scope, a table of loadable source files and an output buffer.
//! Every phase is specified by a mathematical model (`model`, `semantics`)
//! and the executable code is proved to follow it exactly.

use vstd::prelude::*;

pub mod position;
pub mod decimal;
pub mod model;
pub mod values;
pub mod parser;
pub mod text;
pub mod display;
pub mod error;
pub mod lexer;
pub mod context;
pub mod evaluator;
pub mod semantics;
pub mod laws;

use crate::values::V;
use crate::evaluator::R;
use crate::error::E;
use crate::context::{Context, sctx_wf, files_dup, funx_context};
use crate::model::{SV, SErr, SCtx};
use crate::semantics::{spec_run, spec_runfile, spec_runfile_core, res_eout, file_lookup};
use crate::lexer::lex;
use crate::parser::parse;

verus! {

/// Run a source text against a context: lex, parse, evaluate. An empty
/// token stream is a null run. The `path` parameter names the text only;
/// diagnostics use the context's own path.
pub fn run(path: &String, text: &String, context: &mut Context, fuel: u64) -> (r: Result<
    (V, R),
    E,
>)
    requires
        sctx_wf(old(context)@),
    ensures
        ({
            let o = spec_run(text@, old(context)@, fuel as nat);
            final(context)@ == o.c && sctx_wf(final(context)@) && res_eout(r, o.r)
        }),
    decreases fuel, 2int, 1int,
{
    let tokens = match lex(text) {
        Ok(t) => t,
        Err(e) => {
            return Err(e);
        },
    };
    if tokens.len() == 0 {
        return Ok((V::Null, R::Norm));
    }
    let node = match parse(&tokens, context) {
        Ok(n) => n,
        Err(e) => {
            return Err(e);
        },
    };
    crate::evaluator::get(&node, context, fuel)
}

/// Run the file named `path` from the context's file table.
pub fn runfile(path: &String, context: &mut Context, fuel: u64) -> (r: Result<(V, R), E>)
    requires
        sctx_wf(old(context)@),
    ensures
        ({
            let o = spec_runfile(path@, old(context)@, fuel as nat);
            final(context)@ == o.c && sctx_wf(final(context)@) && res_eout(r, o.r)
        }),
    decreases fuel, 3int, 0int,
{
    let text = crate::context::files_find(&context.files, path);
    match text {
        None => Err(E::FileNotFound(path.clone())),
        Some(t) => run(path, &t, context, fuel),
    }
}

/// Run the prelude file `std/core.funx`, then the file named `path`, in a
/// fresh context over the given file table; the final context carries the
/// collected output and any trace.
#[verifier::rlimit(100)]
pub fn runfile_core(path: &String, files: &Vec<(String, String)>, fuel: u64) -> (r: (
    Context,
    Result<(V, R), E>,
))
    ensures
        ({
            let o = spec_runfile_core(path@, crate::context::strs_view(files@), fuel as nat);
            r.0@ == o.c && sctx_wf(r.0@) && res_eout(r.1, o.r)
        }),
{
    let mut context = funx_context(path);
    context.files = files_dup(files);
    let core = String::from_str("std/core.funx");
    context.path = core.clone();
    let r1 = runfile(&core, &mut context, fuel);
    if let Err(e) = r1 {
        return (context, Err(e));
    }
    context.path = path.clone();
    let r2 = runfile(path, &mut context, fuel);
    (context, r2)
}

} // verus!
