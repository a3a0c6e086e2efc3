//! Scopes and the interpreter context.
//!
//! A scope holds named bindings in declaration order and the positional
//! arguments of the call that opened it; positional arguments are read
//! under their spelled-out index and shadow equally spelled names. The
//! context holds the scope stack (outermost first), the immutable global
//! scope, the current file path, the error trace, the table of loadable
//! files and the output collected so far.

use vstd::prelude::*;
use crate::decimal::dec_digits;
use crate::position::Position;
use crate::model::{SV, SScope, SCtx};
use crate::values::{V, Type, v_view, vs_view, lemma_vs_view, sv_wf, svs_wf};
use crate::error::E;
use crate::evaluator::R;
use crate::semantics::res_eout;
use crate::values::Nf;
use crate::text::chars_eq_str;

verus! {

/// One lexical scope.
#[derive(Debug)]
pub struct Scope {
    pub vars: Vec<(String, V)>,
    pub args: Vec<V>,
}

/// The models of a list of bindings.
pub open spec fn pairs_view(vars: Seq<(String, V)>) -> Seq<(Seq<char>, SV)>
    decreases vars, vars.len(),
{
    if vars.len() == 0 {
        Seq::empty()
    } else {
        seq![(vars[0].0@, v_view(vars[0].1))] + pairs_view(vars.drop_first())
    }
}

/// A list view indexes elementwise.
pub proof fn lemma_pairs_view(vars: Seq<(String, V)>)
    ensures
        pairs_view(vars).len() == vars.len(),
        forall|i: int|
            0 <= i < vars.len() ==> #[trigger] pairs_view(vars)[i] == (
            vars[i].0@,
            v_view(vars[i].1),
            ),
    decreases vars, vars.len(),
{
    if vars.len() > 0 {
        lemma_pairs_view(vars.drop_first());
    }
}

/// The model of a scope.
pub open spec fn scope_view(s: Scope) -> SScope {
    SScope { vars: pairs_view(s.vars@), args: vs_view(s.args@) }
}

impl View for Scope {
    type V = SScope;

    open spec fn view(&self) -> SScope {
        scope_view(*self)
    }
}

/// The models of a list of scopes.
pub open spec fn scopes_view(ss: Seq<Scope>) -> Seq<SScope>
    decreases ss, ss.len(),
{
    if ss.len() == 0 {
        Seq::empty()
    } else {
        seq![scope_view(ss[0])] + scopes_view(ss.drop_first())
    }
}

/// A list view indexes elementwise.
pub proof fn lemma_scopes_view(ss: Seq<Scope>)
    ensures
        scopes_view(ss).len() == ss.len(),
        forall|i: int|
            0 <= i < ss.len() ==> #[trigger] scopes_view(ss)[i] == scope_view(ss[i]),
    decreases ss, ss.len(),
{
    if ss.len() > 0 {
        lemma_scopes_view(ss.drop_first());
    }
}

/// The models of a list of text pairs.
pub open spec fn strs_view(ps: Seq<(String, String)>) -> Seq<(Seq<char>, Seq<char>)>
    decreases ps, ps.len(),
{
    if ps.len() == 0 {
        Seq::empty()
    } else {
        seq![(ps[0].0@, ps[0].1@)] + strs_view(ps.drop_first())
    }
}

/// A list view indexes elementwise.
pub proof fn lemma_strs_view(ps: Seq<(String, String)>)
    ensures
        strs_view(ps).len() == ps.len(),
        forall|i: int|
            0 <= i < ps.len() ==> #[trigger] strs_view(ps)[i] == (ps[i].0@, ps[i].1@),
    decreases ps, ps.len(),
{
    if ps.len() > 0 {
        lemma_strs_view(ps.drop_first());
    }
}

/// The models of a trace.
pub open spec fn trace_view(tr: Seq<(Position, String)>) -> Seq<(Position, Seq<char>)>
    decreases tr, tr.len(),
{
    if tr.len() == 0 {
        Seq::empty()
    } else {
        seq![(tr[0].0, tr[0].1@)] + trace_view(tr.drop_first())
    }
}

/// A list view indexes elementwise.
pub proof fn lemma_trace_view(tr: Seq<(Position, String)>)
    ensures
        trace_view(tr).len() == tr.len(),
        forall|i: int|
            0 <= i < tr.len() ==> #[trigger] trace_view(tr)[i] == (tr[i].0, tr[i].1@),
    decreases tr, tr.len(),
{
    if tr.len() > 0 {
        lemma_trace_view(tr.drop_first());
    }
}

/// The interpreter context.
#[derive(Debug)]
pub struct Context {
    pub path: String,
    pub scopes: Vec<Scope>,
    pub global: Scope,
    pub trace: Vec<(Position, String)>,
    pub files: Vec<(String, String)>,
    pub out: Vec<char>,
}

/// The model of a context.
pub open spec fn ctx_view(c: Context) -> SCtx {
    SCtx {
        path: c.path@,
        scopes: scopes_view(c.scopes@),
        global: scope_view(c.global),
        trace: trace_view(c.trace@),
        files: strs_view(c.files@),
        out: c.out@,
    }
}

impl View for Context {
    type V = SCtx;

    open spec fn view(&self) -> SCtx {
        ctx_view(*self)
    }
}

/// Every value bound or held in the scope is well formed.
pub open spec fn sscope_wf(s: SScope) -> bool {
    &&& (forall|i: int| 0 <= i < s.vars.len() ==> #[trigger] sv_wf(s.vars[i].1))
    &&& (forall|i: int| 0 <= i < s.args.len() ==> #[trigger] sv_wf(s.args[i]))
}

/// Every value reachable from the context is well formed.
pub open spec fn sctx_wf(c: SCtx) -> bool {
    &&& (forall|i: int| 0 <= i < c.scopes.len() ==> #[trigger] sscope_wf(c.scopes[i]))
    &&& sscope_wf(c.global)
}

/// The value of the positional argument spelled `w`, scanning from `i`.
pub open spec fn args_get(args: Seq<SV>, w: Seq<char>, i: int) -> Option<SV>
    decreases args.len() - i,
{
    if i < 0 || i >= args.len() {
        None
    } else if w == dec_digits(i as nat) {
        Some(args[i])
    } else {
        args_get(args, w, i + 1)
    }
}

/// The value bound to `w` among the bindings, scanning from `j`.
pub open spec fn vars_get(vars: Seq<(Seq<char>, SV)>, w: Seq<char>, j: int) -> Option<SV>
    decreases vars.len() - j,
{
    if j < 0 || j >= vars.len() {
        None
    } else if vars[j].0 == w {
        Some(vars[j].1)
    } else {
        vars_get(vars, w, j + 1)
    }
}

/// Whether some binding from `j` on is named `w`.
pub open spec fn vars_has(vars: Seq<(Seq<char>, SV)>, w: Seq<char>, j: int) -> bool
    decreases vars.len() - j,
{
    if j < 0 || j >= vars.len() {
        false
    } else if vars[j].0 == w {
        true
    } else {
        vars_has(vars, w, j + 1)
    }
}

/// The bindings with the first one named `w` (from `j` on) set to `v`.
pub open spec fn vars_set(
    vars: Seq<(Seq<char>, SV)>,
    w: Seq<char>,
    v: SV,
    j: int,
) -> Seq<(Seq<char>, SV)>
    decreases vars.len() - j,
{
    if j < 0 || j >= vars.len() {
        vars
    } else if vars[j].0 == w {
        vars.update(j, (vars[j].0, v))
    } else {
        vars_set(vars, w, v, j + 1)
    }
}

/// What a scope read gives: a positional argument first, then a binding.
pub open spec fn spec_scope_get(s: SScope, w: Seq<char>) -> Option<SV> {
    match args_get(s.args, w, 0) {
        Some(v) => Some(v),
        None => vars_get(s.vars, w, 0),
    }
}

/// A new binding in the scope; `None` when the name is already bound.
pub open spec fn spec_scope_var(s: SScope, w: Seq<char>, v: SV) -> Option<SScope> {
    if vars_has(s.vars, w, 0) {
        None
    } else {
        Some(SScope { vars: s.vars.push((w, v)), args: s.args })
    }
}

/// The scope with the binding `w` set to `v`; `None` when there is none.
pub open spec fn spec_scope_set(s: SScope, w: Seq<char>, v: SV) -> Option<SScope> {
    if vars_has(s.vars, w, 0) {
        Some(SScope { vars: vars_set(s.vars, w, v, 0), args: s.args })
    } else {
        None
    }
}

/// Whether any of the scopes up to `k` resolves `w` (arguments included).
pub open spec fn scopes_any_get(scopes: Seq<SScope>, w: Seq<char>, k: int) -> bool
    decreases k,
{
    if k <= 0 || k > scopes.len() {
        false
    } else {
        spec_scope_get(scopes[k - 1], w) is Some || scopes_any_get(scopes, w, k - 1)
    }
}

/// The innermost read of `w` among the scopes up to `k`.
pub open spec fn spec_scopes_get(scopes: Seq<SScope>, w: Seq<char>, k: int) -> Option<SV>
    decreases k,
{
    if k <= 0 || k > scopes.len() {
        None
    } else {
        match spec_scope_get(scopes[k - 1], w) {
            Some(v) => Some(v),
            None => spec_scopes_get(scopes, w, k - 1),
        }
    }
}

/// The scopes with the innermost binding of `w` (up to `k`) set to `v`;
/// `None` when no scope binds it.
pub open spec fn spec_scopes_set(scopes: Seq<SScope>, w: Seq<char>, v: SV, k: int) -> Option<
    Seq<SScope>,
>
    decreases k,
{
    if k <= 0 || k > scopes.len() {
        None
    } else {
        match spec_scope_set(scopes[k - 1], w, v) {
            Some(s) => Some(scopes.update(k - 1, s)),
            None => spec_scopes_set(scopes, w, v, k - 1),
        }
    }
}

/// A new mutable binding: refused when any scope resolves the name, bound
/// in the innermost scope otherwise.
pub open spec fn spec_ctx_var(c: SCtx, w: Seq<char>, v: SV) -> Option<SCtx> {
    if scopes_any_get(c.scopes, w, c.scopes.len() as int) {
        None
    } else if c.scopes.len() == 0 {
        None
    } else {
        match spec_scope_var(c.scopes.last(), w, v) {
            Some(s) => Some(SCtx { scopes: c.scopes.update(c.scopes.len() - 1, s), ..c }),
            None => None,
        }
    }
}

/// Mutation of the innermost binding of `w`.
pub open spec fn spec_ctx_set(c: SCtx, w: Seq<char>, v: SV) -> Option<SCtx> {
    match spec_scopes_set(c.scopes, w, v, c.scopes.len() as int) {
        Some(ss) => Some(SCtx { scopes: ss, ..c }),
        None => None,
    }
}

/// A new global binding: refused when the global scope already binds `w`.
pub open spec fn spec_ctx_def(c: SCtx, w: Seq<char>, v: SV) -> Option<SCtx> {
    match spec_scope_var(c.global, w, v) {
        Some(g) => Some(SCtx { global: g, ..c }),
        None => None,
    }
}

/// A read: the innermost lexical hit, then the global scope.
pub open spec fn spec_ctx_get(c: SCtx, w: Seq<char>) -> Option<SV> {
    match spec_scopes_get(c.scopes, w, c.scopes.len() as int) {
        Some(v) => Some(v),
        None => spec_scope_get(c.global, w),
    }
}

impl Scope {
    /// Whether a binding here is named `word`.
    fn has(&self, word: &String) -> (r: bool)
        ensures
            r == vars_has(pairs_view(self.vars@), word@, 0),
    {
        let n = self.vars.len();
        let mut j: usize = 0;
        while j < n
            invariant
                n == self.vars@.len(),
                j <= n,
                vars_has(pairs_view(self.vars@), word@, j as int) == vars_has(
                    pairs_view(self.vars@),
                    word@,
                    0,
                ),
            decreases n - j,
        {
            proof {
                lemma_pairs_view(self.vars@);
            }
            if self.vars[j].0 == *word {
                return true;
            }
            j = j + 1;
        }
        proof {
            lemma_pairs_view(self.vars@);
        }
        false
    }

    /// An empty scope.
    pub fn new() -> (r: Scope)
        ensures
            r@ == (SScope { vars: Seq::<(Seq<char>, SV)>::empty(), args: Seq::<SV>::empty() }),
    {
        Scope { vars: Vec::new(), args: Vec::new() }
    }

    /// Bind `word` to `value`; refused when the name is already bound
    /// here.
    pub fn var(&mut self, word: &String, value: &V) -> (r: Result<(), ()>)
        requires
            sv_wf(value@),
        ensures
            match spec_scope_var(old(self)@, word@, value@) {
                Some(s) => r is Ok && final(self)@ == s,
                None => r is Err && final(self)@ == old(self)@,
            },
    {
        if self.has(word) {
            return Err(());
        }
        let ghost vars0 = pairs_view(self.vars@);
        let pw = word.clone();
        let pv = value.dup();
        self.vars.push((pw, pv));
        proof {
            lemma_pairs_push(old(self).vars@, self.vars@.last());
            assert(pairs_view(self.vars@) =~= vars0.push((word@, value@)));
        }
        Ok(())
    }

    /// Mutate the binding of `word`; refused when there is none here.
    pub fn set(&mut self, word: &String, value: &V) -> (r: Result<(), ()>)
        requires
            sv_wf(value@),
        ensures
            match spec_scope_set(old(self)@, word@, value@) {
                Some(s) => r is Ok && final(self)@ == s,
                None => r is Err && final(self)@ == old(self)@,
            },
    {
        let n = self.vars.len();
        let mut j: usize = 0;
        while j < n
            invariant
                n == self.vars@.len(),
                j <= n,
                *self == *old(self),
                vars_has(pairs_view(self.vars@), word@, j as int) == vars_has(
                    pairs_view(self.vars@),
                    word@,
                    0,
                ),
                vars_set(pairs_view(self.vars@), word@, value@, j as int) == vars_set(
                    pairs_view(self.vars@),
                    word@,
                    value@,
                    0,
                ),
            decreases n - j,
        {
            proof {
                lemma_pairs_view(self.vars@);
            }
            if self.vars[j].0 == *word {
                let ghost vars0 = pairs_view(self.vars@);
                let pv = value.dup();
                let pw = self.vars[j].0.clone();
                self.vars.set(j, (pw, pv));
                proof {
                    lemma_pairs_view(old(self).vars@);
                    lemma_pairs_view(self.vars@);
                    assert(pairs_view(self.vars@) =~= vars_set(vars0, word@, value@, j as int));
                }
                return Ok(());
            }
            j = j + 1;
        }
        proof {
            lemma_pairs_view(self.vars@);
        }
        Err(())
    }

    /// The value `word` reads here: a positional argument first, then a
    /// binding.
    pub fn get(&self, word: &String) -> (r: Option<V>)
        requires
            sscope_wf(self@),
        ensures
            match spec_scope_get(self@, word@) {
                Some(v) => r is Some && v_view(r->0) == v && sv_wf(v),
                None => r is None,
            },
    {
        let na = self.args.len();
        let mut i: usize = 0;
        while i < na
            invariant
                na == self.args@.len(),
                i <= na,
                sscope_wf(self@),
                args_get(vs_view(self.args@), word@, i as int) == args_get(
                    vs_view(self.args@),
                    word@,
                    0,
                ),
            decreases na - i,
        {
            proof {
                lemma_vs_view(self.args@);
            }
            let mut ds: Vec<char> = Vec::new();
            crate::decimal::push_u64_chars(i as u64, &mut ds);
            proof {
                assert(ds@ =~= dec_digits(i as nat));
            }
            if chars_eq_str(&ds, word.as_str()) {
                return Some(self.args[i].dup());
            }
            i = i + 1;
        }
        proof {
            lemma_vs_view(self.args@);
        }
        let nv = self.vars.len();
        let mut j: usize = 0;
        while j < nv
            invariant
                nv == self.vars@.len(),
                j <= nv,
                sscope_wf(self@),
                args_get(vs_view(self.args@), word@, 0) is None,
                vars_get(pairs_view(self.vars@), word@, j as int) == vars_get(
                    pairs_view(self.vars@),
                    word@,
                    0,
                ),
            decreases nv - j,
        {
            proof {
                lemma_pairs_view(self.vars@);
            }
            if self.vars[j].0 == *word {
                return Some(self.vars[j].1.dup());
            }
            j = j + 1;
        }
        proof {
            lemma_pairs_view(self.vars@);
        }
        None
    }
}

/// Pushing one binding extends the list view by its model.
pub proof fn lemma_pairs_push(vars: Seq<(String, V)>, p: (String, V))
    ensures
        pairs_view(vars.push(p)) == pairs_view(vars) + seq![(p.0@, v_view(p.1))],
{
    lemma_pairs_view(vars);
    lemma_pairs_view(vars.push(p));
    assert(pairs_view(vars.push(p)) =~= pairs_view(vars) + seq![(p.0@, v_view(p.1))]);
}

impl Context {
    /// A fresh context for `path`: one empty scope, an empty global scope,
    /// no trace, no files, no output.
    pub fn new(path: &String) -> (r: Context)
        ensures
            r@ == (SCtx {
                path: path@,
                scopes: seq![SScope {
                    vars: Seq::<(Seq<char>, SV)>::empty(),
                    args: Seq::<SV>::empty(),
                }],
                global: SScope { vars: Seq::<(Seq<char>, SV)>::empty(), args: Seq::<SV>::empty() },
                trace: Seq::<(Position, Seq<char>)>::empty(),
                files: Seq::<(Seq<char>, Seq<char>)>::empty(),
                out: Seq::<char>::empty(),
            }),
            sctx_wf(r@),
    {
        let mut scopes: Vec<Scope> = Vec::new();
        scopes.push(Scope::new());
        let r = Context {
            path: path.clone(),
            scopes,
            global: Scope::new(),
            trace: Vec::new(),
            files: Vec::new(),
            out: Vec::new(),
        };
        proof {
            lemma_scopes_view(r.scopes@);
            assert(scopes_view(r.scopes@) =~= seq![scope_view(r.scopes@[0])]);
        }
        r
    }

    /// Open a new innermost scope.
    pub fn push(&mut self)
        ensures
            final(self)@ == (SCtx {
                scopes: old(self)@.scopes.push(
                    SScope { vars: Seq::<(Seq<char>, SV)>::empty(), args: Seq::<SV>::empty() },
                ),
                ..old(self)@
            }),
    {
        let s = Scope::new();
        self.scopes.push(s);
        proof {
            lemma_scopes_push(old(self).scopes@, self.scopes@.last());
            assert(scopes_view(self.scopes@) =~= old(self)@.scopes.push(
                SScope { vars: Seq::<(Seq<char>, SV)>::empty(), args: Seq::<SV>::empty() },
            ));
        }
    }

    /// Close the innermost scope.
    pub fn pop(&mut self) -> (r: Option<Scope>)
        ensures
            old(self)@.scopes.len() > 0 ==> r is Some && final(self)@ == (SCtx {
                scopes: old(self)@.scopes.drop_last(),
                ..old(self)@
            }),
            old(self)@.scopes.len() == 0 ==> r is None && final(self)@ == old(self)@,
    {
        proof {
            lemma_scopes_view(self.scopes@);
        }
        let r = self.scopes.pop();
        proof {
            if old(self).scopes@.len() > 0 {
                lemma_scopes_view(self.scopes@);
                lemma_scopes_view(old(self).scopes@);
                assert(scopes_view(self.scopes@) =~= scopes_view(old(self).scopes@).drop_last());
            }
        }
        r
    }

    /// Hand the evaluated arguments to the innermost scope.
    pub fn args(&mut self, args: &Vec<V>)
        requires
            old(self)@.scopes.len() > 0,
            svs_wf(vs_view(args@), 0),
        ensures
            final(self)@ == (SCtx {
                scopes: old(self)@.scopes.update(
                    old(self)@.scopes.len() - 1,
                    SScope {
                        vars: old(self)@.scopes.last().vars,
                        args: vs_view(args@),
                    },
                ),
                ..old(self)@
            }),
    {
        proof {
            lemma_scopes_view(self.scopes@);
        }
        let k = self.scopes.len() - 1;
        let dup = vs_dup_local(args);
        let ghost oldvars = self.scopes@[k as int].vars@;
        let taken = self.scopes.remove(k);
        let replaced = Scope { vars: taken.vars, args: dup };
        self.scopes.insert(k, replaced);
        proof {
            lemma_scopes_view(old(self).scopes@);
            lemma_scopes_view(self.scopes@);
            assert(scopes_view(self.scopes@) =~= scopes_view(old(self).scopes@).update(
                k as int,
                SScope { vars: pairs_view(oldvars), args: vs_view(args@) },
            ));
        }
    }

    /// Record `pos` in the trace, under the current path.
    pub fn trace(&mut self, pos: &Position)
        ensures
            final(self)@ == (SCtx {
                trace: old(self)@.trace.push((*pos, old(self)@.path)),
                ..old(self)@
            }),
    {
        let p = self.path.clone();
        self.trace.push((*pos, p));
        proof {
            lemma_trace_push(old(self).trace@, self.trace@.last());
            assert(trace_view(self.trace@) =~= old(self)@.trace.push((*pos, old(self)@.path)));
        }
    }

    /// A new mutable binding in the innermost scope; refused when any
    /// lexical scope resolves the name.
    pub fn var(&mut self, word: &String, value: &V) -> (r: Result<(), ()>)
        requires
            sctx_wf(old(self)@),
            sv_wf(value@),
        ensures
            sctx_wf(final(self)@),
            match spec_ctx_var(old(self)@, word@, value@) {
                Some(c) => r is Ok && final(self)@ == c,
                None => r is Err && final(self)@ == old(self)@,
            },
    {
        let n = self.scopes.len();
        let mut i: usize = 0;
        proof {
            lemma_scopes_view(self.scopes@);
        }
        while i < n
            invariant
                n == self.scopes@.len(),
                i <= n,
                sctx_wf(self@),
                *self == *old(self),
                scopes_view(self.scopes@).len() == n,
                forall|k: int|
                    0 <= k < n ==> #[trigger] scopes_view(self.scopes@)[k] == scope_view(
                        self.scopes@[k],
                    ),
                forall|k: int|
                    0 <= k < i ==> spec_scope_get(
                        #[trigger] scopes_view(self.scopes@)[k],
                        word@,
                    ) is None,
            decreases n - i,
        {
            proof {
                assert(scopes_view(self.scopes@)[i as int] == scope_view(
                    self.scopes@[i as int],
                ));
                assert(sscope_wf(scopes_view(self.scopes@)[i as int]));
            }
            let g = self.scopes[i].get(word);
            if g.is_some() {
                proof {
                    lemma_any_get_found(scopes_view(self.scopes@), word@, n as int, i as int);
                }
                return Err(());
            }
            i = i + 1;
        }
        proof {
            lemma_any_get_none(scopes_view(self.scopes@), word@, n as int);
        }
        if n == 0 {
            return Err(());
        }
        let k = n - 1;
        proof {
            assert(scopes_view(self.scopes@)[k as int] == scope_view(self.scopes@[k as int]));
            assert(sscope_wf(scopes_view(self.scopes@)[k as int]));
            assert(spec_scope_get(scopes_view(self.scopes@)[k as int], word@) is None);
            lemma_vars_get_has(scope_view(self.scopes@[k as int]).vars, word@, 0);
        }
        let mut taken = self.scopes.remove(k);
        let res = taken.var(word, value);
        self.scopes.insert(k, taken);
        proof {
            lemma_scopes_view(old(self).scopes@);
            lemma_scopes_view(self.scopes@);
            assert(scopes_view(self.scopes@) =~= scopes_view(old(self).scopes@).update(
                k as int,
                scope_view(self.scopes@[k as int]),
            ));
            let olds = scope_view(old(self).scopes@[k as int]);
            let news = scope_view(self.scopes@[k as int]);
            assert(news.vars == olds.vars.push((word@, value@)));
            assert(sscope_wf(news)) by {
                assert(forall|j: int|
                    0 <= j < news.vars.len() ==> #[trigger] sv_wf(news.vars[j].1)) by {
                    assert(forall|j: int|
                        0 <= j < olds.vars.len() ==> #[trigger] sv_wf(olds.vars[j].1));
                    assert(forall|j: int| 0 <= j < news.vars.len() ==> news.vars[j].1 == (
                    if j < olds.vars.len() {
                        olds.vars[j].1
                    } else {
                        value@
                    }));
                }
            }
            assert(sctx_wf(self@));
            assert(old(self)@.scopes.last() == olds);
        }
        match res {
            Ok(_) => Ok(()),
            Err(_) => Err(()),
        }
    }

    /// Mutate the innermost binding of `word`; refused when none exists.
    pub fn set(&mut self, word: &String, value: &V) -> (r: Result<(), ()>)
        requires
            sctx_wf(old(self)@),
            sv_wf(value@),
        ensures
            sctx_wf(final(self)@),
            match spec_ctx_set(old(self)@, word@, value@) {
                Some(c) => r is Ok && final(self)@ == c,
                None => r is Err && final(self)@ == old(self)@,
            },
    {
        let n = self.scopes.len();
        let mut k: usize = n;
        proof {
            lemma_scopes_view(self.scopes@);
        }
        while k > 0
            invariant
                n == self.scopes@.len(),
                k <= n,
                sctx_wf(self@),
                self@ == old(self)@,
                sv_wf(value@),
                scopes_view(self.scopes@).len() == n,
                forall|j: int|
                    0 <= j < n ==> #[trigger] scopes_view(self.scopes@)[j] == scope_view(
                        self.scopes@[j],
                    ),
                spec_scopes_set(scopes_view(self.scopes@), word@, value@, k as int)
                    == spec_scopes_set(scopes_view(self.scopes@), word@, value@, n as int),
            decreases k,
        {
            proof {
                assert(scopes_view(self.scopes@)[k - 1] == scope_view(self.scopes@[k - 1]));
                assert(sscope_wf(scopes_view(self.scopes@)[k - 1]));
            }
            let ghost prev = scopes_view(self.scopes@);
            let mut taken = self.scopes.remove(k - 1);
            let res = taken.set(word, value);
            self.scopes.insert(k - 1, taken);
            proof {
                lemma_scopes_view(old(self).scopes@);
                lemma_scopes_view(self.scopes@);
                assert(scopes_view(self.scopes@) =~= prev.update(
                    (k - 1) as int,
                    scope_view(self.scopes@[k - 1]),
                ));
                if res is Err {
                    assert(scopes_view(self.scopes@) =~= prev);
                }
            }
            if res.is_ok() {
                proof {
                    let olds = prev[k - 1];
                    let news = scope_view(self.scopes@[k - 1]);
                    lemma_vars_set_wf(olds.vars, word@, value@, 0);
                    assert(sscope_wf(news));
                    assert(sctx_wf(self@));
                }
                return Ok(());
            }
            k = k - 1;
        }
        Err(())
    }

    /// A new global binding; refused when the name is already global.
    pub fn def(&mut self, word: &String, value: &V) -> (r: Result<(), ()>)
        requires
            sctx_wf(old(self)@),
            sv_wf(value@),
        ensures
            sctx_wf(final(self)@),
            match spec_ctx_def(old(self)@, word@, value@) {
                Some(c) => r is Ok && final(self)@ == c,
                None => r is Err && final(self)@ == old(self)@,
            },
    {
        let res = self.global.var(word, value);
        match res {
            Ok(_) => Ok(()),
            Err(_) => Err(()),
        }
    }

    /// The value `word` reads: the innermost lexical hit, then the global
    /// scope.
    pub fn get(&self, word: &String) -> (r: Option<V>)
        requires
            sctx_wf(self@),
        ensures
            match spec_ctx_get(self@, word@) {
                Some(v) => r is Some && v_view(r->0) == v && sv_wf(v),
                None => r is None,
            },
    {
        let n = self.scopes.len();
        let mut k: usize = n;
        proof {
            lemma_scopes_view(self.scopes@);
        }
        while k > 0
            invariant
                n == self.scopes@.len(),
                k <= n,
                sctx_wf(self@),
                scopes_view(self.scopes@).len() == n,
                forall|j: int|
                    0 <= j < n ==> #[trigger] scopes_view(self.scopes@)[j] == scope_view(
                        self.scopes@[j],
                    ),
                spec_scopes_get(scopes_view(self.scopes@), word@, k as int) == spec_scopes_get(
                    scopes_view(self.scopes@),
                    word@,
                    n as int,
                ),
            decreases k,
        {
            proof {
                assert(scopes_view(self.scopes@)[k - 1] == scope_view(self.scopes@[k - 1]));
                assert(sscope_wf(scopes_view(self.scopes@)[k - 1]));
            }
            let g = self.scopes[k - 1].get(word);
            if g.is_some() {
                return g;
            }
            k = k - 1;
        }
        self.global.get(word)
    }

    /// Whether `word` is bound in the global scope.
    pub fn is_global(&self, word: &String) -> (r: bool)
        requires
            sctx_wf(self@),
        ensures
            r == (spec_scope_get(self@.global, word@) is Some),
    {
        let g = self.global.get(word);
        g.is_some()
    }
}

/// An exact copy of a list of values (local helper for handing arguments
/// over).
fn vs_dup_local(vs: &Vec<V>) -> (r: Vec<V>)
    ensures
        vs_view(r@) == vs_view(vs@),
{
    crate::values::vs_dup(vs)
}

/// Pushing one scope extends the list view by its model.
pub proof fn lemma_scopes_push(ss: Seq<Scope>, s: Scope)
    ensures
        scopes_view(ss.push(s)) == scopes_view(ss) + seq![scope_view(s)],
{
    lemma_scopes_view(ss);
    lemma_scopes_view(ss.push(s));
    assert(scopes_view(ss.push(s)) =~= scopes_view(ss) + seq![scope_view(s)]);
}

/// Pushing one frame extends the trace view by its model.
pub proof fn lemma_trace_push(tr: Seq<(Position, String)>, f: (Position, String))
    ensures
        trace_view(tr.push(f)) == trace_view(tr) + seq![(f.0, f.1@)],
{
    lemma_trace_view(tr);
    lemma_trace_view(tr.push(f));
    assert(trace_view(tr.push(f)) =~= trace_view(tr) + seq![(f.0, f.1@)]);
}

/// When the scopes inward of `i` resolve nothing and scope `i` does, the
/// whole stack resolves the word.
proof fn lemma_any_get_found(ss: Seq<SScope>, w: Seq<char>, k: int, i: int)
    requires
        0 <= i < k <= ss.len(),
        spec_scope_get(ss[i], w) is Some,
    ensures
        scopes_any_get(ss, w, k),
    decreases k,
{
    if i < k - 1 {
        lemma_any_get_found(ss, w, k - 1, i);
    }
}

/// When no scope resolves the word, the whole stack resolves nothing.
proof fn lemma_any_get_none(ss: Seq<SScope>, w: Seq<char>, k: int)
    requires
        k <= ss.len(),
        forall|j: int| 0 <= j < k ==> spec_scope_get(#[trigger] ss[j], w) is None,
    ensures
        !scopes_any_get(ss, w, k),
    decreases k,
{
    if k > 0 {
        lemma_any_get_none(ss, w, k - 1);
    }
}

/// A scan for a value and a scan for the name agree on presence.
pub proof fn lemma_vars_get_has(vars: Seq<(Seq<char>, SV)>, w: Seq<char>, j: int)
    ensures
        (vars_get(vars, w, j) is None) == !vars_has(vars, w, j),
    decreases vars.len() - j,
{
    if 0 <= j < vars.len() && vars[j].0 != w {
        lemma_vars_get_has(vars, w, j + 1);
    }
}

/// Setting a well-formed value keeps every binding well formed.
pub proof fn lemma_vars_set_wf(vars: Seq<(Seq<char>, SV)>, w: Seq<char>, v: SV, j: int)
    requires
        forall|i: int| 0 <= i < vars.len() ==> #[trigger] sv_wf(vars[i].1),
        sv_wf(v),
    ensures
        vars_set(vars, w, v, j).len() == vars.len(),
        forall|i: int|
            0 <= i < vars.len() ==> #[trigger] sv_wf(vars_set(vars, w, v, j)[i].1),
    decreases vars.len() - j,
{
    if 0 <= j < vars.len() && vars[j].0 != w {
        lemma_vars_set_wf(vars, w, v, j + 1);
    }
}

/// The context with one more trace frame at its current path.
pub open spec fn ctx_traced(c: SCtx, pos: Position) -> SCtx {
    SCtx { trace: c.trace.push((pos, c.path)), ..c }
}

impl Context {
    /// Append text to the collected output.
    pub fn emit(&mut self, text: &Vec<char>)
        ensures
            final(self)@ == (SCtx { out: old(self)@.out + text@, ..old(self)@ }),
    {
        let mut i: usize = 0;
        while i < text.len()
            invariant
                i <= text@.len(),
                self.path == old(self).path,
                self.scopes == old(self).scopes,
                self.global == old(self).global,
                self.trace == old(self).trace,
                self.files == old(self).files,
                self.out@ == old(self).out@ + text@.take(i as int),
            decreases text@.len() - i,
        {
            let c = text[i];
            self.out.push(c);
            proof {
                assert(text@.take(i + 1) =~= text@.take(i as int).push(c));
            }
            i = i + 1;
        }
        proof {
            assert(text@.take(text@.len() as int) =~= text@);
        }
    }
}

/// The argument at `i`, or null past the end (operations read an absent
/// argument as null).
pub fn arg_or_null(args: &Vec<V>, i: usize) -> (r: V)
    requires
        svs_wf(vs_view(args@), 0),
    ensures
        v_view(r) == crate::semantics::arg_or(vs_view(args@), i as int),
        sv_wf(v_view(r)),
{
    proof {
        lemma_vs_view(args@);
        crate::values::lemma_svs_wf_iff(vs_view(args@), 0);
    }
    if i < args.len() {
        args[i].dup()
    } else {
        V::Null
    }
}

/// `def`: bind a quoted name in the global scope.
pub fn _def(args: &Vec<V>, context: &mut Context, pos: &Position, poses: &Vec<Position>) -> (r:
    Result<(V, R), E>)
    requires
        sctx_wf(old(context)@),
        svs_wf(vs_view(args@), 0),
        poses@.len() == vs_view(args@).len(),
    ensures
        ({
            let o = crate::semantics::spec_def(vs_view(args@), poses@, *pos, old(context)@);
            final(context)@ == o.c && sctx_wf(final(context)@) && res_eout(r, o.r)
        }),
{
    proof {
        lemma_vs_view(args@);
    }
    let addr = arg_or_null(args, 0);
    let value = arg_or_null(args, 1);
    match addr {
        V::Addr(w) => {
            let res = context.def(&w, &value);
            if res.is_err() {
                context.trace(&poses[0]);
                return Err(E::AlreadyDefined(w));
            }
            Ok((V::Null, R::Norm))
        },
        other => {
            context.trace(pos);
            Err(E::ExpectedType { typ: Type::Addr, recv_typ: other.typ() })
        },
    }
}

/// `var`: bind a quoted name in the innermost scope.
pub fn _var(args: &Vec<V>, context: &mut Context, pos: &Position) -> (r: Result<(V, R), E>)
    requires
        sctx_wf(old(context)@),
        svs_wf(vs_view(args@), 0),
    ensures
        ({
            let o = crate::semantics::spec_var(vs_view(args@), *pos, old(context)@);
            final(context)@ == o.c && sctx_wf(final(context)@) && res_eout(r, o.r)
        }),
{
    proof {
        lemma_vs_view(args@);
    }
    let addr = arg_or_null(args, 0);
    let value = arg_or_null(args, 1);
    match addr {
        V::Addr(w) => {
            let res = context.var(&w, &value);
            if res.is_err() {
                context.trace(pos);
                return Err(E::AlreadyDefined(w));
            }
            Ok((V::Null, R::Norm))
        },
        other => {
            context.trace(pos);
            Err(E::ExpectedType { typ: Type::Addr, recv_typ: other.typ() })
        },
    }
}

/// `set`: mutate the nearest lexical binding; globals are immutable.
pub fn _set(args: &Vec<V>, context: &mut Context, pos: &Position) -> (r: Result<(V, R), E>)
    requires
        sctx_wf(old(context)@),
        svs_wf(vs_view(args@), 0),
    ensures
        ({
            let o = crate::semantics::spec_assign(vs_view(args@), *pos, old(context)@);
            final(context)@ == o.c && sctx_wf(final(context)@) && res_eout(r, o.r)
        }),
{
    proof {
        lemma_vs_view(args@);
    }
    let addr = arg_or_null(args, 0);
    let value = arg_or_null(args, 1);
    match addr {
        V::Addr(w) => {
            if context.is_global(&w) {
                context.trace(pos);
                return Err(E::Immutable(w));
            }
            let res = context.set(&w, &value);
            if res.is_err() {
                context.trace(pos);
                return Err(E::NotDefined(w));
            }
            Ok((V::Null, R::Norm))
        },
        other => {
            context.trace(pos);
            Err(E::ExpectedType { typ: Type::Addr, recv_typ: other.typ() })
        },
    }
}

/// `get`: the value bound to a quoted name, or null.
pub fn _get(args: &Vec<V>, context: &mut Context, pos: &Position) -> (r: Result<(V, R), E>)
    requires
        sctx_wf(old(context)@),
        svs_wf(vs_view(args@), 0),
    ensures
        ({
            let o = crate::semantics::spec_getw(vs_view(args@), *pos, old(context)@);
            final(context)@ == o.c && sctx_wf(final(context)@) && res_eout(r, o.r)
        }),
{
    proof {
        lemma_vs_view(args@);
    }
    let addr = arg_or_null(args, 0);
    match addr {
        V::Addr(w) => {
            let v = context.get(&w);
            match v {
                Some(value) => Ok((value, R::Norm)),
                None => Ok((V::Null, R::Norm)),
            }
        },
        other => {
            context.trace(pos);
            Err(E::ExpectedType { typ: Type::Addr, recv_typ: other.typ() })
        },
    }
}

/// `print`: write the arguments, space-separated with a final line break.
pub fn _print(args: &Vec<V>, context: &mut Context) -> (r: Result<(V, R), E>)
    requires
        sctx_wf(old(context)@),
        svs_wf(vs_view(args@), 0),
    ensures
        ({
            let o = crate::semantics::spec_printn(vs_view(args@), old(context)@);
            final(context)@ == o.c && sctx_wf(final(context)@) && res_eout(r, o.r)
        }),
{
    proof {
        lemma_vs_view(args@);
    }
    let mut buf: Vec<char> = Vec::new();
    if args.len() > 0 {
        crate::display::push_vs_chars_pub(args, &mut buf);
        buf.push('\n');
        proof {
            assert(buf@ =~= crate::display::show_vs(vs_view(args@), 0) + seq!['\n']);
        }
    }
    context.emit(&buf);
    proof {
        if args@.len() == 0 {
            assert(old(context)@.out + buf@ =~= old(context)@.out);
        }
    }
    Ok((V::Null, R::Norm))
}

/// `assert`: fail exactly when the first argument equals false.
pub fn _assert(args: &Vec<V>, context: &mut Context, pos: &Position) -> (r: Result<(V, R), E>)
    requires
        sctx_wf(old(context)@),
        svs_wf(vs_view(args@), 0),
    ensures
        ({
            let o = crate::semantics::spec_assertn(vs_view(args@), *pos, old(context)@);
            final(context)@ == o.c && sctx_wf(final(context)@) && res_eout(r, o.r)
        }),
{
    proof {
        lemma_vs_view(args@);
    }
    let first = arg_or_null(args, 0);
    let bfalse = V::Bool(false);
    if first.equals(&bfalse) {
        context.trace(pos);
        return Err(E::AssertError);
    }
    Ok((V::Null, R::Norm))
}

/// `=`: whether all arguments are mutually equal (executable).
fn all_eq_exec(args: &Vec<V>) -> (r: bool)
    requires
        svs_wf(vs_view(args@), 0),
    ensures
        r == crate::semantics::all_eq(vs_view(args@)),
{
    proof {
        lemma_vs_view(args@);
        crate::values::lemma_svs_wf_iff(vs_view(args@), 0);
    }
    let n = args.len();
    let mut i: usize = 0;
    while i < n
        invariant
            n == args@.len(),
            i <= n,
            svs_wf(vs_view(args@), 0),
            vs_view(args@).len() == n,
            forall|k: int|
                0 <= k < n ==> #[trigger] vs_view(args@)[k] == v_view(args@[k]),
            forall|k: int| 0 <= k < n ==> sv_wf(#[trigger] vs_view(args@)[k]),
            forall|a: int, b: int|
                0 <= a < i && 0 <= b < n ==> crate::values::sv_eq(
                    #[trigger] vs_view(args@)[a],
                    #[trigger] vs_view(args@)[b],
                ),
        decreases n - i,
    {
        let mut j: usize = 0;
        while j < n
            invariant
                n == args@.len(),
                i < n,
                j <= n,
                svs_wf(vs_view(args@), 0),
                vs_view(args@).len() == n,
                forall|k: int|
                    0 <= k < n ==> #[trigger] vs_view(args@)[k] == v_view(args@[k]),
                forall|k: int| 0 <= k < n ==> sv_wf(#[trigger] vs_view(args@)[k]),
                forall|b: int|
                    0 <= b < j ==> crate::values::sv_eq(
                        vs_view(args@)[i as int],
                        #[trigger] vs_view(args@)[b],
                    ),
            decreases n - j,
        {
            proof {
                assert(sv_wf(vs_view(args@)[i as int]));
                assert(sv_wf(vs_view(args@)[j as int]));
            }
            if !args[i].equals(&args[j]) {
                proof {
                    assert(!crate::semantics::all_eq(vs_view(args@))) by {
                        assert(!crate::values::sv_eq(
                            vs_view(args@)[i as int],
                            vs_view(args@)[j as int],
                        ));
                    }
                }
                return false;
            }
            j = j + 1;
        }
        i = i + 1;
    }
    true
}

/// `=`: equality of all arguments; fewer than two arguments are unequal.
pub fn _eq(args: &Vec<V>, context: &mut Context) -> (r: Result<(V, R), E>)
    requires
        sctx_wf(old(context)@),
        svs_wf(vs_view(args@), 0),
    ensures
        ({
            let o = crate::semantics::spec_eqn(vs_view(args@), old(context)@);
            final(context)@ == o.c && sctx_wf(final(context)@) && res_eout(r, o.r)
        }),
{
    proof {
        lemma_vs_view(args@);
    }
    if args.len() <= 1 {
        return Ok((V::Bool(false), R::Norm));
    }
    let b = all_eq_exec(args);
    Ok((V::Bool(b), R::Norm))
}

/// A left fold of one arithmetic operation (executable).
fn fold_exec(op: Nf, args: &Vec<V>, context: &mut Context, poses: &Vec<Position>) -> (r: Result<
    (V, R),
    E,
>)
    requires
        sctx_wf(old(context)@),
        svs_wf(vs_view(args@), 0),
        poses@.len() == vs_view(args@).len(),
        args@.len() >= 1,
        op is Add || op is Sub || op is Mul || op is Div,
    ensures
        ({
            let o = crate::semantics::spec_fold(
                op,
                vs_view(args@)[0],
                vs_view(args@),
                poses@,
                1,
                old(context)@,
            );
            final(context)@ == o.c && sctx_wf(final(context)@) && res_eout(r, o.r)
        }),
{
    proof {
        lemma_vs_view(args@);
        crate::values::lemma_svs_wf_iff(vs_view(args@), 0);
    }
    let ghost argsv = vs_view(args@);
    let ghost c0 = old(context)@;
    let mut acc = args[0].dup();
    let n = args.len();
    let mut i: usize = 1;
    while i < n
        invariant
            n == args@.len(),
            1 <= i <= n,
            argsv == vs_view(args@),
            argsv.len() == n,
            poses@.len() == n,
            c0 == old(context)@,
            c0 == context@,
            sctx_wf(context@),
            sv_wf(v_view(acc)),
            forall|k: int| 0 <= k < n ==> #[trigger] argsv[k] == v_view(args@[k]),
            forall|k: int| 0 <= k < n ==> sv_wf(#[trigger] argsv[k]),
            crate::semantics::spec_fold(op, v_view(acc), argsv, poses@, i as int, c0)
                == crate::semantics::spec_fold(op, argsv[0], argsv, poses@, 1, c0),
            op is Add || op is Sub || op is Mul || op is Div,
        decreases n - i,
    {
        let step = match op {
            Nf::Add => acc.add(&args[i]),
            Nf::Sub => acc.sub(&args[i]),
            Nf::Mul => acc.mul(&args[i]),
            _ => acc.div(&args[i]),
        };
        match step {
            Some(v) => {
                acc = v;
            },
            None => {
                let t1 = acc.typ();
                let t2 = args[i].typ();
                context.trace(&poses[i]);
                return Err(E::BinaryOperation { type1: t1, type2: t2 });
            },
        }
        i = i + 1;
    }
    Ok((acc, R::Norm))
}

/// `+`: fold addition; an empty call gives null.
pub fn _add(args: &Vec<V>, context: &mut Context, poses: &Vec<Position>) -> (r: Result<
    (V, R),
    E,
>)
    requires
        sctx_wf(old(context)@),
        svs_wf(vs_view(args@), 0),
        poses@.len() == vs_view(args@).len(),
    ensures
        ({
            let o = crate::semantics::spec_addn(vs_view(args@), poses@, old(context)@);
            final(context)@ == o.c && sctx_wf(final(context)@) && res_eout(r, o.r)
        }),
{
    proof {
        lemma_vs_view(args@);
    }
    if args.len() == 0 {
        return Ok((V::Null, R::Norm));
    }
    fold_exec(Nf::Add, args, context, poses)
}

/// `-`: fold subtraction; one argument negates; an empty call gives null.
pub fn _sub(args: &Vec<V>, context: &mut Context, poses: &Vec<Position>) -> (r: Result<
    (V, R),
    E,
>)
    requires
        sctx_wf(old(context)@),
        svs_wf(vs_view(args@), 0),
        poses@.len() == vs_view(args@).len(),
    ensures
        ({
            let o = crate::semantics::spec_subn(vs_view(args@), poses@, old(context)@);
            final(context)@ == o.c && sctx_wf(final(context)@) && res_eout(r, o.r)
        }),
{
    proof {
        lemma_vs_view(args@);
        crate::values::lemma_svs_wf_iff(vs_view(args@), 0);
    }
    if args.len() == 0 {
        return Ok((V::Null, R::Norm));
    }
    if args.len() == 1 {
        let zero = V::Int(0);
        match zero.sub(&args[0]) {
            Some(v) => {
                return Ok((v, R::Norm));
            },
            None => {
                let t = args[0].typ();
                context.trace(&poses[0]);
                return Err(E::UnaryOperation(t));
            },
        }
    }
    fold_exec(Nf::Sub, args, context, poses)
}

/// `*`: fold multiplication; an empty call gives null.
pub fn _mul(args: &Vec<V>, context: &mut Context, poses: &Vec<Position>) -> (r: Result<
    (V, R),
    E,
>)
    requires
        sctx_wf(old(context)@),
        svs_wf(vs_view(args@), 0),
        poses@.len() == vs_view(args@).len(),
    ensures
        ({
            let o = crate::semantics::spec_muln(vs_view(args@), poses@, old(context)@);
            final(context)@ == o.c && sctx_wf(final(context)@) && res_eout(r, o.r)
        }),
{
    proof {
        lemma_vs_view(args@);
    }
    if args.len() == 0 {
        return Ok((V::Null, R::Norm));
    }
    fold_exec(Nf::Mul, args, context, poses)
}

/// `/`: fold division; an empty call gives null.
pub fn _div(args: &Vec<V>, context: &mut Context, poses: &Vec<Position>) -> (r: Result<
    (V, R),
    E,
>)
    requires
        sctx_wf(old(context)@),
        svs_wf(vs_view(args@), 0),
        poses@.len() == vs_view(args@).len(),
    ensures
        ({
            let o = crate::semantics::spec_divn(vs_view(args@), poses@, old(context)@);
            final(context)@ == o.c && sctx_wf(final(context)@) && res_eout(r, o.r)
        }),
{
    proof {
        lemma_vs_view(args@);
    }
    if args.len() == 0 {
        return Ok((V::Null, R::Norm));
    }
    fold_exec(Nf::Div, args, context, poses)
}

/// A chained comparison (executable).
fn chain_exec(gt: bool, args: &Vec<V>, context: &mut Context, poses: &Vec<Position>) -> (r:
    Result<(V, R), E>)
    requires
        sctx_wf(old(context)@),
        svs_wf(vs_view(args@), 0),
        poses@.len() == vs_view(args@).len(),
    ensures
        ({
            let o = crate::semantics::spec_chain(gt, vs_view(args@), poses@, 0, old(context)@);
            final(context)@ == o.c && sctx_wf(final(context)@) && res_eout(r, o.r)
        }),
{
    proof {
        lemma_vs_view(args@);
        crate::values::lemma_svs_wf_iff(vs_view(args@), 0);
    }
    let ghost argsv = vs_view(args@);
    let ghost c0 = old(context)@;
    let n = args.len();
    if n == 0 {
        return Ok((V::Bool(true), R::Norm));
    }
    let mut i: usize = 0;
    while i < n - 1
        invariant
            1 <= n == args@.len(),
            i <= n,
            argsv == vs_view(args@),
            argsv.len() == n,
            poses@.len() == n,
            c0 == old(context)@,
            c0 == context@,
            sctx_wf(context@),
            forall|k: int| 0 <= k < n ==> #[trigger] argsv[k] == v_view(args@[k]),
            forall|k: int| 0 <= k < n ==> sv_wf(#[trigger] argsv[k]),
            crate::semantics::spec_chain(gt, argsv, poses@, i as int, c0)
                == crate::semantics::spec_chain(gt, argsv, poses@, 0, c0),
        decreases n - i,
    {
        let step = if gt {
            args[i].gt_v(&args[i + 1])
        } else {
            args[i].lt_v(&args[i + 1])
        };
        match step {
            Some(b) => {
                if !b {
                    return Ok((V::Bool(false), R::Norm));
                }
            },
            None => {
                let t1 = args[i].typ();
                let t2 = args[i + 1].typ();
                context.trace(&poses[i]);
                return Err(E::BinaryOperation { type1: t1, type2: t2 });
            },
        }
        i = i + 1;
    }
    Ok((V::Bool(true), R::Norm))
}

/// `lt`: a chained less-than; an empty call gives null.
pub fn _lt(args: &Vec<V>, context: &mut Context, poses: &Vec<Position>) -> (r: Result<(V, R), E>)
    requires
        sctx_wf(old(context)@),
        svs_wf(vs_view(args@), 0),
        poses@.len() == vs_view(args@).len(),
    ensures
        ({
            let o = crate::semantics::spec_ltn(vs_view(args@), poses@, old(context)@);
            final(context)@ == o.c && sctx_wf(final(context)@) && res_eout(r, o.r)
        }),
{
    proof {
        lemma_vs_view(args@);
    }
    if args.len() == 0 {
        return Ok((V::Null, R::Norm));
    }
    chain_exec(false, args, context, poses)
}

/// `gt`: a chained greater-than; an empty call gives null.
pub fn _gt(args: &Vec<V>, context: &mut Context, poses: &Vec<Position>) -> (r: Result<(V, R), E>)
    requires
        sctx_wf(old(context)@),
        svs_wf(vs_view(args@), 0),
        poses@.len() == vs_view(args@).len(),
    ensures
        ({
            let o = crate::semantics::spec_gtn(vs_view(args@), poses@, old(context)@);
            final(context)@ == o.c && sctx_wf(final(context)@) && res_eout(r, o.r)
        }),
{
    proof {
        lemma_vs_view(args@);
    }
    if args.len() == 0 {
        return Ok((V::Null, R::Norm));
    }
    chain_exec(true, args, context, poses)
}

/// Collect type arguments into a type list (executable).
fn collect_types_exec(args: &Vec<V>, context: &mut Context, poses: &Vec<Position>) -> (r: Result<
    Vec<Type>,
    E,
>)
    requires
        sctx_wf(old(context)@),
        svs_wf(vs_view(args@), 0),
        poses@.len() == vs_view(args@).len(),
    ensures
        ({
            let o = crate::semantics::spec_collect_types(vs_view(args@), poses@, 0, old(context)@);
            final(context)@ == o.0 && sctx_wf(final(context)@) && match r {
                Ok(ts) => o.1 == Ok::<Seq<crate::model::STy>, crate::model::SErr>(
                    crate::values::tys_view(ts@),
                ),
                Err(e) => o.1 == Err::<Seq<crate::model::STy>, crate::model::SErr>(
                    crate::error::e_view(e),
                ),
            }
        }),
{
    proof {
        lemma_vs_view(args@);
    }
    let ghost argsv = vs_view(args@);
    let ghost c0 = old(context)@;
    let n = args.len();
    let mut out: Vec<Type> = Vec::new();
    let mut i: usize = 0;
    while i < n
        invariant
            n == args@.len(),
            i <= n,
            argsv == vs_view(args@),
            argsv.len() == n,
            poses@.len() == n,
            c0 == old(context)@,
            c0 == context@,
            sctx_wf(context@),
            forall|k: int| 0 <= k < n ==> #[trigger] argsv[k] == v_view(args@[k]),
            ({
                let full = crate::semantics::spec_collect_types(argsv, poses@, 0, c0);
                let rest = crate::semantics::spec_collect_types(argsv, poses@, i as int, c0);
                match rest.1 {
                    Ok(ts) => full == (rest.0, Ok::<Seq<crate::model::STy>, crate::model::SErr>(
                        crate::values::tys_view(out@) + ts,
                    )),
                    Err(e) => full == rest,
                }
            }),
        decreases n - i,
    {
        match &args[i] {
            V::Type(t) => {
                let ghost outv0 = crate::values::tys_view(out@);
                let ghost out0 = out@;
                let d = t.dup();
                let ghost dv = crate::values::ty_view(d);
                out.push(d);
                proof {
                    crate::values::lemma_tys_push(out0, out@.last());
                    let rest2 = crate::semantics::spec_collect_types(argsv, poses@, i + 1, c0);
                    match rest2.1 {
                        Ok(ts2) => {
                            assert(outv0 + (seq![dv] + ts2) =~= (outv0 + seq![dv]) + ts2);
                        },
                        Err(_) => {},
                    }
                }
            },
            other => {
                let t = other.typ();
                context.trace(&poses[i]);
                return Err(E::ExpectedType { typ: Type::Type, recv_typ: t });
            },
        }
        i = i + 1;
    }
    Ok(out)
}

/// `union`: the union of the type arguments; empty gives the union of
/// `Any`.
pub fn _union(args: &Vec<V>, context: &mut Context, poses: &Vec<Position>) -> (r: Result<
    (V, R),
    E,
>)
    requires
        sctx_wf(old(context)@),
        svs_wf(vs_view(args@), 0),
        poses@.len() == vs_view(args@).len(),
    ensures
        ({
            let o = crate::semantics::spec_union(vs_view(args@), poses@, old(context)@);
            final(context)@ == o.c && sctx_wf(final(context)@) && res_eout(r, o.r)
        }),
{
    proof {
        lemma_vs_view(args@);
    }
    if args.len() == 0 {
        let mut ts: Vec<Type> = Vec::new();
        ts.push(Type::Any);
        proof {
            crate::values::lemma_tys_view(ts@);
            assert(crate::values::tys_view(ts@) =~= seq![crate::model::STy::Any]);
        }
        return Ok((V::Type(Type::Union(ts)), R::Norm));
    }
    match collect_types_exec(args, context, poses) {
        Ok(ts) => Ok((V::Type(Type::Union(ts)), R::Norm)),
        Err(e) => Err(e),
    }
}

/// `exclude`: the exclusion of the type arguments; empty gives the union
/// of `Any`.
pub fn _exclude(args: &Vec<V>, context: &mut Context, poses: &Vec<Position>) -> (r: Result<
    (V, R),
    E,
>)
    requires
        sctx_wf(old(context)@),
        svs_wf(vs_view(args@), 0),
        poses@.len() == vs_view(args@).len(),
    ensures
        ({
            let o = crate::semantics::spec_exclude(vs_view(args@), poses@, old(context)@);
            final(context)@ == o.c && sctx_wf(final(context)@) && res_eout(r, o.r)
        }),
{
    proof {
        lemma_vs_view(args@);
    }
    if args.len() == 0 {
        let mut ts: Vec<Type> = Vec::new();
        ts.push(Type::Any);
        proof {
            crate::values::lemma_tys_view(ts@);
            assert(crate::values::tys_view(ts@) =~= seq![crate::model::STy::Any]);
        }
        return Ok((V::Type(Type::Union(ts)), R::Norm));
    }
    match collect_types_exec(args, context, poses) {
        Ok(ts) => Ok((V::Type(Type::Exclusion(ts)), R::Norm)),
        Err(e) => Err(e),
    }
}

/// `if`: on a true condition the second argument (a closure argument also
/// runs for its effects), else the third when it is not null, else null.
#[verifier::rlimit(60)]
pub fn _if(args: &Vec<V>, context: &mut Context, fuel: u64) -> (r: Result<(V, R), E>)
    requires
        sctx_wf(old(context)@),
        svs_wf(vs_view(args@), 0),
    ensures
        ({
            let o = crate::semantics::spec_if(vs_view(args@), old(context)@, fuel as nat);
            final(context)@ == o.c && sctx_wf(final(context)@) && res_eout(r, o.r)
        }),
    decreases fuel, 1int, 0int,
{
    if fuel == 0 {
        return Err(E::Depth);
    }
    proof {
        lemma_vs_view(args@);
    }
    let cond = arg_or_null(args, 0);
    let case = arg_or_null(args, 1);
    let else_case = arg_or_null(args, 2);
    let btrue = V::Bool(true);
    if cond.equals(&btrue) {
        if let V::Closure(n, cpath) = &case {
            let saved = context.path.clone();
            context.path = cpath.clone();
            let _run = crate::evaluator::get(&(**n), context, fuel - 1);
            context.path = saved;
        }
        return Ok((case, R::Norm));
    }
    let vnull = V::Null;
    if !else_case.equals(&vnull) {
        if let V::Closure(n, cpath) = &else_case {
            let saved = context.path.clone();
            context.path = cpath.clone();
            let _run = crate::evaluator::get(&(**n), context, fuel - 1);
            context.path = saved;
        }
        return Ok((else_case, R::Norm));
    }
    Ok((V::Null, R::Norm))
}

/// `while`: run the body while the condition casts to true.
pub fn _while(args: &Vec<V>, context: &mut Context, fuel: u64) -> (r: Result<(V, R), E>)
    requires
        sctx_wf(old(context)@),
        svs_wf(vs_view(args@), 0),
    ensures
        ({
            let o = crate::semantics::spec_while(vs_view(args@), old(context)@, fuel as nat);
            final(context)@ == o.c && sctx_wf(final(context)@) && res_eout(r, o.r)
        }),
    decreases fuel, 1int, 0int,
{
    if fuel == 0 {
        return Err(E::Depth);
    }
    proof {
        lemma_vs_view(args@);
    }
    let first = arg_or_null(args, 0);
    let case = arg_or_null(args, 1);
    if let V::Closure(n, cpath) = &first {
        let saved = context.path.clone();
        context.path = cpath.clone();
        let out = crate::evaluator::get(&(**n), context, fuel - 1);
        match out {
            Err(e) => Err(e),
            Ok((v, _)) => {
                context.path = saved;
                let cond = Type::Bool.cast(&v);
                while_loop_exec(cond, &first, &case, context, fuel - 1)
            },
        }
    } else {
        let cond = Type::Bool.cast(&first);
        while_loop_exec(cond, &first, &case, context, fuel - 1)
    }
}

/// One round of the loop: the body, then the condition afresh.
fn while_loop_exec(cond: V, first: &V, case: &V, context: &mut Context, fuel: u64) -> (r: Result<
    (V, R),
    E,
>)
    requires
        sctx_wf(old(context)@),
        sv_wf(v_view(cond)),
        sv_wf(v_view(*first)),
        sv_wf(v_view(*case)),
    ensures
        ({
            let o = crate::semantics::spec_while_loop(
                v_view(cond),
                v_view(*first),
                v_view(*case),
                old(context)@,
                fuel as nat,
            );
            final(context)@ == o.c && sctx_wf(final(context)@) && res_eout(r, o.r)
        }),
    decreases fuel, 0int, 2int,
{
    if fuel == 0 {
        return Err(E::Depth);
    }
    let btrue = V::Bool(true);
    if !cond.equals(&btrue) {
        return Ok((V::Null, R::Norm));
    }
    if let V::Closure(n, cpath) = case {
        let saved = context.path.clone();
        context.path = cpath.clone();
        let out = crate::evaluator::get(&(**n), context, fuel - 1);
        match out {
            Err(e) => Err(e),
            Ok((v, flow)) => {
                context.path = saved;
                if matches!(flow, R::Return) {
                    return Ok((v, R::Return));
                }
                if matches!(flow, R::Break) {
                    return Ok((v, R::Norm));
                }
                while_next_exec(first, case, context, fuel)
            },
        }
    } else {
        while_next_exec(first, case, context, fuel)
    }
}

/// After the body: evaluate the condition afresh and go round again.
fn while_next_exec(first: &V, case: &V, context: &mut Context, fuel: u64) -> (r: Result<
    (V, R),
    E,
>)
    requires
        sctx_wf(old(context)@),
        sv_wf(v_view(*first)),
        sv_wf(v_view(*case)),
    ensures
        ({
            let o = crate::semantics::spec_while_next(
                v_view(*first),
                v_view(*case),
                old(context)@,
                fuel as nat,
            );
            final(context)@ == o.c && sctx_wf(final(context)@) && res_eout(r, o.r)
        }),
    decreases fuel, 0int, 1int,
{
    if fuel == 0 {
        return Err(E::Depth);
    }
    if let V::Closure(n, cpath) = first {
        let saved = context.path.clone();
        context.path = cpath.clone();
        let out = crate::evaluator::get(&(**n), context, fuel - 1);
        match out {
            Err(e) => Err(e),
            Ok((v, _)) => {
                context.path = saved;
                let cond = Type::Bool.cast(&v);
                while_loop_exec(cond, first, case, context, fuel - 1)
            },
        }
    } else {
        let cond = Type::Bool.cast(first);
        while_loop_exec(cond, first, case, context, fuel - 1)
    }
}

/// The text of the first file named `p` in the table (executable).
pub fn files_find(files: &Vec<(String, String)>, p: &String) -> (r: Option<String>)
    ensures
        match crate::semantics::file_lookup(strs_view(files@), p@, 0) {
            Some(t) => r is Some && r->0@ == t,
            None => r is None,
        },
{
    proof {
        lemma_strs_view(files@);
    }
    let n = files.len();
    let mut i: usize = 0;
    while i < n
        invariant
            n == files@.len(),
            i <= n,
            strs_view(files@).len() == n,
            forall|k: int|
                0 <= k < n ==> #[trigger] strs_view(files@)[k] == (files@[k].0@, files@[k].1@),
            crate::semantics::file_lookup(strs_view(files@), p@, i as int)
                == crate::semantics::file_lookup(strs_view(files@), p@, 0),
        decreases n - i,
    {
        if files[i].0 == *p {
            return Some(files[i].1.clone());
        }
        i = i + 1;
    }
    None
}

/// `load`: run another file from the table under its own path; the
/// caller's path is restored either way.
pub fn _load(args: &Vec<V>, context: &mut Context, poses: &Vec<Position>, fuel: u64) -> (r:
    Result<(V, R), E>)
    requires
        sctx_wf(old(context)@),
        svs_wf(vs_view(args@), 0),
        poses@.len() == vs_view(args@).len(),
    ensures
        ({
            let o = crate::semantics::spec_load(vs_view(args@), poses@, old(context)@, fuel as nat);
            final(context)@ == o.c && sctx_wf(final(context)@) && res_eout(r, o.r)
        }),
    decreases fuel, 1int, 0int,
{
    if fuel == 0 {
        return Err(E::Depth);
    }
    proof {
        lemma_vs_view(args@);
        crate::values::lemma_svs_wf_iff(vs_view(args@), 0);
    }
    if args.len() == 0 {
        return Ok((V::Null, R::Norm));
    }
    match &args[0] {
        V::Str(p) => {
            let pth = p.clone();
            let saved = context.path.clone();
            context.path = pth.clone();
            let res = crate::runfile(&pth, context, fuel - 1);
            context.path = saved;
            match res {
                Ok(_) => Ok((V::Null, R::Norm)),
                Err(e) => Err(e),
            }
        },
        other => {
            let rt = other.typ();
            context.trace(&poses[0]);
            Err(E::ExpectedType { typ: Type::Str, recv_typ: rt })
        },
    }
}

/// A variadic native operation.
fn nfv(f: Nf) -> (r: V)
    ensures
        v_view(r) == SV::NativFunction(Box::new(SV::Null), f),
        sv_wf(v_view(r)),
{
    proof {
        reveal_with_fuel(v_view, 3);
        reveal_with_fuel(sv_wf, 3);
    }
    V::NativFunction(Box::new(V::Null), f)
}

/// A native operation with a one-slot pattern.
fn nf1(a: Type, f: Nf) -> (r: V)
    ensures
        v_view(r) == SV::NativFunction(
            Box::new(SV::Pattern(seq![crate::values::ty_view(a)])),
            f,
        ),
        sv_wf(v_view(r)),
{
    let ghost av = crate::values::ty_view(a);
    let mut ts: Vec<Type> = Vec::new();
    ts.push(a);
    proof {
        reveal_with_fuel(v_view, 3);
        reveal_with_fuel(sv_wf, 3);
        crate::values::lemma_tys_view(ts@);
        assert(crate::values::tys_view(ts@) =~= seq![av]);
    }
    V::NativFunction(Box::new(V::Pattern(ts)), f)
}

/// A native operation with a two-slot pattern.
fn nf2(a: Type, b: Type, f: Nf) -> (r: V)
    ensures
        v_view(r) == SV::NativFunction(
            Box::new(
                SV::Pattern(seq![crate::values::ty_view(a), crate::values::ty_view(b)]),
            ),
            f,
        ),
        sv_wf(v_view(r)),
{
    let ghost av = crate::values::ty_view(a);
    let ghost bv = crate::values::ty_view(b);
    let mut ts: Vec<Type> = Vec::new();
    ts.push(a);
    ts.push(b);
    proof {
        reveal_with_fuel(v_view, 3);
        reveal_with_fuel(sv_wf, 3);
        crate::values::lemma_tys_view(ts@);
        assert(crate::values::tys_view(ts@) =~= seq![av, bv]);
    }
    V::NativFunction(Box::new(V::Pattern(ts)), f)
}

/// A native operation with a three-slot pattern.
fn nf3(a: Type, b: Type, c: Type, f: Nf) -> (r: V)
    ensures
        v_view(r) == SV::NativFunction(
            Box::new(
                SV::Pattern(
                    seq![
                        crate::values::ty_view(a),
                        crate::values::ty_view(b),
                        crate::values::ty_view(c),
                    ],
                ),
            ),
            f,
        ),
        sv_wf(v_view(r)),
{
    let ghost av = crate::values::ty_view(a);
    let ghost bv = crate::values::ty_view(b);
    let ghost cv = crate::values::ty_view(c);
    let mut ts: Vec<Type> = Vec::new();
    ts.push(a);
    ts.push(b);
    ts.push(c);
    proof {
        reveal_with_fuel(v_view, 3);
        reveal_with_fuel(sv_wf, 3);
        crate::values::lemma_tys_view(ts@);
        assert(crate::values::tys_view(ts@) =~= seq![av, bv, cv]);
    }
    V::NativFunction(Box::new(V::Pattern(ts)), f)
}

/// The union of two types.
fn ty_union2(a: Type, b: Type) -> (r: Type)
    ensures
        crate::values::ty_view(r) == crate::model::STy::Union(
            seq![crate::values::ty_view(a), crate::values::ty_view(b)],
        ),
{
    let ghost av = crate::values::ty_view(a);
    let ghost bv = crate::values::ty_view(b);
    let mut ts: Vec<Type> = Vec::new();
    ts.push(a);
    ts.push(b);
    proof {
        crate::values::lemma_tys_view(ts@);
        assert(crate::values::tys_view(ts@) =~= seq![av, bv]);
    }
    Type::Union(ts)
}

/// A fresh context for `path` with the prelude installed: the scope
/// rules, the conditional and the loop, arithmetic, comparison and
/// equality, the type constructors, printing, loading and assertion.
pub fn funx_context(path: &String) -> (r: Context)
    ensures
        r@ == crate::semantics::spec_funx_context(path@),
        sctx_wf(r@),
{
    let mut gv: Vec<(String, V)> = Vec::new();
    gv.push((String::from_str("var"), nf2(Type::Addr, Type::Any, Nf::Var)));
    gv.push((String::from_str("set"), nf2(Type::Addr, Type::Any, Nf::Assign)));
    gv.push((String::from_str("def"), nf2(Type::Addr, Type::Any, Nf::Def)));
    gv.push((String::from_str("get"), nf1(Type::Addr, Nf::Get)));
    gv.push((String::from_str("if"), nf3(Type::Bool, Type::some(), Type::Any, Nf::If)));
    gv.push(
        (
            String::from_str("while"),
            nf2(ty_union2(Type::Bool, Type::Closure), Type::Closure, Nf::While),
        ),
    );
    gv.push((String::from_str("+"), nfv(Nf::Add)));
    gv.push((String::from_str("-"), nfv(Nf::Sub)));
    gv.push((String::from_str("*"), nfv(Nf::Mul)));
    gv.push((String::from_str("/"), nfv(Nf::Div)));
    gv.push((String::from_str("="), nfv(Nf::Eq)));
    gv.push((String::from_str("lt"), nf2(number_ty(), number_ty(), Nf::Lt)));
    gv.push((String::from_str("gt"), nf2(number_ty(), number_ty(), Nf::Gt)));
    gv.push((String::from_str("union"), nfv(Nf::Union)));
    gv.push((String::from_str("exclude"), nfv(Nf::Exclude)));
    gv.push((String::from_str("print"), nfv(Nf::Print)));
    gv.push((String::from_str("load"), nfv(Nf::Load)));
    gv.push((String::from_str("assert"), nfv(Nf::Assert)));
    let mut scopes: Vec<Scope> = Vec::new();
    scopes.push(Scope::new());
    let r = Context {
        path: path.clone(),
        scopes,
        global: Scope { vars: gv, args: Vec::new() },
        trace: Vec::new(),
        files: Vec::new(),
        out: Vec::new(),
    };
    proof {
        lemma_scopes_view(r.scopes@);
        assert(scopes_view(r.scopes@) =~= seq![
            SScope { vars: Seq::<(Seq<char>, SV)>::empty(), args: Seq::<SV>::empty() },
        ]);
        lemma_pairs_view(r.global.vars@);
        assert(pairs_view(r.global.vars@) =~= crate::semantics::funx_globals());
        assert(vs_view(r.global.args@) =~= Seq::<SV>::empty());
        assert(trace_view(r.trace@) =~= Seq::<(Position, Seq<char>)>::empty());
        assert(strs_view(r.files@) =~= Seq::<(Seq<char>, Seq<char>)>::empty());
    }
    r
}

/// The numeric type: an integer or a float.
fn number_ty() -> (r: Type)
    ensures
        crate::values::ty_view(r) == crate::model::STy::Union(
            seq![crate::model::STy::Int, crate::model::STy::Float],
        ),
{
    ty_union2(Type::Int, Type::Float)
}

/// An exact copy of a file table.
pub fn files_dup(files: &Vec<(String, String)>) -> (r: Vec<(String, String)>)
    ensures
        strs_view(r@) == strs_view(files@),
{
    let mut r: Vec<(String, String)> = Vec::new();
    let mut i: usize = 0;
    while i < files.len()
        invariant
            i <= files@.len(),
            r@.len() == i,
            forall|k: int|
                0 <= k < i ==> r@[k].0@ == files@[k].0@ && r@[k].1@ == files@[k].1@,
        decreases files@.len() - i,
    {
        let p = (files[i].0.clone(), files[i].1.clone());
        r.push(p);
        i = i + 1;
    }
    proof {
        lemma_strs_view(files@);
        lemma_strs_view(r@);
        assert(strs_view(r@) =~= strs_view(files@));
    }
    r
}

} // verus!
