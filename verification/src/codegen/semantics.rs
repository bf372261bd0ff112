//! Semantic checks run before code generation: every variable is declared
//! before it is used in its function's scopes, builtins get the number of
//! arguments they take, called functions exist, and locals that are never
//! read are reported.

use vstd::prelude::*;
use crate::ast::{
    lemma_view_arms, lemma_view_exprs, lemma_view_stmts, view_arms, view_exprs, view_stmts,
    sviews, Expr, ExprM, Function, FunctionM, Item, ItemM, Module, Stmt, StmtM,
};
use crate::codegen::{Diagnostic, DiagnosticCode, DiagnosticSeverity};
use crate::strset::{set_contains, set_insert, set_of, sorted};
use crate::backend::m6809::builtin_helpers::{
    DBG_STATIC_VL, DEBUG_PRINT, DEBUG_PRINT_LABELED, DRAW_TO, DRAW_VL, FRAME_BEGIN, MOVE_TO,
    PHASE_BEGIN, PLAY_MUSIC1, PRINT_TEXT, SET_INTENSITY, SET_ORIGIN, WAIT_RECAL,
};
use crate::text::{
    contains, digit_char, lemma_find_from, occurs_at, ascii_upper_seq, ascii_upper_vec, chars_of, dec, push_dec, push_str, slice_of, starts_with,
    starts_with_str, string_from, string_of, vec_is,
};

verus! {

/// Model of a diagnostic: severity, code, message, line, column.
pub type DiagnosticM = (DiagnosticSeverity, DiagnosticCode, Seq<char>, Option<usize>, Option<usize>);

impl Diagnostic {
    pub open spec fn view(&self) -> DiagnosticM {
        (self.severity, self.code, self.message@, self.line, self.col)
    }
}

/// The models of a sequence of diagnostics.
pub open spec fn diags_view(s: Seq<Diagnostic>) -> Seq<DiagnosticM> {
    s.map_values(|d: Diagnostic| d.view())
}

/// The number of arguments each builtin takes, by its upper-case name
/// without the `VECTREX_` prefix (the first entry of the table that matches).
pub open spec fn builtin_arity(core: Seq<char>) -> Option<nat> {
    if core == "MOVE"@ {
        Some(2)
    } else if core == "PRINT_TEXT"@ {
        Some(3)
    } else if core == "DRAW_TO"@ {
        Some(2)
    } else if core == "DRAW_LINE"@ {
        Some(5)
    } else if core == "SET_ORIGIN"@ {
        Some(0)
    } else if core == "SET_INTENSITY"@ {
        Some(1)
    } else if core == "DEBUG_PRINT"@ {
        Some(1)
    } else if core == "DEBUG_PRINT_LABELED"@ {
        Some(2)
    } else if core == "DEBUG_PRINT_STR"@ {
        Some(1)
    } else if core == "DRAW_VECTOR"@ {
        Some(3)
    } else if core == "DRAW_VECTOR_EX"@ {
        Some(4)
    } else if core == "PLAY_MUSIC"@ {
        Some(1)
    } else if core == "PLAY_SFX"@ {
        Some(1)
    } else if core == "MUSIC_UPDATE"@ {
        Some(0)
    } else if core == "SFX_UPDATE"@ {
        Some(0)
    } else if core == "STOP_MUSIC"@ {
        Some(0)
    } else if core == "DRAW_VECTOR_LIST"@ {
        Some(4)
    } else if core == "DRAW_VL"@ {
        Some(2)
    } else if core == "FRAME_BEGIN"@ {
        Some(1)
    } else if core == "VECTOR_PHASE_BEGIN"@ {
        Some(0)
    } else if core == "WAIT_RECAL"@ {
        Some(0)
    } else if core == "PLAY_MUSIC1"@ {
        Some(0)
    } else if core == "DBG_STATIC_VL"@ {
        Some(0)
    } else if core == "ABS"@ {
        Some(1)
    } else if core == "LEN"@ {
        Some(1)
    } else if core == "ASM"@ {
        Some(1)
    } else if core == "J1_X"@ {
        Some(0)
    } else if core == "J1_Y"@ {
        Some(0)
    } else if core == "J1_X_DIGITAL"@ {
        Some(0)
    } else if core == "J1_Y_DIGITAL"@ {
        Some(0)
    } else if core == "J1_X_ANALOG"@ {
        Some(0)
    } else if core == "J1_Y_ANALOG"@ {
        Some(0)
    } else if core == "J1_BUTTON_1"@ {
        Some(0)
    } else if core == "J1_BUTTON_2"@ {
        Some(0)
    } else if core == "J1_BUTTON_3"@ {
        Some(0)
    } else if core == "J1_BUTTON_4"@ {
        Some(0)
    } else if core == "J2_X"@ {
        Some(0)
    } else if core == "J2_Y"@ {
        Some(0)
    } else if core == "J2_X_DIGITAL"@ {
        Some(0)
    } else if core == "J2_Y_DIGITAL"@ {
        Some(0)
    } else if core == "J2_X_ANALOG"@ {
        Some(0)
    } else if core == "J2_Y_ANALOG"@ {
        Some(0)
    } else if core == "J2_BUTTON_1"@ {
        Some(0)
    } else if core == "J2_BUTTON_2"@ {
        Some(0)
    } else if core == "J2_BUTTON_3"@ {
        Some(0)
    } else if core == "J2_BUTTON_4"@ {
        Some(0)
    } else if core == "MOVE_TO"@ {
        Some(2)
    } else {
        None
    }
}

fn builtin_arity_exec(core: &Vec<char>) -> (r: Option<usize>)
    ensures
        r matches Some(n) ==> builtin_arity(core@) == Some(n as nat),
        r is None ==> builtin_arity(core@) is None,
{
    if vec_is(core, "MOVE") {
        Some(2)
    } else if vec_is(core, "PRINT_TEXT") {
        Some(3)
    } else if vec_is(core, "DRAW_TO") {
        Some(2)
    } else if vec_is(core, "DRAW_LINE") {
        Some(5)
    } else if vec_is(core, "SET_ORIGIN") {
        Some(0)
    } else if vec_is(core, "SET_INTENSITY") {
        Some(1)
    } else if vec_is(core, "DEBUG_PRINT") {
        Some(1)
    } else if vec_is(core, "DEBUG_PRINT_LABELED") {
        Some(2)
    } else if vec_is(core, "DEBUG_PRINT_STR") {
        Some(1)
    } else if vec_is(core, "DRAW_VECTOR") {
        Some(3)
    } else if vec_is(core, "DRAW_VECTOR_EX") {
        Some(4)
    } else if vec_is(core, "PLAY_MUSIC") {
        Some(1)
    } else if vec_is(core, "PLAY_SFX") {
        Some(1)
    } else if vec_is(core, "MUSIC_UPDATE") {
        Some(0)
    } else if vec_is(core, "SFX_UPDATE") {
        Some(0)
    } else if vec_is(core, "STOP_MUSIC") {
        Some(0)
    } else if vec_is(core, "DRAW_VECTOR_LIST") {
        Some(4)
    } else if vec_is(core, "DRAW_VL") {
        Some(2)
    } else if vec_is(core, "FRAME_BEGIN") {
        Some(1)
    } else if vec_is(core, "VECTOR_PHASE_BEGIN") {
        Some(0)
    } else if vec_is(core, "WAIT_RECAL") {
        Some(0)
    } else if vec_is(core, "PLAY_MUSIC1") {
        Some(0)
    } else if vec_is(core, "DBG_STATIC_VL") {
        Some(0)
    } else if vec_is(core, "ABS") {
        Some(1)
    } else if vec_is(core, "LEN") {
        Some(1)
    } else if vec_is(core, "ASM") {
        Some(1)
    } else if vec_is(core, "J1_X") {
        Some(0)
    } else if vec_is(core, "J1_Y") {
        Some(0)
    } else if vec_is(core, "J1_X_DIGITAL") {
        Some(0)
    } else if vec_is(core, "J1_Y_DIGITAL") {
        Some(0)
    } else if vec_is(core, "J1_X_ANALOG") {
        Some(0)
    } else if vec_is(core, "J1_Y_ANALOG") {
        Some(0)
    } else if vec_is(core, "J1_BUTTON_1") {
        Some(0)
    } else if vec_is(core, "J1_BUTTON_2") {
        Some(0)
    } else if vec_is(core, "J1_BUTTON_3") {
        Some(0)
    } else if vec_is(core, "J1_BUTTON_4") {
        Some(0)
    } else if vec_is(core, "J2_X") {
        Some(0)
    } else if vec_is(core, "J2_Y") {
        Some(0)
    } else if vec_is(core, "J2_X_DIGITAL") {
        Some(0)
    } else if vec_is(core, "J2_Y_DIGITAL") {
        Some(0)
    } else if vec_is(core, "J2_X_ANALOG") {
        Some(0)
    } else if vec_is(core, "J2_Y_ANALOG") {
        Some(0)
    } else if vec_is(core, "J2_BUTTON_1") {
        Some(0)
    } else if vec_is(core, "J2_BUTTON_2") {
        Some(0)
    } else if vec_is(core, "J2_BUTTON_3") {
        Some(0)
    } else if vec_is(core, "J2_BUTTON_4") {
        Some(0)
    } else if vec_is(core, "MOVE_TO") {
        Some(2)
    } else {
        None
    }
}

/// The arity of a builtin called by `name`: upper-cased, an optional
/// `VECTREX_` prefix removed.
pub open spec fn expected_arity(name: Seq<char>) -> Option<nat> {
    let up = ascii_upper_seq(name);
    let core = if starts_with(up, "VECTREX_"@) {
        up.skip("VECTREX_"@.len() as int)
    } else {
        up
    };
    builtin_arity(core)
}

/// The number of arguments a builtin takes, if `name` is one.
pub fn expected_builtin_arity(name: &str) -> (r: Option<usize>)
    ensures
        r matches Some(n) ==> expected_arity(name@) == Some(n as nat),
        r is None ==> expected_arity(name@) is None,
{
    let nv = chars_of(name);
    let upper = ascii_upper_vec(&nv);
    let core = if starts_with_str(&upper, "VECTREX_") {
        let pre = chars_of("VECTREX_");
        let c = slice_of(&upper, pre.len(), upper.len());
        assert(c@ =~= upper@.skip("VECTREX_"@.len() as int));
        c
    } else {
        upper
    };
    builtin_arity_exec(&core)
}

// ---------------------------------------------------------------------------
// Messages
// ---------------------------------------------------------------------------

pub open spec fn msg_undeclared(name: Seq<char>) -> Seq<char> {
    "SemanticsError: uso de variable no declarada '"@ + name + "'."@
}

pub open spec fn msg_other_function(name: Seq<char>, other: Seq<char>, current: Seq<char>) -> Seq<char> {
    "SemanticsError: variable '"@ + name + "' declarada en función '"@ + other
        + "' no es accesible en '"@ + current
        + "'. Las funciones en VPy tienen scopes separados (no comparten variables). Solución: declara '"@
        + name + "' dentro de '"@ + current + "' donde la necesitas."@
}

pub open spec fn msg_compound(name: Seq<char>) -> Seq<char> {
    "SemanticsError: asignación compuesta a variable no declarada '"@ + name
        + "'. Declárala primero con '"@ + name + " = ...' antes de usar '"@ + name + " += ...'"@
}

pub open spec fn msg_arity(name: Seq<char>, got: nat, want: nat) -> Seq<char> {
    "SemanticsErrorArity: llamada a '"@ + name + "' con "@ + dec(got) + " argumentos; se esperaban "@
        + dec(want) + "."@
}

pub open spec fn msg_unknown_function(name: Seq<char>) -> Seq<char> {
    "Unknown function '"@ + name + "'"@
}

pub open spec fn msg_unused(func: Seq<char>, var: Seq<char>) -> Seq<char> {
    "[unused-var] funcion='"@ + func + "' var='"@ + var + "'"@
}

fn error_diag(code: DiagnosticCode, message: String, line: usize, col: usize) -> (r: Diagnostic)
    ensures
        r.view() == (DiagnosticSeverity::Error, code, message@, Some(line), Some(col)),
{
    Diagnostic { severity: DiagnosticSeverity::Error, code, message, line: Some(line), col: Some(col) }
}

// ---------------------------------------------------------------------------
// Scopes
// ---------------------------------------------------------------------------

/// A scope is a stack of frames; each frame lists its names once, in the
/// order they were declared.
pub open spec fn declared_in(scope: Seq<Seq<Seq<char>>>, name: Seq<char>) -> bool {
    exists|i: int| 0 <= i < scope.len() && #[trigger] scope[i].contains(name)
}

/// `list` with `name` added at the end unless it holds it already.
pub open spec fn add_name(list: Seq<Seq<char>>, name: Seq<char>) -> Seq<Seq<char>> {
    if list.contains(name) {
        list
    } else {
        list.push(name)
    }
}

/// Declares `name` in the innermost frame (nothing without a frame).
pub open spec fn declare(scope: Seq<Seq<Seq<char>>>, name: Seq<char>) -> Seq<Seq<Seq<char>>> {
    if scope.len() > 0 {
        scope.update(scope.len() - 1, add_name(scope.last(), name))
    } else {
        scope
    }
}

/// What a function's check knows of the module: the function's name, the
/// locals of every function (by name, in the order the functions were first
/// defined), and the names of the functions defined.
pub struct CheckCtx {
    pub func: Seq<char>,
    pub locals: Seq<(Seq<char>, Set<Seq<char>>)>,
    pub defined: Set<Seq<char>>,
}

/// The state of a function's check: the scope, the names read so far, and
/// the errors found so far.
pub struct CheckState {
    pub scope: Seq<Seq<Seq<char>>>,
    pub reads: Set<Seq<char>>,
    pub errors: Seq<DiagnosticM>,
}

pub open spec fn push_frame(st: CheckState) -> CheckState {
    CheckState { scope: st.scope.push(Seq::empty()), ..st }
}

pub open spec fn pop_frame(st: CheckState) -> CheckState {
    CheckState {
        scope: if st.scope.len() > 0 {
            st.scope.drop_last()
        } else {
            st.scope
        },
        ..st
    }
}

pub open spec fn declare_in(st: CheckState, name: Seq<char>) -> CheckState {
    CheckState { scope: declare(st.scope, name), ..st }
}

pub open spec fn add_error(st: CheckState, d: DiagnosticM) -> CheckState {
    CheckState { errors: st.errors.push(d), ..st }
}

/// The first function other than `current` (in table order) whose locals
/// hold `name`.
pub open spec fn other_function_with(
    locals: Seq<(Seq<char>, Set<Seq<char>>)>,
    current: Seq<char>,
    name: Seq<char>,
) -> Option<Seq<char>>
    decreases locals.len(),
{
    if locals.len() == 0 {
        None
    } else if locals[0].0 != current && locals[0].1.contains(name) {
        Some(locals[0].0)
    } else {
        other_function_with(locals.drop_first(), current, name)
    }
}

/// The error for a use of an undeclared variable.
pub open spec fn undeclared_diag(name: Seq<char>, line: usize, col: usize, ctx: CheckCtx) -> DiagnosticM {
    (
        DiagnosticSeverity::Error,
        DiagnosticCode::UndeclaredVar,
        match other_function_with(ctx.locals, ctx.func, name) {
            Some(other) => msg_other_function(name, other, ctx.func),
            None => msg_undeclared(name),
        },
        Some(line),
        Some(col),
    )
}

/// The errors for a call: a builtin with the wrong number of arguments, or
/// a function that is neither a builtin nor defined.
pub open spec fn call_errors(name: Seq<char>, line: usize, col: usize, nargs: nat, ctx: CheckCtx) -> Seq<
    DiagnosticM,
> {
    match expected_arity(name) {
        Some(want) => if nargs != want {
            seq![
                (
                    DiagnosticSeverity::Error,
                    DiagnosticCode::ArityMismatch,
                    msg_arity(name, nargs, want),
                    Some(line),
                    Some(col),
                ),
            ]
        } else {
            Seq::empty()
        },
        None => if !ctx.defined.contains(name) {
            seq![
                (
                    DiagnosticSeverity::Error,
                    DiagnosticCode::UndeclaredVar,
                    msg_unknown_function(name),
                    Some(line),
                    Some(col),
                ),
            ]
        } else {
            Seq::empty()
        },
    }
}

// ---------------------------------------------------------------------------
// The check of expressions and statements
// ---------------------------------------------------------------------------

/// The check of an expression: identifiers must be declared (and count as
/// read), calls must fit a builtin or a defined function.
pub open spec fn check_expr(e: ExprM, st: CheckState, ctx: CheckCtx) -> CheckState
    decreases e,
{
    match e {
        ExprM::Ident(name, line, col) => if !declared_in(st.scope, name) {
            add_error(st, undeclared_diag(name, line, col, ctx))
        } else {
            CheckState { reads: st.reads.insert(name), ..st }
        },
        ExprM::Call(name, line, col, args) => check_exprs(
            args,
            CheckState { errors: st.errors + call_errors(name, line, col, args.len(), ctx), ..st },
            ctx,
        ),
        ExprM::Binary(_, l, r) => check_expr(*r, check_expr(*l, st, ctx), ctx),
        ExprM::Compare(_, l, r) => check_expr(*r, check_expr(*l, st, ctx), ctx),
        ExprM::Logic(_, l, r) => check_expr(*r, check_expr(*l, st, ctx), ctx),
        ExprM::Not(x) => check_expr(*x, st, ctx),
        ExprM::BitNot(x) => check_expr(*x, st, ctx),
        _ => st,
    }
}

pub open spec fn check_exprs(s: Seq<ExprM>, st: CheckState, ctx: CheckCtx) -> CheckState
    decreases s,
{
    if s.len() == 0 {
        st
    } else {
        check_expr(s.last(), check_exprs(s.drop_last(), st, ctx), ctx)
    }
}

/// The executable state of a function's check.
pub struct Checker {
    pub scope: Vec<Vec<String>>,
    pub reads: Vec<String>,
    pub errors: Vec<Diagnostic>,
}

/// The executable view of the module that a function's check reads.
pub struct CheckEnv {
    pub func: String,
    pub locals: Vec<(String, Vec<String>)>,
    pub defined: Vec<String>,
}

/// The names of a frame.
pub open spec fn frame_view(f: Vec<String>) -> Seq<Seq<char>> {
    sviews(f@)
}

impl Checker {
    pub open spec fn view(&self) -> CheckState {
        CheckState {
            scope: self.scope@.map_values(|f: Vec<String>| frame_view(f)),
            reads: set_of(self.reads@),
            errors: diags_view(self.errors@),
        }
    }

    /// Each frame lists a name once; the reads are kept sorted.
    pub open spec fn wf(&self) -> bool {
        &&& forall|i: int| 0 <= i < self.scope@.len() ==> #[trigger] frame_view(self.scope@[i]).no_duplicates()
        &&& sorted(sviews(self.reads@))
    }
}

impl CheckEnv {
    pub open spec fn view(&self) -> CheckCtx {
        CheckCtx {
            func: self.func@,
            locals: self.locals@.map_values(|p: (String, Vec<String>)| (p.0@, set_of(p.1@))),
            defined: set_of(self.defined@),
        }
    }
}

fn frame_contains(f: &Vec<String>, name: &str) -> (r: bool)
    ensures
        r == frame_view(*f).contains(name@),
{
    let mut i: usize = 0;
    while i < f.len()
        invariant
            i <= f.len(),
            forall|k: int| 0 <= k < i ==> f@[k]@ != name@,
        decreases f.len() - i,
    {
        if crate::text::str_eq(f[i].as_str(), name) {
            assert(frame_view(*f)[i as int] == name@);
            return true;
        }
        i += 1;
    }
    false
}

fn scope_declares(scope: &Vec<Vec<String>>, name: &str) -> (r: bool)
    ensures
        r == declared_in(scope@.map_values(|f: Vec<String>| frame_view(f)), name@),
{
    let ghost sv = scope@.map_values(|f: Vec<String>| frame_view(f));
    let mut i = scope.len();
    while i > 0
        invariant
            i <= scope.len(),
            sv == scope@.map_values(|f: Vec<String>| frame_view(f)),
            forall|k: int| i <= k < scope@.len() ==> !sv[k].contains(name@),
        decreases i,
    {
        if frame_contains(&scope[i - 1], name) {
            assert(sv[i - 1].contains(name@));
            return true;
        }
        i -= 1;
    }
    false
}

impl Checker {
    fn declare_name(&mut self, name: &str)
        requires
            old(self).wf(),
        ensures
            final(self).wf(),
            final(self).view() == declare_in(old(self).view(), name@),
    {
        let ghost sv = self.view().scope;
        if self.scope.len() > 0 {
            let ghost n = self.scope.len() - 1;
            let mut top = self.scope.pop().unwrap();
            assert(frame_view(top) == sv.last());
            assert(frame_view(old(self).scope@[n]).no_duplicates());
            if !frame_contains(&top, name) {
                let ghost before = frame_view(top);
                top.push(string_from(name));
                assert(frame_view(top) =~= before.push(name@));
                assert(frame_view(top).no_duplicates()) by {
                    assert forall|a: int, b: int| 0 <= a < b < frame_view(top).len() implies frame_view(
                        top,
                    )[a] != frame_view(top)[b] by {
                        if b == before.len() {
                            assert(before.contains(before[a]));
                        }
                    }
                }
            }
            self.scope.push(top);
            assert forall|i: int| 0 <= i < self.scope@.len() implies #[trigger] frame_view(
                self.scope@[i],
            ).no_duplicates() by {
                if i < n {
                    assert(self.scope@[i] == old(self).scope@[i]);
                }
            }
            assert(self.view().scope =~= declare(sv, name@));
        }
        assert(self.view().scope =~= declare(sv, name@));
    }

    fn push_frame(&mut self)
        requires
            old(self).wf(),
        ensures
            final(self).wf(),
            final(self).view() == push_frame(old(self).view()),
    {
        let fresh: Vec<String> = Vec::new();
        assert(frame_view(fresh) =~= Seq::<Seq<char>>::empty());
        self.scope.push(fresh);
        assert(self.view().scope =~= old(self).view().scope.push(Seq::empty()));
    }

    fn pop_frame(&mut self)
        requires
            old(self).wf(),
        ensures
            final(self).wf(),
            final(self).view() == pop_frame(old(self).view()),
    {
        if self.scope.len() > 0 {
            self.scope.pop();
            assert(self.view().scope =~= old(self).view().scope.drop_last());
        }
    }

    fn read(&mut self, name: &str)
        requires
            old(self).wf(),
        ensures
            final(self).wf(),
            final(self).view() == (CheckState { reads: old(self).view().reads.insert(name@), ..old(self).view() }),
    {
        set_insert(&mut self.reads, string_from(name));
    }

    fn report(&mut self, d: Diagnostic)
        requires
            old(self).wf(),
        ensures
            final(self).wf(),
            final(self).view() == add_error(old(self).view(), d.view()),
    {
        self.errors.push(d);
        assert(diags_view(self.errors@) =~= diags_view(old(self).errors@).push(d.view()));
    }
}

fn other_function_exec(env: &CheckEnv, name: &str) -> (r: Option<String>)
    ensures
        r matches Some(o) ==> other_function_with(env.view().locals, env.func@, name@) == Some(o@),
        r is None ==> other_function_with(env.view().locals, env.func@, name@) is None,
{
    let ghost lv = env.view().locals;
    let mut i: usize = 0;
    assert(lv.skip(0) =~= lv);
    while i < env.locals.len()
        invariant
            i <= env.locals.len(),
            lv == env.view().locals,
            other_function_with(lv, env.func@, name@) == other_function_with(lv.skip(i as int), env.func@, name@),
        decreases env.locals.len() - i,
    {
        assert(lv.skip(i as int)[0] == (env.locals@[i as int].0@, set_of(env.locals@[i as int].1@)));
        assert(lv.skip(i as int).drop_first() =~= lv.skip(i + 1));
        if !crate::text::str_eq(env.locals[i].0.as_str(), env.func.as_str()) && set_contains(&env.locals[i].1, name) {
            return Some(env.locals[i].0.clone());
        }
        i += 1;
    }
    None
}

fn undeclared_exec(env: &CheckEnv, name: &str, line: usize, col: usize) -> (r: Diagnostic)
    ensures
        r.view() == undeclared_diag(name@, line, col, env.view()),
{
    let mut m = String::new();
    match other_function_exec(env, name) {
        Some(other) => {
            push_str(&mut m, "SemanticsError: variable '");
            push_str(&mut m, name);
            push_str(&mut m, "' declarada en función '");
            push_str(&mut m, other.as_str());
            push_str(&mut m, "' no es accesible en '");
            push_str(&mut m, env.func.as_str());
            push_str(
                &mut m,
                "'. Las funciones en VPy tienen scopes separados (no comparten variables). Solución: declara '",
            );
            push_str(&mut m, name);
            push_str(&mut m, "' dentro de '");
            push_str(&mut m, env.func.as_str());
            push_str(&mut m, "' donde la necesitas.");
            assert(m@ =~= msg_other_function(name@, other@, env.func@));
        },
        None => {
            push_str(&mut m, "SemanticsError: uso de variable no declarada '");
            push_str(&mut m, name);
            push_str(&mut m, "'.");
            assert(m@ =~= msg_undeclared(name@));
        },
    }
    error_diag(DiagnosticCode::UndeclaredVar, m, line, col)
}

fn check_call(c: &mut Checker, env: &CheckEnv, name: &str, line: usize, col: usize, nargs: usize)
    requires
        old(c).wf(),
    ensures
        final(c).wf(),
        final(c).view() == (CheckState {
            errors: old(c).view().errors + call_errors(name@, line, col, nargs as nat, env.view()),
            ..old(c).view()
        }),
{
    match expected_builtin_arity(name) {
        Some(exp) => {
            if nargs != exp {
                let mut m = String::new();
                push_str(&mut m, "SemanticsErrorArity: llamada a '");
                push_str(&mut m, name);
                push_str(&mut m, "' con ");
                push_dec(&mut m, nargs as u64);
                push_str(&mut m, " argumentos; se esperaban ");
                push_dec(&mut m, exp as u64);
                push_str(&mut m, ".");
                assert(m@ =~= msg_arity(name@, nargs as nat, exp as nat));
                c.report(error_diag(DiagnosticCode::ArityMismatch, m, line, col));
            }
        },
        None => {
            if !set_contains(&env.defined, name) {
                let mut m = String::new();
                push_str(&mut m, "Unknown function '");
                push_str(&mut m, name);
                push_str(&mut m, "'");
                assert(m@ =~= msg_unknown_function(name@));
                c.report(error_diag(DiagnosticCode::UndeclaredVar, m, line, col));
            }
        },
    }
    assert(c.view().errors =~= old(c).view().errors + call_errors(name@, line, col, nargs as nat, env.view()));
}

fn validate_expr_collect(e: &Expr, c: &mut Checker, env: &CheckEnv)
    requires
        old(c).wf(),
    ensures
        final(c).wf(),
        final(c).view() == check_expr(e.view(), old(c).view(), env.view()),
    decreases e,
{
    match e {
        Expr::Ident(info) => {
            if !scope_declares(&c.scope, info.name.as_str()) {
                let d = undeclared_exec(env, info.name.as_str(), info.source_line, info.col);
                c.report(d);
            } else {
                c.read(info.name.as_str());
            }
        },
        Expr::Call(ci) => {
            proof {
                lemma_view_exprs(ci.args@);
            }
            check_call(c, env, ci.name.as_str(), ci.source_line, ci.col, ci.args.len());
            validate_exprs_collect(&ci.args, c, env);
        },
        Expr::Binary { left, right, .. } | Expr::Compare { left, right, .. } | Expr::Logic {
            left,
            right,
            ..
        } => {
            validate_expr_collect(left, c, env);
            validate_expr_collect(right, c, env);
        },
        Expr::Not(inner) | Expr::BitNot(inner) => validate_expr_collect(inner, c, env),
        _ => {},
    }
}

fn validate_exprs_collect(v: &Vec<Expr>, c: &mut Checker, env: &CheckEnv)
    requires
        old(c).wf(),
    ensures
        final(c).wf(),
        final(c).view() == check_exprs(view_exprs(v@), old(c).view(), env.view()),
    decreases v,
{
    let ghost vs = view_exprs(v@);
    proof {
        lemma_view_exprs(v@);
        assert(vs.take(0) =~= Seq::<ExprM>::empty());
    }
    let mut i: usize = 0;
    while i < v.len()
        invariant
            i <= v.len(),
            vs == view_exprs(v@),
            vs.len() == v.len(),
            forall|k: int| 0 <= k < v.len() ==> #[trigger] vs[k] == v@[k].view(),
            c.wf(),
            c.view() == check_exprs(vs.take(i as int), old(c).view(), env.view()),
        decreases v.len() - i,
    {
        assert(vs.take(i + 1).drop_last() =~= vs.take(i as int));
        validate_expr_collect(&v[i], c, env);
        i += 1;
    }
    assert(vs.take(v.len() as int) =~= vs);
}

/// The check of a statement: `let` declares after its value is checked, a
/// plain assignment declares its target first, a compound assignment needs a
/// declared target and reads it; every body is checked in a frame of its
/// own (a `for` frame holds its variable).
pub open spec fn check_stmt(s: StmtM, st: CheckState, ctx: CheckCtx) -> CheckState
    decreases s,
{
    match s {
        StmtM::Let(name, v, _) => declare_in(check_expr(v, st, ctx), name),
        StmtM::Assign(t, v, _) => check_expr(
            v,
            if declared_in(st.scope, t.name) {
                st
            } else {
                declare_in(st, t.name)
            },
            ctx,
        ),
        StmtM::CompoundAssign(t, _, v, _) => {
            let a = if declared_in(st.scope, t.name) {
                st
            } else {
                add_error(
                    st,
                    (
                        DiagnosticSeverity::Error,
                        DiagnosticCode::UndeclaredAssign,
                        msg_compound(t.name),
                        Some(t.line),
                        Some(t.col),
                    ),
                )
            };
            check_expr(v, CheckState { reads: a.reads.insert(t.name), ..a }, ctx)
        },
        StmtM::For(var, start, end, step, body, _) => {
            let a = check_expr(end, check_expr(start, st, ctx), ctx);
            let b = match step {
                Some(x) => check_expr(x, a, ctx),
                None => a,
            };
            pop_frame(check_stmts(body, declare_in(push_frame(b), var), ctx))
        },
        StmtM::While(c, body, _) => pop_frame(check_stmts(body, push_frame(check_expr(c, st, ctx)), ctx)),
        StmtM::If(c, body, elifs, els, _) => {
            let a = pop_frame(check_stmts(body, push_frame(check_expr(c, st, ctx)), ctx));
            let b = check_arms(elifs, a, ctx);
            match els {
                Some(eb) => pop_frame(check_stmts(eb, push_frame(b), ctx)),
                None => b,
            }
        },
        StmtM::Switch(x, cases, def, _) => {
            let a = check_arms(cases, check_expr(x, st, ctx), ctx);
            match def {
                Some(db) => pop_frame(check_stmts(db, push_frame(a), ctx)),
                None => a,
            }
        },
        StmtM::Expr(e, _) => check_expr(e, st, ctx),
        StmtM::Return(Some(e), _) => check_expr(e, st, ctx),
        _ => st,
    }
}

pub open spec fn check_stmts(s: Seq<StmtM>, st: CheckState, ctx: CheckCtx) -> CheckState
    decreases s,
{
    if s.len() == 0 {
        st
    } else {
        check_stmt(s.last(), check_stmts(s.drop_last(), st, ctx), ctx)
    }
}

/// The check of guarded arms: each guard, then its body in a frame of its own.
pub open spec fn check_arms(s: Seq<(ExprM, Seq<StmtM>)>, st: CheckState, ctx: CheckCtx) -> CheckState
    decreases s,
{
    if s.len() == 0 {
        st
    } else {
        let a = check_arms(s.drop_last(), st, ctx);
        pop_frame(check_stmts(s.last().1, push_frame(check_expr(s.last().0, a, ctx)), ctx))
    }
}

fn check_block(v: &Vec<Stmt>, c: &mut Checker, env: &CheckEnv)
    requires
        old(c).wf(),
    ensures
        final(c).wf(),
        final(c).view() == pop_frame(check_stmts(view_stmts(v@), push_frame(old(c).view()), env.view())),
    decreases v, 1nat,
{
    c.push_frame();
    validate_stmts_collect(v, c, env);
    c.pop_frame();
}

fn validate_stmt_collect(stmt: &Stmt, c: &mut Checker, env: &CheckEnv)
    requires
        old(c).wf(),
    ensures
        final(c).wf(),
        final(c).view() == check_stmt(stmt.view(), old(c).view(), env.view()),
    decreases stmt,
{
    match stmt {
        Stmt::Let { name, value, .. } => {
            validate_expr_collect(value, c, env);
            c.declare_name(name.as_str());
        },
        Stmt::Assign { target, value, .. } => {
            if !scope_declares(&c.scope, target.name.as_str()) {
                c.declare_name(target.name.as_str());
            }
            validate_expr_collect(value, c, env);
        },
        Stmt::CompoundAssign { target, value, .. } => {
            if !scope_declares(&c.scope, target.name.as_str()) {
                let mut m = String::new();
                push_str(&mut m, "SemanticsError: asignación compuesta a variable no declarada '");
                push_str(&mut m, target.name.as_str());
                push_str(&mut m, "'. Declárala primero con '");
                push_str(&mut m, target.name.as_str());
                push_str(&mut m, " = ...' antes de usar '");
                push_str(&mut m, target.name.as_str());
                push_str(&mut m, " += ...'");
                assert(m@ =~= msg_compound(target.name@));
                c.report(error_diag(DiagnosticCode::UndeclaredAssign, m, target.source_line, target.col));
            }
            c.read(target.name.as_str());
            validate_expr_collect(value, c, env);
        },
        Stmt::For { var, start, end, step, body, .. } => {
            validate_expr_collect(start, c, env);
            validate_expr_collect(end, c, env);
            if let Some(se) = step {
                validate_expr_collect(se, c, env);
            }
            c.push_frame();
            c.declare_name(var.as_str());
            validate_stmts_collect(body, c, env);
            c.pop_frame();
        },
        Stmt::While { cond, body, .. } => {
            validate_expr_collect(cond, c, env);
            check_block(body, c, env);
        },
        Stmt::If { cond, body, elifs, else_body, .. } => {
            validate_expr_collect(cond, c, env);
            check_block(body, c, env);
            validate_arms_collect(elifs, c, env);
            if let Some(eb) = else_body {
                check_block(eb, c, env);
            }
        },
        Stmt::Switch { expr, cases, default, .. } => {
            validate_expr_collect(expr, c, env);
            validate_arms_collect(cases, c, env);
            if let Some(db) = default {
                check_block(db, c, env);
            }
        },
        Stmt::Expr(e, _) => validate_expr_collect(e, c, env),
        Stmt::Return(o, _) => {
            if let Some(e) = o {
                validate_expr_collect(e, c, env);
            }
        },
        Stmt::Break { .. } | Stmt::Continue { .. } => {},
    }
}

fn validate_stmts_collect(v: &Vec<Stmt>, c: &mut Checker, env: &CheckEnv)
    requires
        old(c).wf(),
    ensures
        final(c).wf(),
        final(c).view() == check_stmts(view_stmts(v@), old(c).view(), env.view()),
    decreases v, 0nat,
{
    let ghost vs = view_stmts(v@);
    proof {
        lemma_view_stmts(v@);
        assert(vs.take(0) =~= Seq::<StmtM>::empty());
    }
    let mut i: usize = 0;
    while i < v.len()
        invariant
            i <= v.len(),
            vs == view_stmts(v@),
            vs.len() == v.len(),
            forall|k: int| 0 <= k < v.len() ==> #[trigger] vs[k] == v@[k].view(),
            c.wf(),
            c.view() == check_stmts(vs.take(i as int), old(c).view(), env.view()),
        decreases v.len() - i,
    {
        assert(vs.take(i + 1).drop_last() =~= vs.take(i as int));
        validate_stmt_collect(&v[i], c, env);
        i += 1;
    }
    assert(vs.take(v.len() as int) =~= vs);
}

fn validate_arms_collect(v: &Vec<(Expr, Vec<Stmt>)>, c: &mut Checker, env: &CheckEnv)
    requires
        old(c).wf(),
    ensures
        final(c).wf(),
        final(c).view() == check_arms(view_arms(v@), old(c).view(), env.view()),
    decreases v,
{
    let ghost vs = view_arms(v@);
    proof {
        lemma_view_arms(v@);
        assert(vs.take(0) =~= Seq::<(ExprM, Seq<StmtM>)>::empty());
    }
    let mut i: usize = 0;
    while i < v.len()
        invariant
            i <= v.len(),
            vs == view_arms(v@),
            vs.len() == v.len(),
            forall|k: int| 0 <= k < v.len() ==> #[trigger] vs[k] == (v@[k].0.view(), view_stmts(v@[k].1@)),
            c.wf(),
            c.view() == check_arms(vs.take(i as int), old(c).view(), env.view()),
        decreases v.len() - i,
    {
        assert(vs.take(i + 1).drop_last() =~= vs.take(i as int));
        validate_expr_collect(&v[i].0, c, env);
        check_block(&v[i].1, c, env);
        i += 1;
    }
    assert(vs.take(v.len() as int) =~= vs);
}

// ---------------------------------------------------------------------------
// Function locals
// ---------------------------------------------------------------------------

/// The names a statement declares for its function: `let` names, `for`
/// variables, and targets of plain assignments that are not globals.
pub open spec fn locals_stmt(s: StmtM, globals: Set<Seq<char>>) -> Set<Seq<char>>
    decreases s,
{
    match s {
        StmtM::Let(name, _, _) => set![name],
        StmtM::Assign(t, _, _) => if globals.contains(t.name) {
            Set::empty()
        } else {
            set![t.name]
        },
        StmtM::For(var, _, _, _, body, _) => set![var] + locals_stmts(body, globals),
        StmtM::While(_, body, _) => locals_stmts(body, globals),
        StmtM::If(_, body, elifs, els, _) => locals_stmts(body, globals) + locals_arms(elifs, globals)
            + (match els {
            Some(eb) => locals_stmts(eb, globals),
            None => Set::empty(),
        }),
        StmtM::Switch(_, cases, def, _) => locals_arms(cases, globals) + (match def {
            Some(db) => locals_stmts(db, globals),
            None => Set::empty(),
        }),
        _ => Set::empty(),
    }
}

pub open spec fn locals_stmts(s: Seq<StmtM>, globals: Set<Seq<char>>) -> Set<Seq<char>>
    decreases s,
{
    if s.len() == 0 {
        Set::empty()
    } else {
        locals_stmts(s.drop_last(), globals) + locals_stmt(s.last(), globals)
    }
}

pub open spec fn locals_arms(s: Seq<(ExprM, Seq<StmtM>)>, globals: Set<Seq<char>>) -> Set<Seq<char>>
    decreases s,
{
    if s.len() == 0 {
        Set::empty()
    } else {
        locals_arms(s.drop_last(), globals) + locals_stmts(s.last().1, globals)
    }
}

fn collect_stmt_locals(stmt: &Stmt, locals: &mut Vec<String>, globals: &Vec<String>)
    requires
        sorted(sviews(old(locals)@)),
    ensures
        sorted(sviews(final(locals)@)),
        set_of(final(locals)@) == set_of(old(locals)@) + locals_stmt(stmt.view(), sviews(globals@).to_set()),
    decreases stmt,
{
    let ghost g = sviews(globals@).to_set();
    match stmt {
        Stmt::Let { name, .. } => {
            set_insert(locals, name.clone());
        },
        Stmt::Assign { target, .. } => {
            if !frame_contains(globals, target.name.as_str()) {
                set_insert(locals, target.name.clone());
            }
        },
        Stmt::For { var, body, .. } => {
            set_insert(locals, var.clone());
            collect_function_locals(body, locals, globals);
        },
        Stmt::While { body, .. } => collect_function_locals(body, locals, globals),
        Stmt::If { body, elifs, else_body, .. } => {
            collect_function_locals(body, locals, globals);
            collect_arm_locals(elifs, locals, globals);
            if let Some(eb) = else_body {
                collect_function_locals(eb, locals, globals);
            }
        },
        Stmt::Switch { cases, default, .. } => {
            collect_arm_locals(cases, locals, globals);
            if let Some(db) = default {
                collect_function_locals(db, locals, globals);
            }
        },
        _ => {},
    }
    assert(set_of(locals@) =~= set_of(old(locals)@) + locals_stmt(stmt.view(), g));
}

/// Helper para recolectar todas las variables locales declaradas en una función
fn collect_function_locals(stmts: &Vec<Stmt>, locals: &mut Vec<String>, globals: &Vec<String>)
    requires
        sorted(sviews(old(locals)@)),
    ensures
        sorted(sviews(final(locals)@)),
        set_of(final(locals)@) == set_of(old(locals)@) + locals_stmts(
            view_stmts(stmts@),
            sviews(globals@).to_set(),
        ),
    decreases stmts,
{
    let ghost g = sviews(globals@).to_set();
    let ghost vs = view_stmts(stmts@);
    proof {
        lemma_view_stmts(stmts@);
        assert(vs.take(0) =~= Seq::<StmtM>::empty());
    }
    assert(set_of(locals@) =~= set_of(old(locals)@) + locals_stmts(vs.take(0), g));
    let mut i: usize = 0;
    while i < stmts.len()
        invariant
            i <= stmts.len(),
            vs == view_stmts(stmts@),
            vs.len() == stmts.len(),
            forall|k: int| 0 <= k < stmts.len() ==> #[trigger] vs[k] == stmts@[k].view(),
            g == sviews(globals@).to_set(),
            sorted(sviews(locals@)),
            set_of(locals@) == set_of(old(locals)@) + locals_stmts(vs.take(i as int), g),
        decreases stmts.len() - i,
    {
        assert(vs.take(i + 1).drop_last() =~= vs.take(i as int));
        collect_stmt_locals(&stmts[i], locals, globals);
        i += 1;
        assert(set_of(locals@) =~= set_of(old(locals)@) + locals_stmts(vs.take(i as int), g));
    }
    assert(vs.take(stmts.len() as int) =~= vs);
}

fn collect_arm_locals(v: &Vec<(Expr, Vec<Stmt>)>, locals: &mut Vec<String>, globals: &Vec<String>)
    requires
        sorted(sviews(old(locals)@)),
    ensures
        sorted(sviews(final(locals)@)),
        set_of(final(locals)@) == set_of(old(locals)@) + locals_arms(view_arms(v@), sviews(globals@).to_set()),
    decreases v,
{
    let ghost g = sviews(globals@).to_set();
    let ghost vs = view_arms(v@);
    proof {
        lemma_view_arms(v@);
        assert(vs.take(0) =~= Seq::<(ExprM, Seq<StmtM>)>::empty());
    }
    assert(set_of(locals@) =~= set_of(old(locals)@) + locals_arms(vs.take(0), g));
    let mut i: usize = 0;
    while i < v.len()
        invariant
            i <= v.len(),
            vs == view_arms(v@),
            vs.len() == v.len(),
            forall|k: int| 0 <= k < v.len() ==> #[trigger] vs[k] == (v@[k].0.view(), view_stmts(v@[k].1@)),
            g == sviews(globals@).to_set(),
            sorted(sviews(locals@)),
            set_of(locals@) == set_of(old(locals)@) + locals_arms(vs.take(i as int), g),
        decreases v.len() - i,
    {
        assert(vs.take(i + 1).drop_last() =~= vs.take(i as int));
        collect_function_locals(&v[i].1, locals, globals);
        i += 1;
        assert(set_of(locals@) =~= set_of(old(locals)@) + locals_arms(vs.take(i as int), g));
    }
    assert(vs.take(v.len() as int) =~= vs);
}

// ---------------------------------------------------------------------------
// Functions and modules
// ---------------------------------------------------------------------------

/// A list of names with each added once, in order of first appearance.
pub open spec fn distinct_names(ps: Seq<Seq<char>>) -> Seq<Seq<char>>
    decreases ps.len(),
{
    if ps.len() == 0 {
        Seq::empty()
    } else {
        add_name(distinct_names(ps.drop_last()), ps.last())
    }
}

/// The names of all frames, outermost first.
pub open spec fn all_declared(scope: Seq<Seq<Seq<char>>>) -> Seq<Seq<char>>
    decreases scope.len(),
{
    if scope.len() == 0 {
        Seq::empty()
    } else {
        all_declared(scope.drop_last()) + scope.last()
    }
}

/// Warnings for the declared names that were never read and are neither
/// parameters nor globals, in order.
pub open spec fn unused_warnings(
    func: Seq<char>,
    names: Seq<Seq<char>>,
    reads: Set<Seq<char>>,
    params: Seq<Seq<char>>,
    globals: Seq<Seq<char>>,
) -> Seq<DiagnosticM>
    decreases names.len(),
{
    if names.len() == 0 {
        Seq::empty()
    } else {
        let w = unused_warnings(func, names.drop_last(), reads, params, globals);
        let d = names.last();
        if !reads.contains(d) && !params.contains(d) && !globals.contains(d) {
            w.push((DiagnosticSeverity::Warning, DiagnosticCode::UnusedVar, msg_unused(func, d), None, None))
        } else {
            w
        }
    }
}

/// The diagnostics of one function: the check starts with the globals and
/// the parameters in scope; the warnings for unused locals come first, then
/// the errors.
pub open spec fn function_diags(f: FunctionM, globals: Seq<Seq<char>>, ctx: CheckCtx) -> Seq<DiagnosticM> {
    let st0 = CheckState {
        scope: seq![globals, distinct_names(f.params)],
        reads: Set::empty(),
        errors: Seq::empty(),
    };
    let st = check_stmts(f.body, st0, ctx);
    unused_warnings(f.name, all_declared(st.scope), st.reads, f.params, globals) + st.errors
}

fn names_contain(v: &Vec<String>, name: &str) -> (r: bool)
    ensures
        r == sviews(v@).contains(name@),
{
    frame_contains(v, name)
}

fn validate_function(
    f: &Function,
    globals: &Vec<String>,
    env: &CheckEnv,
    diagnostics: &mut Vec<Diagnostic>,
)
    requires
        sviews(globals@).no_duplicates(),
        env.func@ == f.name@,
    ensures
        diags_view(final(diagnostics)@) == diags_view(old(diagnostics)@) + function_diags(
            f.view(),
            sviews(globals@),
            env.view(),
        ),
{
    let mut param_set: Vec<String> = Vec::new();
    let mut k: usize = 0;
    let ghost ps = sviews(f.params@);
    assert(ps.take(0) =~= Seq::<Seq<char>>::empty());
    while k < f.params.len()
        invariant
            k <= f.params.len(),
            ps == sviews(f.params@),
            sviews(param_set@) == distinct_names(ps.take(k as int)),
            sviews(param_set@).no_duplicates(),
        decreases f.params.len() - k,
    {
        assert(ps.take(k + 1).drop_last() =~= ps.take(k as int));
        let ghost before = sviews(param_set@);
        if !names_contain(&param_set, f.params[k].as_str()) {
            param_set.push(f.params[k].clone());
            assert(sviews(param_set@) =~= before.push(ps[k as int]));
            assert forall|a: int, b: int| 0 <= a < b < sviews(param_set@).len() implies sviews(
                param_set@,
            )[a] != sviews(param_set@)[b] by {
                if b == before.len() {
                    assert(before.contains(before[a]));
                }
            }
        }
        k += 1;
    }
    assert(ps.take(f.params.len() as int) =~= ps);
    let mut scope: Vec<Vec<String>> = Vec::new();
    scope.push(crate::ast::copy_strings(globals));
    scope.push(param_set);
    let mut c = Checker { scope, reads: Vec::new(), errors: Vec::new() };
    let ghost st0 = CheckState {
        scope: seq![sviews(globals@), distinct_names(ps)],
        reads: Set::empty(),
        errors: Seq::empty(),
    };
    assert(c.view().scope =~= st0.scope);
    assert(set_of(c.reads@) =~= Set::<Seq<char>>::empty());
    assert(diags_view(c.errors@) =~= Seq::<DiagnosticM>::empty());
    assert(c.view() == st0);
    assert forall|i: int| 0 <= i < c.scope@.len() implies #[trigger] frame_view(c.scope@[i]).no_duplicates() by {
    }
    validate_stmts_collect(&f.body, &mut c, env);
    let ghost st = c.view();
    let ghost names = all_declared(st.scope);
    // Warnings for declared locals that are never read
    let mut i: usize = 0;
    let ghost outer = diags_view(diagnostics@);
    let ghost flat: Seq<Seq<char>> = Seq::empty();
    assert(all_declared(st.scope.take(0)) =~= Seq::<Seq<char>>::empty());
    while i < c.scope.len()
        invariant
            i <= c.scope.len(),
            st == c.view(),
            outer == diags_view(old(diagnostics)@),
            diags_view(diagnostics@) == outer + unused_warnings(
                f.name@,
                all_declared(st.scope.take(i as int)),
                st.reads,
                sviews(f.params@),
                sviews(globals@),
            ),
        decreases c.scope.len() - i,
    {
        assert(st.scope.take(i + 1).drop_last() =~= st.scope.take(i as int));
        let ghost prefix = all_declared(st.scope.take(i as int));
        let frame = &c.scope[i];
        assert(st.scope[i as int] == frame_view(*frame));
        let mut j: usize = 0;
        assert(prefix + frame_view(*frame).take(0) =~= prefix);
        while j < frame.len()
            invariant
                j <= frame.len(),
                st == c.view(),
                frame == &c.scope@[i as int],
                outer == diags_view(old(diagnostics)@),
                diags_view(diagnostics@) == outer + unused_warnings(
                    f.name@,
                    prefix + frame_view(*frame).take(j as int),
                    st.reads,
                    sviews(f.params@),
                    sviews(globals@),
                ),
            decreases frame.len() - j,
        {
            let ghost cur = prefix + frame_view(*frame).take(j as int);
            assert((prefix + frame_view(*frame).take(j + 1)).drop_last() =~= cur);
            assert((prefix + frame_view(*frame).take(j + 1)).last() == frame@[j as int]@);
            let d = frame[j].as_str();
            if !set_contains(&c.reads, d) && !names_contain(&f.params, d) && !names_contain(globals, d) {
                let mut m = String::new();
                push_str(&mut m, "[unused-var] funcion='");
                push_str(&mut m, f.name.as_str());
                push_str(&mut m, "' var='");
                push_str(&mut m, d);
                push_str(&mut m, "'");
                assert(m@ =~= msg_unused(f.name@, d@));
                let w = Diagnostic {
                    severity: DiagnosticSeverity::Warning,
                    code: DiagnosticCode::UnusedVar,
                    message: m,
                    line: None,
                    col: None,
                };
                let ghost before = diagnostics@;
                diagnostics.push(w);
                assert(diags_view(diagnostics@) =~= diags_view(before).push(w.view()));
            }
            j += 1;
        }
        assert(frame_view(*frame).take(frame.len() as int) =~= frame_view(*frame));
        assert(all_declared(st.scope.take(i + 1)) == prefix + st.scope[i as int]);
        i += 1;
    }
    assert(st.scope.take(c.scope.len() as int) =~= st.scope);
    // Then the errors found in the body
    let ghost mid = diagnostics@;
    let mut errors = c.errors;
    diagnostics.append(&mut errors);
    assert(diags_view(diagnostics@) =~= diags_view(mid) + st.errors);
}

/// The names of the constants and global variables, each once, in order.
pub open spec fn globals_list(items: Seq<ItemM>) -> Seq<Seq<char>>
    decreases items.len(),
{
    if items.len() == 0 {
        Seq::empty()
    } else {
        let g = globals_list(items.drop_last());
        match items.last() {
            ItemM::Const(name, _, _) => add_name(g, name),
            ItemM::GlobalLet(name, _, _) => add_name(g, name),
            _ => g,
        }
    }
}

/// The names of the functions the module defines.
pub open spec fn function_names(items: Seq<ItemM>) -> Set<Seq<char>>
    decreases items.len(),
{
    if items.len() == 0 {
        Set::empty()
    } else {
        let d = function_names(items.drop_last());
        match items.last() {
            ItemM::Function(f) => d.insert(f.name),
            _ => d,
        }
    }
}

/// The position of the entry for `k` in a table of locals.
pub open spec fn table_index(s: Seq<(Seq<char>, Set<Seq<char>>)>, k: Seq<char>) -> Option<int>
    decreases s.len(),
{
    if s.len() == 0 {
        None
    } else if s[0].0 == k {
        Some(0)
    } else {
        match table_index(s.drop_first(), k) {
            Some(i) => Some(i + 1),
            None => None,
        }
    }
}

/// The table with `v` stored under `k` (in place when `k` is there already).
pub open spec fn table_put(s: Seq<(Seq<char>, Set<Seq<char>>)>, k: Seq<char>, v: Set<Seq<char>>) -> Seq<
    (Seq<char>, Set<Seq<char>>),
> {
    match table_index(s, k) {
        Some(i) => s.update(i, (k, v)),
        None => s.push((k, v)),
    }
}

proof fn lemma_table_index(s: Seq<(Seq<char>, Set<Seq<char>>)>, k: Seq<char>, i: int)
    requires
        0 <= i <= s.len(),
        forall|j: int| 0 <= j < i ==> s[j].0 != k,
    ensures
        i < s.len() && s[i].0 == k ==> table_index(s, k) == Some(i),
        i == s.len() ==> table_index(s, k) is None,
    decreases i,
{
    if i > 0 {
        lemma_table_index(s.drop_first(), k, i - 1);
    }
}

/// The locals of every function, by name in order of first definition; a
/// function defined again replaces the earlier locals.
pub open spec fn locals_table(items: Seq<ItemM>, globals: Set<Seq<char>>) -> Seq<(Seq<char>, Set<Seq<char>>)>
    decreases items.len(),
{
    if items.len() == 0 {
        Seq::empty()
    } else {
        let t = locals_table(items.drop_last(), globals);
        match items.last() {
            ItemM::Function(f) => table_put(t, f.name, locals_stmts(f.body, globals)),
            _ => t,
        }
    }
}

/// The diagnostics of the functions among `items`, in order.
pub open spec fn diags_of_items(
    items: Seq<ItemM>,
    globals: Seq<Seq<char>>,
    table: Seq<(Seq<char>, Set<Seq<char>>)>,
    defined: Set<Seq<char>>,
) -> Seq<DiagnosticM>
    decreases items.len(),
{
    if items.len() == 0 {
        Seq::empty()
    } else {
        let d = diags_of_items(items.drop_last(), globals, table, defined);
        match items.last() {
            ItemM::Function(f) => d + function_diags(
                f,
                globals,
                CheckCtx { func: f.name, locals: table, defined },
            ),
            _ => d,
        }
    }
}

/// The diagnostics of the semantic check of a module.
pub open spec fn semantic_diags(items: Seq<ItemM>) -> Seq<DiagnosticM> {
    let g = globals_list(items);
    diags_of_items(items, g, locals_table(items, g.to_set()), function_names(items))
}

fn table_put_exec(table: &mut Vec<(String, Vec<String>)>, name: String, locals: Vec<String>)
    ensures
        final(table)@.map_values(|p: (String, Vec<String>)| (p.0@, set_of(p.1@))) == table_put(
            old(table)@.map_values(|p: (String, Vec<String>)| (p.0@, set_of(p.1@))),
            name@,
            set_of(locals@),
        ),
{
    let ghost tv = table@.map_values(|p: (String, Vec<String>)| (p.0@, set_of(p.1@)));
    let mut i: usize = 0;
    while i < table.len()
        invariant
            i <= table.len(),
            table@ == old(table)@,
            tv == old(table)@.map_values(|p: (String, Vec<String>)| (p.0@, set_of(p.1@))),
            forall|j: int| 0 <= j < i ==> tv[j].0 != name@,
        decreases table.len() - i,
    {
        if crate::text::str_eq(table[i].0.as_str(), name.as_str()) {
            proof {
                lemma_table_index(tv, name@, i as int);
            }
            let ghost nv = name@;
            let ghost lv = set_of(locals@);
            table.set(i, (name, locals));
            assert(table@.map_values(|p: (String, Vec<String>)| (p.0@, set_of(p.1@))) =~= tv.update(
                i as int,
                (nv, lv),
            ));
            return;
        }
        i += 1;
    }
    proof {
        lemma_table_index(tv, name@, i as int);
    }
    let ghost nv = name@;
    let ghost lv = set_of(locals@);
    table.push((name, locals));
    assert(table@.map_values(|p: (String, Vec<String>)| (p.0@, set_of(p.1@))) =~= tv.push((nv, lv)));
}

/// validate_semantics: every variable used has been declared before in its
/// scope (nested scopes for functions and loops); constants and global
/// variables are visible to every function and parameters to their body.
/// The diagnostics found are appended to `diagnostics`: per function, the
/// warnings for unused locals, then its errors.
pub fn validate_semantics(module: &Module, diagnostics: &mut Vec<Diagnostic>)
    ensures
        diags_view(final(diagnostics)@) == diags_view(old(diagnostics)@) + semantic_diags(
            module.view().items,
        ),
{
    let ghost items = module.view().items;
    // Declared globals (constants and global variables)
    let mut globals: Vec<String> = Vec::new();
    let mut i: usize = 0;
    assert(items.take(0) =~= Seq::<ItemM>::empty());
    while i < module.items.len()
        invariant
            i <= module.items.len(),
            items == module.view().items,
            sviews(globals@) == globals_list(items.take(i as int)),
            sviews(globals@).no_duplicates(),
        decreases module.items.len() - i,
    {
        assert(items.take(i + 1).drop_last() =~= items.take(i as int));
        assert(items[i as int] == module.items@[i as int].view());
        let ghost before = sviews(globals@);
        match &module.items[i] {
            Item::Const { name, .. } | Item::GlobalLet { name, .. } => {
                if !names_contain(&globals, name.as_str()) {
                    globals.push(name.clone());
                    assert(sviews(globals@) =~= before.push(name@));
                    assert forall|a: int, b: int| 0 <= a < b < sviews(globals@).len() implies sviews(
                        globals@,
                    )[a] != sviews(globals@)[b] by {
                        if b == before.len() {
                            assert(before.contains(before[a]));
                        }
                    }
                }
            },
            _ => {},
        }
        i += 1;
    }
    assert(items.take(module.items.len() as int) =~= items);
    let ghost g = sviews(globals@);
    // Names of the functions defined in the module
    let mut defined: Vec<String> = Vec::new();
    let mut i: usize = 0;
    assert(set_of(defined@) =~= function_names(items.take(0)));
    while i < module.items.len()
        invariant
            i <= module.items.len(),
            items == module.view().items,
            set_of(defined@) == function_names(items.take(i as int)),
        decreases module.items.len() - i,
    {
        assert(items.take(i + 1).drop_last() =~= items.take(i as int));
        assert(items[i as int] == module.items@[i as int].view());
        if let Item::Function(func) = &module.items[i] {
            let ghost before = sviews(defined@);
            defined.push(func.name.clone());
            assert(sviews(defined@) =~= before.push(func.name@));
            proof {
                crate::strset::lemma_push_to_set(before, func.name@);
            }
        }
        i += 1;
    }
    assert(items.take(module.items.len() as int) =~= items);
    // Locals of every function, for the report of a use across functions
    let mut table: Vec<(String, Vec<String>)> = Vec::new();
    let mut i: usize = 0;
    assert(table@.map_values(|p: (String, Vec<String>)| (p.0@, set_of(p.1@))) =~= locals_table(
        items.take(0),
        g.to_set(),
    ));
    while i < module.items.len()
        invariant
            i <= module.items.len(),
            items == module.view().items,
            g == sviews(globals@),
            table@.map_values(|p: (String, Vec<String>)| (p.0@, set_of(p.1@))) == locals_table(
                items.take(i as int),
                g.to_set(),
            ),
        decreases module.items.len() - i,
    {
        assert(items.take(i + 1).drop_last() =~= items.take(i as int));
        assert(items[i as int] == module.items@[i as int].view());
        if let Item::Function(func) = &module.items[i] {
            let mut locals: Vec<String> = Vec::new();
            assert(set_of(locals@) =~= Set::<Seq<char>>::empty());
            collect_function_locals(&func.body, &mut locals, &globals);
            assert(set_of(locals@) =~= locals_stmts(func.view().body, g.to_set()));
            table_put_exec(&mut table, func.name.clone(), locals);
        }
        i += 1;
    }
    assert(items.take(module.items.len() as int) =~= items);
    // Check every function on its own
    let mut env = CheckEnv { func: String::new(), locals: table, defined };
    let ghost table_v = locals_table(items, g.to_set());
    let ghost defined_v = function_names(items);
    let ghost outer = diags_view(diagnostics@);
    let mut i: usize = 0;
    assert(diags_of_items(items.take(0), g, table_v, defined_v) =~= Seq::<DiagnosticM>::empty());
    assert(outer + Seq::<DiagnosticM>::empty() =~= outer);
    while i < module.items.len()
        invariant
            i <= module.items.len(),
            items == module.view().items,
            g == sviews(globals@),
            g.no_duplicates(),
            env.view().locals == table_v,
            env.view().defined == defined_v,
            outer == diags_view(old(diagnostics)@),
            diags_view(diagnostics@) == outer + diags_of_items(items.take(i as int), g, table_v, defined_v),
        decreases module.items.len() - i,
    {
        assert(items.take(i + 1).drop_last() =~= items.take(i as int));
        assert(items[i as int] == module.items@[i as int].view());
        let ghost prev = diags_view(diagnostics@);
        if let Item::Function(func) = &module.items[i] {
            env.func = func.name.clone();
            validate_function(func, &globals, &env, diagnostics);
            assert(diags_view(diagnostics@) =~= outer + diags_of_items(
                items.take(i + 1),
                g,
                table_v,
                defined_v,
            ));
        }
        i += 1;
    }
    assert(items.take(module.items.len() as int) =~= items);
}


// ---------------------------------------------------------------------------
// The arity table and the runtime routines
// ---------------------------------------------------------------------------

/// The name of argument slot `k` in the 6809 runtime, `VAR_ARG<k>`.
pub open spec fn arg_slot(k: nat) -> Seq<char> {
    "VAR_ARG"@ + dec(k)
}

/// A runtime routine reads exactly the first `n` argument slots: it names
/// `VAR_ARG0` up to `VAR_ARG<n-1>`, and not `VAR_ARG<n>`.
pub open spec fn reads_slots(routine: Seq<char>, n: nat) -> bool {
    &&& forall|j: nat| j < n ==> #[trigger] contains(routine, arg_slot(j))
    &&& !contains(routine, arg_slot(n))
}

/// The runtime routine a call of a builtin jumps to in the 6809 output, for
/// the builtins whose arguments the call leaves in the argument slots.
pub open spec fn runtime_routine(core: Seq<char>) -> Option<Seq<char>> {
    if core == "MOVE"@ {
        Some(MOVE_TO@)
    } else if core == "PRINT_TEXT"@ {
        Some(PRINT_TEXT@)
    } else if core == "DRAW_TO"@ {
        Some(DRAW_TO@)
    } else if core == "SET_ORIGIN"@ {
        Some(SET_ORIGIN@)
    } else if core == "SET_INTENSITY"@ {
        Some(SET_INTENSITY@)
    } else if core == "DEBUG_PRINT"@ {
        Some(DEBUG_PRINT@)
    } else if core == "DEBUG_PRINT_LABELED"@ {
        Some(DEBUG_PRINT_LABELED@)
    } else if core == "DRAW_VL"@ {
        Some(DRAW_VL@)
    } else if core == "FRAME_BEGIN"@ {
        Some(FRAME_BEGIN@)
    } else if core == "VECTOR_PHASE_BEGIN"@ {
        Some(PHASE_BEGIN@)
    } else if core == "WAIT_RECAL"@ {
        Some(WAIT_RECAL@)
    } else if core == "PLAY_MUSIC1"@ {
        Some(PLAY_MUSIC1@)
    } else if core == "DBG_STATIC_VL"@ {
        Some(DBG_STATIC_VL@)
    } else {
        None
    }
}

proof fn lemma_arg_slot(k: nat)
    requires
        k < 10,
    ensures
        arg_slot(k).len() == 8,
        arg_slot(k)[0] == 'V' && arg_slot(k)[1] == 'A' && arg_slot(k)[2] == 'R' && arg_slot(k)[3] == '_',
        arg_slot(k)[4] == 'A' && arg_slot(k)[5] == 'R' && arg_slot(k)[6] == 'G',
        arg_slot(k)[7] == digit_char(k),
        digit_char(k) as int == 48 + k,
{
    reveal_strlit("VAR_ARG");
    assert(dec(k) =~= seq![digit_char(k)]);
}

proof fn lemma_found(t: Seq<char>, p: Seq<char>, i: int)
    requires
        occurs_at(t, p, i),
    ensures
        contains(t, p),
{
    lemma_find_from(t, p, 0);
}

proof fn lemma_absent(t: Seq<char>, p: Seq<char>)
    requires
        forall|j: int| !#[trigger] occurs_at(t, p, j),
    ensures
        !contains(t, p),
{
    lemma_find_from(t, p, 0);
}

proof fn lemma_routine_move()
    ensures
        contains(MOVE_TO@, "VECTREX_MOVE"@),
        reads_slots(MOVE_TO@, 2),
{
    reveal_strlit("VECTREX_MOVE_TO:\n    LDA VAR_ARG1+1 ; Y\n    LDB VAR_ARG0+1 ; X\n    JSR Moveto_d\n    ; store new current position\n    LDA VAR_ARG0+1\n    STA VCUR_X\n    LDA VAR_ARG1+1\n    STA VCUR_Y\n    RTS\n");
    reveal_strlit("VECTREX_MOVE");
    let t = MOVE_TO@;
    assert(t.subrange(0, 12) =~= "VECTREX_MOVE"@);
    lemma_found(t, "VECTREX_MOVE"@, 0);
    lemma_arg_slot(0);
    assert(digit_char(0) == '0');
    assert(t.subrange(48, 56) =~= arg_slot(0));
    lemma_found(t, arg_slot(0), 48);
    lemma_arg_slot(1);
    assert(digit_char(1) == '1');
    assert(t.subrange(25, 33) =~= arg_slot(1));
    lemma_found(t, arg_slot(1), 25);
    lemma_arg_slot(2);
    assert forall|j: int| !#[trigger] occurs_at(t, arg_slot(2), j) by {
        if occurs_at(t, arg_slot(2), j) {
            let s = t.subrange(j, j + 8);
            assert(s[0] == t[j] && s[1] == t[j + 1] && s[2] == t[j + 2] && s[3] == t[j + 3]);
            assert(s[4] == t[j + 4] && s[5] == t[j + 5] && s[6] == t[j + 6] && s[7] == t[j + 7]);
        }
    }
    lemma_absent(t, arg_slot(2));
    assert forall|j: nat| j < 2 implies #[trigger] contains(t, arg_slot(j)) by {
    }
}

proof fn lemma_routine_print_text()
    ensures
        contains(PRINT_TEXT@, "VECTREX_PRINT_TEXT"@),
        reads_slots(PRINT_TEXT@, 3),
{
    reveal_strlit("VECTREX_PRINT_TEXT:\n    ; CRITICAL: Print_Str_d requires DP=$D0 and signature is (Y, X, string)\n    ; VPy signature: PRINT_TEXT(x, y, string) -> args (ARG0=x, ARG1=y, ARG2=string)\n    ; BIOS signature: Print_Str_d(A=Y, B=X, U=string)\n    ; CRITICAL: Set VIA to DAC mode BEFORE calling BIOS (don't assume state)\n    LDA #$98       ; VIA_cntl = $98 (DAC mode for text rendering)\n    STA >$D00C     ; VIA_cntl\n    LDA #$D0\n    TFR A,DP       ; Set Direct Page to $D0 for BIOS\n    LDU VAR_ARG2   ; string pointer (ARG2 = third param)\n    LDA VAR_ARG1+1 ; Y (ARG1 = second param)\n    LDB VAR_ARG0+1 ; X (ARG0 = first param)\n    JSR Print_Str_d\n    LDA #$C8       ; Restore DP to $C8 for our code\n    TFR A,DP\n    RTS\n");
    reveal_strlit("VECTREX_PRINT_TEXT");
    let t = PRINT_TEXT@;
    assert(t.subrange(0, 18) =~= "VECTREX_PRINT_TEXT"@);
    lemma_found(t, "VECTREX_PRINT_TEXT"@, 0);
    lemma_arg_slot(0);
    assert(digit_char(0) == '0');
    assert(t.subrange(583, 591) =~= arg_slot(0));
    lemma_found(t, arg_slot(0), 583);
    lemma_arg_slot(1);
    assert(digit_char(1) == '1');
    assert(t.subrange(538, 546) =~= arg_slot(1));
    lemma_found(t, arg_slot(1), 538);
    lemma_arg_slot(2);
    assert(digit_char(2) == '2');
    assert(t.subrange(481, 489) =~= arg_slot(2));
    lemma_found(t, arg_slot(2), 481);
    lemma_arg_slot(3);
    assert forall|j: int| !#[trigger] occurs_at(t, arg_slot(3), j) by {
        if occurs_at(t, arg_slot(3), j) {
            let s = t.subrange(j, j + 8);
            assert(s[0] == t[j] && s[1] == t[j + 1] && s[2] == t[j + 2] && s[3] == t[j + 3]);
            assert(s[4] == t[j + 4] && s[5] == t[j + 5] && s[6] == t[j + 6] && s[7] == t[j + 7]);
        }
    }
    lemma_absent(t, arg_slot(3));
    assert forall|j: nat| j < 3 implies #[trigger] contains(t, arg_slot(j)) by {
    }
}

proof fn lemma_routine_draw_to()
    ensures
        contains(DRAW_TO@, "VECTREX_DRAW_TO"@),
        reads_slots(DRAW_TO@, 2),
{
    reveal_strlit("; Draw from current (VCUR_X,VCUR_Y) to new (x,y) provided in low bytes VAR_ARG0/1.\n; Semántica: igual a MOVE_TO seguido de línea, pero preserva origen previo como punto inicial.\n; Deltas pueden ser ±127 (hardware Vectrex soporta rango completo).\nVECTREX_DRAW_TO:\n    ; Cargar destino (x,y)\n    LDA VAR_ARG0+1  ; Xdest en A temporalmente\n    STA VLINE_DX    ; reutilizar buffer temporal (bajo) para Xdest\n    LDA VAR_ARG1+1  ; Ydest en A\n    STA VLINE_DY    ; reutilizar buffer temporal para Ydest\n    ; Calcular dx = Xdest - VCUR_X\n    LDA VLINE_DX\n    SUBA VCUR_X\n    STA VLINE_DX\n    ; Calcular dy = Ydest - VCUR_Y\n    LDA VLINE_DY\n    SUBA VCUR_Y\n    STA VLINE_DY\n    ; No clamping needed - signed byte arithmetic handles ±127 correctly\n    ; Mover haz al origen previo (VCUR_Y en A, VCUR_X en B)\n    LDA VCUR_Y\n    LDB VCUR_X\n    JSR Moveto_d\n    ; Dibujar línea usando deltas (A=dy, B=dx)\n    LDA VLINE_DY\n    LDB VLINE_DX\n    JSR Draw_Line_d\n    ; Actualizar posición actual al destino exacto original\n    LDA VAR_ARG0+1\n    STA VCUR_X\n    LDA VAR_ARG1+1\n    STA VCUR_Y\n    RTS\n");
    reveal_strlit("VECTREX_DRAW_TO");
    let t = DRAW_TO@;
    assert(t.subrange(246, 261) =~= "VECTREX_DRAW_TO"@);
    lemma_found(t, "VECTREX_DRAW_TO"@, 246);
    lemma_arg_slot(0);
    assert(digit_char(0) == '0');
    assert(t.subrange(71, 79) =~= arg_slot(0));
    lemma_found(t, arg_slot(0), 71);
    lemma_arg_slot(1);
    assert(digit_char(1) == '1');
    assert(t.subrange(412, 420) =~= arg_slot(1));
    lemma_found(t, arg_slot(1), 412);
    lemma_arg_slot(2);
    assert forall|j: int| !#[trigger] occurs_at(t, arg_slot(2), j) by {
        if occurs_at(t, arg_slot(2), j) {
            let s = t.subrange(j, j + 8);
            assert(s[0] == t[j] && s[1] == t[j + 1] && s[2] == t[j + 2] && s[3] == t[j + 3]);
            assert(s[4] == t[j + 4] && s[5] == t[j + 5] && s[6] == t[j + 6] && s[7] == t[j + 7]);
        }
    }
    lemma_absent(t, arg_slot(2));
    assert forall|j: nat| j < 2 implies #[trigger] contains(t, arg_slot(j)) by {
    }
}

proof fn lemma_routine_set_origin()
    ensures
        contains(SET_ORIGIN@, "VECTREX_SET_ORIGIN"@),
        reads_slots(SET_ORIGIN@, 0),
{
    reveal_strlit("VECTREX_SET_ORIGIN:\n    JSR Reset0Ref\n    RTS\n");
    reveal_strlit("VECTREX_SET_ORIGIN");
    let t = SET_ORIGIN@;
    assert(t.subrange(0, 18) =~= "VECTREX_SET_ORIGIN"@);
    lemma_found(t, "VECTREX_SET_ORIGIN"@, 0);
    lemma_arg_slot(0);
    assert forall|j: int| !#[trigger] occurs_at(t, arg_slot(0), j) by {
        if occurs_at(t, arg_slot(0), j) {
            let s = t.subrange(j, j + 8);
            assert(s[0] == t[j] && s[1] == t[j + 1] && s[2] == t[j + 2] && s[3] == t[j + 3]);
            assert(s[4] == t[j + 4] && s[5] == t[j + 5] && s[6] == t[j + 6] && s[7] == t[j + 7]);
        }
    }
    lemma_absent(t, arg_slot(0));
}

proof fn lemma_routine_set_intensity()
    ensures
        contains(SET_INTENSITY@, "VECTREX_SET_INTENSITY"@),
        reads_slots(SET_INTENSITY@, 1),
{
    reveal_strlit("VECTREX_SET_INTENSITY:\n    ; CRITICAL: Set VIA to DAC mode BEFORE calling BIOS (don't assume state)\n    LDA #$98       ; VIA_cntl = $98 (DAC mode)\n    STA >$D00C     ; VIA_cntl\n    LDA #$D0\n    TFR A,DP       ; Set Direct Page to $D0 for BIOS\n    LDA VAR_ARG0+1\n    JSR __Intensity_a\n    RTS\n");
    reveal_strlit("VECTREX_SET_INTENSITY");
    let t = SET_INTENSITY@;
    assert(t.subrange(0, 21) =~= "VECTREX_SET_INTENSITY"@);
    lemma_found(t, "VECTREX_SET_INTENSITY"@, 0);
    lemma_arg_slot(0);
    assert(digit_char(0) == '0');
    assert(t.subrange(251, 259) =~= arg_slot(0));
    lemma_found(t, arg_slot(0), 251);
    lemma_arg_slot(1);
    assert forall|j: int| !#[trigger] occurs_at(t, arg_slot(1), j) by {
        if occurs_at(t, arg_slot(1), j) {
            let s = t.subrange(j, j + 8);
            assert(s[0] == t[j] && s[1] == t[j + 1] && s[2] == t[j + 2] && s[3] == t[j + 3]);
            assert(s[4] == t[j + 4] && s[5] == t[j + 5] && s[6] == t[j + 6] && s[7] == t[j + 7]);
        }
    }
    lemma_absent(t, arg_slot(1));
    assert forall|j: nat| j < 1 implies #[trigger] contains(t, arg_slot(j)) by {
    }
}

proof fn lemma_routine_debug_print()
    ensures
        contains(DEBUG_PRINT@, "VECTREX_DEBUG_PRINT"@),
        reads_slots(DEBUG_PRINT@, 1),
{
    reveal_strlit("VECTREX_DEBUG_PRINT:\n    ; Debug print to console - writes to end of RAM (safe area)\n    LDA VAR_ARG0+1   ; Load value to debug print\n    STA $CF00        ; Debug output value at end of RAM\n    LDA #$42         ; Debug marker\n    STA $CF01        ; Debug marker to indicate new output\n    RTS\n");
    reveal_strlit("VECTREX_DEBUG_PRINT");
    let t = DEBUG_PRINT@;
    assert(t.subrange(0, 19) =~= "VECTREX_DEBUG_PRINT"@);
    lemma_found(t, "VECTREX_DEBUG_PRINT"@, 0);
    lemma_arg_slot(0);
    assert(digit_char(0) == '0');
    assert(t.subrange(93, 101) =~= arg_slot(0));
    lemma_found(t, arg_slot(0), 93);
    lemma_arg_slot(1);
    assert forall|j: int| !#[trigger] occurs_at(t, arg_slot(1), j) by {
        if occurs_at(t, arg_slot(1), j) {
            let s = t.subrange(j, j + 8);
            assert(s[0] == t[j] && s[1] == t[j + 1] && s[2] == t[j + 2] && s[3] == t[j + 3]);
            assert(s[4] == t[j + 4] && s[5] == t[j + 5] && s[6] == t[j + 6] && s[7] == t[j + 7]);
        }
    }
    lemma_absent(t, arg_slot(1));
    assert forall|j: nat| j < 1 implies #[trigger] contains(t, arg_slot(j)) by {
    }
}

proof fn lemma_routine_debug_print_labeled()
    ensures
        contains(DEBUG_PRINT_LABELED@, "VECTREX_DEBUG_PRINT_LABELED"@),
        reads_slots(DEBUG_PRINT_LABELED@, 2),
{
    reveal_strlit("VECTREX_DEBUG_PRINT_LABELED:\n    ; Debug print with label - writes to end of RAM (safe area)\n    ; Write label string pointer to end of RAM\n    LDA VAR_ARG0     ; Label string pointer high byte\n    STA $CF02        ; Label pointer high at end of RAM\n    LDA VAR_ARG0+1   ; Label string pointer low byte  \n    STA $CF03        ; Label pointer low at end of RAM\n    ; Write value to debug output\n    LDA VAR_ARG1+1   ; Load value to debug print\n    STA $CF00        ; Debug output value at end of RAM\n    LDA #$FE         ; Labeled debug marker\n    STA $CF01        ; Debug marker to indicate labeled output\n    RTS\n");
    reveal_strlit("VECTREX_DEBUG_PRINT_LABELED");
    let t = DEBUG_PRINT_LABELED@;
    assert(t.subrange(0, 27) =~= "VECTREX_DEBUG_PRINT_LABELED"@);
    lemma_found(t, "VECTREX_DEBUG_PRINT_LABELED"@, 0);
    lemma_arg_slot(0);
    assert(digit_char(0) == '0');
    assert(t.subrange(148, 156) =~= arg_slot(0));
    lemma_found(t, arg_slot(0), 148);
    lemma_arg_slot(1);
    assert(digit_char(1) == '1');
    assert(t.subrange(402, 410) =~= arg_slot(1));
    lemma_found(t, arg_slot(1), 402);
    lemma_arg_slot(2);
    assert forall|j: int| !#[trigger] occurs_at(t, arg_slot(2), j) by {
        if occurs_at(t, arg_slot(2), j) {
            let s = t.subrange(j, j + 8);
            assert(s[0] == t[j] && s[1] == t[j + 1] && s[2] == t[j + 2] && s[3] == t[j + 3]);
            assert(s[4] == t[j + 4] && s[5] == t[j + 5] && s[6] == t[j + 6] && s[7] == t[j + 7]);
        }
    }
    lemma_absent(t, arg_slot(2));
    assert forall|j: nat| j < 2 implies #[trigger] contains(t, arg_slot(j)) by {
    }
}

proof fn lemma_routine_draw_vl()
    ensures
        contains(DRAW_VL@, "VECTREX_DRAW_VL"@),
        reads_slots(DRAW_VL@, 2),
{
    reveal_strlit("VECTREX_DRAW_VL:\n    LDU VAR_ARG0\n    LDA VAR_ARG1+1\n    JSR Intensity_a\n    JSR Draw_VL\n    RTS\n");
    reveal_strlit("VECTREX_DRAW_VL");
    let t = DRAW_VL@;
    assert(t.subrange(0, 15) =~= "VECTREX_DRAW_VL"@);
    lemma_found(t, "VECTREX_DRAW_VL"@, 0);
    lemma_arg_slot(0);
    assert(digit_char(0) == '0');
    assert(t.subrange(25, 33) =~= arg_slot(0));
    lemma_found(t, arg_slot(0), 25);
    lemma_arg_slot(1);
    assert(digit_char(1) == '1');
    assert(t.subrange(42, 50) =~= arg_slot(1));
    lemma_found(t, arg_slot(1), 42);
    lemma_arg_slot(2);
    assert forall|j: int| !#[trigger] occurs_at(t, arg_slot(2), j) by {
        if occurs_at(t, arg_slot(2), j) {
            let s = t.subrange(j, j + 8);
            assert(s[0] == t[j] && s[1] == t[j + 1] && s[2] == t[j + 2] && s[3] == t[j + 3]);
            assert(s[4] == t[j + 4] && s[5] == t[j + 5] && s[6] == t[j + 6] && s[7] == t[j + 7]);
        }
    }
    lemma_absent(t, arg_slot(2));
    assert forall|j: nat| j < 2 implies #[trigger] contains(t, arg_slot(j)) by {
    }
}

proof fn lemma_routine_frame_begin()
    ensures
        contains(FRAME_BEGIN@, "VECTREX_FRAME_BEGIN"@),
        reads_slots(FRAME_BEGIN@, 1),
{
    reveal_strlit("VECTREX_FRAME_BEGIN:\n    LDA VAR_ARG0+1\n    JSR Intensity_a\n    JSR Reset0Ref\n    RTS\n");
    reveal_strlit("VECTREX_FRAME_BEGIN");
    let t = FRAME_BEGIN@;
    assert(t.subrange(0, 19) =~= "VECTREX_FRAME_BEGIN"@);
    lemma_found(t, "VECTREX_FRAME_BEGIN"@, 0);
    lemma_arg_slot(0);
    assert(digit_char(0) == '0');
    assert(t.subrange(29, 37) =~= arg_slot(0));
    lemma_found(t, arg_slot(0), 29);
    lemma_arg_slot(1);
    assert forall|j: int| !#[trigger] occurs_at(t, arg_slot(1), j) by {
        if occurs_at(t, arg_slot(1), j) {
            let s = t.subrange(j, j + 8);
            assert(s[0] == t[j] && s[1] == t[j + 1] && s[2] == t[j + 2] && s[3] == t[j + 3]);
            assert(s[4] == t[j + 4] && s[5] == t[j + 5] && s[6] == t[j + 6] && s[7] == t[j + 7]);
        }
    }
    lemma_absent(t, arg_slot(1));
    assert forall|j: nat| j < 1 implies #[trigger] contains(t, arg_slot(j)) by {
    }
}

proof fn lemma_routine_vector_phase_begin()
    ensures
        contains(PHASE_BEGIN@, "VECTREX_VECTOR_PHASE_BEGIN"@),
        reads_slots(PHASE_BEGIN@, 0),
{
    reveal_strlit("VECTREX_VECTOR_PHASE_BEGIN:\n    JSR DP_to_C8\n    JSR Reset0Ref\n    RTS\n");
    reveal_strlit("VECTREX_VECTOR_PHASE_BEGIN");
    let t = PHASE_BEGIN@;
    assert(t.subrange(0, 26) =~= "VECTREX_VECTOR_PHASE_BEGIN"@);
    lemma_found(t, "VECTREX_VECTOR_PHASE_BEGIN"@, 0);
    lemma_arg_slot(0);
    assert forall|j: int| !#[trigger] occurs_at(t, arg_slot(0), j) by {
        if occurs_at(t, arg_slot(0), j) {
            let s = t.subrange(j, j + 8);
            assert(s[0] == t[j] && s[1] == t[j + 1] && s[2] == t[j + 2] && s[3] == t[j + 3]);
            assert(s[4] == t[j + 4] && s[5] == t[j + 5] && s[6] == t[j + 6] && s[7] == t[j + 7]);
        }
    }
    lemma_absent(t, arg_slot(0));
}

proof fn lemma_routine_wait_recal()
    ensures
        contains(WAIT_RECAL@, "VECTREX_WAIT_RECAL"@),
        reads_slots(WAIT_RECAL@, 0),
{
    reveal_strlit("VECTREX_WAIT_RECAL:\n    JSR Wait_Recal\n    RTS\n");
    reveal_strlit("VECTREX_WAIT_RECAL");
    let t = WAIT_RECAL@;
    assert(t.subrange(0, 18) =~= "VECTREX_WAIT_RECAL"@);
    lemma_found(t, "VECTREX_WAIT_RECAL"@, 0);
    lemma_arg_slot(0);
    assert forall|j: int| !#[trigger] occurs_at(t, arg_slot(0), j) by {
        if occurs_at(t, arg_slot(0), j) {
            let s = t.subrange(j, j + 8);
            assert(s[0] == t[j] && s[1] == t[j + 1] && s[2] == t[j + 2] && s[3] == t[j + 3]);
            assert(s[4] == t[j + 4] && s[5] == t[j + 5] && s[6] == t[j + 6] && s[7] == t[j + 7]);
        }
    }
    lemma_absent(t, arg_slot(0));
}

proof fn lemma_routine_play_music1()
    ensures
        contains(PLAY_MUSIC1@, "VECTREX_PLAY_MUSIC1"@),
        reads_slots(PLAY_MUSIC1@, 0),
{
    reveal_strlit("VECTREX_PLAY_MUSIC1:\n    JSR MUSIC1\n    RTS\n");
    reveal_strlit("VECTREX_PLAY_MUSIC1");
    let t = PLAY_MUSIC1@;
    assert(t.subrange(0, 19) =~= "VECTREX_PLAY_MUSIC1"@);
    lemma_found(t, "VECTREX_PLAY_MUSIC1"@, 0);
    lemma_arg_slot(0);
    assert forall|j: int| !#[trigger] occurs_at(t, arg_slot(0), j) by {
        if occurs_at(t, arg_slot(0), j) {
            let s = t.subrange(j, j + 8);
            assert(s[0] == t[j] && s[1] == t[j + 1] && s[2] == t[j + 2] && s[3] == t[j + 3]);
            assert(s[4] == t[j + 4] && s[5] == t[j + 5] && s[6] == t[j + 6] && s[7] == t[j + 7]);
        }
    }
    lemma_absent(t, arg_slot(0));
}

proof fn lemma_routine_dbg_static_vl()
    ensures
        contains(DBG_STATIC_VL@, "VECTREX_DBG_STATIC_VL"@),
        reads_slots(DBG_STATIC_VL@, 0),
{
    reveal_strlit("VECTREX_DBG_STATIC_VL:\n    JSR DP_to_C8\n    LDU #DBG_STATIC_LIST\n    LDA #$5F\n    JSR Intensity_a\n    JSR Draw_VL\n    RTS\nDBG_STATIC_LIST:\n    FCB $80,$20\n");
    reveal_strlit("VECTREX_DBG_STATIC_VL");
    let t = DBG_STATIC_VL@;
    assert(t.subrange(0, 21) =~= "VECTREX_DBG_STATIC_VL"@);
    lemma_found(t, "VECTREX_DBG_STATIC_VL"@, 0);
    lemma_arg_slot(0);
    assert forall|j: int| !#[trigger] occurs_at(t, arg_slot(0), j) by {
        if occurs_at(t, arg_slot(0), j) {
            let s = t.subrange(j, j + 8);
            assert(s[0] == t[j] && s[1] == t[j + 1] && s[2] == t[j + 2] && s[3] == t[j + 3]);
            assert(s[4] == t[j + 4] && s[5] == t[j + 5] && s[6] == t[j + 6] && s[7] == t[j + 7]);
        }
    }
    lemma_absent(t, arg_slot(0));
}

/// A builtin named in upper case, whose name does not itself start with
/// `VECTREX_`, gets the arity of the table whether it is called by that name
/// or with the `VECTREX_` prefix.
pub proof fn lemma_expected_arity_core(core: Seq<char>)
    requires
        forall|i: int| 0 <= i < core.len() ==> !('a' <= #[trigger] core[i] <= 'z'),
        !starts_with(core, "VECTREX_"@),
    ensures
        expected_arity(core) == builtin_arity(core),
        expected_arity("VECTREX_"@ + core) == builtin_arity(core),
{
    reveal_strlit("VECTREX_");
    assert(ascii_upper_seq(core) =~= core);
    let full = "VECTREX_"@ + core;
    assert(ascii_upper_seq(full) =~= full);
    assert(full.subrange(0, 8) =~= "VECTREX_"@);
    assert(full.skip(8) =~= core);
}

/// Each builtin whose 6809 call leaves its arguments in the argument slots
/// has in the arity table exactly the number of slots that its runtime
/// routine (the one named `VECTREX_<name>`) reads: a call with the arity the
/// semantic check enforces fills every slot the routine reads, and no more.
pub proof fn lemma_arity_matches_runtime(core: Seq<char>)
    requires
        runtime_routine(core) is Some,
    ensures
        contains(runtime_routine(core)->0, "VECTREX_"@ + core),
        builtin_arity(core) is Some,
        reads_slots(runtime_routine(core)->0, builtin_arity(core)->0),
        expected_arity(core) == builtin_arity(core),
        expected_arity("VECTREX_"@ + core) == builtin_arity(core),
{
    reveal_strlit("MOVE");
    reveal_strlit("PRINT_TEXT");
    reveal_strlit("DRAW_TO");
    reveal_strlit("DRAW_LINE");
    reveal_strlit("SET_ORIGIN");
    reveal_strlit("SET_INTENSITY");
    reveal_strlit("DEBUG_PRINT");
    reveal_strlit("DEBUG_PRINT_LABELED");
    reveal_strlit("DEBUG_PRINT_STR");
    reveal_strlit("DRAW_VECTOR");
    reveal_strlit("DRAW_VECTOR_EX");
    reveal_strlit("PLAY_MUSIC");
    reveal_strlit("PLAY_SFX");
    reveal_strlit("MUSIC_UPDATE");
    reveal_strlit("SFX_UPDATE");
    reveal_strlit("STOP_MUSIC");
    reveal_strlit("DRAW_VECTOR_LIST");
    reveal_strlit("DRAW_VL");
    reveal_strlit("FRAME_BEGIN");
    reveal_strlit("VECTOR_PHASE_BEGIN");
    reveal_strlit("WAIT_RECAL");
    reveal_strlit("PLAY_MUSIC1");
    reveal_strlit("DBG_STATIC_VL");
    reveal_strlit("VECTREX_");
    if core == "MOVE"@ {
        lemma_routine_move();
        reveal_strlit("VECTREX_MOVE");
        assert("VECTREX_"@ + core =~= "VECTREX_MOVE"@);
        assert(core.len() < 8);
        lemma_expected_arity_core(core);
    } else if core == "PRINT_TEXT"@ {
        lemma_routine_print_text();
        reveal_strlit("VECTREX_PRINT_TEXT");
        assert("VECTREX_"@ + core =~= "VECTREX_PRINT_TEXT"@);
        assert(core[0] != "VECTREX_"@[0]);
        assert(core.subrange(0, 8)[0] == core[0]);
        lemma_expected_arity_core(core);
    } else if core == "DRAW_TO"@ {
        lemma_routine_draw_to();
        reveal_strlit("VECTREX_DRAW_TO");
        assert("VECTREX_"@ + core =~= "VECTREX_DRAW_TO"@);
        assert(core.len() < 8);
        lemma_expected_arity_core(core);
    } else if core == "SET_ORIGIN"@ {
        lemma_routine_set_origin();
        reveal_strlit("VECTREX_SET_ORIGIN");
        assert("VECTREX_"@ + core =~= "VECTREX_SET_ORIGIN"@);
        assert(core[0] != "VECTREX_"@[0]);
        assert(core.subrange(0, 8)[0] == core[0]);
        lemma_expected_arity_core(core);
        assert("SET_ORIGIN"@[0] != "PRINT_TEXT"@[0]);
    } else if core == "SET_INTENSITY"@ {
        lemma_routine_set_intensity();
        reveal_strlit("VECTREX_SET_INTENSITY");
        assert("VECTREX_"@ + core =~= "VECTREX_SET_INTENSITY"@);
        assert(core[0] != "VECTREX_"@[0]);
        assert(core.subrange(0, 8)[0] == core[0]);
        lemma_expected_arity_core(core);
    } else if core == "DEBUG_PRINT"@ {
        lemma_routine_debug_print();
        reveal_strlit("VECTREX_DEBUG_PRINT");
        assert("VECTREX_"@ + core =~= "VECTREX_DEBUG_PRINT"@);
        assert(core[0] != "VECTREX_"@[0]);
        assert(core.subrange(0, 8)[0] == core[0]);
        lemma_expected_arity_core(core);
    } else if core == "DEBUG_PRINT_LABELED"@ {
        lemma_routine_debug_print_labeled();
        reveal_strlit("VECTREX_DEBUG_PRINT_LABELED");
        assert("VECTREX_"@ + core =~= "VECTREX_DEBUG_PRINT_LABELED"@);
        assert(core[0] != "VECTREX_"@[0]);
        assert(core.subrange(0, 8)[0] == core[0]);
        lemma_expected_arity_core(core);
    } else if core == "DRAW_VL"@ {
        lemma_routine_draw_vl();
        reveal_strlit("VECTREX_DRAW_VL");
        assert("VECTREX_"@ + core =~= "VECTREX_DRAW_VL"@);
        assert(core.len() < 8);
        lemma_expected_arity_core(core);
        assert("DRAW_VL"@[5] != "DRAW_TO"@[5]);
    } else if core == "FRAME_BEGIN"@ {
        lemma_routine_frame_begin();
        reveal_strlit("VECTREX_FRAME_BEGIN");
        assert("VECTREX_"@ + core =~= "VECTREX_FRAME_BEGIN"@);
        assert(core[0] != "VECTREX_"@[0]);
        assert(core.subrange(0, 8)[0] == core[0]);
        lemma_expected_arity_core(core);
        assert("FRAME_BEGIN"@[0] != "DEBUG_PRINT"@[0]);
        assert("FRAME_BEGIN"@[0] != "DRAW_VECTOR"@[0]);
    } else if core == "VECTOR_PHASE_BEGIN"@ {
        lemma_routine_vector_phase_begin();
        reveal_strlit("VECTREX_VECTOR_PHASE_BEGIN");
        assert("VECTREX_"@ + core =~= "VECTREX_VECTOR_PHASE_BEGIN"@);
        assert(core[4] != "VECTREX_"@[4]);
        assert(core.subrange(0, 8)[4] == core[4]);
        lemma_expected_arity_core(core);
    } else if core == "WAIT_RECAL"@ {
        lemma_routine_wait_recal();
        reveal_strlit("VECTREX_WAIT_RECAL");
        assert("VECTREX_"@ + core =~= "VECTREX_WAIT_RECAL"@);
        assert(core[0] != "VECTREX_"@[0]);
        assert(core.subrange(0, 8)[0] == core[0]);
        lemma_expected_arity_core(core);
        assert("WAIT_RECAL"@[0] != "PRINT_TEXT"@[0]);
        assert("WAIT_RECAL"@[0] != "SET_ORIGIN"@[0]);
        assert("WAIT_RECAL"@[0] != "PLAY_MUSIC"@[0]);
        assert("WAIT_RECAL"@[0] != "SFX_UPDATE"@[0]);
        assert("WAIT_RECAL"@[0] != "STOP_MUSIC"@[0]);
    } else if core == "PLAY_MUSIC1"@ {
        lemma_routine_play_music1();
        reveal_strlit("VECTREX_PLAY_MUSIC1");
        assert("VECTREX_"@ + core =~= "VECTREX_PLAY_MUSIC1"@);
        assert(core[0] != "VECTREX_"@[0]);
        assert(core.subrange(0, 8)[0] == core[0]);
        lemma_expected_arity_core(core);
        assert("PLAY_MUSIC1"@[0] != "DEBUG_PRINT"@[0]);
        assert("PLAY_MUSIC1"@[0] != "DRAW_VECTOR"@[0]);
        assert("PLAY_MUSIC1"@[0] != "FRAME_BEGIN"@[0]);
    } else if core == "DBG_STATIC_VL"@ {
        lemma_routine_dbg_static_vl();
        reveal_strlit("VECTREX_DBG_STATIC_VL");
        assert("VECTREX_"@ + core =~= "VECTREX_DBG_STATIC_VL"@);
        assert(core[0] != "VECTREX_"@[0]);
        assert(core.subrange(0, 8)[0] == core[0]);
        lemma_expected_arity_core(core);
        assert("DBG_STATIC_VL"@[0] != "SET_INTENSITY"@[0]);
    }
}

} // verus!
