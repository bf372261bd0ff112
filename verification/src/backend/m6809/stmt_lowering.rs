//! The 6809 lowering of statements: each statement is preceded by a marker
//! of its source line, loops and branches use numbered labels, a `switch`
//! over enough close number cases becomes a jump table. Expressions are
//! lowered as `lowering` describes.

use vstd::prelude::*;
use crate::ast::{ExprM, FunctionM, StmtM};
use crate::backend::arm::{
    all_numeric, ends_with_return, first_index, label, last_key, sort_keys, LoopM,
};
use crate::backend::m6809::lowering::{lemma_m6_expr_mono, m6_expr, m6_ok, M6Ctx};
use crate::codegen::fold::low16;
use crate::text::{dec, dec_int, unicode_upper};

verus! {

/// The source line a statement carries.
pub open spec fn stmt_line(s: StmtM) -> usize {
    match s {
        StmtM::Assign(_, _, l) => l,
        StmtM::Let(_, _, l) => l,
        StmtM::For(_, _, _, _, _, l) => l,
        StmtM::While(_, _, l) => l,
        StmtM::Break(l) => l,
        StmtM::Continue(l) => l,
        StmtM::Expr(_, l) => l,
        StmtM::If(_, _, _, _, l) => l,
        StmtM::Switch(_, _, _, l) => l,
        StmtM::Return(_, l) => l,
        StmtM::CompoundAssign(_, _, _, l) => l,
    }
}

/// The marker of a statement's source line.
pub open spec fn line_mark(line: usize) -> Seq<char> {
    "    ; VPy_LINE:"@ + dec(line as nat) + "\n"@
}

/// Stores RESULT into a variable: its stack slot, or its global word.
pub open spec fn m6_store(name: Seq<char>, locals: Seq<Seq<char>>) -> Seq<char> {
    match first_index(locals, name) {
        Some(i) => "    LDX RESULT\n    STX "@ + dec_int(2 * i) + " ,S\n"@,
        None => "    LDX RESULT\n    LDU #VAR_"@ + unicode_upper(name) + "\n    STU TMPPTR\n    STX ,U\n"@,
    }
}

/// Stores RESULT into the stack slot of a `let`; nothing for a name that
/// has none.
pub open spec fn m6_let_store(name: Seq<char>, locals: Seq<Seq<char>>) -> Seq<char> {
    match first_index(locals, name) {
        Some(i) => "    LDX RESULT\n    STX "@ + dec_int(2 * i) + " ,S\n"@,
        None => Seq::empty(),
    }
}

/// Stores D into a loop variable.
pub open spec fn m6_var_store(name: Seq<char>, locals: Seq<Seq<char>>) -> Seq<char> {
    match first_index(locals, name) {
        Some(i) => "    STD "@ + dec_int(2 * i) + " ,S\n"@,
        None => "    STD VAR_"@ + unicode_upper(name) + "\n"@,
    }
}

/// Loads a loop variable into D.
pub open spec fn m6_var_load(name: Seq<char>, locals: Seq<Seq<char>>) -> Seq<char> {
    match first_index(locals, name) {
        Some(i) => "    LDD "@ + dec_int(2 * i) + " ,S\n"@,
        None => "    LDD VAR_"@ + unicode_upper(name) + "\n"@,
    }
}

/// Adds the step that X points at to a loop variable.
pub open spec fn m6_var_step(name: Seq<char>, locals: Seq<Seq<char>>) -> Seq<char> {
    match first_index(locals, name) {
        Some(i) => "    LDD "@ + dec_int(2 * i) + " ,S\n    ADDD ,X\n    STD "@ + dec_int(2 * i) + " ,S\n"@,
        None => "    LDD VAR_"@ + unicode_upper(name) + "\n    ADDD ,X\n    STD VAR_"@ + unicode_upper(
            name,
        ) + "\n"@,
    }
}

/// Frees the stack frame of the locals, if there is one.
pub open spec fn m6_release(frame: i32) -> Seq<char> {
    if frame > 0 {
        "    LEAS "@ + dec_int(frame as int) + " ,S ; free locals\n"@
    } else {
        Seq::empty()
    }
}

/// The case values of a `switch` on 16 bits, each with the position of its
/// case.
pub open spec fn case_keys16(cases: Seq<(ExprM, Seq<StmtM>)>) -> Seq<(i32, usize)> {
    Seq::new(
        cases.len(),
        |i: int|
            (
                match cases[i].0 {
                    ExprM::Number(v) => low16(v as int) as i32,
                    _ => 0,
                },
                i as usize,
            ),
    )
}

/// The cases sorted by their 16-bit value, cases of equal value in their
/// first order.
pub open spec fn sorted_cases(cases: Seq<(ExprM, Seq<StmtM>)>) -> Seq<(i32, usize)> {
    sort_keys(case_keys16(cases))
}

/// The span of values a jump table covers.
pub open spec fn table_span(sorted: Seq<(i32, usize)>) -> int {
    sorted.last().0 - sorted[0].0 + 1
}

/// A `switch` becomes a jump table when all its cases are numbers, there
/// are at least three, and their value range is at most twice their count
/// and fits a short table.
pub open spec fn m6_jump_table(cases: Seq<(ExprM, Seq<StmtM>)>) -> bool {
    let sorted = sorted_cases(cases);
    &&& all_numeric(cases)
    &&& cases.len() >= 3
    &&& sorted[0].0 <= sorted.last().0
    &&& table_span(sorted) <= 2 * cases.len()
    &&& 2 * table_span(sorted) <= 254
}

/// The range checks and the indirect jump of a jump table.
pub open spec fn m6_table_head(min: int, span: int, target: Seq<char>, table: Seq<char>) -> Seq<char> {
    "    LDD TMPLEFT\n    SUBD #"@ + dec_int(min) + "\n    LBLT "@ + target + "\n"@ + "    CPD #"@
        + dec_int(span - 1) + "\n    LBHI "@ + target + "\n"@ + "    ASLB\n    ROLA\n"@ + "    LDX #"@
        + table + "\n    ABX\n"@ + "    LDD ,X\n    TFR D,X\n    JMP ,X\n"@
}

/// The first `k` entries of a jump table: the case label of each value
/// from `min` on, or the default target.
pub open spec fn m6_table_entries(
    sorted: Seq<(i32, usize)>,
    base: nat,
    min: int,
    k: nat,
    target: Seq<char>,
) -> Seq<char>
    decreases k,
{
    if k == 0 {
        Seq::empty()
    } else {
        let j = last_key(sorted, min + k - 1);
        m6_table_entries(sorted, base, min, (k - 1) as nat, target) + "    FDB "@ + (if j >= 0 {
            label("SW_CASE"@, (base + j) as nat)
        } else {
            target
        }) + "\n"@
    }
}

/// The comparisons of a chain of cases: each value against the switch
/// value.
pub open spec fn m6_case_tests(cases: Seq<(ExprM, Seq<StmtM>)>, base: nat, c: M6Ctx, n: nat) -> (
    Seq<char>,
    nat,
)
    decreases cases.len(),
{
    if cases.len() == 0 {
        (Seq::empty(), n)
    } else {
        let (t, m) = m6_case_tests(cases.drop_last(), base, c, n);
        let (tc, m1) = m6_expr(cases.last().0, c, m);
        (t + tc + "    LDD RESULT\n    SUBD TMPLEFT\n    LBEQ "@ + label(
            "SW_CASE"@,
            (base + cases.len() - 1) as nat,
        ) + "\n"@, m1)
    }
}

/// The code of a statement after its line marker, and the label counter
/// after it.
pub open spec fn m6_stmt_code(s: StmtM, lc: LoopM, c: M6Ctx, n: nat) -> (Seq<char>, nat)
    decreases s, 2nat,
{
    match s {
        StmtM::Assign(t, v, _) => {
            let (tv, m) = m6_expr(v, c, n);
            (tv + m6_store(t.name, c.cx.locals), m)
        },
        StmtM::Let(name, v, _) => {
            let (tv, m) = m6_expr(v, c, n);
            (tv + m6_let_store(name, c.cx.locals), m)
        },
        StmtM::Expr(e, _) => m6_expr(e, c, n),
        StmtM::Return(o, _) => {
            let (tv, m) = match o {
                Some(e) => m6_expr(e, c, n),
                None => (Seq::empty(), n),
            };
            (tv + m6_release(c.cx.frame) + "    RTS\n"@, m)
        },
        StmtM::Break(_) => (
            match lc.end {
                Some(e) => "    BRA "@ + e + "\n"@,
                None => Seq::empty(),
            },
            n,
        ),
        StmtM::Continue(_) => (
            match lc.start {
                Some(st) => "    BRA "@ + st + "\n"@,
                None => Seq::empty(),
            },
            n,
        ),
        StmtM::While(..) => m6_while(s, lc, c, n),
        StmtM::For(..) => m6_for(s, lc, c, n),
        StmtM::If(..) => m6_if(s, lc, c, n),
        StmtM::Switch(..) => m6_switch(s, lc, c, n),
        StmtM::CompoundAssign(..) => (Seq::empty(), n),
    }
}

/// The code of a statement, and the label counter after it.
pub open spec fn m6_stmt(s: StmtM, lc: LoopM, c: M6Ctx, n: nat) -> (Seq<char>, nat)
    decreases s, 3nat,
{
    let (t, m) = m6_stmt_code(s, lc, c, n);
    (line_mark(stmt_line(s)) + t, m)
}

/// A `while` loop: the test at its start label, the body, the jump back.
pub open spec fn m6_while(s: StmtM, lc: LoopM, c: M6Ctx, n: nat) -> (Seq<char>, nat)
    decreases s, 1nat,
{
    match s {
        StmtM::While(cnd, b, _) => {
            let ls = label("WH"@, n);
            let le = label("WH_END"@, n + 1);
            let (tc, m1) = m6_expr(cnd, c, n + 2);
            let (tb, m2) = m6_stmts(b, LoopM { start: Some(ls), end: Some(le) }, c, m1);
            (ls + ": ; while start\n"@ + tc + "    LDD RESULT\n    LBEQ "@ + le + "\n"@ + tb + "    LBRA "@
                + ls + "\n"@ + le + ": ; while end\n"@, m2)
        },
        _ => (Seq::empty(), n),
    }
}

/// A `for` loop over a variable, from a start value while it is below the
/// end value (unsigned), by a step (one where none is given).
pub open spec fn m6_for(s: StmtM, lc: LoopM, c: M6Ctx, n: nat) -> (Seq<char>, nat)
    decreases s, 1nat,
{
    match s {
        StmtM::For(var, st, en, step, b, _) => {
            let lf = label("FOR"@, n);
            let le = label("FOR_END"@, n + 1);
            let (ts, m1) = m6_expr(st, c, n + 2);
            let (te, m2) = m6_expr(en, c, m1);
            let (tb, m3) = m6_stmts(b, LoopM { start: Some(lf), end: Some(le) }, c, m2);
            let (tp, m4) = match step {
                Some(se) => {
                    let (t, m) = m6_expr(se, c, m3);
                    (t + "    LDX RESULT\n"@, m)
                },
                None => ("    LDX #1\n"@, m3),
            };
            (ts + "    LDD RESULT\n"@ + m6_var_store(var, c.cx.locals) + lf + ": ; for loop\n"@
                + m6_var_load(var, c.cx.locals) + te + "    LDX RESULT\n    CPD RESULT\n"@ + "    LBCC "@
                + le + "\n"@ + tb + tp + m6_var_step(var, c.cx.locals) + "    LBRA "@ + lf + "\n"@ + le
                + ": ; for end\n"@, m4)
        },
        _ => (Seq::empty(), n),
    }
}

/// An `if` with its `elif` and `else` branches.
pub open spec fn m6_if(s: StmtM, lc: LoopM, c: M6Ctx, n: nat) -> (Seq<char>, nat)
    decreases s, 1nat,
{
    match s {
        StmtM::If(cnd, b, elifs, els, _) => {
            let le = label("IF_END"@, n);
            let ln = label("IF_NEXT"@, n + 1);
            let (tc, m1) = m6_expr(cnd, c, n + 2);
            let (tb, m2) = m6_stmts(b, lc, c, m1);
            let (te, nx, m3) = m6_elifs(elifs, elifs.len(), els is Some, le, ln, lc, c, m2);
            let (tl, m4) = match els {
                Some(eb) => {
                    let (t, m) = m6_stmts(eb, lc, c, m3);
                    (nx + ":\n"@ + t, m)
                },
                None => (
                    if elifs.len() == 0 {
                        nx + ":\n"@
                    } else {
                        Seq::empty()
                    },
                    m3,
                ),
            };
            (tc + "    LDD RESULT\n    LBEQ "@ + ln + "\n"@ + tb + "    LBRA "@ + le + "\n"@ + te + tl
                + le + ":\n"@, m4)
        },
        _ => (Seq::empty(), n),
    }
}

/// A `switch`: the value into TMPLEFT, then a jump table or a chain of
/// tests.
pub open spec fn m6_switch(s: StmtM, lc: LoopM, c: M6Ctx, n: nat) -> (Seq<char>, nat)
    decreases s, 1nat,
{
    match s {
        StmtM::Switch(e, cases, def, _) => {
            let (te, m1) = m6_expr(e, c, n);
            let le = label("SW_END"@, m1);
            let m2: nat = if def is Some {
                m1 + 2
            } else {
                m1 + 1
            };
            let target = if def is Some {
                label("SW_DEF"@, m1 + 1)
            } else {
                le
            };
            let (tr, m3) = if m6_jump_table(cases) {
                m6_switch_table(s, le, target, lc, c, m2)
            } else {
                m6_switch_chain(s, le, target, lc, c, m2)
            };
            (te + "    LDD RESULT\n    STD TMPLEFT ; switch value\n"@ + tr, m3)
        },
        _ => (Seq::empty(), n),
    }
}

/// A `switch` lowered to a jump table, after its value is in TMPLEFT:
/// range checks, the indirect jump, the case bodies in value order, the
/// default, the end label, and the table of case labels.
pub open spec fn m6_switch_table(
    s: StmtM,
    le: Seq<char>,
    target: Seq<char>,
    lc: LoopM,
    c: M6Ctx,
    m2: nat,
) -> (Seq<char>, nat)
    decreases s, 0nat,
{
    match s {
        StmtM::Switch(_, cases, def, _) => {
            let sorted = sorted_cases(cases);
            let min = sorted[0].0 as int;
            let span = table_span(sorted);
            let tl = label("SW_JT"@, m2);
            let base: nat = m2 + 1;
            let (tb, m3) = m6_table_bodies(sorted, sorted, cases, base, le, lc, c, base + cases.len());
            let (td, m4) = match def {
                Some(db) => {
                    let (t, m) = m6_stmts(db, lc, c, m3);
                    (target + ":\n"@ + t, m)
                },
                None => (Seq::empty(), m3),
            };
            (m6_table_head(min, span, target, tl) + tb + td + le + ":\n"@ + tl + ":\n"@
                + m6_table_entries(sorted, base, min, span as nat, target), m4)
        },
        _ => (Seq::empty(), m2),
    }
}

/// A `switch` lowered to a chain of comparisons, after its value is in
/// TMPLEFT.
pub open spec fn m6_switch_chain(
    s: StmtM,
    le: Seq<char>,
    target: Seq<char>,
    lc: LoopM,
    c: M6Ctx,
    m2: nat,
) -> (Seq<char>, nat)
    decreases s, 0nat,
{
    match s {
        StmtM::Switch(_, cases, def, _) => {
            let (tt, m3) = m6_case_tests(cases, m2, c, m2 + cases.len());
            let (tb, m4) = m6_chain_bodies(cases, m2, le, lc, c, m3);
            let (td, m5) = match def {
                Some(db) => {
                    let (t, m) = m6_stmts(db, lc, c, m4);
                    (target + ":\n"@ + t, m)
                },
                None => (Seq::empty(), m4),
            };
            (tt + "    LBRA "@ + target + "\n"@ + tb + td + le + ":\n"@, m5)
        },
        _ => (Seq::empty(), m2),
    }
}

/// The code of statements in order.
pub open spec fn m6_stmts(s: Seq<StmtM>, lc: LoopM, c: M6Ctx, n: nat) -> (Seq<char>, nat)
    decreases s, 0nat,
{
    if s.len() == 0 {
        (Seq::empty(), n)
    } else {
        let (t, m) = m6_stmts(s.drop_last(), lc, c, n);
        let (u, k) = m6_stmt(s.last(), lc, c, m);
        (t + u, k)
    }
}

/// The `elif` branches of an `if`: each defines the label the previous
/// test jumps to when false and tests its own condition; the last one
/// jumps to the end when there is no `else`. Also the label the last test
/// jumps to.
pub open spec fn m6_elifs(
    arms: Seq<(ExprM, Seq<StmtM>)>,
    total: nat,
    has_else: bool,
    end: Seq<char>,
    next0: Seq<char>,
    lc: LoopM,
    c: M6Ctx,
    n: nat,
) -> (Seq<char>, Seq<char>, nat)
    decreases arms, 0nat,
{
    if arms.len() == 0 {
        (Seq::empty(), next0, n)
    } else {
        let (t, nx, m) = m6_elifs(arms.drop_last(), total, has_else, end, next0, lc, c, n);
        let (nn, m1) = if arms.len() == total && !has_else {
            (end, m)
        } else {
            (label("IF_NEXT"@, m), m + 1)
        };
        let (tc, m2) = m6_expr(arms.last().0, c, m1);
        let (tb, m3) = m6_stmts(arms.last().1, lc, c, m2);
        (t + nx + ":\n"@ + tc + "    LDD RESULT\n    LBEQ "@ + nn + "\n"@ + tb + "    LBRA "@ + end
            + "\n"@, nn, m3)
    }
}

/// The bodies of a chain of cases, each under its label.
pub open spec fn m6_chain_bodies(
    cases: Seq<(ExprM, Seq<StmtM>)>,
    base: nat,
    end: Seq<char>,
    lc: LoopM,
    c: M6Ctx,
    n: nat,
) -> (Seq<char>, nat)
    decreases cases, 0nat,
{
    if cases.len() == 0 {
        (Seq::empty(), n)
    } else {
        let (t, m) = m6_chain_bodies(cases.drop_last(), base, end, lc, c, n);
        let (tb, m1) = m6_stmts(cases.last().1, lc, c, m);
        (t + label("SW_CASE"@, (base + cases.len() - 1) as nat) + ":\n"@ + tb + "    LBRA "@ + end
            + "\n"@, m1)
    }
}

/// The bodies of a jump table's cases in value order, each under the
/// label of the last case of its value.
pub open spec fn m6_table_bodies(
    sorted: Seq<(i32, usize)>,
    full: Seq<(i32, usize)>,
    cases: Seq<(ExprM, Seq<StmtM>)>,
    base: nat,
    end: Seq<char>,
    lc: LoopM,
    c: M6Ctx,
    n: nat,
) -> (Seq<char>, nat)
    decreases cases, sorted.len(),
{
    if sorted.len() == 0 {
        (Seq::empty(), n)
    } else {
        let (t, m) = m6_table_bodies(sorted.drop_last(), full, cases, base, end, lc, c, n);
        let j = sorted.last().1 as int;
        let (tb, m1) = if j < cases.len() {
            m6_stmts(cases[j].1, lc, c, m)
        } else {
            (Seq::empty(), m)
        };
        let k = last_key(full, sorted.last().0 as int);
        (t + label("SW_CASE"@, (base + k) as nat) + ":\n"@ + tb + "    LBRA "@ + end + "\n"@, m1)
    }
}

// ---------------------------------------------------------------------------
// Inputs the lowering accepts, and the lines it marks
// ---------------------------------------------------------------------------

/// Whether a statement nested `d` deep stays within the depth limit of
/// 500, holds no compound assignment, and every expression in it is
/// accepted at depth 0.
pub open spec fn m6_stmt_ok(s: StmtM, d: int, c: M6Ctx) -> bool
    decreases s,
{
    d <= 500 && match s {
        StmtM::Assign(_, v, _) => m6_ok(v, 0, c),
        StmtM::Let(_, v, _) => m6_ok(v, 0, c),
        StmtM::Expr(e, _) => m6_ok(e, 0, c),
        StmtM::Return(o, _) => match o {
            Some(e) => m6_ok(e, 0, c),
            None => true,
        },
        StmtM::While(cnd, b, _) => m6_ok(cnd, 0, c) && m6_stmts_ok(b, d + 1, c),
        StmtM::For(_, st, en, step, b, _) => m6_ok(st, 0, c) && m6_ok(en, 0, c) && match step {
            Some(se) => m6_ok(se, 0, c),
            None => true,
        } && m6_stmts_ok(b, d + 1, c),
        StmtM::If(cnd, b, elifs, els, _) => m6_ok(cnd, 0, c) && m6_stmts_ok(b, d + 1, c)
            && m6_arms_ok(elifs, d + 1, c) && match els {
            Some(eb) => m6_stmts_ok(eb, d + 1, c),
            None => true,
        },
        StmtM::Switch(e, cases, def, _) => m6_ok(e, 0, c) && m6_arms_ok(cases, d + 1, c) && match def {
            Some(db) => m6_stmts_ok(db, d + 1, c),
            None => true,
        },
        StmtM::CompoundAssign(..) => false,
        _ => true,
    }
}

/// Every statement is accepted at depth `d`.
pub open spec fn m6_stmts_ok(s: Seq<StmtM>, d: int, c: M6Ctx) -> bool
    decreases s,
{
    if s.len() == 0 {
        true
    } else {
        m6_stmts_ok(s.drop_last(), d, c) && m6_stmt_ok(s.last(), d, c)
    }
}

/// Every arm's value is accepted at depth 0 and its body at depth `d`.
pub open spec fn m6_arms_ok(s: Seq<(ExprM, Seq<StmtM>)>, d: int, c: M6Ctx) -> bool
    decreases s,
{
    if s.len() == 0 {
        true
    } else {
        m6_arms_ok(s.drop_last(), d, c) && m6_ok(s.last().0, 0, c) && m6_stmts_ok(s.last().1, d, c)
    }
}

/// The source lines (in decimal) of a statement and of every statement in
/// it.
pub open spec fn stmt_keys(s: StmtM) -> Set<Seq<char>>
    decreases s,
{
    set![dec(stmt_line(s) as nat)] + match s {
        StmtM::While(_, b, _) => stmts_keys(b),
        StmtM::For(_, _, _, _, b, _) => stmts_keys(b),
        StmtM::If(_, b, elifs, els, _) => stmts_keys(b) + arms_keys(elifs) + match els {
            Some(eb) => stmts_keys(eb),
            None => Set::empty(),
        },
        StmtM::Switch(_, cases, def, _) => arms_keys(cases) + match def {
            Some(db) => stmts_keys(db),
            None => Set::empty(),
        },
        _ => Set::empty(),
    }
}

/// The source lines of statements.
pub open spec fn stmts_keys(s: Seq<StmtM>) -> Set<Seq<char>>
    decreases s,
{
    if s.len() == 0 {
        Set::empty()
    } else {
        stmts_keys(s.drop_last()) + stmt_keys(s.last())
    }
}

/// The source lines of the bodies of arms.
pub open spec fn arms_keys(s: Seq<(ExprM, Seq<StmtM>)>) -> Set<Seq<char>>
    decreases s,
{
    if s.len() == 0 {
        Set::empty()
    } else {
        arms_keys(s.drop_last()) + stmts_keys(s.last().1)
    }
}

/// A line map with every key of `keys` mapped to `v`.
pub open spec fn mark_lines(m: Map<Seq<char>, Seq<char>>, keys: Set<Seq<char>>, v: Seq<char>) -> Map<
    Seq<char>,
    Seq<char>,
> {
    Map::new(|k: Seq<char>| m.contains_key(k) || keys.contains(k), |k: Seq<char>| if keys.contains(k) {
        v
    } else {
        m[k]
    })
}


// ---------------------------------------------------------------------------
// Label counter
// ---------------------------------------------------------------------------

/// Lowering a statement never sets the label counter back, so labels drawn
/// later are never ones drawn before.
pub proof fn lemma_m6_stmt_mono(s: StmtM, lc: LoopM, c: M6Ctx, n: nat)
    ensures
        m6_stmt(s, lc, c, n).1 >= n,
    decreases s, 3nat,
{
    lemma_m6_stmt_code_mono(s, lc, c, n);
}

pub(crate) proof fn lemma_m6_case_tests_mono(cases: Seq<(ExprM, Seq<StmtM>)>, base: nat, c: M6Ctx, n: nat)
    ensures
        m6_case_tests(cases, base, c, n).1 >= n,
    decreases cases.len(),
{
    if cases.len() > 0 {
        lemma_m6_case_tests_mono(cases.drop_last(), base, c, n);
        lemma_m6_expr_mono(cases.last().0, c, m6_case_tests(cases.drop_last(), base, c, n).1);
    }
}

pub(crate) proof fn lemma_m6_stmt_code_mono(s: StmtM, lc: LoopM, c: M6Ctx, n: nat)
    ensures
        m6_stmt_code(s, lc, c, n).1 >= n,
    decreases s, 2nat,
{
    match s {
        StmtM::Assign(_, v, _) => lemma_m6_expr_mono(v, c, n),
        StmtM::Let(_, v, _) => lemma_m6_expr_mono(v, c, n),
        StmtM::Expr(e, _) => lemma_m6_expr_mono(e, c, n),
        StmtM::Return(Some(e), _) => lemma_m6_expr_mono(e, c, n),
        StmtM::While(..) => lemma_m6_while_mono(s, lc, c, n),
        StmtM::For(..) => lemma_m6_for_mono(s, lc, c, n),
        StmtM::If(..) => lemma_m6_if_mono(s, lc, c, n),
        StmtM::Switch(..) => lemma_m6_switch_mono(s, lc, c, n),
        _ => {},
    }
}

pub(crate) proof fn lemma_m6_while_mono(s: StmtM, lc: LoopM, c: M6Ctx, n: nat)
    ensures
        m6_while(s, lc, c, n).1 >= n,
    decreases s, 1nat,
{
    match s {
        StmtM::While(cnd, b, _) => {
            let lp = LoopM { start: Some(label("WH"@, n)), end: Some(label("WH_END"@, n + 1)) };
            lemma_m6_expr_mono(cnd, c, n + 2);
            lemma_m6_stmts_mono(b, lp, c, m6_expr(cnd, c, n + 2).1);
        },
        _ => {},
    }
}

pub(crate) proof fn lemma_m6_for_mono(s: StmtM, lc: LoopM, c: M6Ctx, n: nat)
    ensures
        m6_for(s, lc, c, n).1 >= n,
    decreases s, 1nat,
{
    match s {
        StmtM::For(_, st, en, step, b, _) => {
            let lp = LoopM { start: Some(label("FOR"@, n)), end: Some(label("FOR_END"@, n + 1)) };
            let m1 = m6_expr(st, c, n + 2).1;
            let m2 = m6_expr(en, c, m1).1;
            let m3 = m6_stmts(b, lp, c, m2).1;
            lemma_m6_expr_mono(st, c, n + 2);
            lemma_m6_expr_mono(en, c, m1);
            lemma_m6_stmts_mono(b, lp, c, m2);
            if let Some(se) = step {
                lemma_m6_expr_mono(se, c, m3);
            }
        },
        _ => {},
    }
}

pub(crate) proof fn lemma_m6_if_mono(s: StmtM, lc: LoopM, c: M6Ctx, n: nat)
    ensures
        m6_if(s, lc, c, n).1 >= n,
    decreases s, 1nat,
{
    match s {
        StmtM::If(cnd, b, elifs, els, _) => {
            let le = label("IF_END"@, n);
            let ln = label("IF_NEXT"@, n + 1);
            let m1 = m6_expr(cnd, c, n + 2).1;
            let m2 = m6_stmts(b, lc, c, m1).1;
            let m3 = m6_elifs(elifs, elifs.len(), els is Some, le, ln, lc, c, m2).2;
            lemma_m6_expr_mono(cnd, c, n + 2);
            lemma_m6_stmts_mono(b, lc, c, m1);
            lemma_m6_elifs_mono(elifs, elifs.len(), els is Some, le, ln, lc, c, m2);
            if let Some(eb) = els {
                lemma_m6_stmts_mono(eb, lc, c, m3);
            }
        },
        _ => {},
    }
}

pub(crate) proof fn lemma_m6_switch_mono(s: StmtM, lc: LoopM, c: M6Ctx, n: nat)
    ensures
        m6_switch(s, lc, c, n).1 >= n,
    decreases s, 1nat,
{
    match s {
        StmtM::Switch(e, cases, def, _) => {
            let m1 = m6_expr(e, c, n).1;
            let le = label("SW_END"@, m1);
            let m2: nat = if def is Some {
                m1 + 2
            } else {
                m1 + 1
            };
            let target = if def is Some {
                label("SW_DEF"@, m1 + 1)
            } else {
                le
            };
            lemma_m6_expr_mono(e, c, n);
            lemma_m6_switch_table_mono(s, le, target, lc, c, m2);
            lemma_m6_switch_chain_mono(s, le, target, lc, c, m2);
        },
        _ => {},
    }
}

pub(crate) proof fn lemma_m6_switch_table_mono(s: StmtM, le: Seq<char>, target: Seq<char>, lc: LoopM, c: M6Ctx, m2: nat)
    ensures
        m6_switch_table(s, le, target, lc, c, m2).1 >= m2,
    decreases s, 0nat,
{
    if let StmtM::Switch(_, cases, def, _) = s {
        let sorted = sorted_cases(cases);
        let base: nat = m2 + 1;
        lemma_m6_table_bodies_mono(sorted, sorted, cases, base, le, lc, c, base + cases.len());
        let m3 = m6_table_bodies(sorted, sorted, cases, base, le, lc, c, base + cases.len()).1;
        if let Some(db) = def {
            lemma_m6_stmts_mono(db, lc, c, m3);
        }
    }
}

pub(crate) proof fn lemma_m6_switch_chain_mono(s: StmtM, le: Seq<char>, target: Seq<char>, lc: LoopM, c: M6Ctx, m2: nat)
    ensures
        m6_switch_chain(s, le, target, lc, c, m2).1 >= m2,
    decreases s, 0nat,
{
    if let StmtM::Switch(_, cases, def, _) = s {
        lemma_m6_case_tests_mono(cases, m2, c, m2 + cases.len());
        let m3 = m6_case_tests(cases, m2, c, m2 + cases.len()).1;
        lemma_m6_chain_mono(cases, m2, le, lc, c, m3);
        let m4 = m6_chain_bodies(cases, m2, le, lc, c, m3).1;
        if let Some(db) = def {
            lemma_m6_stmts_mono(db, lc, c, m4);
        }
    }
}

pub(crate) proof fn lemma_m6_stmts_mono(s: Seq<StmtM>, lc: LoopM, c: M6Ctx, n: nat)
    ensures
        m6_stmts(s, lc, c, n).1 >= n,
    decreases s, 0nat,
{
    if s.len() > 0 {
        lemma_m6_stmts_mono(s.drop_last(), lc, c, n);
        lemma_m6_stmt_mono(s.last(), lc, c, m6_stmts(s.drop_last(), lc, c, n).1);
    }
}

pub(crate) proof fn lemma_m6_elifs_mono(
    arms: Seq<(ExprM, Seq<StmtM>)>,
    total: nat,
    has_else: bool,
    end: Seq<char>,
    next0: Seq<char>,
    lc: LoopM,
    c: M6Ctx,
    n: nat,
)
    ensures
        m6_elifs(arms, total, has_else, end, next0, lc, c, n).2 >= n,
    decreases arms, 0nat,
{
    if arms.len() > 0 {
        lemma_m6_elifs_mono(arms.drop_last(), total, has_else, end, next0, lc, c, n);
        let m = m6_elifs(arms.drop_last(), total, has_else, end, next0, lc, c, n).2;
        let m1 = if arms.len() == total && !has_else {
            m
        } else {
            m + 1
        };
        lemma_m6_expr_mono(arms.last().0, c, m1);
        lemma_m6_stmts_mono(arms.last().1, lc, c, m6_expr(arms.last().0, c, m1).1);
    }
}

pub(crate) proof fn lemma_m6_chain_mono(
    cases: Seq<(ExprM, Seq<StmtM>)>,
    base: nat,
    end: Seq<char>,
    lc: LoopM,
    c: M6Ctx,
    n: nat,
)
    ensures
        m6_chain_bodies(cases, base, end, lc, c, n).1 >= n,
    decreases cases, 0nat,
{
    if cases.len() > 0 {
        lemma_m6_chain_mono(cases.drop_last(), base, end, lc, c, n);
        lemma_m6_stmts_mono(cases.last().1, lc, c, m6_chain_bodies(cases.drop_last(), base, end, lc, c, n).1);
    }
}

pub(crate) proof fn lemma_m6_table_bodies_mono(
    sorted: Seq<(i32, usize)>,
    full: Seq<(i32, usize)>,
    cases: Seq<(ExprM, Seq<StmtM>)>,
    base: nat,
    end: Seq<char>,
    lc: LoopM,
    c: M6Ctx,
    n: nat,
)
    ensures
        m6_table_bodies(sorted, full, cases, base, end, lc, c, n).1 >= n,
    decreases cases, sorted.len(),
{
    if sorted.len() > 0 {
        lemma_m6_table_bodies_mono(sorted.drop_last(), full, cases, base, end, lc, c, n);
        let j = sorted.last().1 as int;
        if j < cases.len() {
            lemma_m6_stmts_mono(cases[j].1, lc, c, m6_table_bodies(sorted.drop_last(), full, cases, base, end, lc, c, n).1);
        }
    }
}




// ---------------------------------------------------------------------------
// Facts of acceptance and of marked lines
// ---------------------------------------------------------------------------

/// Each statement of an accepted list is accepted.
pub proof fn lemma_m6_stmts_ok_take(s: Seq<StmtM>, i: int, d: int, c: M6Ctx)
    requires
        m6_stmts_ok(s, d, c),
        0 <= i < s.len(),
    ensures
        m6_stmt_ok(s[i], d, c),
    decreases s.len(),
{
    if i < s.len() - 1 {
        lemma_m6_stmts_ok_take(s.drop_last(), i, d, c);
    }
}

/// Each arm of an accepted list has an accepted value and body.
pub proof fn lemma_m6_arms_ok_take(s: Seq<(ExprM, Seq<StmtM>)>, i: int, d: int, c: M6Ctx)
    requires
        m6_arms_ok(s, d, c),
        0 <= i < s.len(),
    ensures
        m6_ok(s[i].0, 0, c),
        m6_stmts_ok(s[i].1, d, c),
    decreases s.len(),
{
    if i < s.len() - 1 {
        lemma_m6_arms_ok_take(s.drop_last(), i, d, c);
    }
}

/// Marking two sets of lines in turn marks their union.
pub proof fn lemma_mark_lines_union(
    m: Map<Seq<char>, Seq<char>>,
    a: Set<Seq<char>>,
    b: Set<Seq<char>>,
    v: Seq<char>,
)
    ensures
        mark_lines(mark_lines(m, a, v), b, v) == mark_lines(m, a + b, v),
        mark_lines(m, Set::empty(), v) == m,
{
    assert(mark_lines(mark_lines(m, a, v), b, v) =~= mark_lines(m, a + b, v));
    assert(mark_lines(m, Set::empty(), v) =~= m);
}

/// Recording one line marks it.
pub proof fn lemma_mark_line_insert(m: Map<Seq<char>, Seq<char>>, k: Seq<char>, v: Seq<char>)
    ensures
        m.insert(k, v) == mark_lines(m, set![k], v),
{
    assert(m.insert(k, v) =~= mark_lines(m, set![k], v));
}


// ---------------------------------------------------------------------------
// Functions
// ---------------------------------------------------------------------------

/// The prologue lines that copy the first `k` argument slots into the
/// parameters' variables.
pub open spec fn m6_params(params: Seq<Seq<char>>, k: nat) -> Seq<char>
    decreases k,
{
    if k == 0 || k > params.len() {
        Seq::empty()
    } else {
        m6_params(params, (k - 1) as nat) + "    LDD VAR_ARG"@ + dec((k - 1) as nat) + "\n    STD VAR_"@
            + unicode_upper(params[k - 1]) + "\n"@
    }
}

/// The label of a function: `MAIN` for `main`, else its name in upper case.
pub open spec fn fn_label(name: Seq<char>) -> Seq<char> {
    if name == "main"@ {
        "MAIN"@
    } else {
        unicode_upper(name)
    }
}

/// The code of a function, lowered in the context of its locals: its label
/// and banner, the stack frame of its locals (two bytes each), the copies
/// of up to four arguments, the body, a return unless the body ends with
/// one, and a blank line.
pub open spec fn m6_function(f: FunctionM, c: M6Ctx, n: nat) -> (Seq<char>, nat) {
    let frame = c.cx.frame;
    let (tb, m) = m6_stmts(f.body, LoopM { start: None, end: None }, c, n);
    let k: nat = if f.params.len() < 4 {
        f.params.len()
    } else {
        4
    };
    (fn_label(f.name) + ": ; function\n"@ + "; --- function "@ + f.name + " ---\n"@ + (if frame > 0 {
        "    LEAS -"@ + dec_int(frame as int) + ",S ; allocate locals\n"@
    } else {
        Seq::empty()
    }) + m6_params(f.params, k) + tb + (if ends_with_return(f.body) {
        Seq::empty()
    } else {
        (if frame > 0 {
            "    LEAS "@ + dec_int(frame as int) + ",S ; free locals\n"@
        } else {
            Seq::empty()
        }) + "    RTS\n"@
    }) + "\n"@, m)
}

} // verus!
