//! Emitting the 6809 code of statements, as the model in `stmt_lowering`
//! describes it, and recording the source lines they come from.

use vstd::prelude::*;
use vstd::seq_lib::lemma_concat_associative;
use crate::ast::{
    lemma_view_arms, lemma_view_stmts, sviews, view_arms, view_stmts, Expr, ExprM, Function, Stmt,
    StmtM,
};
use crate::backend::arm::{
    all_numeric, fresh_labels, label, last_key_exec, lemma_last_key_range, lemma_sort_keys_bound,
    local_offset, loop_view, push_label_line, sort_case_keys, LoopM, arm_fn_locals, collect_locals,
    ends_with_return, ArmCtx,
};
use crate::backend::debug_info::{smap, DebugInfo, LineTracker};
use crate::backend::m6809::expr_code::{emit_expr, m6_ctx, shapes_view};
use crate::backend::m6809::lowering::{lemma_m6_expr_mono, m6_expr, AssetData, M6Ctx};
use crate::backend::m6809::stmt_lowering::{
    arms_keys, case_keys16, lemma_m6_arms_ok_take, lemma_m6_case_tests_mono, lemma_m6_chain_mono,
    lemma_m6_elifs_mono, lemma_m6_stmt_mono, lemma_m6_stmts_mono, lemma_m6_stmts_ok_take,
    lemma_m6_switch_chain_mono, lemma_m6_switch_table_mono, lemma_m6_table_bodies_mono,
    lemma_mark_line_insert, lemma_mark_lines_union, m6_arms_ok, m6_case_tests, m6_chain_bodies,
    m6_elifs, m6_for, m6_if, m6_jump_table, m6_let_store, m6_release, m6_stmt, m6_stmt_ok, m6_stmts,
    m6_stmts_ok, m6_store, m6_switch, m6_switch_chain, m6_switch_table, m6_table_bodies,
    m6_table_entries, m6_table_head, m6_var_load, m6_var_step, m6_var_store, m6_while, mark_lines,
    sorted_cases, stmt_keys, stmts_keys, table_span, m6_stmt_code, line_mark, stmt_line, fn_label,
    m6_function, m6_params,
};
use crate::backend::m6809::utils::{fresh_label, FuncCtx, LoopCtx};
use crate::codegen::CodegenOptions;
use crate::keyed::keys_unique;
use crate::text::{
    dec, dec_int, grow, hex_addr, push_dec, push_dec_i64, push_more, push_str, str_eq, string_from,
    to_upper,
};
use crate::strset::lemma_sorted_names;

verus! {

// ---------------------------------------------------------------------------
// Counters of prefixes
// ---------------------------------------------------------------------------

proof fn lemma_m6_stmts_prefix(s: Seq<StmtM>, i: int, lc: LoopM, cx: M6Ctx, n: nat)
    requires
        0 <= i <= s.len(),
    ensures
        m6_stmts(s.take(i), lc, cx, n).1 <= m6_stmts(s, lc, cx, n).1,
    decreases s.len() - i,
{
    if i < s.len() {
        lemma_m6_stmts_prefix(s, i + 1, lc, cx, n);
        assert(s.take(i + 1).drop_last() =~= s.take(i));
        lemma_m6_stmt_mono(s[i], lc, cx, m6_stmts(s.take(i), lc, cx, n).1);
    } else {
        assert(s.take(i) =~= s);
    }
}

proof fn lemma_m6_elifs_prefix(
    arms: Seq<(ExprM, Seq<StmtM>)>,
    i: int,
    total: nat,
    has_else: bool,
    end: Seq<char>,
    next0: Seq<char>,
    lc: LoopM,
    cx: M6Ctx,
    n: nat,
)
    requires
        0 <= i <= arms.len(),
    ensures
        m6_elifs(arms.take(i), total, has_else, end, next0, lc, cx, n).2 <= m6_elifs(
            arms,
            total,
            has_else,
            end,
            next0,
            lc,
            cx,
            n,
        ).2,
    decreases arms.len() - i,
{
    if i < arms.len() {
        lemma_m6_elifs_prefix(arms, i + 1, total, has_else, end, next0, lc, cx, n);
        let t = arms.take(i + 1);
        assert(t.drop_last() =~= arms.take(i));
        lemma_m6_elifs_mono(t, total, has_else, end, next0, lc, cx, n);
        let m = m6_elifs(arms.take(i), total, has_else, end, next0, lc, cx, n).2;
        let m1 = if t.len() == total && !has_else {
            m
        } else {
            m + 1
        };
        lemma_m6_expr_mono(t.last().0, cx, m1);
        lemma_m6_stmts_mono(t.last().1, lc, cx, m6_expr(t.last().0, cx, m1).1);
    } else {
        assert(arms.take(i) =~= arms);
    }
}

proof fn lemma_m6_chain_prefix(
    cases: Seq<(ExprM, Seq<StmtM>)>,
    i: int,
    base: nat,
    end: Seq<char>,
    lc: LoopM,
    cx: M6Ctx,
    n: nat,
)
    requires
        0 <= i <= cases.len(),
    ensures
        m6_chain_bodies(cases.take(i), base, end, lc, cx, n).1 <= m6_chain_bodies(
            cases,
            base,
            end,
            lc,
            cx,
            n,
        ).1,
    decreases cases.len() - i,
{
    if i < cases.len() {
        lemma_m6_chain_prefix(cases, i + 1, base, end, lc, cx, n);
        assert(cases.take(i + 1).drop_last() =~= cases.take(i));
        lemma_m6_stmts_mono(cases[i].1, lc, cx, m6_chain_bodies(cases.take(i), base, end, lc, cx, n).1);
    } else {
        assert(cases.take(i) =~= cases);
    }
}

proof fn lemma_m6_case_tests_prefix(cases: Seq<(ExprM, Seq<StmtM>)>, i: int, base: nat, cx: M6Ctx, n: nat)
    requires
        0 <= i <= cases.len(),
    ensures
        m6_case_tests(cases.take(i), base, cx, n).1 <= m6_case_tests(cases, base, cx, n).1,
    decreases cases.len() - i,
{
    if i < cases.len() {
        lemma_m6_case_tests_prefix(cases, i + 1, base, cx, n);
        assert(cases.take(i + 1).drop_last() =~= cases.take(i));
        lemma_m6_expr_mono(cases[i].0, cx, m6_case_tests(cases.take(i), base, cx, n).1);
    } else {
        assert(cases.take(i) =~= cases);
    }
}

proof fn lemma_m6_table_bodies_prefix(
    sorted: Seq<(i32, usize)>,
    i: int,
    full: Seq<(i32, usize)>,
    cases: Seq<(ExprM, Seq<StmtM>)>,
    base: nat,
    end: Seq<char>,
    lc: LoopM,
    cx: M6Ctx,
    n: nat,
)
    requires
        0 <= i <= sorted.len(),
    ensures
        m6_table_bodies(sorted.take(i), full, cases, base, end, lc, cx, n).1 <= m6_table_bodies(
            sorted,
            full,
            cases,
            base,
            end,
            lc,
            cx,
            n,
        ).1,
    decreases sorted.len() - i,
{
    if i < sorted.len() {
        lemma_m6_table_bodies_prefix(sorted, i + 1, full, cases, base, end, lc, cx, n);
        assert(sorted.take(i + 1).drop_last() =~= sorted.take(i));
        let j = sorted[i].1 as int;
        if j < cases.len() {
            lemma_m6_stmts_mono(
                cases[j].1,
                lc,
                cx,
                m6_table_bodies(sorted.take(i), full, cases, base, end, lc, cx, n).1,
            );
        }
    } else {
        assert(sorted.take(i) =~= sorted);
    }
}


// ---------------------------------------------------------------------------
// Variables
// ---------------------------------------------------------------------------

/// Stores RESULT into a variable.
fn emit_store(out: &mut String, fctx: &FuncCtx, name: &str)
    requires
        fctx.locals.len() < 0x4000_0000,
    ensures
        final(out)@ == old(out)@ + m6_store(name@, sviews(fctx.locals@)),
{
    match local_offset(fctx, name) {
        Some(off) => {
            push_str(out, "    LDX RESULT\n    STX ");
            push_dec_i64(out, off as i64);
            push_str(out, " ,S\n");
        },
        None => {
            push_str(out, "    LDX RESULT\n    LDU #VAR_");
            let up = to_upper(name);
            push_str(out, up.as_str());
            push_str(out, "\n    STU TMPPTR\n    STX ,U\n");
        },
    }
}

/// Stores RESULT into the stack slot of a `let`.
fn emit_let_store(out: &mut String, fctx: &FuncCtx, name: &str)
    requires
        fctx.locals.len() < 0x4000_0000,
    ensures
        final(out)@ == old(out)@ + m6_let_store(name@, sviews(fctx.locals@)),
{
    match local_offset(fctx, name) {
        Some(off) => {
            push_str(out, "    LDX RESULT\n    STX ");
            push_dec_i64(out, off as i64);
            push_str(out, " ,S\n");
        },
        None => {
            assert(old(out)@ + Seq::<char>::empty() =~= old(out)@);
        },
    }
}

/// Stores D into a loop variable.
fn emit_var_store(out: &mut String, fctx: &FuncCtx, name: &str)
    requires
        fctx.locals.len() < 0x4000_0000,
    ensures
        final(out)@ == old(out)@ + m6_var_store(name@, sviews(fctx.locals@)),
{
    match local_offset(fctx, name) {
        Some(off) => {
            push_str(out, "    STD ");
            push_dec_i64(out, off as i64);
            push_str(out, " ,S\n");
        },
        None => {
            push_str(out, "    STD VAR_");
            let up = to_upper(name);
            push_str(out, up.as_str());
            push_str(out, "\n");
        },
    }
}

/// Loads a loop variable into D.
fn emit_var_load(out: &mut String, fctx: &FuncCtx, name: &str)
    requires
        fctx.locals.len() < 0x4000_0000,
    ensures
        final(out)@ == old(out)@ + m6_var_load(name@, sviews(fctx.locals@)),
{
    match local_offset(fctx, name) {
        Some(off) => {
            push_str(out, "    LDD ");
            push_dec_i64(out, off as i64);
            push_str(out, " ,S\n");
        },
        None => {
            push_str(out, "    LDD VAR_");
            let up = to_upper(name);
            push_str(out, up.as_str());
            push_str(out, "\n");
        },
    }
}

/// Adds the step X points at to a loop variable.
fn emit_var_step(out: &mut String, fctx: &FuncCtx, name: &str)
    requires
        fctx.locals.len() < 0x4000_0000,
    ensures
        final(out)@ == old(out)@ + m6_var_step(name@, sviews(fctx.locals@)),
{
    match local_offset(fctx, name) {
        Some(off) => {
            push_str(out, "    LDD ");
            push_dec_i64(out, off as i64);
            push_str(out, " ,S\n    ADDD ,X\n    STD ");
            push_dec_i64(out, off as i64);
            push_str(out, " ,S\n");
        },
        None => {
            push_str(out, "    LDD VAR_");
            let up = to_upper(name);
            push_str(out, up.as_str());
            push_str(out, "\n    ADDD ,X\n    STD VAR_");
            push_str(out, up.as_str());
            push_str(out, "\n");
        },
    }
}

/// Frees the stack frame.
fn emit_release(out: &mut String, frame: i32)
    ensures
        final(out)@ == old(out)@ + m6_release(frame),
{
    if frame > 0 {
        push_str(out, "    LEAS ");
        push_dec_i64(out, frame as i64);
        push_str(out, " ,S ; free locals\n");
    } else {
        assert(old(out)@ + Seq::<char>::empty() =~= old(out)@);
    }
}

// ---------------------------------------------------------------------------
// Jump tables
// ---------------------------------------------------------------------------

/// The 16-bit case values of a `switch` with their positions, when all
/// are numbers.
fn case_keys16_exec(cases: &Vec<(Expr, Vec<Stmt>)>) -> (r: (bool, Vec<(i32, usize)>))
    ensures
        r.0 == all_numeric(view_arms(cases@)),
        r.0 ==> r.1@ == case_keys16(view_arms(cases@)),
{
    let ghost av = view_arms(cases@);
    proof {
        lemma_view_arms(cases@);
    }
    let mut keys: Vec<(i32, usize)> = Vec::new();
    let mut i: usize = 0;
    while i < cases.len()
        invariant
            i <= cases.len(),
            av == view_arms(cases@),
            av.len() == cases.len(),
            forall|k: int| 0 <= k < cases.len() ==> #[trigger] av[k] == (cases@[k].0.view(), view_stmts(cases@[k].1@)),
            forall|k: int| 0 <= k < i ==> (#[trigger] av[k]).0 is Number,
            keys@ =~= case_keys16(av).take(i as int),
        decreases cases.len() - i,
    {
        match &cases[i].0 {
            Expr::Number(v) => {
                keys.push((crate::codegen::fold::trunc16(*v), i));
            },
            _ => {
                assert(!(av[i as int].0 is Number));
                return (false, keys);
            },
        }
        i += 1;
    }
    assert(case_keys16(av).take(i as int) =~= case_keys16(av));
    (true, keys)
}

/// Whether a `switch` gets a jump table, and if so its sorted cases, the
/// lowest value and the span.
fn plan_jump_table_m6(cases: &Vec<(Expr, Vec<Stmt>)>) -> (r: (bool, Vec<(i32, usize)>, i32, i32))
    ensures
        r.0 == m6_jump_table(view_arms(cases@)),
        r.0 ==> r.1@ == sorted_cases(view_arms(cases@)) && r.1.len() == cases.len() && r.2 == r.1@[0].0
            && r.3 == table_span(r.1@) && 1 <= r.3 <= 127,
        r.0 ==> forall|k: int| 0 <= k < r.1.len() ==> (#[trigger] r.1@[k]).1 < cases.len(),
{
    let ghost cm = view_arms(cases@);
    proof {
        lemma_view_arms(cases@);
    }
    let (all_num, keys) = case_keys16_exec(cases);
    if all_num && cases.len() >= 3 {
        proof {
            assert forall|k: int| 0 <= k < keys@.len() implies (#[trigger] keys@[k]).1 < cases.len() by {
                assert(keys@[k] == case_keys16(cm)[k]);
            }
            lemma_sort_keys_bound(keys@, cases.len() as int);
        }
        let sorted = sort_case_keys(&keys);
        let min = sorted[0].0;
        let max = sorted[sorted.len() - 1].0;
        if min <= max {
            let span: i64 = max as i64 - min as i64 + 1;
            let n = cases.len();
            if span <= 127 {
                let su = span as usize;
                let ok = su <= n || su - n <= n;
                return (ok, sorted, min, span as i32);
            }
        }
        return (false, sorted, min, 0);
    }
    (false, Vec::new(), 0, 0)
}

// ---------------------------------------------------------------------------
// Statements
// ---------------------------------------------------------------------------

/// Emits a statement: its line marker, then its code.
fn emit_stmt_m6(
    stmt: &Stmt,
    out: &mut String,
    loop_ctx: &LoopCtx,
    fctx: &FuncCtx,
    string_map: &Vec<(String, String)>,
    opts: &CodegenOptions,
    data: &AssetData,
    depth: usize,
    counter: &mut usize,
)
    requires
        m6_stmt_ok(stmt.view(), depth as int, m6_ctx(fctx, string_map, opts, data)),
        keys_unique(string_map@),
        fctx.locals.len() < 0x4000_0000,
        m6_stmt(stmt.view(), loop_view(loop_ctx), m6_ctx(fctx, string_map, opts, data), *old(counter) as nat).1 <= usize::MAX,
    ensures
        final(out)@ == old(out)@ + m6_stmt(stmt.view(), loop_view(loop_ctx), m6_ctx(fctx, string_map, opts, data), *old(counter) as nat).0,
        *final(counter) == m6_stmt(stmt.view(), loop_view(loop_ctx), m6_ctx(fctx, string_map, opts, data), *old(counter) as nat).1,
    decreases stmt, 3nat,
{
    let ghost o0 = out@;
    push_str(out, "    ; VPy_LINE:");
    push_dec(out, stmt.source_line() as u64);
    push_str(out, "\n");
    let ghost o1 = out@;
    emit_stmt_code(stmt, out, loop_ctx, fctx, string_map, opts, data, depth, counter);
    proof {
        let c = m6_ctx(fctx, string_map, opts, data);
        let t = m6_stmt_code(stmt.view(), loop_view(loop_ctx), c, *old(counter) as nat).0;
        assert(o1 == o0 + line_mark(stmt_line(stmt.view())));
        lemma_concat_associative(o0, line_mark(stmt_line(stmt.view())), t);
    }
}

/// Emits the code of a statement after its line marker.
#[verifier::spinoff_prover]
#[verifier::rlimit(100)]
fn emit_stmt_code(
    stmt: &Stmt,
    out: &mut String,
    loop_ctx: &LoopCtx,
    fctx: &FuncCtx,
    string_map: &Vec<(String, String)>,
    opts: &CodegenOptions,
    data: &AssetData,
    depth: usize,
    counter: &mut usize,
)
    requires
        m6_stmt_ok(stmt.view(), depth as int, m6_ctx(fctx, string_map, opts, data)),
        keys_unique(string_map@),
        fctx.locals.len() < 0x4000_0000,
        m6_stmt_code(stmt.view(), loop_view(loop_ctx), m6_ctx(fctx, string_map, opts, data), *old(counter) as nat).1
            <= usize::MAX,
    ensures
        final(out)@ == old(out)@ + m6_stmt_code(stmt.view(), loop_view(loop_ctx), m6_ctx(fctx, string_map, opts, data), *old(counter) as nat).0,
        *final(counter) == m6_stmt_code(stmt.view(), loop_view(loop_ctx), m6_ctx(fctx, string_map, opts, data), *old(counter) as nat).1,
    decreases stmt, 2nat,
{
    let ghost o0 = out@;
    let ghost cx = m6_ctx(fctx, string_map, opts, data);
    let ghost lc = loop_view(loop_ctx);
    let ghost n0 = *counter as nat;
    match stmt {
        Stmt::Assign { target, value, .. } => {
            emit_expr(value, out, fctx, string_map, opts, data, counter);
            emit_store(out, fctx, target.name.as_str());
            assert(out@ =~= o0 + m6_stmt_code(stmt.view(), lc, cx, n0).0);
        },
        Stmt::Let { name, value, .. } => {
            emit_expr(value, out, fctx, string_map, opts, data, counter);
            emit_let_store(out, fctx, name.as_str());
            assert(out@ =~= o0 + m6_stmt_code(stmt.view(), lc, cx, n0).0);
        },
        Stmt::Expr(e, _) => {
            emit_expr(e, out, fctx, string_map, opts, data, counter);
            assert(out@ =~= o0 + m6_stmt_code(stmt.view(), lc, cx, n0).0);
        },
        Stmt::Return(expr_opt, _) => {
            if let Some(e) = expr_opt {
                emit_expr(e, out, fctx, string_map, opts, data, counter);
            }
            emit_release(out, fctx.frame_size);
            push_str(out, "    RTS\n");
            assert(out@ =~= o0 + m6_stmt_code(stmt.view(), lc, cx, n0).0);
        },
        Stmt::Break { .. } => {
            match &loop_ctx.end {
                Some(end) => {
                    push_str(out, "    BRA ");
                    push_str(out, end.as_str());
                    push_str(out, "\n");
                },
                None => {},
            }
            assert(out@ =~= o0 + m6_stmt_code(stmt.view(), lc, cx, n0).0);
        },
        Stmt::Continue { .. } => {
            match &loop_ctx.start {
                Some(start) => {
                    push_str(out, "    BRA ");
                    push_str(out, start.as_str());
                    push_str(out, "\n");
                },
                None => {},
            }
            assert(out@ =~= o0 + m6_stmt_code(stmt.view(), lc, cx, n0).0);
        },
        Stmt::While { .. } => {
            emit_while(stmt, out, loop_ctx, fctx, string_map, opts, data, depth, counter);
            assert(out@ =~= o0 + m6_stmt_code(stmt.view(), lc, cx, n0).0);
        },
        Stmt::For { .. } => {
            emit_for(stmt, out, loop_ctx, fctx, string_map, opts, data, depth, counter);
            assert(out@ =~= o0 + m6_stmt_code(stmt.view(), lc, cx, n0).0);
        },
        Stmt::If { .. } => {
            emit_if(stmt, out, loop_ctx, fctx, string_map, opts, data, depth, counter);
            assert(out@ =~= o0 + m6_stmt_code(stmt.view(), lc, cx, n0).0);
        },
        Stmt::Switch { .. } => {
            emit_switch(stmt, out, loop_ctx, fctx, string_map, opts, data, depth, counter);
            assert(out@ =~= o0 + m6_stmt_code(stmt.view(), lc, cx, n0).0);
        },
        Stmt::CompoundAssign { .. } => {},
    }
}

/// Emits statements in order.
#[verifier::spinoff_prover]
pub fn emit_stmts(
    v: &Vec<Stmt>,
    out: &mut String,
    loop_ctx: &LoopCtx,
    fctx: &FuncCtx,
    string_map: &Vec<(String, String)>,
    opts: &CodegenOptions,
    data: &AssetData,
    depth: usize,
    counter: &mut usize,
)
    requires
        m6_stmts_ok(view_stmts(v@), depth as int, m6_ctx(fctx, string_map, opts, data)),
        keys_unique(string_map@),
        fctx.locals.len() < 0x4000_0000,
        m6_stmts(view_stmts(v@), loop_view(loop_ctx), m6_ctx(fctx, string_map, opts, data), *old(counter) as nat).1
            <= usize::MAX,
    ensures
        final(out)@ == old(out)@ + m6_stmts(view_stmts(v@), loop_view(loop_ctx), m6_ctx(fctx, string_map, opts, data), *old(counter) as nat).0,
        *final(counter) == m6_stmts(view_stmts(v@), loop_view(loop_ctx), m6_ctx(fctx, string_map, opts, data), *old(counter) as nat).1,
    decreases v, 0nat,
{
    let ghost o0 = out@;
    let ghost cx = m6_ctx(fctx, string_map, opts, data);
    let ghost lc = loop_view(loop_ctx);
    let ghost n0 = *counter as nat;
    let ghost sv = view_stmts(v@);
    proof {
        lemma_view_stmts(v@);
        assert(sv.take(0) =~= Seq::<StmtM>::empty());
    }
    let mut i: usize = 0;
    while i < v.len()
        invariant
            i <= v.len(),
            sv == view_stmts(v@),
            sv.len() == v.len(),
            forall|j: int| 0 <= j < v.len() ==> #[trigger] sv[j] == v@[j].view(),
            m6_stmts_ok(sv, depth as int, cx),
            keys_unique(string_map@),
            fctx.locals.len() < 0x4000_0000,
            cx == m6_ctx(fctx, string_map, opts, data),
            lc == loop_view(loop_ctx),
            m6_stmts(sv, lc, cx, n0).1 <= usize::MAX,
            out@ == o0 + m6_stmts(sv.take(i as int), lc, cx, n0).0,
            *counter as nat == m6_stmts(sv.take(i as int), lc, cx, n0).1,
        decreases v.len() - i,
    {
        assert(sv.take(i + 1).drop_last() =~= sv.take(i as int));
        proof {
            lemma_m6_stmts_prefix(sv, (i + 1) as int, lc, cx, n0);
            lemma_m6_stmts_ok_take(sv, i as int, depth as int, cx);
        }
        emit_stmt_m6(&v[i], out, loop_ctx, fctx, string_map, opts, data, depth, counter);
        i += 1;
        assert(out@ =~= o0 + m6_stmts(sv.take(i as int), lc, cx, n0).0);
    }
    assert(sv.take(v.len() as int) =~= sv);
}

#[verifier::spinoff_prover]
fn emit_while(
    stmt: &Stmt,
    out: &mut String,
    loop_ctx: &LoopCtx,
    fctx: &FuncCtx,
    string_map: &Vec<(String, String)>,
    opts: &CodegenOptions,
    data: &AssetData,
    depth: usize,
    counter: &mut usize,
)
    requires
        stmt is While,
        m6_stmt_ok(stmt.view(), depth as int, m6_ctx(fctx, string_map, opts, data)),
        keys_unique(string_map@),
        fctx.locals.len() < 0x4000_0000,
        m6_while(stmt.view(), loop_view(loop_ctx), m6_ctx(fctx, string_map, opts, data), *old(counter) as nat).1
            <= usize::MAX,
    ensures
        final(out)@ == old(out)@ + m6_while(stmt.view(), loop_view(loop_ctx), m6_ctx(fctx, string_map, opts, data), *old(counter) as nat).0,
        *final(counter) == m6_while(stmt.view(), loop_view(loop_ctx), m6_ctx(fctx, string_map, opts, data), *old(counter) as nat).1,
    decreases stmt, 1nat,
{
    let ghost o0 = out@;
    let ghost cx = m6_ctx(fctx, string_map, opts, data);
    let ghost lc = loop_view(loop_ctx);
    let ghost n0 = *counter as nat;
    if let Stmt::While { cond, body, .. } = stmt {
        proof {
            lemma_m6_expr_mono(cond.view(), cx, n0 + 2);
            let lp = LoopM { start: Some(label("WH"@, n0)), end: Some(label("WH_END"@, n0 + 1)) };
            lemma_m6_stmts_mono(view_stmts(body@), lp, cx, m6_expr(cond.view(), cx, n0 + 2).1);
        }
        let ls = fresh_label("WH", counter);
        let le = fresh_label("WH_END", counter);
        push_str(out, ls.as_str());
        push_str(out, ": ; while start\n");
        emit_expr(cond, out, fctx, string_map, opts, data, counter);
        push_str(out, "    LDD RESULT\n    LBEQ ");
        push_str(out, le.as_str());
        push_str(out, "\n");
        let inner = LoopCtx { start: Some(ls.clone()), end: Some(le.clone()) };
        emit_stmts(body, out, &inner, fctx, string_map, opts, data, depth + 1, counter);
        push_str(out, "    LBRA ");
        push_str(out, ls.as_str());
        push_str(out, "\n");
        push_str(out, le.as_str());
        push_str(out, ": ; while end\n");
        assert(out@ =~= o0 + m6_while(stmt.view(), lc, cx, n0).0);
    }
}

#[verifier::spinoff_prover]
fn emit_for(
    stmt: &Stmt,
    out: &mut String,
    loop_ctx: &LoopCtx,
    fctx: &FuncCtx,
    string_map: &Vec<(String, String)>,
    opts: &CodegenOptions,
    data: &AssetData,
    depth: usize,
    counter: &mut usize,
)
    requires
        stmt is For,
        m6_stmt_ok(stmt.view(), depth as int, m6_ctx(fctx, string_map, opts, data)),
        keys_unique(string_map@),
        fctx.locals.len() < 0x4000_0000,
        m6_for(stmt.view(), loop_view(loop_ctx), m6_ctx(fctx, string_map, opts, data), *old(counter) as nat).1
            <= usize::MAX,
    ensures
        final(out)@ == old(out)@ + m6_for(stmt.view(), loop_view(loop_ctx), m6_ctx(fctx, string_map, opts, data), *old(counter) as nat).0,
        *final(counter) == m6_for(stmt.view(), loop_view(loop_ctx), m6_ctx(fctx, string_map, opts, data), *old(counter) as nat).1,
    decreases stmt, 1nat,
{
    let ghost o0 = out@;
    let ghost cx = m6_ctx(fctx, string_map, opts, data);
    let ghost lc = loop_view(loop_ctx);
    let ghost n0 = *counter as nat;
    if let Stmt::For { var, start, end, step, body, .. } = stmt {
        proof {
            let lp = LoopM { start: Some(label("FOR"@, n0)), end: Some(label("FOR_END"@, n0 + 1)) };
            let m1 = m6_expr(start.view(), cx, n0 + 2).1;
            let m2 = m6_expr(end.view(), cx, m1).1;
            let m3 = m6_stmts(view_stmts(body@), lp, cx, m2).1;
            lemma_m6_expr_mono(start.view(), cx, n0 + 2);
            lemma_m6_expr_mono(end.view(), cx, m1);
            lemma_m6_stmts_mono(view_stmts(body@), lp, cx, m2);
            if let Some(se) = step {
                lemma_m6_expr_mono(se.view(), cx, m3);
            }
        }
        let loop_label = fresh_label("FOR", counter);
        let end_label = fresh_label("FOR_END", counter);
        let ghost sv = sviews(fctx.locals@);
        let ghost mut acc: Seq<char> = Seq::empty();
        assert(out@ =~= o0 + acc);
        emit_expr(start, out, fctx, string_map, opts, data, counter);
        proof {
            acc = grow(o0, acc, m6_expr(start.view(), cx, n0 + 2).0);
        }
        push_str(out, "    LDD RESULT\n");
        proof {
            acc = grow(o0, acc, "    LDD RESULT\n"@);
        }
        emit_var_store(out, fctx, var.as_str());
        proof {
            acc = grow(o0, acc, m6_var_store(var@, sv));
        }
        push_str(out, loop_label.as_str());
        proof {
            acc = grow(o0, acc, loop_label@);
        }
        push_str(out, ": ; for loop\n");
        proof {
            acc = grow(o0, acc, ": ; for loop\n"@);
        }
        emit_var_load(out, fctx, var.as_str());
        proof {
            acc = grow(o0, acc, m6_var_load(var@, sv));
        }
        let ghost c2 = *counter as nat;
        emit_expr(end, out, fctx, string_map, opts, data, counter);
        proof {
            acc = grow(o0, acc, m6_expr(end.view(), cx, c2).0);
        }
        push_str(out, "    LDX RESULT\n    CPD RESULT\n");
        proof {
            acc = grow(o0, acc, "    LDX RESULT\n    CPD RESULT\n"@);
        }
        push_str(out, "    LBCC ");
        proof {
            acc = grow(o0, acc, "    LBCC "@);
        }
        push_str(out, end_label.as_str());
        proof {
            acc = grow(o0, acc, end_label@);
        }
        push_str(out, "\n");
        proof {
            acc = grow(o0, acc, "\n"@);
        }
        let inner = LoopCtx { start: Some(loop_label.clone()), end: Some(end_label.clone()) };
        let ghost c3 = *counter as nat;
        emit_stmts(body, out, &inner, fctx, string_map, opts, data, depth + 1, counter);
        proof {
            acc = grow(o0, acc, m6_stmts(view_stmts(body@), loop_view(&inner), cx, c3).0);
        }
        let ghost c4 = *counter as nat;
        let ghost o4 = out@;
        match step {
            Some(se) => {
                emit_expr(se, out, fctx, string_map, opts, data, counter);
                push_str(out, "    LDX RESULT\n");
            },
            None => push_str(out, "    LDX #1\n"),
        }
        proof {
            let t = match step {
                Some(se) => m6_expr(se.view(), cx, c4).0 + "    LDX RESULT\n"@,
                None => "    LDX #1\n"@,
            };
            assert(out@ =~= o4 + t);
            acc = grow(o0, acc, t);
        }
        emit_var_step(out, fctx, var.as_str());
        proof {
            acc = grow(o0, acc, m6_var_step(var@, sv));
        }
        push_str(out, "    LBRA ");
        proof {
            acc = grow(o0, acc, "    LBRA "@);
        }
        push_str(out, loop_label.as_str());
        proof {
            acc = grow(o0, acc, loop_label@);
        }
        push_str(out, "\n");
        proof {
            acc = grow(o0, acc, "\n"@);
        }
        push_str(out, end_label.as_str());
        proof {
            acc = grow(o0, acc, end_label@);
        }
        push_str(out, ": ; for end\n");
        proof {
            acc = grow(o0, acc, ": ; for end\n"@);
        }
        assert(acc == m6_for(stmt.view(), lc, cx, n0).0);
    }
}

#[verifier::spinoff_prover]
fn emit_if(
    stmt: &Stmt,
    out: &mut String,
    loop_ctx: &LoopCtx,
    fctx: &FuncCtx,
    string_map: &Vec<(String, String)>,
    opts: &CodegenOptions,
    data: &AssetData,
    depth: usize,
    counter: &mut usize,
)
    requires
        stmt is If,
        m6_stmt_ok(stmt.view(), depth as int, m6_ctx(fctx, string_map, opts, data)),
        keys_unique(string_map@),
        fctx.locals.len() < 0x4000_0000,
        m6_if(stmt.view(), loop_view(loop_ctx), m6_ctx(fctx, string_map, opts, data), *old(counter) as nat).1
            <= usize::MAX,
    ensures
        final(out)@ == old(out)@ + m6_if(stmt.view(), loop_view(loop_ctx), m6_ctx(fctx, string_map, opts, data), *old(counter) as nat).0,
        *final(counter) == m6_if(stmt.view(), loop_view(loop_ctx), m6_ctx(fctx, string_map, opts, data), *old(counter) as nat).1,
    decreases stmt, 1nat,
{
    let ghost o0 = out@;
    let ghost cx = m6_ctx(fctx, string_map, opts, data);
    let ghost lc = loop_view(loop_ctx);
    let ghost n0 = *counter as nat;
    if let Stmt::If { cond, body, elifs, else_body, .. } = stmt {
        let ghost av = view_arms(elifs@);
        let ghost le = label("IF_END"@, n0);
        let ghost ln = label("IF_NEXT"@, n0 + 1);
        proof {
            lemma_m6_stmt_mono(stmt.view(), lc, cx, n0);
            let m1 = m6_expr(cond.view(), cx, n0 + 2).1;
            let m2 = m6_stmts(view_stmts(body@), lc, cx, m1).1;
            let m3 = m6_elifs(av, av.len(), else_body is Some, le, ln, lc, cx, m2).2;
            lemma_m6_expr_mono(cond.view(), cx, n0 + 2);
            lemma_m6_stmts_mono(view_stmts(body@), lc, cx, m1);
            lemma_m6_elifs_mono(av, av.len(), else_body is Some, le, ln, lc, cx, m2);
            if let Some(eb) = else_body {
                lemma_m6_stmts_mono(view_stmts(eb@), lc, cx, m3);
            }
            lemma_view_arms(elifs@);
        }
        let end_label = fresh_label("IF_END", counter);
        let mut next_label = fresh_label("IF_NEXT", counter);
        emit_expr(cond, out, fctx, string_map, opts, data, counter);
        let mut acc: Ghost<Seq<char>> = Ghost(m6_expr(cond.view(), cx, n0 + 2).0);
        acc = push_more(out, "    LDD RESULT\n    LBEQ ", Ghost(o0), acc);
        acc = push_more(out, next_label.as_str(), Ghost(o0), acc);
        acc = push_more(out, "\n", Ghost(o0), acc);
        let ghost c1 = *counter as nat;
        emit_stmts(body, out, loop_ctx, fctx, string_map, opts, data, depth + 1, counter);
        proof {
            acc@ = grow(o0, acc@, m6_stmts(view_stmts(body@), lc, cx, c1).0);
        }
        acc = push_more(out, "    LBRA ", Ghost(o0), acc);
        acc = push_more(out, end_label.as_str(), Ghost(o0), acc);
        acc = push_more(out, "\n", Ghost(o0), acc);
        let ghost c2 = *counter as nat;
        let ghost nx0 = next_label@;
        emit_elifs(elifs, else_body.is_some(), &end_label, &mut next_label, out, loop_ctx, fctx, string_map, opts, data, depth + 1, counter);
        proof {
            acc@ = grow(o0, acc@, m6_elifs(av, av.len(), else_body is Some, le, nx0, lc, cx, c2).0);
        }
        let ghost c3 = *counter as nat;
        let ghost nx = next_label@;
        let ghost tl: Seq<char> = match else_body {
            Some(eb) => nx + ":\n"@ + m6_stmts(view_stmts(eb@), lc, cx, c3).0,
            None => if elifs.len() == 0 {
                nx + ":\n"@
            } else {
                Seq::empty()
            },
        };
        let ghost o1 = out@;
        match else_body {
            Some(eb) => {
                push_label_line(out, &next_label);
                emit_stmts(eb, out, loop_ctx, fctx, string_map, opts, data, depth + 1, counter);
            },
            None => {
                if elifs.len() == 0 {
                    push_label_line(out, &next_label);
                }
            },
        }
        assert(out@ =~= o1 + tl);
        proof {
            acc@ = grow(o0, acc@, tl);
        }
        push_label_line(out, &end_label);
        proof {
            acc@ = grow(o0, acc@, end_label@);
            acc@ = grow(o0, acc@, ":\n"@);
        }
        assert(acc@ == m6_if(stmt.view(), lc, cx, n0).0);
    }
}

/// The `elif` branches of an `if`.
#[verifier::spinoff_prover]
fn emit_elifs(
    arms: &Vec<(Expr, Vec<Stmt>)>,
    has_else: bool,
    end: &String,
    next: &mut String,
    out: &mut String,
    loop_ctx: &LoopCtx,
    fctx: &FuncCtx,
    string_map: &Vec<(String, String)>,
    opts: &CodegenOptions,
    data: &AssetData,
    depth: usize,
    counter: &mut usize,
)
    requires
        m6_arms_ok(view_arms(arms@), depth as int, m6_ctx(fctx, string_map, opts, data)),
        keys_unique(string_map@),
        fctx.locals.len() < 0x4000_0000,
        m6_elifs(view_arms(arms@), arms.len() as nat, has_else, end@, old(next)@, loop_view(loop_ctx), m6_ctx(fctx, string_map, opts, data), *old(counter) as nat).2
            <= usize::MAX,
    ensures
        final(out)@ == old(out)@ + m6_elifs(view_arms(arms@), arms.len() as nat, has_else, end@, old(next)@, loop_view(loop_ctx), m6_ctx(fctx, string_map, opts, data), *old(counter) as nat).0,
        final(next)@ == m6_elifs(view_arms(arms@), arms.len() as nat, has_else, end@, old(next)@, loop_view(loop_ctx), m6_ctx(fctx, string_map, opts, data), *old(counter) as nat).1,
        *final(counter) == m6_elifs(view_arms(arms@), arms.len() as nat, has_else, end@, old(next)@, loop_view(loop_ctx), m6_ctx(fctx, string_map, opts, data), *old(counter) as nat).2,
    decreases arms, 0nat,
{
    let ghost o0 = out@;
    let ghost cx = m6_ctx(fctx, string_map, opts, data);
    let ghost lc = loop_view(loop_ctx);
    let ghost n0 = *counter as nat;
    let ghost nx0 = next@;
    let ghost av = view_arms(arms@);
    let ghost total = arms.len() as nat;
    proof {
        lemma_view_arms(arms@);
        assert(av.take(0) =~= Seq::<(ExprM, Seq<StmtM>)>::empty());
    }
    let mut i: usize = 0;
    while i < arms.len()
        invariant
            i <= arms.len(),
            total == arms.len(),
            av == view_arms(arms@),
            av.len() == arms.len(),
            forall|j: int| 0 <= j < arms.len() ==> #[trigger] av[j] == (arms@[j].0.view(), view_stmts(arms@[j].1@)),
            m6_arms_ok(av, depth as int, cx),
            keys_unique(string_map@),
            fctx.locals.len() < 0x4000_0000,
            cx == m6_ctx(fctx, string_map, opts, data),
            lc == loop_view(loop_ctx),
            m6_elifs(av, total, has_else, end@, nx0, lc, cx, n0).2 <= usize::MAX,
            out@ == o0 + m6_elifs(av.take(i as int), total, has_else, end@, nx0, lc, cx, n0).0,
            next@ == m6_elifs(av.take(i as int), total, has_else, end@, nx0, lc, cx, n0).1,
            *counter as nat == m6_elifs(av.take(i as int), total, has_else, end@, nx0, lc, cx, n0).2,
        decreases arms.len() - i,
    {
        let ghost t = av.take(i + 1);
        proof {
            assert(t.drop_last() =~= av.take(i as int));
            lemma_m6_elifs_prefix(av, (i + 1) as int, total, has_else, end@, nx0, lc, cx, n0);
            lemma_m6_elifs_mono(t, total, has_else, end@, nx0, lc, cx, n0);
            lemma_m6_arms_ok_take(av, i as int, depth as int, cx);
            let m = *counter as nat;
            let m1 = if t.len() == total && !has_else {
                m
            } else {
                m + 1
            };
            lemma_m6_expr_mono(av[i as int].0, cx, m1);
            lemma_m6_stmts_mono(av[i as int].1, lc, cx, m6_expr(av[i as int].0, cx, m1).1);
        }
        let ghost acc0 = m6_elifs(av.take(i as int), total, has_else, end@, nx0, lc, cx, n0).0;
        let ghost cur = next@;
        push_label_line(out, next);
        let mut acc: Ghost<Seq<char>> = Ghost(acc0);
        proof {
            acc@ = grow(o0, acc@, cur);
            acc@ = grow(o0, acc@, ":\n"@);
        }
        let new_next = if i == arms.len() - 1 && !has_else {
            end.clone()
        } else {
            fresh_label("IF_NEXT", counter)
        };
        let ghost c1 = *counter as nat;
        emit_expr(&arms[i].0, out, fctx, string_map, opts, data, counter);
        proof {
            acc@ = grow(o0, acc@, m6_expr(av[i as int].0, cx, c1).0);
        }
        acc = push_more(out, "    LDD RESULT\n    LBEQ ", Ghost(o0), acc);
        acc = push_more(out, new_next.as_str(), Ghost(o0), acc);
        acc = push_more(out, "\n", Ghost(o0), acc);
        let ghost c2 = *counter as nat;
        emit_stmts(&arms[i].1, out, loop_ctx, fctx, string_map, opts, data, depth, counter);
        proof {
            acc@ = grow(o0, acc@, m6_stmts(av[i as int].1, lc, cx, c2).0);
        }
        acc = push_more(out, "    LBRA ", Ghost(o0), acc);
        acc = push_more(out, end.as_str(), Ghost(o0), acc);
        acc = push_more(out, "\n", Ghost(o0), acc);
        *next = new_next;
        i += 1;
        assert(acc@ == m6_elifs(av.take(i as int), total, has_else, end@, nx0, lc, cx, n0).0);
    }
    assert(av.take(arms.len() as int) =~= av);
}


#[verifier::spinoff_prover]
/// Whether a `switch` gets a jump table, and if so its sorted case values
/// and their range on 16 bits.
fn emit_switch(
    stmt: &Stmt,
    out: &mut String,
    loop_ctx: &LoopCtx,
    fctx: &FuncCtx,
    string_map: &Vec<(String, String)>,
    opts: &CodegenOptions,
    data: &AssetData,
    depth: usize,
    counter: &mut usize,
)
    requires
        stmt is Switch,
        m6_stmt_ok(stmt.view(), depth as int, m6_ctx(fctx, string_map, opts, data)),
        keys_unique(string_map@),
        fctx.locals.len() < 0x4000_0000,
        m6_switch(stmt.view(), loop_view(loop_ctx), m6_ctx(fctx, string_map, opts, data), *old(counter) as nat).1
            <= usize::MAX,
    ensures
        final(out)@ == old(out)@ + m6_switch(stmt.view(), loop_view(loop_ctx), m6_ctx(fctx, string_map, opts, data), *old(counter) as nat).0,
        *final(counter) == m6_switch(stmt.view(), loop_view(loop_ctx), m6_ctx(fctx, string_map, opts, data), *old(counter) as nat).1,
    decreases stmt, 1nat,
{
    let ghost o0 = out@;
    let ghost cx = m6_ctx(fctx, string_map, opts, data);
    let ghost lc = loop_view(loop_ctx);
    let ghost n0 = *counter as nat;
    if let Stmt::Switch { expr, cases, default, .. } = stmt {
        let ghost cm = view_arms(cases@);
        let ghost m1 = m6_expr(expr.view(), cx, n0).1;
        let ghost le_s = label("SW_END"@, m1);
        let ghost m2: nat = if default is Some {
            m1 + 2
        } else {
            m1 + 1
        };
        let ghost target_s = if default is Some {
            label("SW_DEF"@, m1 + 1)
        } else {
            le_s
        };
        proof {
            lemma_m6_expr_mono(expr.view(), cx, n0);
            lemma_m6_switch_table_mono(stmt.view(), le_s, target_s, lc, cx, m2);
            lemma_m6_switch_chain_mono(stmt.view(), le_s, target_s, lc, cx, m2);
            lemma_view_arms(cases@);
        }
        emit_expr(expr, out, fctx, string_map, opts, data, counter);
        push_str(out, "    LDD RESULT\n    STD TMPLEFT ; switch value\n");
        proof {
            lemma_concat_associative(o0, m6_expr(expr.view(), cx, n0).0, "    LDD RESULT\n    STD TMPLEFT ; switch value\n"@);
        }
        let end_label = fresh_label("SW_END", counter);
        let target = if default.is_some() {
            fresh_label("SW_DEF", counter)
        } else {
            end_label.clone()
        };
        let ghost acc = m6_expr(expr.view(), cx, n0).0 + "    LDD RESULT\n    STD TMPLEFT ; switch value\n"@;
        assert(out@ == o0 + acc);
        let (use_table, sorted, min, span) = plan_jump_table_m6(cases);
        let ghost c2 = *counter as nat;
        let ghost o1 = out@;
        if use_table {
            emit_switch_table(stmt, &sorted, min, span, &end_label, &target, out, loop_ctx, fctx, string_map, opts, data, depth, counter);
            proof {
                grow(o0, acc, m6_switch_table(stmt.view(), end_label@, target@, lc, cx, c2).0);
            }
        } else {
            emit_switch_chain(stmt, &end_label, &target, out, loop_ctx, fctx, string_map, opts, data, depth, counter);
            proof {
                grow(o0, acc, m6_switch_chain(stmt.view(), end_label@, target@, lc, cx, c2).0);
            }
        }
    }
}

#[verifier::spinoff_prover]
fn emit_switch_table(
    stmt: &Stmt,
    sorted: &Vec<(i32, usize)>,
    min: i32,
    span: i32,
    le: &String,
    target: &String,
    out: &mut String,
    loop_ctx: &LoopCtx,
    fctx: &FuncCtx,
    string_map: &Vec<(String, String)>,
    opts: &CodegenOptions,
    data: &AssetData,
    depth: usize,
    counter: &mut usize,
)
    requires
        stmt is Switch,
        m6_stmt_ok(stmt.view(), depth as int, m6_ctx(fctx, string_map, opts, data)),
        keys_unique(string_map@),
        fctx.locals.len() < 0x4000_0000,
        stmt.view() matches StmtM::Switch(_, cases, _, _) && m6_jump_table(cases)
            && sorted@ == sorted_cases(cases) && min == sorted@[0].0 && span == table_span(sorted@)
            && sorted.len() == cases.len() && 1 <= span <= 127
            && forall|k: int| 0 <= k < sorted.len() ==> (#[trigger] sorted@[k]).1 < cases.len(),
        m6_switch_table(stmt.view(), le@, target@, loop_view(loop_ctx), m6_ctx(fctx, string_map, opts, data), *old(counter) as nat).1
            <= usize::MAX,
    ensures
        final(out)@ == old(out)@ + m6_switch_table(stmt.view(), le@, target@, loop_view(loop_ctx), m6_ctx(fctx, string_map, opts, data), *old(counter) as nat).0,
        *final(counter) == m6_switch_table(stmt.view(), le@, target@, loop_view(loop_ctx), m6_ctx(fctx, string_map, opts, data), *old(counter) as nat).1,
    decreases stmt, 0nat,
{
    let ghost o0 = out@;
    let ghost cx = m6_ctx(fctx, string_map, opts, data);
    let ghost lc = loop_view(loop_ctx);
    let ghost n0 = *counter as nat;
    if let Stmt::Switch { cases, default, .. } = stmt {
        let ghost cm = view_arms(cases@);
        let ghost base: nat = n0 + 1;
        proof {
            lemma_m6_table_bodies_mono(sorted@, sorted@, cm, base, le@, lc, cx, base + cm.len());
            let m3 = m6_table_bodies(sorted@, sorted@, cm, base, le@, lc, cx, base + cm.len()).1;
            if let Some(db) = default {
                lemma_m6_stmts_mono(view_stmts(db@), lc, cx, m3);
            }
            assert(m6_switch_table(stmt.view(), le@, target@, lc, cx, n0).1 >= m3);
            lemma_view_arms(cases@);
        }
        let table_label = fresh_label("SW_JT", counter);
        emit_table_head(min, span, target, &table_label, out);
        let mut acc: Ghost<Seq<char>> = Ghost(m6_table_head(min as int, span as int, target@, table_label@));
        let labels = fresh_labels("SW_CASE", sorted.len(), counter);
        let ghost c1 = *counter as nat;
        emit_table_bodies(sorted, &labels, Ghost(base), cases, le, out, loop_ctx, fctx, string_map, opts, data, depth + 1, counter);
        proof {
            acc@ = grow(o0, acc@, m6_table_bodies(sorted@, sorted@, cm, base, le@, lc, cx, c1).0);
        }
        let ghost c3 = *counter as nat;
        let ghost td: Seq<char> = match default {
            Some(db) => target@ + ":\n"@ + m6_stmts(view_stmts(db@), lc, cx, c3).0,
            None => Seq::empty(),
        };
        let ghost o1 = out@;
        if let Some(db) = default {
            push_label_line(out, target);
            emit_stmts(db, out, loop_ctx, fctx, string_map, opts, data, depth + 1, counter);
        }
        assert(out@ =~= o1 + td);
        proof {
            acc@ = grow(o0, acc@, td);
        }
        push_label_line(out, le);
        proof {
            acc@ = grow(o0, acc@, le@);
            acc@ = grow(o0, acc@, ":\n"@);
        }
        push_label_line(out, &table_label);
        proof {
            acc@ = grow(o0, acc@, table_label@);
            acc@ = grow(o0, acc@, ":\n"@);
        }
        emit_table_entries(sorted, &labels, Ghost(base), min, span, target, out);
        proof {
            acc@ = grow(o0, acc@, m6_table_entries(sorted@, base, min as int, span as nat, target@));
        }
        assert(acc@ == m6_switch_table(stmt.view(), le@, target@, lc, cx, n0).0);
    }
}

/// The range checks and indirect jump of a jump table.
fn emit_table_head(min: i32, span: i32, target: &String, table_label: &String, out: &mut String)
    requires
        1 <= span <= 127,
    ensures
        final(out)@ == old(out)@ + m6_table_head(min as int, span as int, target@, table_label@),
{
    let ghost o0 = out@;
    push_str(out, "    LDD TMPLEFT\n    SUBD #");
    push_dec_i64(out, min as i64);
    push_str(out, "\n    LBLT ");
    push_str(out, target.as_str());
    push_str(out, "\n");
    push_str(out, "    CPD #");
    push_dec_i64(out, (span - 1) as i64);
    push_str(out, "\n    LBHI ");
    push_str(out, target.as_str());
    push_str(out, "\n");
    push_str(out, "    ASLB\n    ROLA\n");
    push_str(out, "    LDX #");
    push_str(out, table_label.as_str());
    push_str(out, "\n    ABX\n");
    push_str(out, "    LDD ,X\n    TFR D,X\n    JMP ,X\n");
    assert(out@ =~= o0 + m6_table_head(min as int, span as int, target@, table_label@));
}

/// The case bodies of a jump table in value order.
#[verifier::spinoff_prover]
fn emit_table_bodies(
    sorted: &Vec<(i32, usize)>,
    labels: &Vec<String>,
    base: Ghost<nat>,
    cases: &Vec<(Expr, Vec<Stmt>)>,
    le: &String,
    out: &mut String,
    loop_ctx: &LoopCtx,
    fctx: &FuncCtx,
    string_map: &Vec<(String, String)>,
    opts: &CodegenOptions,
    data: &AssetData,
    depth: usize,
    counter: &mut usize,
)
    requires
        labels.len() == sorted.len(),
        forall|k: int| 0 <= k < labels.len() ==> (#[trigger] labels@[k])@ == label("SW_CASE"@, (base@ + k) as nat),
        forall|k: int| 0 <= k < sorted.len() ==> (#[trigger] sorted@[k]).1 < cases.len(),
        m6_arms_ok(view_arms(cases@), depth as int, m6_ctx(fctx, string_map, opts, data)),
        keys_unique(string_map@),
        fctx.locals.len() < 0x4000_0000,
        m6_table_bodies(sorted@, sorted@, view_arms(cases@), base@, le@, loop_view(loop_ctx), m6_ctx(fctx, string_map, opts, data), *old(counter) as nat).1
            <= usize::MAX,
    ensures
        final(out)@ == old(out)@ + m6_table_bodies(sorted@, sorted@, view_arms(cases@), base@, le@, loop_view(loop_ctx), m6_ctx(fctx, string_map, opts, data), *old(counter) as nat).0,
        *final(counter) == m6_table_bodies(sorted@, sorted@, view_arms(cases@), base@, le@, loop_view(loop_ctx), m6_ctx(fctx, string_map, opts, data), *old(counter) as nat).1,
    decreases cases, 0nat,
{
    let ghost o0 = out@;
    let ghost cx = m6_ctx(fctx, string_map, opts, data);
    let ghost lc = loop_view(loop_ctx);
    let ghost n0 = *counter as nat;
    let ghost cm = view_arms(cases@);
    let ghost ss = sorted@;
    proof {
        lemma_view_arms(cases@);
        assert(ss.take(0) =~= Seq::<(i32, usize)>::empty());
    }
    let mut k: usize = 0;
    while k < sorted.len()
        invariant
            k <= sorted.len(),
            ss == sorted@,
            cm == view_arms(cases@),
            cm.len() == cases.len(),
            forall|j: int| 0 <= j < cases.len() ==> #[trigger] cm[j] == (cases@[j].0.view(), view_stmts(cases@[j].1@)),
            labels.len() == sorted.len(),
            forall|q: int| 0 <= q < labels.len() ==> (#[trigger] labels@[q])@ == label("SW_CASE"@, (base@ + q) as nat),
            forall|q: int| 0 <= q < sorted.len() ==> (#[trigger] sorted@[q]).1 < cases.len(),
            m6_arms_ok(cm, depth as int, cx),
            keys_unique(string_map@),
            fctx.locals.len() < 0x4000_0000,
            cx == m6_ctx(fctx, string_map, opts, data),
            lc == loop_view(loop_ctx),
            m6_table_bodies(ss, ss, cm, base@, le@, lc, cx, n0).1 <= usize::MAX,
            out@ == o0 + m6_table_bodies(ss.take(k as int), ss, cm, base@, le@, lc, cx, n0).0,
            *counter as nat == m6_table_bodies(ss.take(k as int), ss, cm, base@, le@, lc, cx, n0).1,
        decreases sorted.len() - k,
    {
        let j = sorted[k].1;
        proof {
            assert(ss.take(k + 1).drop_last() =~= ss.take(k as int));
            lemma_m6_table_bodies_prefix(ss, (k + 1) as int, ss, cm, base@, le@, lc, cx, n0);
            lemma_last_key_range(ss, ss[k as int].0 as int);
            lemma_m6_arms_ok_take(cm, j as int, depth as int, cx);
        }
        let lk = last_key_exec(sorted, sorted[k].0 as i64);
        if let Some(q) = lk {
            push_label_line(out, &labels[q]);
        }
        emit_stmts(&cases[j].1, out, loop_ctx, fctx, string_map, opts, data, depth, counter);
        push_str(out, "    LBRA ");
        push_str(out, le.as_str());
        push_str(out, "\n");
        k += 1;
        assert(out@ =~= o0 + m6_table_bodies(ss.take(k as int), ss, cm, base@, le@, lc, cx, n0).0);
    }
    assert(ss.take(sorted.len() as int) =~= ss);
}

/// The entries of a jump table, one per value of its span.
fn emit_table_entries(
    sorted: &Vec<(i32, usize)>,
    labels: &Vec<String>,
    base: Ghost<nat>,
    min: i32,
    span: i32,
    target: &String,
    out: &mut String,
)
    requires
        labels.len() == sorted.len(),
        forall|k: int| 0 <= k < labels.len() ==> (#[trigger] labels@[k])@ == label("SW_CASE"@, (base@ + k) as nat),
        1 <= span <= 127,
    ensures
        final(out)@ == old(out)@ + m6_table_entries(sorted@, base@, min as int, span as nat, target@),
{
    let ghost o0 = out@;
    let mut k: i32 = 0;
    while k < span
        invariant
            0 <= k <= span,
            1 <= span <= 127,
            labels.len() == sorted.len(),
            forall|q: int| 0 <= q < labels.len() ==> (#[trigger] labels@[q])@ == label("SW_CASE"@, (base@ + q) as nat),
            out@ == o0 + m6_table_entries(sorted@, base@, min as int, k as nat, target@),
        decreases span - k,
    {
        let actual: i64 = min as i64 + k as i64;
        proof {
            lemma_last_key_range(sorted@, actual as int);
        }
        push_str(out, "    FDB ");
        match last_key_exec(sorted, actual) {
            Some(q) => push_str(out, labels[q].as_str()),
            None => push_str(out, target.as_str()),
        }
        push_str(out, "\n");
        k += 1;
        assert(out@ =~= o0 + m6_table_entries(sorted@, base@, min as int, k as nat, target@));
    }
}

#[verifier::spinoff_prover]
fn emit_switch_chain(
    stmt: &Stmt,
    le: &String,
    target: &String,
    out: &mut String,
    loop_ctx: &LoopCtx,
    fctx: &FuncCtx,
    string_map: &Vec<(String, String)>,
    opts: &CodegenOptions,
    data: &AssetData,
    depth: usize,
    counter: &mut usize,
)
    requires
        stmt is Switch,
        m6_stmt_ok(stmt.view(), depth as int, m6_ctx(fctx, string_map, opts, data)),
        keys_unique(string_map@),
        fctx.locals.len() < 0x4000_0000,
        m6_switch_chain(stmt.view(), le@, target@, loop_view(loop_ctx), m6_ctx(fctx, string_map, opts, data), *old(counter) as nat).1
            <= usize::MAX,
    ensures
        final(out)@ == old(out)@ + m6_switch_chain(stmt.view(), le@, target@, loop_view(loop_ctx), m6_ctx(fctx, string_map, opts, data), *old(counter) as nat).0,
        *final(counter) == m6_switch_chain(stmt.view(), le@, target@, loop_view(loop_ctx), m6_ctx(fctx, string_map, opts, data), *old(counter) as nat).1,
    decreases stmt, 0nat,
{
    let ghost o0 = out@;
    let ghost cx = m6_ctx(fctx, string_map, opts, data);
    let ghost lc = loop_view(loop_ctx);
    let ghost n0 = *counter as nat;
    if let Stmt::Switch { cases, default, .. } = stmt {
        let ghost cm = view_arms(cases@);
        proof {
            lemma_view_arms(cases@);
            lemma_m6_case_tests_mono(cm, n0, cx, n0 + cm.len());
            let m3 = m6_case_tests(cm, n0, cx, n0 + cm.len()).1;
            lemma_m6_chain_mono(cm, n0, le@, lc, cx, m3);
            let m4 = m6_chain_bodies(cm, n0, le@, lc, cx, m3).1;
            if let Some(db) = default {
                lemma_m6_stmts_mono(view_stmts(db@), lc, cx, m4);
            }
            assert(m6_switch_chain(stmt.view(), le@, target@, lc, cx, n0).1 >= m4);
        }
        let labels = fresh_labels("SW_CASE", cases.len(), counter);
        let ghost c1 = *counter as nat;
        emit_case_tests(cases, &labels, Ghost(n0), out, fctx, string_map, opts, data, depth + 1, counter);
        let mut acc: Ghost<Seq<char>> = Ghost(m6_case_tests(cm, n0, cx, c1).0);
        acc = push_more(out, "    LBRA ", Ghost(o0), acc);
        acc = push_more(out, target.as_str(), Ghost(o0), acc);
        acc = push_more(out, "\n", Ghost(o0), acc);
        let ghost c2 = *counter as nat;
        emit_chain_bodies(cases, &labels, Ghost(n0), le, out, loop_ctx, fctx, string_map, opts, data, depth + 1, counter);
        proof {
            acc@ = grow(o0, acc@, m6_chain_bodies(cm, n0, le@, lc, cx, c2).0);
        }
        let ghost c3 = *counter as nat;
        let ghost td: Seq<char> = match default {
            Some(db) => target@ + ":\n"@ + m6_stmts(view_stmts(db@), lc, cx, c3).0,
            None => Seq::empty(),
        };
        let ghost o1 = out@;
        if let Some(db) = default {
            push_label_line(out, target);
            emit_stmts(db, out, loop_ctx, fctx, string_map, opts, data, depth + 1, counter);
        }
        assert(out@ =~= o1 + td);
        proof {
            acc@ = grow(o0, acc@, td);
        }
        push_label_line(out, le);
        proof {
            acc@ = grow(o0, acc@, le@);
            acc@ = grow(o0, acc@, ":\n"@);
        }
        assert(acc@ == m6_switch_chain(stmt.view(), le@, target@, lc, cx, n0).0);
    }
}

/// Compares r4 with each case value in turn, jumping to the case's label.
#[verifier::spinoff_prover]
fn emit_case_tests(
    cases: &Vec<(Expr, Vec<Stmt>)>,
    labels: &Vec<String>,
    base: Ghost<nat>,
    out: &mut String,
    fctx: &FuncCtx,
    string_map: &Vec<(String, String)>,
    opts: &CodegenOptions,
    data: &AssetData,
    depth: usize,
    counter: &mut usize,
)
    requires
        labels.len() == cases.len(),
        forall|k: int| 0 <= k < labels.len() ==> (#[trigger] labels@[k])@ == label("SW_CASE"@, (base@ + k) as nat),
        m6_arms_ok(view_arms(cases@), depth as int, m6_ctx(fctx, string_map, opts, data)),
        keys_unique(string_map@),
        fctx.locals.len() < 0x4000_0000,
        m6_case_tests(view_arms(cases@), base@, m6_ctx(fctx, string_map, opts, data), *old(counter) as nat).1 <= usize::MAX,
    ensures
        final(out)@ == old(out)@ + m6_case_tests(view_arms(cases@), base@, m6_ctx(fctx, string_map, opts, data), *old(counter) as nat).0,
        *final(counter) == m6_case_tests(view_arms(cases@), base@, m6_ctx(fctx, string_map, opts, data), *old(counter) as nat).1,
{
    let ghost o0 = out@;
    let ghost cx = m6_ctx(fctx, string_map, opts, data);
    let ghost n0 = *counter as nat;
    let ghost cm = view_arms(cases@);
    proof {
        lemma_view_arms(cases@);
        assert(cm.take(0) =~= Seq::<(ExprM, Seq<StmtM>)>::empty());
    }
    let mut k: usize = 0;
    while k < cases.len()
        invariant
            k <= cases.len(),
            cm == view_arms(cases@),
            cm.len() == cases.len(),
            forall|j: int| 0 <= j < cases.len() ==> #[trigger] cm[j] == (cases@[j].0.view(), view_stmts(cases@[j].1@)),
            labels.len() == cases.len(),
            forall|q: int| 0 <= q < labels.len() ==> (#[trigger] labels@[q])@ == label("SW_CASE"@, (base@ + q) as nat),
            m6_arms_ok(cm, depth as int, cx),
            keys_unique(string_map@),
            fctx.locals.len() < 0x4000_0000,
            cx == m6_ctx(fctx, string_map, opts, data),
            m6_case_tests(cm, base@, cx, n0).1 <= usize::MAX,
            out@ == o0 + m6_case_tests(cm.take(k as int), base@, cx, n0).0,
            *counter as nat == m6_case_tests(cm.take(k as int), base@, cx, n0).1,
        decreases cases.len() - k,
    {
        proof {
            assert(cm.take(k + 1).drop_last() =~= cm.take(k as int));
            lemma_m6_case_tests_prefix(cm, (k + 1) as int, base@, cx, n0);
            lemma_m6_arms_ok_take(cm, k as int, depth as int, cx);
        }
        emit_expr(&cases[k].0, out, fctx, string_map, opts, data, counter);
        push_str(out, "    LDD RESULT\n    SUBD TMPLEFT\n    LBEQ ");
        push_str(out, labels[k].as_str());
        push_str(out, "\n");
        k += 1;
        assert(out@ =~= o0 + m6_case_tests(cm.take(k as int), base@, cx, n0).0);
    }
    assert(cm.take(cases.len() as int) =~= cm);
}

/// The bodies of a chain of cases, each under its label.
#[verifier::spinoff_prover]
fn emit_chain_bodies(
    cases: &Vec<(Expr, Vec<Stmt>)>,
    labels: &Vec<String>,
    base: Ghost<nat>,
    le: &String,
    out: &mut String,
    loop_ctx: &LoopCtx,
    fctx: &FuncCtx,
    string_map: &Vec<(String, String)>,
    opts: &CodegenOptions,
    data: &AssetData,
    depth: usize,
    counter: &mut usize,
)
    requires
        labels.len() == cases.len(),
        forall|k: int| 0 <= k < labels.len() ==> (#[trigger] labels@[k])@ == label("SW_CASE"@, (base@ + k) as nat),
        m6_arms_ok(view_arms(cases@), depth as int, m6_ctx(fctx, string_map, opts, data)),
        keys_unique(string_map@),
        fctx.locals.len() < 0x4000_0000,
        m6_chain_bodies(view_arms(cases@), base@, le@, loop_view(loop_ctx), m6_ctx(fctx, string_map, opts, data), *old(counter) as nat).1
            <= usize::MAX,
    ensures
        final(out)@ == old(out)@ + m6_chain_bodies(view_arms(cases@), base@, le@, loop_view(loop_ctx), m6_ctx(fctx, string_map, opts, data), *old(counter) as nat).0,
        *final(counter) == m6_chain_bodies(view_arms(cases@), base@, le@, loop_view(loop_ctx), m6_ctx(fctx, string_map, opts, data), *old(counter) as nat).1,
    decreases cases, 0nat,
{
    let ghost o0 = out@;
    let ghost cx = m6_ctx(fctx, string_map, opts, data);
    let ghost lc = loop_view(loop_ctx);
    let ghost n0 = *counter as nat;
    let ghost cm = view_arms(cases@);
    proof {
        lemma_view_arms(cases@);
        assert(cm.take(0) =~= Seq::<(ExprM, Seq<StmtM>)>::empty());
    }
    let mut k: usize = 0;
    while k < cases.len()
        invariant
            k <= cases.len(),
            cm == view_arms(cases@),
            cm.len() == cases.len(),
            forall|j: int| 0 <= j < cases.len() ==> #[trigger] cm[j] == (cases@[j].0.view(), view_stmts(cases@[j].1@)),
            labels.len() == cases.len(),
            forall|q: int| 0 <= q < labels.len() ==> (#[trigger] labels@[q])@ == label("SW_CASE"@, (base@ + q) as nat),
            m6_arms_ok(cm, depth as int, cx),
            keys_unique(string_map@),
            fctx.locals.len() < 0x4000_0000,
            cx == m6_ctx(fctx, string_map, opts, data),
            lc == loop_view(loop_ctx),
            m6_chain_bodies(cm, base@, le@, lc, cx, n0).1 <= usize::MAX,
            out@ == o0 + m6_chain_bodies(cm.take(k as int), base@, le@, lc, cx, n0).0,
            *counter as nat == m6_chain_bodies(cm.take(k as int), base@, le@, lc, cx, n0).1,
        decreases cases.len() - k,
    {
        proof {
            assert(cm.take(k + 1).drop_last() =~= cm.take(k as int));
            lemma_m6_chain_prefix(cm, (k + 1) as int, base@, le@, lc, cx, n0);
            lemma_m6_arms_ok_take(cm, k as int, depth as int, cx);
        }
        push_label_line(out, &labels[k]);
        emit_stmts(&cases[k].1, out, loop_ctx, fctx, string_map, opts, data, depth, counter);
        push_str(out, "    LBRA ");
        push_str(out, le.as_str());
        push_str(out, "\n");
        k += 1;
        assert(out@ =~= o0 + m6_chain_bodies(cm.take(k as int), base@, le@, lc, cx, n0).0);
    }
    assert(cm.take(cases.len() as int) =~= cm);
}



// ---------------------------------------------------------------------------
// Source lines
// ---------------------------------------------------------------------------

/// Records the source line of a statement and of every statement in it.
fn mark_stmt_lines(s: &Stmt, tracker: &mut LineTracker)
    requires
        old(tracker).debug_info.wf(),
    ensures
        final(tracker).debug_info.wf(),
        final(tracker).current_address == old(tracker).current_address,
        smap(final(tracker).debug_info.line_map@) == mark_lines(
            smap(old(tracker).debug_info.line_map@),
            stmt_keys(s.view()),
            hex_addr(old(tracker).current_address),
        ),
        final(tracker).debug_info == (DebugInfo {
            line_map: final(tracker).debug_info.line_map,
            ..old(tracker).debug_info
        }),
    decreases s, 1nat,
{
    let ghost v = hex_addr(tracker.current_address);
    let ghost m0 = smap(tracker.debug_info.line_map@);
    let l = s.source_line();
    tracker.set_line(l);
    let ghost k = dec(l as nat);
    proof {
        lemma_mark_line_insert(m0, k, v);
    }
    let ghost m1 = smap(tracker.debug_info.line_map@);
    match s {
        Stmt::While { body, .. } => {
            mark_stmts_lines(body, tracker);
            proof {
                lemma_mark_lines_union(m0, set![k], stmts_keys(view_stmts(body@)), v);
            }
        },
        Stmt::For { body, .. } => {
            mark_stmts_lines(body, tracker);
            proof {
                lemma_mark_lines_union(m0, set![k], stmts_keys(view_stmts(body@)), v);
            }
        },
        Stmt::If { body, elifs, else_body, .. } => {
            mark_stmts_lines(body, tracker);
            mark_arms_lines(elifs, tracker);
            let ghost a = set![k] + stmts_keys(view_stmts(body@));
            proof {
                lemma_mark_lines_union(m0, set![k], stmts_keys(view_stmts(body@)), v);
                lemma_mark_lines_union(m0, a, arms_keys(view_arms(elifs@)), v);
            }
            match else_body {
                Some(eb) => {
                    mark_stmts_lines(eb, tracker);
                    proof {
                        lemma_mark_lines_union(m0, a + arms_keys(view_arms(elifs@)), stmts_keys(view_stmts(eb@)), v);
                        assert(a + arms_keys(view_arms(elifs@)) + stmts_keys(view_stmts(eb@)) =~= stmt_keys(s.view()));
                    }
                },
                None => {
                    proof {
                        assert(a + arms_keys(view_arms(elifs@)) =~= stmt_keys(s.view()));
                    }
                },
            }
        },
        Stmt::Switch { cases, default, .. } => {
            mark_arms_lines(cases, tracker);
            proof {
                lemma_mark_lines_union(m0, set![k], arms_keys(view_arms(cases@)), v);
            }
            match default {
                Some(db) => {
                    mark_stmts_lines(db, tracker);
                    proof {
                        lemma_mark_lines_union(m0, set![k] + arms_keys(view_arms(cases@)), stmts_keys(view_stmts(db@)), v);
                        assert(set![k] + arms_keys(view_arms(cases@)) + stmts_keys(view_stmts(db@)) =~= stmt_keys(s.view()));
                    }
                },
                None => {
                    proof {
                        assert(set![k] + arms_keys(view_arms(cases@)) =~= stmt_keys(s.view()));
                    }
                },
            }
        },
        _ => {
            proof {
                assert(set![k] =~= stmt_keys(s.view()));
            }
        },
    }
}

/// Records the source lines of statements.
fn mark_stmts_lines(v: &Vec<Stmt>, tracker: &mut LineTracker)
    requires
        old(tracker).debug_info.wf(),
    ensures
        final(tracker).debug_info.wf(),
        final(tracker).current_address == old(tracker).current_address,
        smap(final(tracker).debug_info.line_map@) == mark_lines(
            smap(old(tracker).debug_info.line_map@),
            stmts_keys(view_stmts(v@)),
            hex_addr(old(tracker).current_address),
        ),
        final(tracker).debug_info == (DebugInfo {
            line_map: final(tracker).debug_info.line_map,
            ..old(tracker).debug_info
        }),
    decreases v, 0nat,
{
    let ghost vv = hex_addr(tracker.current_address);
    let ghost m0 = smap(tracker.debug_info.line_map@);
    let ghost d0 = tracker.debug_info;
    let ghost sv = view_stmts(v@);
    proof {
        lemma_view_stmts(v@);
        lemma_mark_lines_union(m0, Set::empty(), Set::empty(), vv);
        assert(stmts_keys(sv.take(0)) =~= Set::<Seq<char>>::empty());
    }
    let mut i: usize = 0;
    while i < v.len()
        invariant
            i <= v.len(),
            sv == view_stmts(v@),
            sv.len() == v.len(),
            forall|j: int| 0 <= j < v.len() ==> #[trigger] sv[j] == v@[j].view(),
            tracker.debug_info.wf(),
            hex_addr(tracker.current_address) == vv,
            smap(tracker.debug_info.line_map@) == mark_lines(m0, stmts_keys(sv.take(i as int)), vv),
            tracker.debug_info == (DebugInfo { line_map: tracker.debug_info.line_map, ..d0 }),
            tracker.current_address == old(tracker).current_address,
        decreases v.len() - i,
    {
        mark_stmt_lines(&v[i], tracker);
        proof {
            assert(sv.take(i + 1).drop_last() =~= sv.take(i as int));
            lemma_mark_lines_union(m0, stmts_keys(sv.take(i as int)), stmt_keys(sv[i as int]), vv);
        }
        i += 1;
    }
    assert(sv.take(v.len() as int) =~= sv);
}

/// Records the source lines of the bodies of arms.
fn mark_arms_lines(v: &Vec<(Expr, Vec<Stmt>)>, tracker: &mut LineTracker)
    requires
        old(tracker).debug_info.wf(),
    ensures
        final(tracker).debug_info.wf(),
        final(tracker).current_address == old(tracker).current_address,
        smap(final(tracker).debug_info.line_map@) == mark_lines(
            smap(old(tracker).debug_info.line_map@),
            arms_keys(view_arms(v@)),
            hex_addr(old(tracker).current_address),
        ),
        final(tracker).debug_info == (DebugInfo {
            line_map: final(tracker).debug_info.line_map,
            ..old(tracker).debug_info
        }),
    decreases v, 0nat,
{
    let ghost vv = hex_addr(tracker.current_address);
    let ghost m0 = smap(tracker.debug_info.line_map@);
    let ghost d0 = tracker.debug_info;
    let ghost av = view_arms(v@);
    proof {
        lemma_view_arms(v@);
        lemma_mark_lines_union(m0, Set::empty(), Set::empty(), vv);
        assert(arms_keys(av.take(0)) =~= Set::<Seq<char>>::empty());
    }
    let mut i: usize = 0;
    while i < v.len()
        invariant
            i <= v.len(),
            av == view_arms(v@),
            av.len() == v.len(),
            forall|j: int| 0 <= j < v.len() ==> #[trigger] av[j] == (v@[j].0.view(), view_stmts(v@[j].1@)),
            tracker.debug_info.wf(),
            hex_addr(tracker.current_address) == vv,
            smap(tracker.debug_info.line_map@) == mark_lines(m0, arms_keys(av.take(i as int)), vv),
            tracker.debug_info == (DebugInfo { line_map: tracker.debug_info.line_map, ..d0 }),
            tracker.current_address == old(tracker).current_address,
        decreases v.len() - i,
    {
        mark_stmts_lines(&v[i].1, tracker);
        proof {
            assert(av.take(i + 1).drop_last() =~= av.take(i as int));
            lemma_mark_lines_union(m0, arms_keys(av.take(i as int)), stmts_keys(av[i as int].1), vv);
        }
        i += 1;
    }
    assert(av.take(v.len() as int) =~= av);
}

/// Emits a statement: the marker of its source line, then its code; the
/// tracker records the line of every statement in it at the current
/// address. Labels are numbered from `counter` on; `depth` is how deep the
/// statement is nested.
pub fn emit_stmt(
    stmt: &Stmt,
    out: &mut String,
    loop_ctx: &LoopCtx,
    fctx: &FuncCtx,
    string_map: &Vec<(String, String)>,
    opts: &CodegenOptions,
    data: &AssetData,
    tracker: &mut LineTracker,
    depth: usize,
    counter: &mut usize,
)
    requires
        m6_stmt_ok(stmt.view(), depth as int, m6_ctx(fctx, string_map, opts, data)),
        keys_unique(string_map@),
        fctx.locals.len() < 0x4000_0000,
        old(tracker).debug_info.wf(),
        m6_stmt(stmt.view(), loop_view(loop_ctx), m6_ctx(fctx, string_map, opts, data), *old(counter) as nat).1 <= usize::MAX,
    ensures
        final(out)@ == old(out)@ + m6_stmt(stmt.view(), loop_view(loop_ctx), m6_ctx(fctx, string_map, opts, data), *old(counter) as nat).0,
        *final(counter) == m6_stmt(stmt.view(), loop_view(loop_ctx), m6_ctx(fctx, string_map, opts, data), *old(counter) as nat).1,
        final(tracker).debug_info.wf(),
        final(tracker).current_address == old(tracker).current_address,
        smap(final(tracker).debug_info.line_map@) == mark_lines(
            smap(old(tracker).debug_info.line_map@),
            stmt_keys(stmt.view()),
            hex_addr(old(tracker).current_address),
        ),
        final(tracker).debug_info == (DebugInfo {
            line_map: final(tracker).debug_info.line_map,
            ..old(tracker).debug_info
        }),
{
    mark_stmt_lines(stmt, tracker);
    emit_stmt_m6(stmt, out, loop_ctx, fctx, string_map, opts, data, depth, counter);
}


// ---------------------------------------------------------------------------
// Functions
// ---------------------------------------------------------------------------

/// The context a function's body is lowered in: its locals in stack order
/// and their frame, with the string labels, options and asset data.
pub open spec fn m6_fn_ctx(
    f: &Function,
    strs: &Vec<(String, String)>,
    opts: &CodegenOptions,
    data: &AssetData,
) -> M6Ctx {
    M6Ctx {
        cx: ArmCtx {
            locals: arm_fn_locals(f.view()),
            strs: smap(strs@),
            frame: (2 * arm_fn_locals(f.view()).len()) as i32,
        },
        auto_loop: opts.auto_loop,
        force_ext: opts.force_extended_jsr,
        assets: opts.assets@,
        paths: data.vector_paths@,
        shapes: shapes_view(data.shapes@),
    }
}

/// Emits a function (see `m6_function`); the tracker records the source
/// line of every statement of its body at the current address.
pub fn emit_function(
    f: &Function,
    out: &mut String,
    string_map: &Vec<(String, String)>,
    opts: &CodegenOptions,
    data: &AssetData,
    tracker: &mut LineTracker,
    counter: &mut usize,
)
    requires
        m6_stmts_ok(f.view().body, 0, m6_fn_ctx(f, string_map, opts, data)),
        keys_unique(string_map@),
        arm_fn_locals(f.view()).len() < 0x4000_0000,
        old(tracker).debug_info.wf(),
        m6_function(f.view(), m6_fn_ctx(f, string_map, opts, data), *old(counter) as nat).1 <= usize::MAX,
    ensures
        final(out)@ == old(out)@ + m6_function(f.view(), m6_fn_ctx(f, string_map, opts, data), *old(counter) as nat).0,
        *final(counter) == m6_function(f.view(), m6_fn_ctx(f, string_map, opts, data), *old(counter) as nat).1,
        final(tracker).debug_info.wf(),
        final(tracker).current_address == old(tracker).current_address,
        smap(final(tracker).debug_info.line_map@) == mark_lines(
            smap(old(tracker).debug_info.line_map@),
            stmts_keys(f.view().body),
            hex_addr(old(tracker).current_address),
        ),
        final(tracker).debug_info == (DebugInfo {
            line_map: final(tracker).debug_info.line_map,
            ..old(tracker).debug_info
        }),
{
    let ghost o0 = out@;
    let ghost n0 = *counter as nat;
    let ghost fv = f.view();
    let ghost fc = m6_fn_ctx(f, string_map, opts, data);
    let is_main = str_eq(f.name.as_str(), "main");
    let lbl: String = if is_main {
        string_from("MAIN")
    } else {
        to_upper(f.name.as_str())
    };
    push_str(out, lbl.as_str());
    let mut acc: Ghost<Seq<char>> = Ghost(fn_label(fv.name));
    acc = push_more(out, ": ; function\n", Ghost(o0), acc);
    acc = push_more(out, "; --- function ", Ghost(o0), acc);
    acc = push_more(out, f.name.as_str(), Ghost(o0), acc);
    acc = push_more(out, " ---\n", Ghost(o0), acc);
    let locals = collect_locals(&f.body);
    proof {
        lemma_sorted_names(locals@);
    }
    let frame_size: i32 = (locals.len() as i32) * 2;
    let ghost o1 = out@;
    if frame_size > 0 {
        push_str(out, "    LEAS -");
        push_dec_i64(out, frame_size as i64);
        push_str(out, ",S ; allocate locals\n");
    }
    let ghost sub: Seq<char> = if frame_size > 0 {
        "    LEAS -"@ + dec_int(frame_size as int) + ",S ; allocate locals\n"@
    } else {
        Seq::empty()
    };
    assert(out@ =~= o1 + sub);
    proof {
        acc@ = grow(o0, acc@, sub);
    }
    let limit: usize = if f.params.len() < 4 {
        f.params.len()
    } else {
        4
    };
    let ghost pv = sviews(f.params@);
    let ghost o2 = out@;
    let mut i: usize = 0;
    assert(o2 =~= o2 + m6_params(pv, 0));
    while i < limit
        invariant
            i <= limit <= 4,
            limit <= f.params.len(),
            pv == sviews(f.params@),
            out@ == o2 + m6_params(pv, i as nat),
        decreases limit - i,
    {
        let ghost before = m6_params(pv, i as nat);
        push_str(out, "    LDD VAR_ARG");
        push_dec(out, i as u64);
        push_str(out, "\n    STD VAR_");
        let up = to_upper(f.params[i].as_str());
        push_str(out, up.as_str());
        push_str(out, "\n");
        i += 1;
        assert(out@ =~= o2 + m6_params(pv, i as nat));
    }
    proof {
        acc@ = grow(o0, acc@, m6_params(pv, limit as nat));
    }
    let fctx = FuncCtx { locals, frame_size };
    let top = LoopCtx { start: None, end: None };
    let ghost c1 = *counter as nat;
    proof {
        assert(loop_view(&top) == LoopM { start: None, end: None });
        assert(m6_ctx(&fctx, string_map, opts, data) == fc);
        lemma_m6_stmts_mono(fv.body, loop_view(&top), fc, c1);
    }
    mark_stmts_lines(&f.body, tracker);
    emit_stmts(&f.body, out, &top, &fctx, string_map, opts, data, 0, counter);
    proof {
        acc@ = grow(o0, acc@, m6_stmts(fv.body, loop_view(&top), fc, c1).0);
    }
    let ends = f.body.len() > 0 && matches!(f.body[f.body.len() - 1], Stmt::Return(..));
    proof {
        lemma_view_stmts(f.body@);
        assert(ends == ends_with_return(fv.body));
    }
    let ghost o3 = out@;
    if !ends {
        if frame_size > 0 {
            push_str(out, "    LEAS ");
            push_dec_i64(out, frame_size as i64);
            push_str(out, ",S ; free locals\n");
        }
        push_str(out, "    RTS\n");
    }
    let ghost tail: Seq<char> = if ends {
        Seq::empty()
    } else {
        (if frame_size > 0 {
            "    LEAS "@ + dec_int(frame_size as int) + ",S ; free locals\n"@
        } else {
            Seq::empty()
        }) + "    RTS\n"@
    };
    assert(out@ =~= o3 + tail);
    proof {
        acc@ = grow(o0, acc@, tail);
    }
    push_str(out, "\n");
    proof {
        acc@ = grow(o0, acc@, "\n"@);
    }
    assert(acc@ == m6_function(fv, fc, n0).0);
}

} // verus!
