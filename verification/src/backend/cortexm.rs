//! The Cortex-M (VecFever/Vextreme) code generator: the same lowering as
//! the ARM backend, with its own instruction spellings, a vector table in
//! place of the entry stub, and data words also for the names that
//! top-level expressions and `let` values refer to. The instruction-level
//! pieces both targets share live in the ARM backend.

use vstd::prelude::*;
use vstd::seq_lib::lemma_concat_associative;
use crate::ast::{
    compound_free, compound_free_all, compound_free_arms, lemma_compound_free_arms_take,
    lemma_compound_free_take, lemma_view_arms, lemma_view_arms_take, lemma_view_exprs,
    lemma_view_stmts, lemma_view_stmts_take, module_compound_free, sviews, view_arms, view_exprs,
    view_stmts, BinOp, Expr, ExprM, Function, FunctionM, Item, ItemM, LogicOp, Module, ModuleM,
    Stmt, StmtM,
};
use crate::backend::arm::{
    all_numeric, arm_branch, arm_builtin_canon, arm_ctx, arm_fn_locals, arm_frames_fit,
    arm_let_store, arm_lets_all, arm_literal_lines, arm_load_var, arm_params, arm_release,
    arm_step_var, arm_store, arm_table_entries, arm_var_lines, branch_exec, builtin_canon_exec,
    emit_param_store, param_store,
    case_keys, collect_locals, emit_let_store, emit_load_var, emit_release, emit_step_var,
    emit_store, emit_table_entries, ends_with_return, find_shift_exec, fresh_labels,
    first_index, is_inert_builtin, is_inert_builtin_exec, items_arm_lets, label, last_key,
    last_key_exec, lemma_last_key_range,
    lemma_literal_map, lemma_sort_keys_bound, literal_map, literal_names, local_offset, loop_view,
    plan_jump_table, pow2_shift, push_label_line, sort_keys, table_max, table_min,
    use_jump_table, ArmCtx, LoopM, arm_rrr, arm_rri, arm_mov, arm_mov_shift,
};
use crate::backend::debug_info::smap;
use crate::backend::m6809::utils::{collect_expr_syms, expr_syms, fresh_label, FuncCtx, LoopCtx};
use crate::backend::string_literals::{collect_string_literals, escape_ascii, literal_label};
use crate::codegen::fold::low16;
use crate::codegen::CodegenOptions;
use crate::keyed::{keys_unique, kv_get};
use crate::strset::{
    lemma_push_to_set, lemma_sorted_names, set_insert, set_insert_all, set_of, set_remove, sorted,
    sorted_names,
};
use crate::text::{
    grow, push_more, digit_char, ascii_upper_seq, ascii_upper_vec, chars_of, dec, dec_int, ends_with, ends_with_str, push_dec,
    push_dec_i64, push_str, to_upper, unicode_upper, vec_is,
};

verus! {

/// The instructions that combine r4 and r5 into r0.
pub open spec fn cm_binop_text(op: BinOp) -> Seq<char> {
    match op {
        BinOp::Add => "    ADD r0,r4,r5\n    AND r0,r0,#0xFFFF\n"@,
        BinOp::Sub => "    SUB r0,r4,r5\n    AND r0,r0,#0xFFFF\n"@,
        BinOp::Mul => "    MOV r0,r4\n    MOV r1,r5\n    BL __mul32\n    AND r0,r0,#0xFFFF\n"@,
        BinOp::Div => "    MOV r0,r4\n    MOV r1,r5\n    BL __div32\n    AND r0,r0,#0xFFFF\n"@,
        BinOp::FloorDiv => "    MOV r0,r4\n    MOV r1,r5\n    BL __div32\n    AND r0,r0,#0xFFFF\n"@,
        BinOp::Mod => "    MOV r0,r4\n    MOV r1,r5\n    BL __div32\n    MOV r2,r0\n    MUL r2,r2,r5\n    RSBS r0,r2,r4\n    AND r0,r0,#0xFFFF\n"@,
        BinOp::Shl => "    MOV r0,r4,LSL r5\n    AND r0,r0,#0xFFFF\n"@,
        BinOp::Shr => "    MOV r0,r4,LSR r5\n    AND r0,r0,#0xFFFF\n"@,
        BinOp::BitAnd => "    AND r0,r4,r5\n"@,
        BinOp::BitOr => "    ORR r0,r4,r5\n"@,
        BinOp::BitXor => "    EOR r0,r4,r5\n"@,
    }
}

/// The code that leaves an expression's value in r0, and the label counter
/// after it.
#[verifier::opaque]
pub open spec fn cm_expr(e: ExprM, cx: ArmCtx, n: nat) -> (Seq<char>, nat)
    decreases e, 0nat,
{
    match e {
        ExprM::Number(v) => ("    MOV r0,#"@ + dec_int(v as int) + "\n"@, n),
        ExprM::StringLit(s) => (
            if cx.strs.contains_key(s) {
                "    LDR r0, ="@ + cx.strs[s] + "\n"@
            } else {
                "    MOV r0,#0 ; missing string label\n"@
            },
            n,
        ),
        ExprM::Ident(name, _, _) => (
            match first_index(cx.locals, name) {
                Some(i) => "    LDR r0, [sp, #"@ + dec_int(2 * i) + "]\n"@,
                None => "    LDR r0, =VAR_"@ + unicode_upper(name) + "\n    LDR r0,[r0]\n"@,
            },
            n,
        ),
        ExprM::Call(name, _, _, args) => match arm_builtin_canon(ascii_upper_seq(name)) {
            Some(c) => cm_builtin(c, args, cx, n),
            None => {
                let (t, m) = cm_call_args(
                    args,
                    if args.len() < 4 {
                        args.len()
                    } else {
                        4
                    },
                    cx,
                    n,
                );
                (t + "    BL "@ + name + "\n"@, m)
            },
        },
        ExprM::Binary(op, l, r) => {
            if op == BinOp::Mul && pow2_shift(*r) is Some {
                let (t, m) = cm_expr(*l, cx, n);
                (t + "    LSL r0,r0,#"@ + dec(pow2_shift(*r)->0) + "\n    AND r0,r0,#0xFFFF\n"@, m)
            } else if op == BinOp::Mul && pow2_shift(*l) is Some {
                let (t, m) = cm_expr(*r, cx, n);
                (t + "    LSL r0,r0,#"@ + dec(pow2_shift(*l)->0) + "\n    AND r0,r0,#0xFFFF\n"@, m)
            } else if op == BinOp::Div && pow2_shift(*r) is Some {
                let (t, m) = cm_expr(*l, cx, n);
                (t + "    LSR r0,r0,#"@ + dec(pow2_shift(*r)->0) + "\n    AND r0,r0,#0xFFFF\n"@, m)
            } else {
                let (tl, m1) = cm_expr(*l, cx, n);
                let (tr, m2) = cm_expr(*r, cx, m1);
                (tl + "    MOV r4,r0\n"@ + tr + "    MOV r5,r0\n"@ + cm_binop_text(op), m2)
            }
        },
        ExprM::BitNot(x) => {
            let (t, m) = cm_expr(*x, cx, n);
            (t + "    MVN r0,r0\n    AND r0,r0,#0xFFFF\n"@, m)
        },
        ExprM::Compare(op, l, r) => {
            let (tl, m1) = cm_expr(*l, cx, n);
            let (tr, m2) = cm_expr(*r, cx, m1);
            let lt = label("CT"@, m2);
            let le = label("CE"@, m2 + 1);
            (tl + "    MOV r4,r0\n"@ + tr + "    MOV r5,r0\n    CMP r4,r5\n    MOV r0,#0\n"@ + "    "@
                + arm_branch(op) + " "@ + lt + "\n    B "@ + le + "\n"@ + lt + ":\n"@ + "    MOV r0,#1\n"@
                + le + ":\n"@, m2 + 2)
        },
        ExprM::Logic(LogicOp::And, l, r) => {
            let (tl, m1) = cm_expr(*l, cx, n);
            let f = label("AND_FALSE"@, m1);
            let en = label("AND_END"@, m1 + 1);
            let (tr, m2) = cm_expr(*r, cx, m1 + 2);
            (tl + "    CMP r0,#0\n    BEQ "@ + f + "\n"@ + tr + "    CMP r0,#0\n    BEQ "@ + f
                + "\n    MOV r0,#1\n    B "@ + en + "\n"@ + f + ":\n"@ + "    MOV r0,#0\n"@ + en + ":\n"@, m2)
        },
        ExprM::Logic(LogicOp::Or, l, r) => {
            let t = label("OR_TRUE"@, n);
            let en = label("OR_END"@, n + 1);
            let (tl, m1) = cm_expr(*l, cx, n + 2);
            let (tr, m2) = cm_expr(*r, cx, m1);
            (tl + "    CMP r0,#0\n    BNE "@ + t + "\n"@ + tr + "    CMP r0,#0\n    BNE "@ + t
                + "\n    MOV r0,#0\n    B "@ + en + "\n"@ + t + ":\n"@ + "    MOV r0,#1\n"@ + en + ":\n"@, m2)
        },
        ExprM::Not(x) => {
            let (t, m) = cm_expr(*x, cx, n);
            (t + "    CMP r0,#0\n    MOVEQ r0,#1\n    MOVNE r0,#0\n"@, m)
        },
    }
}

/// The code of the expressions in order.
pub open spec fn cm_exprs(s: Seq<ExprM>, cx: ArmCtx, n: nat) -> (Seq<char>, nat)
    decreases s, 0nat,
{
    if s.len() == 0 {
        (Seq::empty(), n)
    } else {
        let (t, m) = cm_exprs(s.drop_last(), cx, n);
        let (u, k) = cm_expr(s.last(), cx, m);
        (t + u, k)
    }
}

/// The first `k` arguments of a call into r0..r(k-1), the last first.
pub open spec fn cm_call_args(args: Seq<ExprM>, k: nat, cx: ArmCtx, n: nat) -> (Seq<char>, nat)
    decreases args, k,
{
    if k == 0 || k > args.len() {
        (Seq::empty(), n)
    } else {
        let (t, m) = cm_expr(args[k - 1], cx, n);
        let mv = if k - 1 != 0 {
            "    MOV r"@ + dec((k - 1) as nat) + " , r0\n"@
        } else {
            Seq::empty()
        };
        let (u, j) = cm_call_args(args, (k - 1) as nat, cx, m);
        (t + mv + u, j)
    }
}

/// The inline code of a builtin (by its canonical name).
pub open spec fn cm_builtin(c: Seq<char>, args: Seq<ExprM>, cx: ArmCtx, n: nat) -> (Seq<char>, nat)
    decreases args, 1nat,
{
    let zero = "    MOV r0,#0\n"@;
    if is_inert_builtin(c) {
        let (t, m) = cm_exprs(args, cx, n);
        (t + zero, m)
    } else if c == "ABS"@ || c == "MATH_ABS"@ {
        if args.len() > 0 {
            let (t, m) = cm_expr(args[0], cx, n);
            let d = label("ABS_DONE"@, m);
            (t + "    CMP r0,#0\n    BGE "@ + d + "\n    RSBS r0,r0,#0\n"@ + d + ":\n"@, m + 1)
        } else {
            (zero, n)
        }
    } else if c == "MIN"@ || c == "MATH_MIN"@ || c == "MAX"@ || c == "MATH_MAX"@ {
        if args.len() < 2 {
            (zero, n)
        } else {
            let (t0, m0) = cm_expr(args[0], cx, n);
            let (t1, m1) = cm_expr(args[1], cx, m0);
            (t0 + "    MOV r4,r0\n"@ + t1 + "    MOV r5,r0\n"@ + (if c == "MIN"@ || c == "MATH_MIN"@ {
                "    CMP r4,r5\n    BLE 1f\n    MOV r0,r5\n    B 2f\n1:  MOV r0,r4\n2:\n"@
            } else {
                "    CMP r4,r5\n    BGE 1f\n    MOV r0,r5\n    B 2f\n1:  MOV r0,r4\n2:\n"@
            }), m1)
        }
    } else if c == "CLAMP"@ || c == "MATH_CLAMP"@ {
        if args.len() < 3 {
            (zero, n)
        } else {
            let (t0, m0) = cm_expr(args[0], cx, n);
            let (t1, m1) = cm_expr(args[1], cx, m0);
            let (t2, m2) = cm_expr(args[2], cx, m1);
            (t0 + "    MOV r4,r0\n"@ + t1 + "    MOV r5,r0\n"@ + t2 + "    MOV r6,r0\n"@
                + "    CMP r4,r5\n    BLT 1f\n    CMP r4,r6\n    BGT 2f\n    MOV r0,r4\n    B 3f\n1:  MOV r0,r5\n    B 3f\n2:  MOV r0,r6\n3:\n"@, m2)
        }
    } else {
        if args.len() > 0 {
            let (t, m) = cm_expr(args[0], cx, n);
            (t + "    AND r0,r0,#0x7F\n    LSL r0,r0,#1\n    LDR r1,=SIN_TABLE\n"@ + (if ends_with(
                c,
                "COS"@,
            ) {
                "    LDR r1,=COS_TABLE\n"@
            } else {
                Seq::empty()
            }) + (if ends_with(c, "TAN"@) {
                "    LDR r1,=TAN_TABLE\n"@
            } else {
                Seq::empty()
            }) + "    ADD r1,r1,r0\n    LDRH r0,[r1]\n"@, m)
        } else {
            (zero, n)
        }
    }
}

/// The range checks and the indirect jump of a jump table.
pub open spec fn cm_table_head(min: int, max: int, target: Seq<char>, table: Seq<char>) -> Seq<char> {
    "    MOV r5,#"@ + dec_int(min) + "\n    CMP r4,r5\n    BLT "@ + target + "\n"@ + "    MOV r5,#"@
        + dec_int(max) + "\n    CMP r4,r5\n    BGT "@ + target + "\n"@ + (if min != 0 {
        "    SUB r4,r4,#"@ + dec_int(min) + "\n"@
    } else {
        Seq::empty()
    }) + "    LDR r5, ="@ + table
        + "\n    LSL r4,r4,#2\n    ADD r5,r5,r4\n    LDR r5, [r5]\n    BX r5\n"@
}

/// The comparisons of a chain of cases: each value against r4.
pub open spec fn cm_case_tests(cases: Seq<(ExprM, Seq<StmtM>)>, base: nat, cx: ArmCtx, n: nat) -> (
    Seq<char>,
    nat,
)
    decreases cases.len(),
{
    if cases.len() == 0 {
        (Seq::empty(), n)
    } else {
        let (t, m) = cm_case_tests(cases.drop_last(), base, cx, n);
        let (tc, m1) = cm_expr(cases.last().0, cx, m);
        (t + tc + "    CMP r4,r0\n    BEQ "@ + label(
            "SW_CASE"@,
            (base + cases.len() - 1) as nat,
        ) + "\n"@, m1)
    }
}

/// The code of a statement, and the label counter after it.
pub open spec fn cm_stmt(s: StmtM, lc: LoopM, cx: ArmCtx, n: nat) -> (Seq<char>, nat)
    decreases s, 2nat,
{
    match s {
        StmtM::Assign(t, v, _) => {
            let (tv, m) = cm_expr(v, cx, n);
            (tv + arm_store(t.name, cx.locals), m)
        },
        StmtM::Let(name, v, _) => {
            let (tv, m) = cm_expr(v, cx, n);
            (tv + arm_let_store(name, cx.locals), m)
        },
        StmtM::Expr(e, _) => cm_expr(e, cx, n),
        StmtM::Return(o, _) => {
            let (tv, m) = match o {
                Some(e) => cm_expr(e, cx, n),
                None => (Seq::empty(), n),
            };
            (tv + arm_release(cx.frame) + "    BX LR\n"@, m)
        },
        StmtM::Break(_) => (
            match lc.end {
                Some(e) => "    B "@ + e + "\n"@,
                None => Seq::empty(),
            },
            n,
        ),
        StmtM::Continue(_) => (
            match lc.start {
                Some(st) => "    B "@ + st + "\n"@,
                None => Seq::empty(),
            },
            n,
        ),
        StmtM::While(..) => cm_while(s, lc, cx, n),
        StmtM::For(..) => cm_for(s, lc, cx, n),
        StmtM::If(..) => cm_if(s, lc, cx, n),
        StmtM::Switch(..) => cm_switch(s, lc, cx, n),
        StmtM::CompoundAssign(..) => (Seq::empty(), n),
    }
}

/// A `while` loop: the test at its start label, the body, the jump back.
pub open spec fn cm_while(s: StmtM, lc: LoopM, cx: ArmCtx, n: nat) -> (Seq<char>, nat)
    decreases s, 1nat,
{
    match s {
        StmtM::While(c, b, _) => {
            let ls = label("WH"@, n);
            let le = label("WH_END"@, n + 1);
            let (tc, m1) = cm_expr(c, cx, n + 2);
            let (tb, m2) = cm_stmts(b, LoopM { start: Some(ls), end: Some(le) }, cx, m1);
            (ls + ":\n"@ + tc + "    CMP r0, #0\n    BEQ "@ + le + "\n"@ + tb + "    B "@ + ls + "\n"@
                + le + ":\n"@, m2)
        },
        _ => (Seq::empty(), n),
    }
}

/// A `for` loop over a variable, from a start value while it is below the
/// end value, by a step (one where none is given).
pub open spec fn cm_for(s: StmtM, lc: LoopM, cx: ArmCtx, n: nat) -> (Seq<char>, nat)
    decreases s, 1nat,
{
    match s {
        StmtM::For(var, st, en, step, b, _) => {
            let lf = label("FOR"@, n);
            let le = label("FOR_END"@, n + 1);
            let (ts, m1) = cm_expr(st, cx, n + 2);
            let (te, m2) = cm_expr(en, cx, m1);
            let (tb, m3) = cm_stmts(b, LoopM { start: Some(lf), end: Some(le) }, cx, m2);
            let (tp, m4) = match step {
                Some(se) => cm_expr(se, cx, m3),
                None => ("    MOV r0, #1\n"@, m3),
            };
            (ts + arm_store(var, cx.locals) + lf + ":\n"@ + arm_load_var(var, cx.locals) + te
                + "    CMP r1, r0\n    BGE "@ + le + "\n"@ + tb + tp + arm_step_var(var, cx.locals) + "    B "@
                + lf + "\n"@ + le + ":\n"@, m4)
        },
        _ => (Seq::empty(), n),
    }
}

/// An `if` with its `elif` and `else` branches.
pub open spec fn cm_if(s: StmtM, lc: LoopM, cx: ArmCtx, n: nat) -> (Seq<char>, nat)
    decreases s, 1nat,
{
    match s {
        StmtM::If(c, b, elifs, els, _) => {
            let le = label("IF_END"@, n);
            let ln = label("IF_NEXT"@, n + 1);
            let (tc, m1) = cm_expr(c, cx, n + 2);
            let (tb, m2) = cm_stmts(b, lc, cx, m1);
            let (te, nx, m3) = cm_elifs(elifs, elifs.len(), els is Some, le, ln, lc, cx, m2);
            let (tl, m4) = match els {
                Some(eb) => {
                    let (t, m) = cm_stmts(eb, lc, cx, m3);
                    (nx + ":\n"@ + t, m)
                },
                None => (
                    if elifs.len() > 0 {
                        nx + ":\n"@
                    } else {
                        Seq::empty()
                    },
                    m3,
                ),
            };
            (tc + "    CMP r0,#0\n    BEQ "@ + ln + "\n"@ + tb + "    B "@ + le + "\n"@ + te + tl
                + le + ":\n"@, m4)
        },
        _ => (Seq::empty(), n),
    }
}

/// A `switch`: the value into r4, then a jump table or a chain of tests.
pub open spec fn cm_switch(s: StmtM, lc: LoopM, cx: ArmCtx, n: nat) -> (Seq<char>, nat)
    decreases s, 1nat,
{
    match s {
        StmtM::Switch(e, cases, def, _) => {
            let (te, m1) = cm_expr(e, cx, n);
            let le = label("SW_END"@, m1);
            let m2: nat = if def is Some {
                m1 + 2
            } else {
                m1 + 1
            };
            let target = if def is Some {
                label("SW_DEF"@, m1 + 1)
            } else {
                le
            };
            let (tr, m3) = if use_jump_table(cases) {
                cm_switch_table(s, le, target, lc, cx, m2)
            } else {
                cm_switch_chain(s, le, target, lc, cx, m2)
            };
            (te + "    MOV r4,r0\n"@ + tr, m3)
        },
        _ => (Seq::empty(), n),
    }
}

/// A `switch` lowered to a jump table, after its value is in r4: range
/// checks, the indirect jump, the case bodies in value order, the default,
/// the end label, and the table of case labels.
pub open spec fn cm_switch_table(
    s: StmtM,
    le: Seq<char>,
    target: Seq<char>,
    lc: LoopM,
    cx: ArmCtx,
    m2: nat,
) -> (Seq<char>, nat)
    decreases s, 0nat,
{
    match s {
        StmtM::Switch(_, cases, def, _) => {
            let sorted = sort_keys(case_keys(cases));
            let min = table_min(sorted);
            let max = table_max(sorted);
            let tl = label("SW_JT"@, m2);
            let base: nat = m2 + 1;
            let (tb, m3) = cm_table_bodies(sorted, sorted, cases, base, le, lc, cx, base + cases.len());
            let (td, m4) = match def {
                Some(db) => {
                    let (t, m) = cm_stmts(db, lc, cx, m3);
                    (target + ":\n"@ + t, m)
                },
                None => (Seq::empty(), m3),
            };
            (cm_table_head(min, max, target, tl) + tb + td + le + ":\n"@ + tl + ":\n"@
                + arm_table_entries(sorted, base, min, (max - min + 1) as nat, target), m4)
        },
        _ => (Seq::empty(), m2),
    }
}

/// A `switch` lowered to a chain of comparisons, after its value is in r4.
pub open spec fn cm_switch_chain(
    s: StmtM,
    le: Seq<char>,
    target: Seq<char>,
    lc: LoopM,
    cx: ArmCtx,
    m2: nat,
) -> (Seq<char>, nat)
    decreases s, 0nat,
{
    match s {
        StmtM::Switch(_, cases, def, _) => {
            let (tt, m3) = cm_case_tests(cases, m2, cx, m2 + cases.len());
            let (tb, m4) = cm_chain_bodies(cases, m2, le, lc, cx, m3);
            let (td, m5) = match def {
                Some(db) => {
                    let (t, m) = cm_stmts(db, lc, cx, m4);
                    (target + ":\n"@ + t, m)
                },
                None => (Seq::empty(), m4),
            };
            (tt + "    B "@ + target + "\n"@ + tb + td + le + ":\n"@, m5)
        },
        _ => (Seq::empty(), m2),
    }
}

/// The code of statements in order.
pub open spec fn cm_stmts(s: Seq<StmtM>, lc: LoopM, cx: ArmCtx, n: nat) -> (Seq<char>, nat)
    decreases s, 0nat,
{
    if s.len() == 0 {
        (Seq::empty(), n)
    } else {
        let (t, m) = cm_stmts(s.drop_last(), lc, cx, n);
        let (u, k) = cm_stmt(s.last(), lc, cx, m);
        (t + u, k)
    }
}

/// The `elif` branches of an `if`: each defines the label the previous
/// test jumps to when false and tests its own condition; the last one
/// jumps to the end when there is no `else`. Also the label the last test
/// jumps to.
pub open spec fn cm_elifs(
    arms: Seq<(ExprM, Seq<StmtM>)>,
    total: nat,
    has_else: bool,
    end: Seq<char>,
    next0: Seq<char>,
    lc: LoopM,
    cx: ArmCtx,
    n: nat,
) -> (Seq<char>, Seq<char>, nat)
    decreases arms, 0nat,
{
    if arms.len() == 0 {
        (Seq::empty(), next0, n)
    } else {
        let (t, nx, m) = cm_elifs(arms.drop_last(), total, has_else, end, next0, lc, cx, n);
        let (nn, m1) = if arms.len() == total && !has_else {
            (end, m)
        } else {
            (label("IF_NEXT"@, m), m + 1)
        };
        let (tc, m2) = cm_expr(arms.last().0, cx, m1);
        let (tb, m3) = cm_stmts(arms.last().1, lc, cx, m2);
        (t + nx + ":\n"@ + tc + "    CMP r0,#0\n    BEQ "@ + nn + "\n"@ + tb + "    B "@ + end
            + "\n"@, nn, m3)
    }
}

/// The bodies of a chain of cases, each under its label.
pub open spec fn cm_chain_bodies(
    cases: Seq<(ExprM, Seq<StmtM>)>,
    base: nat,
    end: Seq<char>,
    lc: LoopM,
    cx: ArmCtx,
    n: nat,
) -> (Seq<char>, nat)
    decreases cases, 0nat,
{
    if cases.len() == 0 {
        (Seq::empty(), n)
    } else {
        let (t, m) = cm_chain_bodies(cases.drop_last(), base, end, lc, cx, n);
        let (tb, m1) = cm_stmts(cases.last().1, lc, cx, m);
        (t + label("SW_CASE"@, (base + cases.len() - 1) as nat) + ":\n"@ + tb + "    B "@ + end
            + "\n"@, m1)
    }
}

/// The bodies of a jump table's cases in value order, each under the
/// label of the last case of its value.
pub open spec fn cm_table_bodies(
    sorted: Seq<(i32, usize)>,
    full: Seq<(i32, usize)>,
    cases: Seq<(ExprM, Seq<StmtM>)>,
    base: nat,
    end: Seq<char>,
    lc: LoopM,
    cx: ArmCtx,
    n: nat,
) -> (Seq<char>, nat)
    decreases cases, sorted.len(),
{
    if sorted.len() == 0 {
        (Seq::empty(), n)
    } else {
        let (t, m) = cm_table_bodies(sorted.drop_last(), full, cases, base, end, lc, cx, n);
        let j = sorted.last().1 as int;
        let (tb, m1) = if j < cases.len() {
            cm_stmts(cases[j].1, lc, cx, m)
        } else {
            (Seq::empty(), m)
        };
        let k = last_key(full, sorted.last().0 as int);
        (t + label("SW_CASE"@, (base + k) as nat) + ":\n"@ + tb + "    B "@ + end + "\n"@, m1)
    }
}

/// Emitting an expression never sets the label counter back, so labels
/// drawn later are never ones drawn before.
pub proof fn lemma_expr_mono(e: ExprM, cx: ArmCtx, n: nat)
    ensures
        cm_expr(e, cx, n).1 >= n,
    decreases e, 0nat,
{
    reveal(cm_expr);
    match e {
        ExprM::Call(name, _, _, args) => match arm_builtin_canon(ascii_upper_seq(name)) {
            Some(c) => lemma_builtin_mono(c, args, cx, n),
            None => lemma_call_args_mono(
                args,
                if args.len() < 4 {
                    args.len()
                } else {
                    4
                },
                cx,
                n,
            ),
        },
        ExprM::Binary(op, l, r) => {
            lemma_expr_mono(*l, cx, n);
            lemma_expr_mono(*r, cx, n);
            lemma_expr_mono(*r, cx, cm_expr(*l, cx, n).1);
        },
        ExprM::BitNot(x) => lemma_expr_mono(*x, cx, n),
        ExprM::Not(x) => lemma_expr_mono(*x, cx, n),
        ExprM::Compare(_, l, r) => {
            lemma_expr_mono(*l, cx, n);
            lemma_expr_mono(*r, cx, cm_expr(*l, cx, n).1);
        },
        ExprM::Logic(LogicOp::And, l, r) => {
            lemma_expr_mono(*l, cx, n);
            lemma_expr_mono(*r, cx, cm_expr(*l, cx, n).1 + 2);
        },
        ExprM::Logic(LogicOp::Or, l, r) => {
            lemma_expr_mono(*l, cx, n + 2);
            lemma_expr_mono(*r, cx, cm_expr(*l, cx, n + 2).1);
        },
        _ => {},
    }
}

proof fn lemma_exprs_mono(s: Seq<ExprM>, cx: ArmCtx, n: nat)
    ensures
        cm_exprs(s, cx, n).1 >= n,
    decreases s, 0nat,
{
    reveal(cm_expr);
    if s.len() > 0 {
        lemma_exprs_mono(s.drop_last(), cx, n);
        lemma_expr_mono(s.last(), cx, cm_exprs(s.drop_last(), cx, n).1);
    }
}

proof fn lemma_call_args_mono(args: Seq<ExprM>, k: nat, cx: ArmCtx, n: nat)
    ensures
        cm_call_args(args, k, cx, n).1 >= n,
    decreases args, k,
{
    reveal(cm_expr);
    if k > 0 && k <= args.len() {
        lemma_expr_mono(args[k - 1], cx, n);
        lemma_call_args_mono(args, (k - 1) as nat, cx, cm_expr(args[k - 1], cx, n).1);
    }
}

proof fn lemma_builtin_mono(c: Seq<char>, args: Seq<ExprM>, cx: ArmCtx, n: nat)
    ensures
        cm_builtin(c, args, cx, n).1 >= n,
    decreases args, 1nat,
{
    reveal(cm_expr);
    lemma_exprs_mono(args, cx, n);
    if args.len() > 0 {
        lemma_expr_mono(args[0], cx, n);
    }
    if args.len() > 1 {
        lemma_expr_mono(args[1], cx, cm_expr(args[0], cx, n).1);
    }
    if args.len() > 2 {
        lemma_expr_mono(args[2], cx, cm_expr(args[1], cx, cm_expr(args[0], cx, n).1).1);
    }
}

proof fn lemma_case_tests_mono(cases: Seq<(ExprM, Seq<StmtM>)>, base: nat, cx: ArmCtx, n: nat)
    ensures
        cm_case_tests(cases, base, cx, n).1 >= n,
    decreases cases.len(),
{
    if cases.len() > 0 {
        lemma_case_tests_mono(cases.drop_last(), base, cx, n);
        lemma_expr_mono(cases.last().0, cx, cm_case_tests(cases.drop_last(), base, cx, n).1);
    }
}

/// Emitting a statement never sets the label counter back, so labels
/// drawn later are never ones drawn before.
pub proof fn lemma_stmt_mono(s: StmtM, lc: LoopM, cx: ArmCtx, n: nat)
    ensures
        cm_stmt(s, lc, cx, n).1 >= n,
    decreases s, 2nat,
{
    match s {
        StmtM::Assign(_, v, _) => lemma_expr_mono(v, cx, n),
        StmtM::Let(_, v, _) => lemma_expr_mono(v, cx, n),
        StmtM::Expr(e, _) => lemma_expr_mono(e, cx, n),
        StmtM::Return(Some(e), _) => lemma_expr_mono(e, cx, n),
        StmtM::While(..) => lemma_while_mono(s, lc, cx, n),
        StmtM::For(..) => lemma_for_mono(s, lc, cx, n),
        StmtM::If(..) => lemma_if_mono(s, lc, cx, n),
        StmtM::Switch(..) => lemma_switch_mono(s, lc, cx, n),
        _ => {},
    }
}

proof fn lemma_while_mono(s: StmtM, lc: LoopM, cx: ArmCtx, n: nat)
    ensures
        cm_while(s, lc, cx, n).1 >= n,
    decreases s, 1nat,
{
    match s {
        StmtM::While(c, b, _) => {
            let lp = LoopM { start: Some(label("WH"@, n)), end: Some(label("WH_END"@, n + 1)) };
            lemma_expr_mono(c, cx, n + 2);
            lemma_stmts_mono(b, lp, cx, cm_expr(c, cx, n + 2).1);
        },
        _ => {},
    }
}

proof fn lemma_for_mono(s: StmtM, lc: LoopM, cx: ArmCtx, n: nat)
    ensures
        cm_for(s, lc, cx, n).1 >= n,
    decreases s, 1nat,
{
    match s {
        StmtM::For(_, st, en, step, b, _) => {
            let lp = LoopM { start: Some(label("FOR"@, n)), end: Some(label("FOR_END"@, n + 1)) };
            let m1 = cm_expr(st, cx, n + 2).1;
            let m2 = cm_expr(en, cx, m1).1;
            let m3 = cm_stmts(b, lp, cx, m2).1;
            lemma_expr_mono(st, cx, n + 2);
            lemma_expr_mono(en, cx, m1);
            lemma_stmts_mono(b, lp, cx, m2);
            if let Some(se) = step {
                lemma_expr_mono(se, cx, m3);
            }
        },
        _ => {},
    }
}

proof fn lemma_if_mono(s: StmtM, lc: LoopM, cx: ArmCtx, n: nat)
    ensures
        cm_if(s, lc, cx, n).1 >= n,
    decreases s, 1nat,
{
    match s {
        StmtM::If(c, b, elifs, els, _) => {
            let le = label("IF_END"@, n);
            let ln = label("IF_NEXT"@, n + 1);
            let m1 = cm_expr(c, cx, n + 2).1;
            let m2 = cm_stmts(b, lc, cx, m1).1;
            let m3 = cm_elifs(elifs, elifs.len(), els is Some, le, ln, lc, cx, m2).2;
            lemma_expr_mono(c, cx, n + 2);
            lemma_stmts_mono(b, lc, cx, m1);
            lemma_elifs_mono(elifs, elifs.len(), els is Some, le, ln, lc, cx, m2);
            if let Some(eb) = els {
                lemma_stmts_mono(eb, lc, cx, m3);
            }
        },
        _ => {},
    }
}

proof fn lemma_switch_mono(s: StmtM, lc: LoopM, cx: ArmCtx, n: nat)
    ensures
        cm_switch(s, lc, cx, n).1 >= n,
    decreases s, 1nat,
{
    match s {
        StmtM::Switch(e, cases, def, _) => {
            let m1 = cm_expr(e, cx, n).1;
            let le = label("SW_END"@, m1);
            let m2: nat = if def is Some {
                m1 + 2
            } else {
                m1 + 1
            };
            let target = if def is Some {
                label("SW_DEF"@, m1 + 1)
            } else {
                le
            };
            lemma_expr_mono(e, cx, n);
            lemma_switch_table_mono(s, le, target, lc, cx, m2);
            lemma_switch_chain_mono(s, le, target, lc, cx, m2);
        },
        _ => {},
    }
}

proof fn lemma_switch_table_mono(s: StmtM, le: Seq<char>, target: Seq<char>, lc: LoopM, cx: ArmCtx, m2: nat)
    ensures
        cm_switch_table(s, le, target, lc, cx, m2).1 >= m2,
    decreases s, 0nat,
{
    if let StmtM::Switch(_, cases, def, _) = s {
        let sorted = sort_keys(case_keys(cases));
        let base: nat = m2 + 1;
        lemma_table_bodies_mono(sorted, sorted, cases, base, le, lc, cx, base + cases.len());
        let m3 = cm_table_bodies(sorted, sorted, cases, base, le, lc, cx, base + cases.len()).1;
        if let Some(db) = def {
            lemma_stmts_mono(db, lc, cx, m3);
        }
    }
}

proof fn lemma_switch_chain_mono(s: StmtM, le: Seq<char>, target: Seq<char>, lc: LoopM, cx: ArmCtx, m2: nat)
    ensures
        cm_switch_chain(s, le, target, lc, cx, m2).1 >= m2,
    decreases s, 0nat,
{
    if let StmtM::Switch(_, cases, def, _) = s {
        lemma_case_tests_mono(cases, m2, cx, m2 + cases.len());
        let m3 = cm_case_tests(cases, m2, cx, m2 + cases.len()).1;
        lemma_chain_mono(cases, m2, le, lc, cx, m3);
        let m4 = cm_chain_bodies(cases, m2, le, lc, cx, m3).1;
        if let Some(db) = def {
            lemma_stmts_mono(db, lc, cx, m4);
        }
    }
}

proof fn lemma_stmts_mono(s: Seq<StmtM>, lc: LoopM, cx: ArmCtx, n: nat)
    ensures
        cm_stmts(s, lc, cx, n).1 >= n,
    decreases s, 0nat,
{
    if s.len() > 0 {
        lemma_stmts_mono(s.drop_last(), lc, cx, n);
        lemma_stmt_mono(s.last(), lc, cx, cm_stmts(s.drop_last(), lc, cx, n).1);
    }
}

proof fn lemma_elifs_mono(
    arms: Seq<(ExprM, Seq<StmtM>)>,
    total: nat,
    has_else: bool,
    end: Seq<char>,
    next0: Seq<char>,
    lc: LoopM,
    cx: ArmCtx,
    n: nat,
)
    ensures
        cm_elifs(arms, total, has_else, end, next0, lc, cx, n).2 >= n,
    decreases arms, 0nat,
{
    if arms.len() > 0 {
        lemma_elifs_mono(arms.drop_last(), total, has_else, end, next0, lc, cx, n);
        let m = cm_elifs(arms.drop_last(), total, has_else, end, next0, lc, cx, n).2;
        let m1 = if arms.len() == total && !has_else {
            m
        } else {
            m + 1
        };
        lemma_expr_mono(arms.last().0, cx, m1);
        lemma_stmts_mono(arms.last().1, lc, cx, cm_expr(arms.last().0, cx, m1).1);
    }
}

proof fn lemma_chain_mono(
    cases: Seq<(ExprM, Seq<StmtM>)>,
    base: nat,
    end: Seq<char>,
    lc: LoopM,
    cx: ArmCtx,
    n: nat,
)
    ensures
        cm_chain_bodies(cases, base, end, lc, cx, n).1 >= n,
    decreases cases, 0nat,
{
    if cases.len() > 0 {
        lemma_chain_mono(cases.drop_last(), base, end, lc, cx, n);
        lemma_stmts_mono(cases.last().1, lc, cx, cm_chain_bodies(cases.drop_last(), base, end, lc, cx, n).1);
    }
}

proof fn lemma_table_bodies_mono(
    sorted: Seq<(i32, usize)>,
    full: Seq<(i32, usize)>,
    cases: Seq<(ExprM, Seq<StmtM>)>,
    base: nat,
    end: Seq<char>,
    lc: LoopM,
    cx: ArmCtx,
    n: nat,
)
    ensures
        cm_table_bodies(sorted, full, cases, base, end, lc, cx, n).1 >= n,
    decreases cases, sorted.len(),
{
    if sorted.len() > 0 {
        lemma_table_bodies_mono(sorted.drop_last(), full, cases, base, end, lc, cx, n);
        let j = sorted.last().1 as int;
        if j < cases.len() {
            lemma_stmts_mono(cases[j].1, lc, cx, cm_table_bodies(sorted.drop_last(), full, cases, base, end, lc, cx, n).1);
        }
    }
}

/// Emits the code that leaves an expression's value in r0 (produces the
/// value with 16-bit masking semantics).
pub fn emit_expr(
    expr: &Expr,
    out: &mut String,
    fctx: &FuncCtx,
    string_map: &Vec<(String, String)>,
    counter: &mut usize,
)
    requires
        keys_unique(string_map@),
        fctx.locals.len() < 0x4000_0000,
        cm_expr(expr.view(), arm_ctx(fctx, string_map), *old(counter) as nat).1 <= usize::MAX,
    ensures
        final(out)@ == old(out)@ + cm_expr(expr.view(), arm_ctx(fctx, string_map), *old(counter) as nat).0,
        *final(counter) == cm_expr(expr.view(), arm_ctx(fctx, string_map), *old(counter) as nat).1,
    decreases expr, 1nat,
{
    reveal(cm_expr);
    let ghost o0 = out@;
    match expr {
        Expr::Number(n) => {
            push_str(out, "    MOV r0,#");
            push_dec_i64(out, *n as i64);
            push_str(out, "\n");
            assert(out@ =~= o0 + cm_expr(expr.view(), arm_ctx(fctx, string_map), 0).0);
        },
        Expr::StringLit(s) => {
            match kv_get(string_map, s.as_str()) {
                Some(lbl) => {
                    push_str(out, "    LDR r0, =");
                    push_str(out, lbl.as_str());
                    push_str(out, "\n");
                },
                None => {
                    push_str(out, "    MOV r0,#0 ; missing string label\n");
                },
            }
        },
        Expr::Ident(info) => {
            match local_offset(fctx, info.name.as_str()) {
                Some(off) => {
                    push_str(out, "    LDR r0, [sp, #");
                    push_dec_i64(out, off as i64);
                    push_str(out, "]\n");
                },
                None => {
                    push_str(out, "    LDR r0, =VAR_");
                    let up = to_upper(info.name.as_str());
                    push_str(out, up.as_str());
                    push_str(out, "\n    LDR r0,[r0]\n");
                },
            }
        },
        Expr::Call(_) => emit_call_cm(expr, out, fctx, string_map, counter),
        Expr::Binary { .. } => emit_binary_cm(expr, out, fctx, string_map, counter),
        Expr::BitNot(inner) => {
            emit_expr(inner, out, fctx, string_map, counter);
            push_str(out, "    MVN r0,r0\n    AND r0,r0,#0xFFFF\n");
        },
        Expr::Compare { .. } => emit_compare_cm(expr, out, fctx, string_map, counter),
        Expr::Logic { op: LogicOp::And, .. } => emit_and_cm(expr, out, fctx, string_map, counter),
        Expr::Logic { .. } => emit_or_cm(expr, out, fctx, string_map, counter),
        Expr::Not(inner) => {
            emit_expr(inner, out, fctx, string_map, counter);
            push_str(out, "    CMP r0,#0\n    MOVEQ r0,#1\n    MOVNE r0,#0\n");
        },
    }
}

fn emit_call_cm(
    expr: &Expr,
    out: &mut String,
    fctx: &FuncCtx,
    string_map: &Vec<(String, String)>,
    counter: &mut usize,
)
    requires
        expr is Call,
        keys_unique(string_map@),
        fctx.locals.len() < 0x4000_0000,
        cm_expr(expr.view(), arm_ctx(fctx, string_map), *old(counter) as nat).1 <= usize::MAX,
    ensures
        final(out)@ == old(out)@ + cm_expr(expr.view(), arm_ctx(fctx, string_map), *old(counter) as nat).0,
        *final(counter) == cm_expr(expr.view(), arm_ctx(fctx, string_map), *old(counter) as nat).1,
    decreases expr, 0nat,
{
    reveal(cm_expr);
    if let Expr::Call(ci) = expr {
        proof {
            lemma_view_exprs(ci.args@);
        }
        let nv = chars_of(ci.name.as_str());
        let up = ascii_upper_vec(&nv);
        match builtin_canon_exec(&up) {
            Some(c) => {
                emit_builtin_call_cm(&c, &ci.args, out, fctx, string_map, counter);
            },
            None => {
                let limit: usize = if ci.args.len() < 4 {
                    ci.args.len()
                } else {
                    4
                };
                emit_call_args(&ci.args, limit, out, fctx, string_map, counter);
                push_str(out, "    BL ");
                push_str(out, ci.name.as_str());
                push_str(out, "\n");
            },
        }
    }
}

fn emit_binary_cm(
    expr: &Expr,
    out: &mut String,
    fctx: &FuncCtx,
    string_map: &Vec<(String, String)>,
    counter: &mut usize,
)
    requires
        expr is Binary,
        keys_unique(string_map@),
        fctx.locals.len() < 0x4000_0000,
        cm_expr(expr.view(), arm_ctx(fctx, string_map), *old(counter) as nat).1 <= usize::MAX,
    ensures
        final(out)@ == old(out)@ + cm_expr(expr.view(), arm_ctx(fctx, string_map), *old(counter) as nat).0,
        *final(counter) == cm_expr(expr.view(), arm_ctx(fctx, string_map), *old(counter) as nat).1,
    decreases expr, 0nat,
{
    reveal(cm_expr);
    let ghost cx = arm_ctx(fctx, string_map);
    let ghost n0 = *counter as nat;
    if let Expr::Binary { op, left, right } = expr {
        let rs = match &**right {
            Expr::Number(v) => find_shift_exec(*v),
            _ => None,
        };
        let ls = match &**left {
            Expr::Number(v) => find_shift_exec(*v),
            _ => None,
        };
        assert(rs matches Some(k) ==> pow2_shift(right.view()) == Some(k as nat));
        assert(rs is None ==> pow2_shift(right.view()) is None);
        assert(ls matches Some(k) ==> pow2_shift(left.view()) == Some(k as nat));
        assert(ls is None ==> pow2_shift(left.view()) is None);
        if *op == BinOp::Mul && rs.is_some() {
            emit_expr(left, out, fctx, string_map, counter);
            push_str(out, "    LSL r0,r0,#");
            push_dec(out, rs.unwrap() as u64);
            push_str(out, "\n    AND r0,r0,#0xFFFF\n");
        } else if *op == BinOp::Mul && ls.is_some() {
            emit_expr(right, out, fctx, string_map, counter);
            push_str(out, "    LSL r0,r0,#");
            push_dec(out, ls.unwrap() as u64);
            push_str(out, "\n    AND r0,r0,#0xFFFF\n");
        } else if *op == BinOp::Div && rs.is_some() {
            emit_expr(left, out, fctx, string_map, counter);
            push_str(out, "    LSR r0,r0,#");
            push_dec(out, rs.unwrap() as u64);
            push_str(out, "\n    AND r0,r0,#0xFFFF\n");
        } else {
            proof {
                lemma_expr_mono(right.view(), cx, cm_expr(left.view(), cx, n0).1);
            }
            emit_expr(left, out, fctx, string_map, counter);
            push_str(out, "    MOV r4,r0\n");
            emit_expr(right, out, fctx, string_map, counter);
            push_str(out, "    MOV r5,r0\n");
            push_binop(out, *op);
        }
    }
}

#[verifier::spinoff_prover]
fn emit_compare_cm(
    expr: &Expr,
    out: &mut String,
    fctx: &FuncCtx,
    string_map: &Vec<(String, String)>,
    counter: &mut usize,
)
    requires
        expr is Compare,
        keys_unique(string_map@),
        fctx.locals.len() < 0x4000_0000,
        cm_expr(expr.view(), arm_ctx(fctx, string_map), *old(counter) as nat).1 <= usize::MAX,
    ensures
        final(out)@ == old(out)@ + cm_expr(expr.view(), arm_ctx(fctx, string_map), *old(counter) as nat).0,
        *final(counter) == cm_expr(expr.view(), arm_ctx(fctx, string_map), *old(counter) as nat).1,
    decreases expr, 0nat,
{
    reveal(cm_expr);
    let ghost cx = arm_ctx(fctx, string_map);
    let ghost n0 = *counter as nat;
    let ghost o0 = out@;
    if let Expr::Compare { op, left, right } = expr {
        proof {
            lemma_expr_mono(left.view(), cx, n0);
            lemma_expr_mono(right.view(), cx, cm_expr(left.view(), cx, n0).1);
        }
        emit_expr(left, out, fctx, string_map, counter);
        assert(out@ == o0 + cm_expr(left.view(), cx, n0).0);
        assert(*counter == cm_expr(left.view(), cx, n0).1);
        push_str(out, "    MOV r4,r0\n");
        emit_expr(right, out, fctx, string_map, counter);
        let ghost m2 = *counter as nat;
        assert(m2 == cm_expr(right.view(), cx, cm_expr(left.view(), cx, n0).1).1);
        assert(cm_expr(expr.view(), cx, n0).1 == m2 + 2);
        push_str(out, "    MOV r5,r0\n    CMP r4,r5\n    MOV r0,#0\n");
        let lbl_true = fresh_label("CT", counter);
        let lbl_end = fresh_label("CE", counter);
        push_str(out, "    ");
        push_str(out, branch_exec(*op));
        push_str(out, " ");
        push_str(out, lbl_true.as_str());
        push_str(out, "\n    B ");
        push_str(out, lbl_end.as_str());
        push_str(out, "\n");
        push_label_line(out, &lbl_true);
        push_str(out, "    MOV r0,#1\n");
        push_label_line(out, &lbl_end);
        assert(out@ =~= o0 + cm_expr(expr.view(), cx, n0).0);
    }
}

#[verifier::spinoff_prover]
fn emit_and_cm(
    expr: &Expr,
    out: &mut String,
    fctx: &FuncCtx,
    string_map: &Vec<(String, String)>,
    counter: &mut usize,
)
    requires
        expr matches Expr::Logic { op: LogicOp::And, .. },
        keys_unique(string_map@),
        fctx.locals.len() < 0x4000_0000,
        cm_expr(expr.view(), arm_ctx(fctx, string_map), *old(counter) as nat).1 <= usize::MAX,
    ensures
        final(out)@ == old(out)@ + cm_expr(expr.view(), arm_ctx(fctx, string_map), *old(counter) as nat).0,
        *final(counter) == cm_expr(expr.view(), arm_ctx(fctx, string_map), *old(counter) as nat).1,
    decreases expr, 0nat,
{
    reveal(cm_expr);
    let ghost cx = arm_ctx(fctx, string_map);
    let ghost n0 = *counter as nat;
    let ghost o0 = out@;
    if let Expr::Logic { left, right, .. } = expr {
        proof {
            lemma_expr_mono(left.view(), cx, n0);
            lemma_expr_mono(right.view(), cx, cm_expr(left.view(), cx, n0).1 + 2);
        }
        emit_expr(left, out, fctx, string_map, counter);
        let false_lbl = fresh_label("AND_FALSE", counter);
        let end_lbl = fresh_label("AND_END", counter);
        push_str(out, "    CMP r0,#0\n    BEQ ");
        push_str(out, false_lbl.as_str());
        push_str(out, "\n");
        emit_expr(right, out, fctx, string_map, counter);
        push_str(out, "    CMP r0,#0\n    BEQ ");
        push_str(out, false_lbl.as_str());
        push_str(out, "\n    MOV r0,#1\n    B ");
        push_str(out, end_lbl.as_str());
        push_str(out, "\n");
        push_label_line(out, &false_lbl);
        push_str(out, "    MOV r0,#0\n");
        push_label_line(out, &end_lbl);
        assert(out@ =~= o0 + cm_expr(expr.view(), cx, n0).0);
    }
}

#[verifier::spinoff_prover]
fn emit_or_cm(
    expr: &Expr,
    out: &mut String,
    fctx: &FuncCtx,
    string_map: &Vec<(String, String)>,
    counter: &mut usize,
)
    requires
        expr matches Expr::Logic { op: LogicOp::Or, .. },
        keys_unique(string_map@),
        fctx.locals.len() < 0x4000_0000,
        cm_expr(expr.view(), arm_ctx(fctx, string_map), *old(counter) as nat).1 <= usize::MAX,
    ensures
        final(out)@ == old(out)@ + cm_expr(expr.view(), arm_ctx(fctx, string_map), *old(counter) as nat).0,
        *final(counter) == cm_expr(expr.view(), arm_ctx(fctx, string_map), *old(counter) as nat).1,
    decreases expr, 0nat,
{
    reveal(cm_expr);
    let ghost cx = arm_ctx(fctx, string_map);
    let ghost n0 = *counter as nat;
    let ghost o0 = out@;
    if let Expr::Logic { left, right, .. } = expr {
        proof {
            lemma_expr_mono(left.view(), cx, n0 + 2);
            lemma_expr_mono(right.view(), cx, cm_expr(left.view(), cx, n0 + 2).1);
        }
        let true_lbl = fresh_label("OR_TRUE", counter);
        let end_lbl = fresh_label("OR_END", counter);
        emit_expr(left, out, fctx, string_map, counter);
        push_str(out, "    CMP r0,#0\n    BNE ");
        push_str(out, true_lbl.as_str());
        push_str(out, "\n");
        emit_expr(right, out, fctx, string_map, counter);
        push_str(out, "    CMP r0,#0\n    BNE ");
        push_str(out, true_lbl.as_str());
        push_str(out, "\n    MOV r0,#0\n    B ");
        push_str(out, end_lbl.as_str());
        push_str(out, "\n");
        push_label_line(out, &true_lbl);
        push_str(out, "    MOV r0,#1\n");
        push_label_line(out, &end_lbl);
        assert(out@ =~= o0 + cm_expr(expr.view(), cx, n0).0);
    }
}

fn push_binop(out: &mut String, op: BinOp)
    ensures
        final(out)@ == old(out)@ + cm_binop_text(op),
{
    let t = match op {
        BinOp::Add => "    ADD r0,r4,r5\n    AND r0,r0,#0xFFFF\n",
        BinOp::Sub => "    SUB r0,r4,r5\n    AND r0,r0,#0xFFFF\n",
        BinOp::Mul => "    MOV r0,r4\n    MOV r1,r5\n    BL __mul32\n    AND r0,r0,#0xFFFF\n",
        BinOp::Div => "    MOV r0,r4\n    MOV r1,r5\n    BL __div32\n    AND r0,r0,#0xFFFF\n",
        BinOp::FloorDiv => "    MOV r0,r4\n    MOV r1,r5\n    BL __div32\n    AND r0,r0,#0xFFFF\n",
        BinOp::Mod => "    MOV r0,r4\n    MOV r1,r5\n    BL __div32\n    MOV r2,r0\n    MUL r2,r2,r5\n    RSBS r0,r2,r4\n    AND r0,r0,#0xFFFF\n",
        BinOp::Shl => "    MOV r0,r4,LSL r5\n    AND r0,r0,#0xFFFF\n",
        BinOp::Shr => "    MOV r0,r4,LSR r5\n    AND r0,r0,#0xFFFF\n",
        BinOp::BitAnd => "    AND r0,r4,r5\n",
        BinOp::BitOr => "    ORR r0,r4,r5\n",
        BinOp::BitXor => "    EOR r0,r4,r5\n",
    };
    push_str(out, t);
}

/// Emits the first `k` arguments of a call into r0..r(k-1), the last first.
fn emit_call_args(
    args: &Vec<Expr>,
    k: usize,
    out: &mut String,
    fctx: &FuncCtx,
    string_map: &Vec<(String, String)>,
    counter: &mut usize,
)
    requires
        keys_unique(string_map@),
        fctx.locals.len() < 0x4000_0000,
        cm_call_args(view_exprs(args@), k as nat, arm_ctx(fctx, string_map), *old(counter) as nat).1
            <= usize::MAX,
    ensures
        final(out)@ == old(out)@ + cm_call_args(view_exprs(args@), k as nat, arm_ctx(fctx, string_map), *old(counter) as nat).0,
        *final(counter) == cm_call_args(view_exprs(args@), k as nat, arm_ctx(fctx, string_map), *old(counter) as nat).1,
    decreases args, k,
{
    reveal(cm_expr);
    let ghost cx = arm_ctx(fctx, string_map);
    let ghost av = view_exprs(args@);
    proof {
        lemma_view_exprs(args@);
    }
    if k == 0 || k > args.len() {
        return;
    }
    proof {
        lemma_call_args_mono(av, (k - 1) as nat, cx, cm_expr(av[k - 1], cx, *counter as nat).1);
    }
    emit_expr(&args[k - 1], out, fctx, string_map, counter);
    if k - 1 != 0 {
        push_str(out, "    MOV r");
        push_dec(out, (k - 1) as u64);
        push_str(out, " , r0\n");
    }
    emit_call_args(args, k - 1, out, fctx, string_map, counter);
}

/// Emits the expressions in order.
fn emit_exprs(
    args: &Vec<Expr>,
    out: &mut String,
    fctx: &FuncCtx,
    string_map: &Vec<(String, String)>,
    counter: &mut usize,
)
    requires
        keys_unique(string_map@),
        fctx.locals.len() < 0x4000_0000,
        cm_exprs(view_exprs(args@), arm_ctx(fctx, string_map), *old(counter) as nat).1 <= usize::MAX,
    ensures
        final(out)@ == old(out)@ + cm_exprs(view_exprs(args@), arm_ctx(fctx, string_map), *old(counter) as nat).0,
        *final(counter) == cm_exprs(view_exprs(args@), arm_ctx(fctx, string_map), *old(counter) as nat).1,
    decreases args, 0nat,
{
    reveal(cm_expr);
    let ghost cx = arm_ctx(fctx, string_map);
    let ghost av = view_exprs(args@);
    let ghost n0 = *counter as nat;
    let ghost o0 = out@;
    proof {
        lemma_view_exprs(args@);
        assert(av.take(0) =~= Seq::<ExprM>::empty());
    }
    let mut i: usize = 0;
    while i < args.len()
        invariant
            i <= args.len(),
            av == view_exprs(args@),
            av.len() == args.len(),
            forall|j: int| 0 <= j < args.len() ==> #[trigger] av[j] == args@[j].view(),
            keys_unique(string_map@),
            fctx.locals.len() < 0x4000_0000,
            cx == arm_ctx(fctx, string_map),
            cm_exprs(av, cx, n0).1 <= usize::MAX,
            out@ == o0 + cm_exprs(av.take(i as int), cx, n0).0,
            *counter as nat == cm_exprs(av.take(i as int), cx, n0).1,
        decreases args.len() - i,
    {
        proof {
            reveal(cm_expr);
        }
        assert(av.take(i + 1).drop_last() =~= av.take(i as int));
        proof {
            lemma_exprs_prefix_mono(av, (i + 1) as int, cx, n0);
        }
        emit_expr(&args[i], out, fctx, string_map, counter);
        i += 1;
        assert(out@ =~= o0 + cm_exprs(av.take(i as int), cx, n0).0);
    }
    assert(av.take(args.len() as int) =~= av);
}

proof fn lemma_exprs_prefix_mono(s: Seq<ExprM>, i: int, cx: ArmCtx, n: nat)
    requires
        0 <= i <= s.len(),
    ensures
        cm_exprs(s.take(i), cx, n).1 <= cm_exprs(s, cx, n).1,
    decreases s.len() - i,
{
    reveal(cm_expr);
    if i < s.len() {
        lemma_exprs_prefix_mono(s, i + 1, cx, n);
        assert(s.take(i + 1).drop_last() =~= s.take(i));
        lemma_expr_mono(s.take(i + 1).last(), cx, cm_exprs(s.take(i), cx, n).1);
    } else {
        assert(s.take(i) =~= s);
    }
}

/// Inline lowering of a builtin (by its canonical name); the Vectrex
/// builtins are no-ops on this target.
fn emit_builtin_call_cm(
    c: &Vec<char>,
    args: &Vec<Expr>,
    out: &mut String,
    fctx: &FuncCtx,
    string_map: &Vec<(String, String)>,
    counter: &mut usize,
)
    requires
        keys_unique(string_map@),
        fctx.locals.len() < 0x4000_0000,
        cm_builtin(c@, view_exprs(args@), arm_ctx(fctx, string_map), *old(counter) as nat).1 <= usize::MAX,
    ensures
        final(out)@ == old(out)@ + cm_builtin(c@, view_exprs(args@), arm_ctx(fctx, string_map), *old(counter) as nat).0,
        *final(counter) == cm_builtin(c@, view_exprs(args@), arm_ctx(fctx, string_map), *old(counter) as nat).1,
    decreases args, 1nat,
{
    reveal(cm_expr);
    let ghost cx = arm_ctx(fctx, string_map);
    let ghost av = view_exprs(args@);
    let ghost n0 = *counter as nat;
    proof {
        lemma_view_exprs(args@);
        lemma_builtin_mono(c@, av, cx, n0);
    }
    if is_inert_builtin_exec(c) {
        emit_exprs(args, out, fctx, string_map, counter);
        push_str(out, "    MOV r0,#0\n");
    } else if vec_is(c, "ABS") || vec_is(c, "MATH_ABS") {
        if args.len() > 0 {
            emit_expr(&args[0], out, fctx, string_map, counter);
            let done = fresh_label("ABS_DONE", counter);
            push_str(out, "    CMP r0,#0\n    BGE ");
            push_str(out, done.as_str());
            push_str(out, "\n    RSBS r0,r0,#0\n");
            push_label_line(out, &done);
        } else {
            push_str(out, "    MOV r0,#0\n");
        }
    } else if vec_is(c, "MIN") || vec_is(c, "MATH_MIN") || vec_is(c, "MAX") || vec_is(c, "MATH_MAX") {
        if args.len() < 2 {
            push_str(out, "    MOV r0,#0\n");
        } else {
            proof {
                lemma_expr_mono(av[1], cx, cm_expr(av[0], cx, n0).1);
            }
            emit_expr(&args[0], out, fctx, string_map, counter);
            push_str(out, "    MOV r4,r0\n");
            emit_expr(&args[1], out, fctx, string_map, counter);
            push_str(out, "    MOV r5,r0\n");
            if vec_is(c, "MIN") || vec_is(c, "MATH_MIN") {
                push_str(out, "    CMP r4,r5\n    BLE 1f\n    MOV r0,r5\n    B 2f\n1:  MOV r0,r4\n2:\n");
            } else {
                push_str(out, "    CMP r4,r5\n    BGE 1f\n    MOV r0,r5\n    B 2f\n1:  MOV r0,r4\n2:\n");
            }
        }
    } else if vec_is(c, "CLAMP") || vec_is(c, "MATH_CLAMP") {
        if args.len() < 3 {
            push_str(out, "    MOV r0,#0\n");
        } else {
            proof {
                let m0 = cm_expr(av[0], cx, n0).1;
                lemma_expr_mono(av[1], cx, m0);
                lemma_expr_mono(av[2], cx, cm_expr(av[1], cx, m0).1);
            }
            emit_expr(&args[0], out, fctx, string_map, counter);
            push_str(out, "    MOV r4,r0\n");
            emit_expr(&args[1], out, fctx, string_map, counter);
            push_str(out, "    MOV r5,r0\n");
            emit_expr(&args[2], out, fctx, string_map, counter);
            push_str(out, "    MOV r6,r0\n");
            push_str(
                out,
                "    CMP r4,r5\n    BLT 1f\n    CMP r4,r6\n    BGT 2f\n    MOV r0,r4\n    B 3f\n1:  MOV r0,r5\n    B 3f\n2:  MOV r0,r6\n3:\n",
            );
        }
    } else {
        if args.len() > 0 {
            emit_expr(&args[0], out, fctx, string_map, counter);
            push_str(out, "    AND r0,r0,#0x7F\n    LSL r0,r0,#1\n    LDR r1,=SIN_TABLE\n");
            if ends_with_str(c, "COS") {
                push_str(out, "    LDR r1,=COS_TABLE\n");
            }
            if ends_with_str(c, "TAN") {
                push_str(out, "    LDR r1,=TAN_TABLE\n");
            }
            push_str(out, "    ADD r1,r1,r0\n    LDRH r0,[r1]\n");
        } else {
            push_str(out, "    MOV r0,#0\n");
        }
    }
}

proof fn lemma_stmts_prefix(s: Seq<StmtM>, i: int, lc: LoopM, cx: ArmCtx, n: nat)
    requires
        0 <= i <= s.len(),
    ensures
        cm_stmts(s.take(i), lc, cx, n).1 <= cm_stmts(s, lc, cx, n).1,
    decreases s.len() - i,
{
    if i < s.len() {
        lemma_stmts_prefix(s, i + 1, lc, cx, n);
        assert(s.take(i + 1).drop_last() =~= s.take(i));
        lemma_stmt_mono(s[i], lc, cx, cm_stmts(s.take(i), lc, cx, n).1);
    } else {
        assert(s.take(i) =~= s);
    }
}

proof fn lemma_elifs_prefix(
    arms: Seq<(ExprM, Seq<StmtM>)>,
    i: int,
    total: nat,
    has_else: bool,
    end: Seq<char>,
    next0: Seq<char>,
    lc: LoopM,
    cx: ArmCtx,
    n: nat,
)
    requires
        0 <= i <= arms.len(),
    ensures
        cm_elifs(arms.take(i), total, has_else, end, next0, lc, cx, n).2 <= cm_elifs(
            arms,
            total,
            has_else,
            end,
            next0,
            lc,
            cx,
            n,
        ).2,
    decreases arms.len() - i,
{
    if i < arms.len() {
        lemma_elifs_prefix(arms, i + 1, total, has_else, end, next0, lc, cx, n);
        let t = arms.take(i + 1);
        assert(t.drop_last() =~= arms.take(i));
        lemma_elifs_mono(t, total, has_else, end, next0, lc, cx, n);
        let m = cm_elifs(arms.take(i), total, has_else, end, next0, lc, cx, n).2;
        let m1 = if t.len() == total && !has_else {
            m
        } else {
            m + 1
        };
        lemma_expr_mono(t.last().0, cx, m1);
        lemma_stmts_mono(t.last().1, lc, cx, cm_expr(t.last().0, cx, m1).1);
    } else {
        assert(arms.take(i) =~= arms);
    }
}

proof fn lemma_chain_prefix(
    cases: Seq<(ExprM, Seq<StmtM>)>,
    i: int,
    base: nat,
    end: Seq<char>,
    lc: LoopM,
    cx: ArmCtx,
    n: nat,
)
    requires
        0 <= i <= cases.len(),
    ensures
        cm_chain_bodies(cases.take(i), base, end, lc, cx, n).1 <= cm_chain_bodies(
            cases,
            base,
            end,
            lc,
            cx,
            n,
        ).1,
    decreases cases.len() - i,
{
    if i < cases.len() {
        lemma_chain_prefix(cases, i + 1, base, end, lc, cx, n);
        assert(cases.take(i + 1).drop_last() =~= cases.take(i));
        lemma_stmts_mono(cases[i].1, lc, cx, cm_chain_bodies(cases.take(i), base, end, lc, cx, n).1);
    } else {
        assert(cases.take(i) =~= cases);
    }
}

proof fn lemma_case_tests_prefix(cases: Seq<(ExprM, Seq<StmtM>)>, i: int, base: nat, cx: ArmCtx, n: nat)
    requires
        0 <= i <= cases.len(),
    ensures
        cm_case_tests(cases.take(i), base, cx, n).1 <= cm_case_tests(cases, base, cx, n).1,
    decreases cases.len() - i,
{
    if i < cases.len() {
        lemma_case_tests_prefix(cases, i + 1, base, cx, n);
        assert(cases.take(i + 1).drop_last() =~= cases.take(i));
        lemma_expr_mono(cases[i].0, cx, cm_case_tests(cases.take(i), base, cx, n).1);
    } else {
        assert(cases.take(i) =~= cases);
    }
}

proof fn lemma_table_bodies_prefix(
    sorted: Seq<(i32, usize)>,
    i: int,
    full: Seq<(i32, usize)>,
    cases: Seq<(ExprM, Seq<StmtM>)>,
    base: nat,
    end: Seq<char>,
    lc: LoopM,
    cx: ArmCtx,
    n: nat,
)
    requires
        0 <= i <= sorted.len(),
    ensures
        cm_table_bodies(sorted.take(i), full, cases, base, end, lc, cx, n).1 <= cm_table_bodies(
            sorted,
            full,
            cases,
            base,
            end,
            lc,
            cx,
            n,
        ).1,
    decreases sorted.len() - i,
{
    if i < sorted.len() {
        lemma_table_bodies_prefix(sorted, i + 1, full, cases, base, end, lc, cx, n);
        assert(sorted.take(i + 1).drop_last() =~= sorted.take(i));
        let j = sorted[i].1 as int;
        if j < cases.len() {
            lemma_stmts_mono(
                cases[j].1,
                lc,
                cx,
                cm_table_bodies(sorted.take(i), full, cases, base, end, lc, cx, n).1,
            );
        }
    } else {
        assert(sorted.take(i) =~= sorted);
    }
}

/// Lowers a statement into Cortex-M instructions with structured labels.
#[verifier::spinoff_prover]
pub fn emit_stmt(
    stmt: &Stmt,
    out: &mut String,
    loop_ctx: &LoopCtx,
    fctx: &FuncCtx,
    string_map: &Vec<(String, String)>,
    counter: &mut usize,
)
    requires
        compound_free(stmt.view()),
        keys_unique(string_map@),
        fctx.locals.len() < 0x4000_0000,
        cm_stmt(stmt.view(), loop_view(loop_ctx), arm_ctx(fctx, string_map), *old(counter) as nat).1
            <= usize::MAX,
    ensures
        final(out)@ == old(out)@ + cm_stmt(stmt.view(), loop_view(loop_ctx), arm_ctx(fctx, string_map), *old(counter) as nat).0,
        *final(counter) == cm_stmt(stmt.view(), loop_view(loop_ctx), arm_ctx(fctx, string_map), *old(counter) as nat).1,
    decreases stmt, 2nat,
{
    let ghost o0 = out@;
    let ghost cx = arm_ctx(fctx, string_map);
    let ghost lc = loop_view(loop_ctx);
    let ghost n0 = *counter as nat;
    match stmt {
        Stmt::Assign { target, value, .. } => {
            emit_expr(value, out, fctx, string_map, counter);
            emit_store(out, fctx, target.name.as_str());
            assert(out@ =~= o0 + cm_stmt(stmt.view(), lc, cx, n0).0);
        },
        Stmt::Let { name, value, .. } => {
            emit_expr(value, out, fctx, string_map, counter);
            emit_let_store(out, fctx, name.as_str());
            assert(out@ =~= o0 + cm_stmt(stmt.view(), lc, cx, n0).0);
        },
        Stmt::Expr(e, _) => {
            emit_expr(e, out, fctx, string_map, counter);
        },
        Stmt::Return(expr_opt, _) => {
            if let Some(e) = expr_opt {
                emit_expr(e, out, fctx, string_map, counter);
            }
            emit_release(out, fctx.frame_size);
            push_str(out, "    BX LR\n");
            assert(out@ =~= o0 + cm_stmt(stmt.view(), lc, cx, n0).0);
        },
        Stmt::Break { .. } => {
            match &loop_ctx.end {
                Some(end) => {
                    push_str(out, "    B ");
                    push_str(out, end.as_str());
                    push_str(out, "\n");
                },
                None => {},
            }
            assert(out@ =~= o0 + cm_stmt(stmt.view(), lc, cx, n0).0);
        },
        Stmt::Continue { .. } => {
            match &loop_ctx.start {
                Some(start) => {
                    push_str(out, "    B ");
                    push_str(out, start.as_str());
                    push_str(out, "\n");
                },
                None => {},
            }
            assert(out@ =~= o0 + cm_stmt(stmt.view(), lc, cx, n0).0);
        },
        Stmt::While { .. } => emit_while(stmt, out, loop_ctx, fctx, string_map, counter),
        Stmt::For { .. } => emit_for(stmt, out, loop_ctx, fctx, string_map, counter),
        Stmt::If { .. } => emit_if(stmt, out, loop_ctx, fctx, string_map, counter),
        Stmt::Switch { .. } => emit_switch(stmt, out, loop_ctx, fctx, string_map, counter),
        Stmt::CompoundAssign { .. } => {},
    }
}

/// Lowers statements in order.
#[verifier::spinoff_prover]
pub fn emit_stmts(
    v: &Vec<Stmt>,
    out: &mut String,
    loop_ctx: &LoopCtx,
    fctx: &FuncCtx,
    string_map: &Vec<(String, String)>,
    counter: &mut usize,
)
    requires
        compound_free_all(view_stmts(v@)),
        keys_unique(string_map@),
        fctx.locals.len() < 0x4000_0000,
        cm_stmts(view_stmts(v@), loop_view(loop_ctx), arm_ctx(fctx, string_map), *old(counter) as nat).1
            <= usize::MAX,
    ensures
        final(out)@ == old(out)@ + cm_stmts(view_stmts(v@), loop_view(loop_ctx), arm_ctx(fctx, string_map), *old(counter) as nat).0,
        *final(counter) == cm_stmts(view_stmts(v@), loop_view(loop_ctx), arm_ctx(fctx, string_map), *old(counter) as nat).1,
    decreases v, 0nat,
{
    let ghost o0 = out@;
    let ghost cx = arm_ctx(fctx, string_map);
    let ghost lc = loop_view(loop_ctx);
    let ghost n0 = *counter as nat;
    let ghost sv = view_stmts(v@);
    proof {
        lemma_view_stmts(v@);
        assert(sv.take(0) =~= Seq::<StmtM>::empty());
    }
    let mut i: usize = 0;
    while i < v.len()
        invariant
            i <= v.len(),
            sv == view_stmts(v@),
            sv.len() == v.len(),
            forall|j: int| 0 <= j < v.len() ==> #[trigger] sv[j] == v@[j].view(),
            compound_free_all(sv),
            keys_unique(string_map@),
            fctx.locals.len() < 0x4000_0000,
            cx == arm_ctx(fctx, string_map),
            lc == loop_view(loop_ctx),
            cm_stmts(sv, lc, cx, n0).1 <= usize::MAX,
            out@ == o0 + cm_stmts(sv.take(i as int), lc, cx, n0).0,
            *counter as nat == cm_stmts(sv.take(i as int), lc, cx, n0).1,
        decreases v.len() - i,
    {
        assert(sv.take(i + 1).drop_last() =~= sv.take(i as int));
        proof {
            lemma_stmts_prefix(sv, (i + 1) as int, lc, cx, n0);
            lemma_compound_free_take(sv, i as int);
        }
        emit_stmt(&v[i], out, loop_ctx, fctx, string_map, counter);
        i += 1;
        assert(out@ =~= o0 + cm_stmts(sv.take(i as int), lc, cx, n0).0);
    }
    assert(sv.take(v.len() as int) =~= sv);
}

#[verifier::spinoff_prover]
fn emit_while(
    stmt: &Stmt,
    out: &mut String,
    loop_ctx: &LoopCtx,
    fctx: &FuncCtx,
    string_map: &Vec<(String, String)>,
    counter: &mut usize,
)
    requires
        stmt is While,
        compound_free(stmt.view()),
        keys_unique(string_map@),
        fctx.locals.len() < 0x4000_0000,
        cm_while(stmt.view(), loop_view(loop_ctx), arm_ctx(fctx, string_map), *old(counter) as nat).1
            <= usize::MAX,
    ensures
        final(out)@ == old(out)@ + cm_while(stmt.view(), loop_view(loop_ctx), arm_ctx(fctx, string_map), *old(counter) as nat).0,
        *final(counter) == cm_while(stmt.view(), loop_view(loop_ctx), arm_ctx(fctx, string_map), *old(counter) as nat).1,
    decreases stmt, 1nat,
{
    let ghost o0 = out@;
    let ghost cx = arm_ctx(fctx, string_map);
    let ghost lc = loop_view(loop_ctx);
    let ghost n0 = *counter as nat;
    if let Stmt::While { cond, body, .. } = stmt {
        proof {
            lemma_expr_mono(cond.view(), cx, n0 + 2);
            let lp = LoopM { start: Some(label("WH"@, n0)), end: Some(label("WH_END"@, n0 + 1)) };
            lemma_stmts_mono(view_stmts(body@), lp, cx, cm_expr(cond.view(), cx, n0 + 2).1);
        }
        let ls = fresh_label("WH", counter);
        let le = fresh_label("WH_END", counter);
        push_label_line(out, &ls);
        emit_expr(cond, out, fctx, string_map, counter);
        push_str(out, "    CMP r0, #0\n    BEQ ");
        push_str(out, le.as_str());
        push_str(out, "\n");
        let inner = LoopCtx { start: Some(ls.clone()), end: Some(le.clone()) };
        emit_stmts(body, out, &inner, fctx, string_map, counter);
        push_str(out, "    B ");
        push_str(out, ls.as_str());
        push_str(out, "\n");
        push_label_line(out, &le);
        assert(out@ =~= o0 + cm_while(stmt.view(), lc, cx, n0).0);
    }
}

#[verifier::spinoff_prover]
fn emit_for(
    stmt: &Stmt,
    out: &mut String,
    loop_ctx: &LoopCtx,
    fctx: &FuncCtx,
    string_map: &Vec<(String, String)>,
    counter: &mut usize,
)
    requires
        stmt is For,
        compound_free(stmt.view()),
        keys_unique(string_map@),
        fctx.locals.len() < 0x4000_0000,
        cm_for(stmt.view(), loop_view(loop_ctx), arm_ctx(fctx, string_map), *old(counter) as nat).1
            <= usize::MAX,
    ensures
        final(out)@ == old(out)@ + cm_for(stmt.view(), loop_view(loop_ctx), arm_ctx(fctx, string_map), *old(counter) as nat).0,
        *final(counter) == cm_for(stmt.view(), loop_view(loop_ctx), arm_ctx(fctx, string_map), *old(counter) as nat).1,
    decreases stmt, 1nat,
{
    let ghost o0 = out@;
    let ghost cx = arm_ctx(fctx, string_map);
    let ghost lc = loop_view(loop_ctx);
    let ghost n0 = *counter as nat;
    if let Stmt::For { var, start, end, step, body, .. } = stmt {
        proof {
            let lp = LoopM { start: Some(label("FOR"@, n0)), end: Some(label("FOR_END"@, n0 + 1)) };
            let m1 = cm_expr(start.view(), cx, n0 + 2).1;
            let m2 = cm_expr(end.view(), cx, m1).1;
            let m3 = cm_stmts(view_stmts(body@), lp, cx, m2).1;
            lemma_expr_mono(start.view(), cx, n0 + 2);
            lemma_expr_mono(end.view(), cx, m1);
            lemma_stmts_mono(view_stmts(body@), lp, cx, m2);
            if let Some(se) = step {
                lemma_expr_mono(se.view(), cx, m3);
            }
        }
        let loop_label = fresh_label("FOR", counter);
        let end_label = fresh_label("FOR_END", counter);
        let ghost sv = sviews(fctx.locals@);
        let ghost mut acc: Seq<char>;
        emit_expr(start, out, fctx, string_map, counter);
        proof {
            acc = cm_expr(start.view(), cx, n0 + 2).0;
        }
        emit_store(out, fctx, var.as_str());
        proof {
            lemma_concat_associative(o0, acc, arm_store(var@, sv));
            acc = acc + arm_store(var@, sv);
        }
        push_label_line(out, &loop_label);
        proof {
            lemma_concat_associative(o0, acc, loop_label@);
            acc = acc + loop_label@;
            lemma_concat_associative(o0, acc, ":\n"@);
            acc = acc + ":\n"@;
        }
        emit_load_var(out, fctx, var.as_str());
        proof {
            lemma_concat_associative(o0, acc, arm_load_var(var@, sv));
            acc = acc + arm_load_var(var@, sv);
        }
        let ghost c2 = *counter as nat;
        emit_expr(end, out, fctx, string_map, counter);
        proof {
            lemma_concat_associative(o0, acc, cm_expr(end.view(), cx, c2).0);
            acc = acc + cm_expr(end.view(), cx, c2).0;
        }
        push_str(out, "    CMP r1, r0\n    BGE ");
        proof {
            lemma_concat_associative(o0, acc, "    CMP r1, r0\n    BGE "@);
            acc = acc + "    CMP r1, r0\n    BGE "@;
        }
        push_str(out, end_label.as_str());
        proof {
            lemma_concat_associative(o0, acc, end_label@);
            acc = acc + end_label@;
        }
        push_str(out, "\n");
        proof {
            lemma_concat_associative(o0, acc, "\n"@);
            acc = acc + "\n"@;
        }
        let inner = LoopCtx { start: Some(loop_label.clone()), end: Some(end_label.clone()) };
        let ghost c3 = *counter as nat;
        emit_stmts(body, out, &inner, fctx, string_map, counter);
        proof {
            let t = cm_stmts(view_stmts(body@), loop_view(&inner), cx, c3).0;
            lemma_concat_associative(o0, acc, t);
            acc = acc + t;
        }
        let ghost c4 = *counter as nat;
        match step {
            Some(se) => emit_expr(se, out, fctx, string_map, counter),
            None => push_str(out, "    MOV r0, #1\n"),
        }
        proof {
            let t = match step {
                Some(se) => cm_expr(se.view(), cx, c4).0,
                None => "    MOV r0, #1\n"@,
            };
            lemma_concat_associative(o0, acc, t);
            acc = acc + t;
        }
        emit_step_var(out, fctx, var.as_str());
        proof {
            lemma_concat_associative(o0, acc, arm_step_var(var@, sv));
            acc = acc + arm_step_var(var@, sv);
        }
        push_str(out, "    B ");
        proof {
            lemma_concat_associative(o0, acc, "    B "@);
            acc = acc + "    B "@;
        }
        push_str(out, loop_label.as_str());
        proof {
            lemma_concat_associative(o0, acc, loop_label@);
            acc = acc + loop_label@;
        }
        push_str(out, "\n");
        proof {
            lemma_concat_associative(o0, acc, "\n"@);
            acc = acc + "\n"@;
        }
        push_label_line(out, &end_label);
        proof {
            lemma_concat_associative(o0, acc, end_label@);
            acc = acc + end_label@;
            lemma_concat_associative(o0, acc, ":\n"@);
            acc = acc + ":\n"@;
        }
        assert(acc == cm_for(stmt.view(), lc, cx, n0).0);
    }
}

#[verifier::spinoff_prover]
fn emit_if(
    stmt: &Stmt,
    out: &mut String,
    loop_ctx: &LoopCtx,
    fctx: &FuncCtx,
    string_map: &Vec<(String, String)>,
    counter: &mut usize,
)
    requires
        stmt is If,
        compound_free(stmt.view()),
        keys_unique(string_map@),
        fctx.locals.len() < 0x4000_0000,
        cm_if(stmt.view(), loop_view(loop_ctx), arm_ctx(fctx, string_map), *old(counter) as nat).1
            <= usize::MAX,
    ensures
        final(out)@ == old(out)@ + cm_if(stmt.view(), loop_view(loop_ctx), arm_ctx(fctx, string_map), *old(counter) as nat).0,
        *final(counter) == cm_if(stmt.view(), loop_view(loop_ctx), arm_ctx(fctx, string_map), *old(counter) as nat).1,
    decreases stmt, 1nat,
{
    let ghost o0 = out@;
    let ghost cx = arm_ctx(fctx, string_map);
    let ghost lc = loop_view(loop_ctx);
    let ghost n0 = *counter as nat;
    if let Stmt::If { cond, body, elifs, else_body, .. } = stmt {
        let ghost av = view_arms(elifs@);
        let ghost le = label("IF_END"@, n0);
        let ghost ln = label("IF_NEXT"@, n0 + 1);
        proof {
            lemma_if_mono(stmt.view(), lc, cx, n0);
            let m1 = cm_expr(cond.view(), cx, n0 + 2).1;
            let m2 = cm_stmts(view_stmts(body@), lc, cx, m1).1;
            let m3 = cm_elifs(av, av.len(), else_body is Some, le, ln, lc, cx, m2).2;
            lemma_expr_mono(cond.view(), cx, n0 + 2);
            lemma_stmts_mono(view_stmts(body@), lc, cx, m1);
            lemma_elifs_mono(av, av.len(), else_body is Some, le, ln, lc, cx, m2);
            if let Some(eb) = else_body {
                lemma_stmts_mono(view_stmts(eb@), lc, cx, m3);
            }
            lemma_view_arms(elifs@);
        }
        let end_label = fresh_label("IF_END", counter);
        let mut next_label = fresh_label("IF_NEXT", counter);
        emit_expr(cond, out, fctx, string_map, counter);
        let mut acc: Ghost<Seq<char>> = Ghost(cm_expr(cond.view(), cx, n0 + 2).0);
        acc = push_more(out, "    CMP r0,#0\n    BEQ ", Ghost(o0), acc);
        acc = push_more(out, next_label.as_str(), Ghost(o0), acc);
        acc = push_more(out, "\n", Ghost(o0), acc);
        let ghost c1 = *counter as nat;
        emit_stmts(body, out, loop_ctx, fctx, string_map, counter);
        proof {
            acc@ = grow(o0, acc@, cm_stmts(view_stmts(body@), lc, cx, c1).0);
        }
        acc = push_more(out, "    B ", Ghost(o0), acc);
        acc = push_more(out, end_label.as_str(), Ghost(o0), acc);
        acc = push_more(out, "\n", Ghost(o0), acc);
        let ghost c2 = *counter as nat;
        let ghost nx0 = next_label@;
        emit_elifs(elifs, else_body.is_some(), &end_label, &mut next_label, out, loop_ctx, fctx, string_map, counter);
        proof {
            acc@ = grow(o0, acc@, cm_elifs(av, av.len(), else_body is Some, le, nx0, lc, cx, c2).0);
        }
        let ghost c3 = *counter as nat;
        let ghost nx = next_label@;
        let ghost tl: Seq<char> = match else_body {
            Some(eb) => nx + ":\n"@ + cm_stmts(view_stmts(eb@), lc, cx, c3).0,
            None => if elifs.len() > 0 {
                nx + ":\n"@
            } else {
                Seq::empty()
            },
        };
        let ghost o1 = out@;
        match else_body {
            Some(eb) => {
                push_label_line(out, &next_label);
                emit_stmts(eb, out, loop_ctx, fctx, string_map, counter);
            },
            None => {
                if elifs.len() > 0 {
                    push_label_line(out, &next_label);
                }
            },
        }
        assert(out@ =~= o1 + tl);
        proof {
            acc@ = grow(o0, acc@, tl);
        }
        push_label_line(out, &end_label);
        proof {
            acc@ = grow(o0, acc@, end_label@);
            acc@ = grow(o0, acc@, ":\n"@);
        }
        assert(acc@ == cm_if(stmt.view(), lc, cx, n0).0);
    }
}

/// The `elif` branches of an `if`.
#[verifier::spinoff_prover]
fn emit_elifs(
    arms: &Vec<(Expr, Vec<Stmt>)>,
    has_else: bool,
    end: &String,
    next: &mut String,
    out: &mut String,
    loop_ctx: &LoopCtx,
    fctx: &FuncCtx,
    string_map: &Vec<(String, String)>,
    counter: &mut usize,
)
    requires
        compound_free_arms(view_arms(arms@)),
        keys_unique(string_map@),
        fctx.locals.len() < 0x4000_0000,
        cm_elifs(view_arms(arms@), arms.len() as nat, has_else, end@, old(next)@, loop_view(loop_ctx), arm_ctx(fctx, string_map), *old(counter) as nat).2
            <= usize::MAX,
    ensures
        final(out)@ == old(out)@ + cm_elifs(view_arms(arms@), arms.len() as nat, has_else, end@, old(next)@, loop_view(loop_ctx), arm_ctx(fctx, string_map), *old(counter) as nat).0,
        final(next)@ == cm_elifs(view_arms(arms@), arms.len() as nat, has_else, end@, old(next)@, loop_view(loop_ctx), arm_ctx(fctx, string_map), *old(counter) as nat).1,
        *final(counter) == cm_elifs(view_arms(arms@), arms.len() as nat, has_else, end@, old(next)@, loop_view(loop_ctx), arm_ctx(fctx, string_map), *old(counter) as nat).2,
    decreases arms, 0nat,
{
    let ghost o0 = out@;
    let ghost cx = arm_ctx(fctx, string_map);
    let ghost lc = loop_view(loop_ctx);
    let ghost n0 = *counter as nat;
    let ghost nx0 = next@;
    let ghost av = view_arms(arms@);
    let ghost total = arms.len() as nat;
    proof {
        lemma_view_arms(arms@);
        assert(av.take(0) =~= Seq::<(ExprM, Seq<StmtM>)>::empty());
    }
    let mut i: usize = 0;
    while i < arms.len()
        invariant
            i <= arms.len(),
            total == arms.len(),
            av == view_arms(arms@),
            av.len() == arms.len(),
            forall|j: int| 0 <= j < arms.len() ==> #[trigger] av[j] == (arms@[j].0.view(), view_stmts(arms@[j].1@)),
            compound_free_arms(av),
            keys_unique(string_map@),
            fctx.locals.len() < 0x4000_0000,
            cx == arm_ctx(fctx, string_map),
            lc == loop_view(loop_ctx),
            cm_elifs(av, total, has_else, end@, nx0, lc, cx, n0).2 <= usize::MAX,
            out@ == o0 + cm_elifs(av.take(i as int), total, has_else, end@, nx0, lc, cx, n0).0,
            next@ == cm_elifs(av.take(i as int), total, has_else, end@, nx0, lc, cx, n0).1,
            *counter as nat == cm_elifs(av.take(i as int), total, has_else, end@, nx0, lc, cx, n0).2,
        decreases arms.len() - i,
    {
        let ghost t = av.take(i + 1);
        proof {
            assert(t.drop_last() =~= av.take(i as int));
            lemma_elifs_prefix(av, (i + 1) as int, total, has_else, end@, nx0, lc, cx, n0);
            lemma_elifs_mono(t, total, has_else, end@, nx0, lc, cx, n0);
            lemma_compound_free_arms_take(av, i as int);
            let m = *counter as nat;
            let m1 = if t.len() == total && !has_else {
                m
            } else {
                m + 1
            };
            lemma_expr_mono(av[i as int].0, cx, m1);
            lemma_stmts_mono(av[i as int].1, lc, cx, cm_expr(av[i as int].0, cx, m1).1);
        }
        let ghost acc0 = cm_elifs(av.take(i as int), total, has_else, end@, nx0, lc, cx, n0).0;
        let ghost cur = next@;
        push_label_line(out, next);
        let mut acc: Ghost<Seq<char>> = Ghost(acc0);
        proof {
            acc@ = grow(o0, acc@, cur);
            acc@ = grow(o0, acc@, ":\n"@);
        }
        let new_next = if i == arms.len() - 1 && !has_else {
            end.clone()
        } else {
            fresh_label("IF_NEXT", counter)
        };
        let ghost c1 = *counter as nat;
        emit_expr(&arms[i].0, out, fctx, string_map, counter);
        proof {
            acc@ = grow(o0, acc@, cm_expr(av[i as int].0, cx, c1).0);
        }
        acc = push_more(out, "    CMP r0,#0\n    BEQ ", Ghost(o0), acc);
        acc = push_more(out, new_next.as_str(), Ghost(o0), acc);
        acc = push_more(out, "\n", Ghost(o0), acc);
        let ghost c2 = *counter as nat;
        emit_stmts(&arms[i].1, out, loop_ctx, fctx, string_map, counter);
        proof {
            acc@ = grow(o0, acc@, cm_stmts(av[i as int].1, lc, cx, c2).0);
        }
        acc = push_more(out, "    B ", Ghost(o0), acc);
        acc = push_more(out, end.as_str(), Ghost(o0), acc);
        acc = push_more(out, "\n", Ghost(o0), acc);
        *next = new_next;
        i += 1;
        assert(acc@ == cm_elifs(av.take(i as int), total, has_else, end@, nx0, lc, cx, n0).0);
    }
    assert(av.take(arms.len() as int) =~= av);
}

fn emit_switch(
    stmt: &Stmt,
    out: &mut String,
    loop_ctx: &LoopCtx,
    fctx: &FuncCtx,
    string_map: &Vec<(String, String)>,
    counter: &mut usize,
)
    requires
        stmt is Switch,
        compound_free(stmt.view()),
        keys_unique(string_map@),
        fctx.locals.len() < 0x4000_0000,
        cm_switch(stmt.view(), loop_view(loop_ctx), arm_ctx(fctx, string_map), *old(counter) as nat).1
            <= usize::MAX,
    ensures
        final(out)@ == old(out)@ + cm_switch(stmt.view(), loop_view(loop_ctx), arm_ctx(fctx, string_map), *old(counter) as nat).0,
        *final(counter) == cm_switch(stmt.view(), loop_view(loop_ctx), arm_ctx(fctx, string_map), *old(counter) as nat).1,
    decreases stmt, 1nat,
{
    let ghost o0 = out@;
    let ghost cx = arm_ctx(fctx, string_map);
    let ghost lc = loop_view(loop_ctx);
    let ghost n0 = *counter as nat;
    if let Stmt::Switch { expr, cases, default, .. } = stmt {
        let ghost cm = view_arms(cases@);
        let ghost m1 = cm_expr(expr.view(), cx, n0).1;
        let ghost le_s = label("SW_END"@, m1);
        let ghost m2: nat = if default is Some {
            m1 + 2
        } else {
            m1 + 1
        };
        let ghost target_s = if default is Some {
            label("SW_DEF"@, m1 + 1)
        } else {
            le_s
        };
        proof {
            lemma_expr_mono(expr.view(), cx, n0);
            lemma_switch_table_mono(stmt.view(), le_s, target_s, lc, cx, m2);
            lemma_switch_chain_mono(stmt.view(), le_s, target_s, lc, cx, m2);
            lemma_view_arms(cases@);
        }
        emit_expr(expr, out, fctx, string_map, counter);
        push_str(out, "    MOV r4,r0\n");
        proof {
            lemma_concat_associative(o0, cm_expr(expr.view(), cx, n0).0, "    MOV r4,r0\n"@);
        }
        let end_label = fresh_label("SW_END", counter);
        let target = if default.is_some() {
            fresh_label("SW_DEF", counter)
        } else {
            end_label.clone()
        };
        let ghost acc = cm_expr(expr.view(), cx, n0).0 + "    MOV r4,r0\n"@;
        assert(out@ == o0 + acc);
        let (use_table, sorted, min, max) = plan_jump_table(cases);
        let ghost c2 = *counter as nat;
        let ghost o1 = out@;
        if use_table {
            emit_switch_table(stmt, &sorted, min, max, &end_label, &target, out, loop_ctx, fctx, string_map, counter);
            proof {
                grow(o0, acc, cm_switch_table(stmt.view(), end_label@, target@, lc, cx, c2).0);
            }
        } else {
            emit_switch_chain(stmt, &end_label, &target, out, loop_ctx, fctx, string_map, counter);
            proof {
                grow(o0, acc, cm_switch_chain(stmt.view(), end_label@, target@, lc, cx, c2).0);
            }
        }
    }
}

#[verifier::spinoff_prover]
fn emit_switch_table(
    stmt: &Stmt,
    sorted: &Vec<(i32, usize)>,
    min: i32,
    max: i32,
    le: &String,
    target: &String,
    out: &mut String,
    loop_ctx: &LoopCtx,
    fctx: &FuncCtx,
    string_map: &Vec<(String, String)>,
    counter: &mut usize,
)
    requires
        stmt is Switch,
        compound_free(stmt.view()),
        keys_unique(string_map@),
        fctx.locals.len() < 0x4000_0000,
        stmt.view() matches StmtM::Switch(_, cases, _, _) && use_jump_table(cases)
            && sorted@ == sort_keys(case_keys(cases)) && min == table_min(sorted@) && max == table_max(sorted@)
            && forall|k: int| 0 <= k < sorted.len() ==> (#[trigger] sorted@[k]).1 < cases.len(),
        cm_switch_table(stmt.view(), le@, target@, loop_view(loop_ctx), arm_ctx(fctx, string_map), *old(counter) as nat).1
            <= usize::MAX,
    ensures
        final(out)@ == old(out)@ + cm_switch_table(stmt.view(), le@, target@, loop_view(loop_ctx), arm_ctx(fctx, string_map), *old(counter) as nat).0,
        *final(counter) == cm_switch_table(stmt.view(), le@, target@, loop_view(loop_ctx), arm_ctx(fctx, string_map), *old(counter) as nat).1,
    decreases stmt, 0nat,
{
    let ghost o0 = out@;
    let ghost cx = arm_ctx(fctx, string_map);
    let ghost lc = loop_view(loop_ctx);
    let ghost n0 = *counter as nat;
    if let Stmt::Switch { cases, default, .. } = stmt {
        let ghost cm = view_arms(cases@);
        let ghost base: nat = n0 + 1;
        proof {
            lemma_sort_keys_bound(case_keys(cm), cm.len() as int);
            lemma_table_bodies_mono(sorted@, sorted@, cm, base, le@, lc, cx, base + cm.len());
            let m3 = cm_table_bodies(sorted@, sorted@, cm, base, le@, lc, cx, base + cm.len()).1;
            if let Some(db) = default {
                lemma_stmts_mono(view_stmts(db@), lc, cx, m3);
            }
            assert(cm_switch_table(stmt.view(), le@, target@, lc, cx, n0).1 >= m3);
            lemma_view_arms(cases@);
        }
        let table_label = fresh_label("SW_JT", counter);
        emit_table_head(min, max, target, &table_label, out);
        let mut acc: Ghost<Seq<char>> = Ghost(cm_table_head(min as int, max as int, target@, table_label@));
        let labels = fresh_labels("SW_CASE", sorted.len(), counter);
        let ghost c1 = *counter as nat;
        emit_table_bodies(sorted, &labels, Ghost(base), cases, le, out, loop_ctx, fctx, string_map, counter);
        proof {
            acc@ = grow(o0, acc@, cm_table_bodies(sorted@, sorted@, cm, base, le@, lc, cx, c1).0);
        }
        let ghost c3 = *counter as nat;
        let ghost td: Seq<char> = match default {
            Some(db) => target@ + ":\n"@ + cm_stmts(view_stmts(db@), lc, cx, c3).0,
            None => Seq::empty(),
        };
        let ghost o1 = out@;
        if let Some(db) = default {
            push_label_line(out, target);
            emit_stmts(db, out, loop_ctx, fctx, string_map, counter);
        }
        assert(out@ =~= o1 + td);
        proof {
            acc@ = grow(o0, acc@, td);
        }
        push_label_line(out, le);
        proof {
            acc@ = grow(o0, acc@, le@);
            acc@ = grow(o0, acc@, ":\n"@);
        }
        push_label_line(out, &table_label);
        proof {
            acc@ = grow(o0, acc@, table_label@);
            acc@ = grow(o0, acc@, ":\n"@);
        }
        emit_table_entries(sorted, &labels, Ghost(base), min, max, target, out);
        proof {
            acc@ = grow(o0, acc@, arm_table_entries(sorted@, base, min as int, (max - min + 1) as nat, target@));
        }
        assert(acc@ == cm_switch_table(stmt.view(), le@, target@, lc, cx, n0).0);
    }
}

/// The range checks and indirect jump of a jump table.
fn emit_table_head(min: i32, max: i32, target: &String, table_label: &String, out: &mut String)
    ensures
        final(out)@ == old(out)@ + cm_table_head(min as int, max as int, target@, table_label@),
{
    let ghost o0 = out@;
    push_str(out, "    MOV r5,#");
    push_dec_i64(out, min as i64);
    push_str(out, "\n    CMP r4,r5\n    BLT ");
    push_str(out, target.as_str());
    push_str(out, "\n");
    push_str(out, "    MOV r5,#");
    push_dec_i64(out, max as i64);
    push_str(out, "\n    CMP r4,r5\n    BGT ");
    push_str(out, target.as_str());
    push_str(out, "\n");
    if min != 0 {
        push_str(out, "    SUB r4,r4,#");
        push_dec_i64(out, min as i64);
        push_str(out, "\n");
    }
    push_str(out, "    LDR r5, =");
    push_str(out, table_label.as_str());
    push_str(
        out,
        "\n    LSL r4,r4,#2\n    ADD r5,r5,r4\n    LDR r5, [r5]\n    BX r5\n",
    );
    assert(out@ =~= o0 + cm_table_head(min as int, max as int, target@, table_label@));
}

/// The case bodies of a jump table in value order.
#[verifier::spinoff_prover]
fn emit_table_bodies(
    sorted: &Vec<(i32, usize)>,
    labels: &Vec<String>,
    base: Ghost<nat>,
    cases: &Vec<(Expr, Vec<Stmt>)>,
    le: &String,
    out: &mut String,
    loop_ctx: &LoopCtx,
    fctx: &FuncCtx,
    string_map: &Vec<(String, String)>,
    counter: &mut usize,
)
    requires
        labels.len() == sorted.len(),
        forall|k: int| 0 <= k < labels.len() ==> (#[trigger] labels@[k])@ == label("SW_CASE"@, (base@ + k) as nat),
        forall|k: int| 0 <= k < sorted.len() ==> (#[trigger] sorted@[k]).1 < cases.len(),
        compound_free_arms(view_arms(cases@)),
        keys_unique(string_map@),
        fctx.locals.len() < 0x4000_0000,
        cm_table_bodies(sorted@, sorted@, view_arms(cases@), base@, le@, loop_view(loop_ctx), arm_ctx(fctx, string_map), *old(counter) as nat).1
            <= usize::MAX,
    ensures
        final(out)@ == old(out)@ + cm_table_bodies(sorted@, sorted@, view_arms(cases@), base@, le@, loop_view(loop_ctx), arm_ctx(fctx, string_map), *old(counter) as nat).0,
        *final(counter) == cm_table_bodies(sorted@, sorted@, view_arms(cases@), base@, le@, loop_view(loop_ctx), arm_ctx(fctx, string_map), *old(counter) as nat).1,
    decreases cases, 0nat,
{
    let ghost o0 = out@;
    let ghost cx = arm_ctx(fctx, string_map);
    let ghost lc = loop_view(loop_ctx);
    let ghost n0 = *counter as nat;
    let ghost cm = view_arms(cases@);
    let ghost ss = sorted@;
    proof {
        lemma_view_arms(cases@);
        assert(ss.take(0) =~= Seq::<(i32, usize)>::empty());
    }
    let mut k: usize = 0;
    while k < sorted.len()
        invariant
            k <= sorted.len(),
            ss == sorted@,
            cm == view_arms(cases@),
            cm.len() == cases.len(),
            forall|j: int| 0 <= j < cases.len() ==> #[trigger] cm[j] == (cases@[j].0.view(), view_stmts(cases@[j].1@)),
            labels.len() == sorted.len(),
            forall|q: int| 0 <= q < labels.len() ==> (#[trigger] labels@[q])@ == label("SW_CASE"@, (base@ + q) as nat),
            forall|q: int| 0 <= q < sorted.len() ==> (#[trigger] sorted@[q]).1 < cases.len(),
            compound_free_arms(cm),
            keys_unique(string_map@),
            fctx.locals.len() < 0x4000_0000,
            cx == arm_ctx(fctx, string_map),
            lc == loop_view(loop_ctx),
            cm_table_bodies(ss, ss, cm, base@, le@, lc, cx, n0).1 <= usize::MAX,
            out@ == o0 + cm_table_bodies(ss.take(k as int), ss, cm, base@, le@, lc, cx, n0).0,
            *counter as nat == cm_table_bodies(ss.take(k as int), ss, cm, base@, le@, lc, cx, n0).1,
        decreases sorted.len() - k,
    {
        let j = sorted[k].1;
        proof {
            assert(ss.take(k + 1).drop_last() =~= ss.take(k as int));
            lemma_table_bodies_prefix(ss, (k + 1) as int, ss, cm, base@, le@, lc, cx, n0);
            lemma_last_key_range(ss, ss[k as int].0 as int);
            lemma_compound_free_arms_take(cm, j as int);
        }
        let lk = last_key_exec(sorted, sorted[k].0 as i64);
        if let Some(q) = lk {
            push_label_line(out, &labels[q]);
        }
        emit_stmts(&cases[j].1, out, loop_ctx, fctx, string_map, counter);
        push_str(out, "    B ");
        push_str(out, le.as_str());
        push_str(out, "\n");
        k += 1;
        assert(out@ =~= o0 + cm_table_bodies(ss.take(k as int), ss, cm, base@, le@, lc, cx, n0).0);
    }
    assert(ss.take(sorted.len() as int) =~= ss);
}

#[verifier::spinoff_prover]
fn emit_switch_chain(
    stmt: &Stmt,
    le: &String,
    target: &String,
    out: &mut String,
    loop_ctx: &LoopCtx,
    fctx: &FuncCtx,
    string_map: &Vec<(String, String)>,
    counter: &mut usize,
)
    requires
        stmt is Switch,
        compound_free(stmt.view()),
        keys_unique(string_map@),
        fctx.locals.len() < 0x4000_0000,
        cm_switch_chain(stmt.view(), le@, target@, loop_view(loop_ctx), arm_ctx(fctx, string_map), *old(counter) as nat).1
            <= usize::MAX,
    ensures
        final(out)@ == old(out)@ + cm_switch_chain(stmt.view(), le@, target@, loop_view(loop_ctx), arm_ctx(fctx, string_map), *old(counter) as nat).0,
        *final(counter) == cm_switch_chain(stmt.view(), le@, target@, loop_view(loop_ctx), arm_ctx(fctx, string_map), *old(counter) as nat).1,
    decreases stmt, 0nat,
{
    let ghost o0 = out@;
    let ghost cx = arm_ctx(fctx, string_map);
    let ghost lc = loop_view(loop_ctx);
    let ghost n0 = *counter as nat;
    if let Stmt::Switch { cases, default, .. } = stmt {
        let ghost cm = view_arms(cases@);
        proof {
            lemma_view_arms(cases@);
            lemma_case_tests_mono(cm, n0, cx, n0 + cm.len());
            let m3 = cm_case_tests(cm, n0, cx, n0 + cm.len()).1;
            lemma_chain_mono(cm, n0, le@, lc, cx, m3);
            let m4 = cm_chain_bodies(cm, n0, le@, lc, cx, m3).1;
            if let Some(db) = default {
                lemma_stmts_mono(view_stmts(db@), lc, cx, m4);
            }
            assert(cm_switch_chain(stmt.view(), le@, target@, lc, cx, n0).1 >= m4);
        }
        let labels = fresh_labels("SW_CASE", cases.len(), counter);
        let ghost c1 = *counter as nat;
        emit_case_tests(cases, &labels, Ghost(n0), out, fctx, string_map, counter);
        let mut acc: Ghost<Seq<char>> = Ghost(cm_case_tests(cm, n0, cx, c1).0);
        acc = push_more(out, "    B ", Ghost(o0), acc);
        acc = push_more(out, target.as_str(), Ghost(o0), acc);
        acc = push_more(out, "\n", Ghost(o0), acc);
        let ghost c2 = *counter as nat;
        emit_chain_bodies(cases, &labels, Ghost(n0), le, out, loop_ctx, fctx, string_map, counter);
        proof {
            acc@ = grow(o0, acc@, cm_chain_bodies(cm, n0, le@, lc, cx, c2).0);
        }
        let ghost c3 = *counter as nat;
        let ghost td: Seq<char> = match default {
            Some(db) => target@ + ":\n"@ + cm_stmts(view_stmts(db@), lc, cx, c3).0,
            None => Seq::empty(),
        };
        let ghost o1 = out@;
        if let Some(db) = default {
            push_label_line(out, target);
            emit_stmts(db, out, loop_ctx, fctx, string_map, counter);
        }
        assert(out@ =~= o1 + td);
        proof {
            acc@ = grow(o0, acc@, td);
        }
        push_label_line(out, le);
        proof {
            acc@ = grow(o0, acc@, le@);
            acc@ = grow(o0, acc@, ":\n"@);
        }
        assert(acc@ == cm_switch_chain(stmt.view(), le@, target@, lc, cx, n0).0);
    }
}

/// Compares r4 with each case value in turn, jumping to the case's label.
#[verifier::spinoff_prover]
fn emit_case_tests(
    cases: &Vec<(Expr, Vec<Stmt>)>,
    labels: &Vec<String>,
    base: Ghost<nat>,
    out: &mut String,
    fctx: &FuncCtx,
    string_map: &Vec<(String, String)>,
    counter: &mut usize,
)
    requires
        labels.len() == cases.len(),
        forall|k: int| 0 <= k < labels.len() ==> (#[trigger] labels@[k])@ == label("SW_CASE"@, (base@ + k) as nat),
        keys_unique(string_map@),
        fctx.locals.len() < 0x4000_0000,
        cm_case_tests(view_arms(cases@), base@, arm_ctx(fctx, string_map), *old(counter) as nat).1 <= usize::MAX,
    ensures
        final(out)@ == old(out)@ + cm_case_tests(view_arms(cases@), base@, arm_ctx(fctx, string_map), *old(counter) as nat).0,
        *final(counter) == cm_case_tests(view_arms(cases@), base@, arm_ctx(fctx, string_map), *old(counter) as nat).1,
{
    let ghost o0 = out@;
    let ghost cx = arm_ctx(fctx, string_map);
    let ghost n0 = *counter as nat;
    let ghost cm = view_arms(cases@);
    proof {
        lemma_view_arms(cases@);
        assert(cm.take(0) =~= Seq::<(ExprM, Seq<StmtM>)>::empty());
    }
    let mut k: usize = 0;
    while k < cases.len()
        invariant
            k <= cases.len(),
            cm == view_arms(cases@),
            cm.len() == cases.len(),
            forall|j: int| 0 <= j < cases.len() ==> #[trigger] cm[j] == (cases@[j].0.view(), view_stmts(cases@[j].1@)),
            labels.len() == cases.len(),
            forall|q: int| 0 <= q < labels.len() ==> (#[trigger] labels@[q])@ == label("SW_CASE"@, (base@ + q) as nat),
            keys_unique(string_map@),
            fctx.locals.len() < 0x4000_0000,
            cx == arm_ctx(fctx, string_map),
            cm_case_tests(cm, base@, cx, n0).1 <= usize::MAX,
            out@ == o0 + cm_case_tests(cm.take(k as int), base@, cx, n0).0,
            *counter as nat == cm_case_tests(cm.take(k as int), base@, cx, n0).1,
        decreases cases.len() - k,
    {
        proof {
            assert(cm.take(k + 1).drop_last() =~= cm.take(k as int));
            lemma_case_tests_prefix(cm, (k + 1) as int, base@, cx, n0);
        }
        emit_expr(&cases[k].0, out, fctx, string_map, counter);
        push_str(out, "    CMP r4,r0\n    BEQ ");
        push_str(out, labels[k].as_str());
        push_str(out, "\n");
        k += 1;
        assert(out@ =~= o0 + cm_case_tests(cm.take(k as int), base@, cx, n0).0);
    }
    assert(cm.take(cases.len() as int) =~= cm);
}

/// The bodies of a chain of cases, each under its label.
#[verifier::spinoff_prover]
fn emit_chain_bodies(
    cases: &Vec<(Expr, Vec<Stmt>)>,
    labels: &Vec<String>,
    base: Ghost<nat>,
    le: &String,
    out: &mut String,
    loop_ctx: &LoopCtx,
    fctx: &FuncCtx,
    string_map: &Vec<(String, String)>,
    counter: &mut usize,
)
    requires
        labels.len() == cases.len(),
        forall|k: int| 0 <= k < labels.len() ==> (#[trigger] labels@[k])@ == label("SW_CASE"@, (base@ + k) as nat),
        compound_free_arms(view_arms(cases@)),
        keys_unique(string_map@),
        fctx.locals.len() < 0x4000_0000,
        cm_chain_bodies(view_arms(cases@), base@, le@, loop_view(loop_ctx), arm_ctx(fctx, string_map), *old(counter) as nat).1
            <= usize::MAX,
    ensures
        final(out)@ == old(out)@ + cm_chain_bodies(view_arms(cases@), base@, le@, loop_view(loop_ctx), arm_ctx(fctx, string_map), *old(counter) as nat).0,
        *final(counter) == cm_chain_bodies(view_arms(cases@), base@, le@, loop_view(loop_ctx), arm_ctx(fctx, string_map), *old(counter) as nat).1,
    decreases cases, 0nat,
{
    let ghost o0 = out@;
    let ghost cx = arm_ctx(fctx, string_map);
    let ghost lc = loop_view(loop_ctx);
    let ghost n0 = *counter as nat;
    let ghost cm = view_arms(cases@);
    proof {
        lemma_view_arms(cases@);
        assert(cm.take(0) =~= Seq::<(ExprM, Seq<StmtM>)>::empty());
    }
    let mut k: usize = 0;
    while k < cases.len()
        invariant
            k <= cases.len(),
            cm == view_arms(cases@),
            cm.len() == cases.len(),
            forall|j: int| 0 <= j < cases.len() ==> #[trigger] cm[j] == (cases@[j].0.view(), view_stmts(cases@[j].1@)),
            labels.len() == cases.len(),
            forall|q: int| 0 <= q < labels.len() ==> (#[trigger] labels@[q])@ == label("SW_CASE"@, (base@ + q) as nat),
            compound_free_arms(cm),
            keys_unique(string_map@),
            fctx.locals.len() < 0x4000_0000,
            cx == arm_ctx(fctx, string_map),
            lc == loop_view(loop_ctx),
            cm_chain_bodies(cm, base@, le@, lc, cx, n0).1 <= usize::MAX,
            out@ == o0 + cm_chain_bodies(cm.take(k as int), base@, le@, lc, cx, n0).0,
            *counter as nat == cm_chain_bodies(cm.take(k as int), base@, le@, lc, cx, n0).1,
        decreases cases.len() - k,
    {
        proof {
            assert(cm.take(k + 1).drop_last() =~= cm.take(k as int));
            lemma_chain_prefix(cm, (k + 1) as int, base@, le@, lc, cx, n0);
            lemma_compound_free_arms_take(cm, k as int);
        }
        push_label_line(out, &labels[k]);
        emit_stmts(&cases[k].1, out, loop_ctx, fctx, string_map, counter);
        push_str(out, "    B ");
        push_str(out, le.as_str());
        push_str(out, "\n");
        k += 1;
        assert(out@ =~= o0 + cm_chain_bodies(cm.take(k as int), base@, le@, lc, cx, n0).0);
    }
    assert(cm.take(cases.len() as int) =~= cm);
}

/// Variables a statement refers to: assigned names and the identifiers of
/// its expressions and bodies; `let` statements and the variables of `for`
/// loops are left out.
pub open spec fn cm_stmt_syms(s: StmtM) -> Set<Seq<char>>
    decreases s,
{
    match s {
        StmtM::Assign(t, v, _) => set![t.name] + expr_syms(v),
        StmtM::Let(_, v, _) => expr_syms(v),
        StmtM::Expr(e, _) => expr_syms(e),
        StmtM::For(_, st, en, step, b, _) => expr_syms(st) + expr_syms(en) + (match step {
            Some(se) => expr_syms(se),
            None => Set::empty(),
        }) + cm_stmts_syms(b),
        StmtM::While(c, b, _) => expr_syms(c) + cm_stmts_syms(b),
        StmtM::If(c, b, elifs, els, _) => expr_syms(c) + cm_stmts_syms(b) + cm_arms_syms(elifs)
            + (match els {
            Some(eb) => cm_stmts_syms(eb),
            None => Set::empty(),
        }),
        StmtM::Return(Some(e), _) => expr_syms(e),
        StmtM::Switch(e, cases, def, _) => expr_syms(e) + cm_arms_syms(cases) + (match def {
            Some(db) => cm_stmts_syms(db),
            None => Set::empty(),
        }),
        _ => Set::empty(),
    }
}

/// Variables statements refer to.
pub open spec fn cm_stmts_syms(s: Seq<StmtM>) -> Set<Seq<char>>
    decreases s,
{
    if s.len() == 0 {
        Set::empty()
    } else {
        cm_stmts_syms(s.drop_last()) + cm_stmt_syms(s.last())
    }
}

/// Variables of guarded arms: guards and bodies.
pub open spec fn cm_arms_syms(s: Seq<(ExprM, Seq<StmtM>)>) -> Set<Seq<char>>
    decreases s,
{
    if s.len() == 0 {
        Set::empty()
    } else {
        cm_arms_syms(s.drop_last()) + expr_syms(s.last().0) + cm_stmts_syms(s.last().1)
    }
}

/// Variables the functions of a module refer to.
pub open spec fn items_cm_syms(items: Seq<ItemM>) -> Set<Seq<char>>
    decreases items.len(),
{
    if items.len() == 0 {
        Set::empty()
    } else {
        items_cm_syms(items.drop_last()) + match items.last() {
            ItemM::Function(f) => cm_stmts_syms(f.body),
            ItemM::ExprStatement(e) => expr_syms(e),
            _ => Set::empty(),
        }
    }
}

/// Gathers the variables a statement refers to.
fn collect_stmt_syms(stmt: &Stmt, set: &mut Vec<String>)
    requires
        sorted(sviews(old(set)@)),
    ensures
        sorted(sviews(final(set)@)),
        set_of(final(set)@) == set_of(old(set)@) + cm_stmt_syms(stmt.view()),
    decreases stmt,
{
    match stmt {
        Stmt::Assign { target, value, .. } => {
            set_insert(set, target.name.clone());
            collect_expr_syms(value, set);
        },
        Stmt::Let { value, .. } => {
            collect_expr_syms(value, set);
        },
        Stmt::Expr(e, _) => {
            collect_expr_syms(e, set);
        },
        Stmt::For { start, end, step, body, .. } => {
            collect_expr_syms(start, set);
            collect_expr_syms(end, set);
            if let Some(se) = step {
                collect_expr_syms(se, set);
            }
            collect_stmts_syms(body, set);
        },
        Stmt::While { cond, body, .. } => {
            collect_expr_syms(cond, set);
            collect_stmts_syms(body, set);
        },
        Stmt::If { cond, body, elifs, else_body, .. } => {
            collect_expr_syms(cond, set);
            collect_stmts_syms(body, set);
            collect_arms_syms(elifs, set);
            if let Some(eb) = else_body {
                collect_stmts_syms(eb, set);
            }
        },
        Stmt::Return(Some(e), _) => {
            collect_expr_syms(e, set);
        },
        Stmt::Switch { expr, cases, default, .. } => {
            collect_expr_syms(expr, set);
            collect_arms_syms(cases, set);
            if let Some(db) = default {
                collect_stmts_syms(db, set);
            }
        },
        _ => {},
    }
    assert(set_of(set@) =~= set_of(old(set)@) + cm_stmt_syms(stmt.view()));
}

/// Gathers the variables statements refer to.
fn collect_stmts_syms(v: &Vec<Stmt>, set: &mut Vec<String>)
    requires
        sorted(sviews(old(set)@)),
    ensures
        sorted(sviews(final(set)@)),
        set_of(final(set)@) == set_of(old(set)@) + cm_stmts_syms(view_stmts(v@)),
    decreases v,
{
    let mut i: usize = 0;
    assert(v@.take(0) =~= Seq::<Stmt>::empty());
    assert(set_of(set@) =~= set_of(old(set)@) + cm_stmts_syms(view_stmts(v@.take(0))));
    while i < v.len()
        invariant
            i <= v.len(),
            sorted(sviews(set@)),
            set_of(set@) == set_of(old(set)@) + cm_stmts_syms(view_stmts(v@.take(i as int))),
        decreases v.len() - i,
    {
        proof {
            lemma_view_stmts_take(v@, i as int);
            assert(view_stmts(v@.take(i + 1)).drop_last() =~= view_stmts(v@.take(i as int)));
        }
        collect_stmt_syms(&v[i], set);
        i += 1;
        assert(set_of(set@) =~= set_of(old(set)@) + cm_stmts_syms(view_stmts(v@.take(i as int))));
    }
    assert(v@.take(v.len() as int) =~= v@);
}

/// Gathers the variables of guarded arms.
fn collect_arms_syms(v: &Vec<(Expr, Vec<Stmt>)>, set: &mut Vec<String>)
    requires
        sorted(sviews(old(set)@)),
    ensures
        sorted(sviews(final(set)@)),
        set_of(final(set)@) == set_of(old(set)@) + cm_arms_syms(view_arms(v@)),
    decreases v,
{
    let mut i: usize = 0;
    assert(v@.take(0) =~= Seq::<(Expr, Vec<Stmt>)>::empty());
    assert(set_of(set@) =~= set_of(old(set)@) + cm_arms_syms(view_arms(v@.take(0))));
    while i < v.len()
        invariant
            i <= v.len(),
            sorted(sviews(set@)),
            set_of(set@) == set_of(old(set)@) + cm_arms_syms(view_arms(v@.take(i as int))),
        decreases v.len() - i,
    {
        proof {
            lemma_view_arms_take(v@, i as int);
            assert(view_arms(v@.take(i + 1)).drop_last() =~= view_arms(v@.take(i as int)));
        }
        collect_expr_syms(&v[i].0, set);
        collect_stmts_syms(&v[i].1, set);
        i += 1;
        assert(set_of(set@) =~= set_of(old(set)@) + cm_arms_syms(view_arms(v@.take(i as int))));
    }
    assert(v@.take(v.len() as int) =~= v@);
}

/// The variables that get a data word: every name the functions and the
/// top-level expressions refer to, except those that get a stack slot in
/// some function, in ascending order.
pub fn collect_symbols(module: &Module) -> (r: Vec<String>)
    ensures
        sorted(sviews(r@)),
        set_of(r@) == items_cm_syms(module.view().items).difference(items_arm_lets(module.view().items)),
{
    let ghost items = module.view().items;
    let mut globals: Vec<String> = Vec::new();
    let mut locals: Vec<String> = Vec::new();
    assert(set_of(globals@) =~= Set::<Seq<char>>::empty());
    assert(items.take(0) =~= Seq::<ItemM>::empty());
    let mut i: usize = 0;
    while i < module.items.len()
        invariant
            i <= module.items.len(),
            items == module.view().items,
            items.len() == module.items.len(),
            sorted(sviews(globals@)),
            sorted(sviews(locals@)),
            set_of(globals@) == items_cm_syms(items.take(i as int)),
            set_of(locals@) == items_arm_lets(items.take(i as int)),
        decreases module.items.len() - i,
    {
        proof {
            assert(items.take(i + 1).drop_last() =~= items.take(i as int));
            assert(items[i as int] == module.items@[i as int].view());
        }
        let ghost g0 = set_of(globals@);
        let ghost l0 = set_of(locals@);
        if let Item::Function(f) = &module.items[i] {
            collect_stmts_syms(&f.body, &mut globals);
            let l = collect_locals(&f.body);
            set_insert_all(&mut locals, &l);
        } else if let Item::ExprStatement(e) = &module.items[i] {
            collect_expr_syms(e, &mut globals);
            assert(set_of(locals@) =~= l0 + Set::<Seq<char>>::empty());
        } else {
            assert(set_of(globals@) =~= g0 + Set::<Seq<char>>::empty());
            assert(set_of(locals@) =~= l0 + Set::<Seq<char>>::empty());
        }
        i += 1;
    }
    assert(items.take(module.items.len() as int) =~= items);
    let ghost g = set_of(globals@);
    let mut k: usize = 0;
    while k < locals.len()
        invariant
            k <= locals.len(),
            sorted(sviews(globals@)),
            set_of(globals@) == g.difference(set_of(locals@.take(k as int))),
        decreases locals.len() - k,
    {
        set_remove(&mut globals, locals[k].as_str());
        assert(set_of(locals@.take(k + 1)) =~= set_of(locals@.take(k as int)).insert(locals@[k as int]@)) by {
            assert(sviews(locals@.take(k + 1)) =~= sviews(locals@.take(k as int)).push(locals@[k as int]@));
            lemma_push_to_set(sviews(locals@.take(k as int)), locals@[k as int]@);
        }
        k += 1;
        assert(set_of(globals@) =~= g.difference(set_of(locals@.take(k as int))));
    }
    assert(locals@.take(locals.len() as int) =~= locals@);
    globals
}

/// The code of a function: its global label, the stack frame of its locals
/// (two bytes each), the stores of up to four parameters, the body, and a
/// return unless the body ends with one.
pub open spec fn cm_function(f: FunctionM, strs: Map<Seq<char>, Seq<char>>, n: nat) -> (Seq<char>, nat) {
    let locals = arm_fn_locals(f);
    let frame = (2 * locals.len()) as i32;
    let cx = ArmCtx { locals, strs, frame };
    let (tb, m) = cm_stmts(f.body, LoopM { start: None, end: None }, cx, n);
    let k: nat = if f.params.len() < 4 {
        f.params.len()
    } else {
        4
    };
    (".global "@ + f.name + "\n"@ + f.name + ":\n"@ + (if frame > 0 {
        "    SUB sp, sp, #"@ + dec_int(frame as int) + "\n"@
    } else {
        Seq::empty()
    }) + arm_params(f.params, k) + tb + (if ends_with_return(f.body) {
        Seq::empty()
    } else {
        arm_release(frame) + "    BX LR\n"@
    }) + "\n"@, m)
}

/// Emits a function: its label, frame, parameter stores, body and tail
/// return.
pub fn emit_function(f: &Function, out: &mut String, string_map: &Vec<(String, String)>, counter: &mut usize)
    requires
        compound_free_all(view_stmts(f.body@)),
        keys_unique(string_map@),
        arm_fn_locals(f.view()).len() < 0x4000_0000,
        cm_function(f.view(), smap(string_map@), *old(counter) as nat).1 <= usize::MAX,
    ensures
        final(out)@ == old(out)@ + cm_function(f.view(), smap(string_map@), *old(counter) as nat).0,
        *final(counter) == cm_function(f.view(), smap(string_map@), *old(counter) as nat).1,
{
    let ghost o0 = out@;
    let ghost n0 = *counter as nat;
    let ghost fv = f.view();
    push_str(out, ".global ");
    let mut acc: Ghost<Seq<char>> = Ghost(".global "@);
    acc = push_more(out, f.name.as_str(), Ghost(o0), acc);
    acc = push_more(out, "\n", Ghost(o0), acc);
    acc = push_more(out, f.name.as_str(), Ghost(o0), acc);
    acc = push_more(out, ":\n", Ghost(o0), acc);
    let locals = collect_locals(&f.body);
    proof {
        lemma_sorted_names(locals@);
    }
    let frame_size: i32 = (locals.len() as i32) * 2;
    let ghost o1 = out@;
    if frame_size > 0 {
        push_str(out, "    SUB sp, sp, #");
        push_dec_i64(out, frame_size as i64);
        push_str(out, "\n");
    }
    let ghost sub: Seq<char> = if frame_size > 0 {
        "    SUB sp, sp, #"@ + dec_int(frame_size as int) + "\n"@
    } else {
        Seq::empty()
    };
    assert(out@ =~= o1 + sub);
    proof {
        acc@ = grow(o0, acc@, sub);
    }
    let limit: usize = if f.params.len() < 4 {
        f.params.len()
    } else {
        4
    };
    let ghost pv = sviews(f.params@);
    let ghost o2 = out@;
    let mut i: usize = 0;
    assert(o2 =~= o2 + arm_params(pv, 0));
    while i < limit
        invariant
            i <= limit <= 4,
            limit <= f.params.len(),
            pv == sviews(f.params@),
            out@ == o2 + arm_params(pv, i as nat),
        decreases limit - i,
    {
        let ghost before = arm_params(pv, i as nat);
        emit_param_store(out, f.params[i].as_str(), i);
        proof {
            lemma_concat_associative(o2, before, param_store(pv[i as int], i as nat));
        }
        i += 1;
    }
    proof {
        acc@ = grow(o0, acc@, arm_params(pv, limit as nat));
    }
    let fctx = FuncCtx { locals, frame_size };
    let top = LoopCtx { start: None, end: None };
    let ghost cx = arm_ctx(&fctx, string_map);
    let ghost c1 = *counter as nat;
    proof {
        assert(loop_view(&top) == LoopM { start: None, end: None });
        assert(cx == ArmCtx { locals: arm_fn_locals(fv), strs: smap(string_map@), frame: (2 * arm_fn_locals(fv).len()) as i32 });
        lemma_stmts_mono(fv.body, loop_view(&top), cx, c1);
    }
    emit_stmts(&f.body, out, &top, &fctx, string_map, counter);
    proof {
        acc@ = grow(o0, acc@, cm_stmts(fv.body, loop_view(&top), cx, c1).0);
    }
    let ends = f.body.len() > 0 && matches!(f.body[f.body.len() - 1], Stmt::Return(..));
    proof {
        lemma_view_stmts(f.body@);
        assert(ends == ends_with_return(fv.body));
    }
    let ghost o3 = out@;
    if !ends {
        emit_release(out, frame_size);
        push_str(out, "    BX LR\n");
    }
    let ghost tail: Seq<char> = if ends {
        Seq::empty()
    } else {
        arm_release(frame_size) + "    BX LR\n"@
    };
    assert(out@ =~= o3 + tail);
    proof {
        acc@ = grow(o0, acc@, tail);
    }
    push_str(out, "\n");
    proof {
        acc@ = grow(o0, acc@, "\n"@);
    }
    assert(acc@ == cm_function(fv, smap(string_map@), n0).0);
}

/// The code of a top-level item: functions and numeric constants; other
/// items produce nothing.
pub open spec fn cm_item(i: ItemM, strs: Map<Seq<char>, Seq<char>>, n: nat) -> (Seq<char>, nat) {
    match i {
        ItemM::Function(f) => cm_function(f, strs, n),
        ItemM::Const(name, ExprM::Number(x), _) => (".equ "@ + name + " , "@ + dec_int(low16(x as int)) + "\n"@, n),
        _ => (Seq::empty(), n),
    }
}

/// The code of top-level items in order.
pub open spec fn cm_items(items: Seq<ItemM>, strs: Map<Seq<char>, Seq<char>>, n: nat) -> (Seq<char>, nat)
    decreases items.len(),
{
    if items.len() == 0 {
        (Seq::empty(), n)
    } else {
        let (t, m) = cm_items(items.drop_last(), strs, n);
        let (u, k) = cm_item(items.last(), strs, m);
        (t + u, k)
    }
}

/// The fixed text between the title line and the items.
pub open spec fn cm_intro() -> Seq<char> {
    ";***************************************************************************\n; DEFINE SECTION (Cortex-M)\n;***************************************************************************\n; (No Vectrex header needed)\n\n"@
        + ";***************************************************************************\n; CODE SECTION\n;***************************************************************************\n"@
        + "; Vector table (prototype)\n    .section .isr_vector\n    .word _estack\n    .word Reset_Handler\n\nReset_Handler:\n    BL engine_init\n    BL main\n1:  B 1b\n\n"@
}

/// The runtime helpers and the start of the data section.
pub open spec fn cm_runtime() -> Seq<char> {
    ";***************************************************************************\n; RUNTIME SECTION\n;***************************************************************************\n; Runtime helpers\n"@
        + "__mul32:\n    PUSH {r2,r3,lr}\n    MOV r2,#0\n    CMP r1,#0\n    BEQ __mul32_done\n__mul32_loop:\n    AND r3,r1,#1\n    CMP r3,#0\n    BEQ __mul32_skip\n    ADD r2,r2,r0\n__mul32_skip:\n    LSR r1,r1,#1\n    LSL r0,r0,#1\n    CMP r1,#0\n    BNE __mul32_loop\n__mul32_done:\n    MOV r0,r2\n    POP {r2,r3,lr}\n    BX lr\n\n"@
        + "__div32:\n    PUSH {r2,r3,lr}\n    MOV r2,#0\n    CMP r1,#0\n    BEQ __div32_done\n    MOV r3,r0\n__div32_loop:\n    CMP r3,r1\n    BLT __div32_done\n    SUB r3,r3,r1\n    ADD r2,r2,#1\n    B __div32_loop\n__div32_done:\n    MOV r0,r2\n    POP {r2,r3,lr}\n    BX lr\n\n"@
        + ";***************************************************************************\n; DATA SECTION\n;***************************************************************************\n; Data\n    .section .data\n"@
        + "; Trig tables (shared)\n"@
}

/// The scratch words for call arguments that end the data section.
pub open spec fn cm_outro() -> Seq<char> {
    "; Call arg scratch\nVAR_ARG0: .word 0\nVAR_ARG1: .word 0\nVAR_ARG2: .word 0\nVAR_ARG3: .word 0\n"@
}

/// The assembly of a module for the Cortex-M target: a title line, the
/// vector table, the items, the runtime helpers, the trigonometry tables, a
/// data word per global variable, the string literals and the argument
/// words.
pub open spec fn cm_module(
    m: ModuleM,
    target: Seq<char>,
    title: Seq<char>,
    origin: Seq<char>,
    trig: Seq<char>,
    n: nat,
) -> (
    Seq<char>,
    nat,
) {
    let (ti, k) = cm_items(m.items, literal_map(m), n);
    let names = literal_names(m);
    ("; --- Cortex-M backend ("@ + target + ") title='"@ + title + "' origin="@ + origin + " ---\n"@ + cm_intro()
        + ti + cm_runtime() + trig + arm_var_lines(
        sorted_names(items_cm_syms(m.items).difference(items_arm_lets(m.items))),
    ) + (if names.len() > 0 {
        "; String literals (null-terminated)\n"@
    } else {
        Seq::empty()
    }) + arm_literal_lines(names) + cm_outro(), k)
}

/// The code of one top-level item.
fn emit_item(item: &Item, out: &mut String, string_map: &Vec<(String, String)>, counter: &mut usize)
    requires
        item.view() matches ItemM::Function(f) ==> compound_free_all(f.body)
            && arm_fn_locals(f).len() < 0x4000_0000,
        keys_unique(string_map@),
        cm_item(item.view(), smap(string_map@), *old(counter) as nat).1 <= usize::MAX,
    ensures
        final(out)@ == old(out)@ + cm_item(item.view(), smap(string_map@), *old(counter) as nat).0,
        *final(counter) == cm_item(item.view(), smap(string_map@), *old(counter) as nat).1,
{
    let ghost o0 = out@;
    match item {
        Item::Function(f) => emit_function(f, out, string_map, counter),
        Item::Const { name, value: Expr::Number(n), .. } => {
            push_str(out, ".equ ");
            push_str(out, name.as_str());
            push_str(out, " , ");
            push_dec_i64(out, crate::codegen::fold::trunc16(*n) as i64);
            push_str(out, "\n");
            assert(out@ =~= o0 + cm_item(item.view(), smap(string_map@), *old(counter) as nat).0);
        },
        _ => {
            assert(out@ =~= o0 + cm_item(item.view(), smap(string_map@), *old(counter) as nat).0);
        },
    }
}

proof fn lemma_items_prefix(items: Seq<ItemM>, i: int, strs: Map<Seq<char>, Seq<char>>, n: nat)
    requires
        0 <= i <= items.len(),
    ensures
        cm_items(items.take(i), strs, n).1 <= cm_items(items, strs, n).1,
        cm_items(items, strs, n).1 >= n,
    decreases items.len() - i,
{
    if i < items.len() {
        lemma_items_prefix(items, i + 1, strs, n);
        assert(items.take(i + 1).drop_last() =~= items.take(i));
        lemma_item_mono(items[i], strs, cm_items(items.take(i), strs, n).1);
    } else {
        assert(items.take(i) =~= items);
        lemma_items_mono(items, strs, n);
    }
}

proof fn lemma_item_mono(i: ItemM, strs: Map<Seq<char>, Seq<char>>, n: nat)
    ensures
        cm_item(i, strs, n).1 >= n,
{
    if let ItemM::Function(f) = i {
        let locals = arm_fn_locals(f);
        let cx = ArmCtx { locals, strs, frame: (2 * locals.len()) as i32 };
        lemma_stmts_mono(f.body, LoopM { start: None, end: None }, cx, n);
    }
}

proof fn lemma_items_mono(items: Seq<ItemM>, strs: Map<Seq<char>, Seq<char>>, n: nat)
    ensures
        cm_items(items, strs, n).1 >= n,
    decreases items.len(),
{
    if items.len() > 0 {
        lemma_items_mono(items.drop_last(), strs, n);
        lemma_item_mono(items.last(), strs, cm_items(items.drop_last(), strs, n).1);
    }
}

/// Emits the Cortex-M (VecFever/Vextreme) assembly of a module. `target`
/// and `origin` are the target's name and origin as text, `trig_tables`
/// the shared trigonometry tables in `.hword` directives, and `counter`
/// numbers the generated labels.
#[verifier::spinoff_prover]
#[verifier::rlimit(40)]
pub fn emit(
    module: &Module,
    target: &str,
    origin: &str,
    opts: &CodegenOptions,
    trig_tables: &str,
    counter: &mut usize,
) -> (r: String)
    requires
        module_compound_free(module.view()),
        arm_frames_fit(module.view()),
        cm_module(module.view(), target@, opts.title@, origin@, trig_tables@, *old(counter) as nat).1 <= usize::MAX,
    ensures
        r@ == cm_module(module.view(), target@, opts.title@, origin@, trig_tables@, *old(counter) as nat).0,
        *final(counter) == cm_module(module.view(), target@, opts.title@, origin@, trig_tables@, *old(counter) as nat).1,
{
    let ghost mv = module.view();
    let ghost n0 = *counter as nat;
    let mut out = String::new();
    let syms = collect_symbols(module);
    let string_map = collect_string_literals(module);
    proof {
        lemma_literal_map(mv, string_map@);
        lemma_sorted_names(syms@);
    }
    let ghost strs = smap(string_map@);
    push_str(&mut out, "; --- Cortex-M backend (");
    let ghost e = Seq::<char>::empty();
    assert(out@ =~= e + "; --- Cortex-M backend ("@);
    let mut acc: Ghost<Seq<char>> = Ghost("; --- Cortex-M backend ("@);
    acc = push_more(&mut out, target, Ghost(e), acc);
    acc = push_more(&mut out, ") title='", Ghost(e), acc);
    acc = push_more(&mut out, opts.title.as_str(), Ghost(e), acc);
    acc = push_more(&mut out, "' origin=", Ghost(e), acc);
    acc = push_more(&mut out, origin, Ghost(e), acc);
    acc = push_more(&mut out, " ---\n", Ghost(e), acc);
    acc = push_more(
        &mut out,
        ";***************************************************************************\n; DEFINE SECTION (Cortex-M)\n;***************************************************************************\n; (No Vectrex header needed)\n\n",
        Ghost(e),
        acc,
    );
    acc = push_more(
        &mut out,
        ";***************************************************************************\n; CODE SECTION\n;***************************************************************************\n",
        Ghost(e),
        acc,
    );
    acc = push_more(
        &mut out,
        "; Vector table (prototype)\n    .section .isr_vector\n    .word _estack\n    .word Reset_Handler\n\nReset_Handler:\n    BL engine_init\n    BL main\n1:  B 1b\n\n",
        Ghost(e),
        acc,
    );
    let ghost items = mv.items;
    let ghost o1 = out@;
    proof {
        lemma_items_prefix(items, items.len() as int, strs, n0);
    }
    let mut i: usize = 0;
    assert(items.take(0) =~= Seq::<ItemM>::empty());
    assert(o1 =~= o1 + cm_items(items.take(0), strs, n0).0);
    while i < module.items.len()
        invariant
            i <= module.items.len(),
            items == module.view().items,
            items.len() == module.items.len(),
            module_compound_free(module.view()),
            arm_frames_fit(module.view()),
            keys_unique(string_map@),
            strs == smap(string_map@),
            cm_items(items, strs, n0).1 <= usize::MAX,
            out@ == o1 + cm_items(items.take(i as int), strs, n0).0,
            *counter as nat == cm_items(items.take(i as int), strs, n0).1,
        decreases module.items.len() - i,
    {
        proof {
            assert(items.take(i + 1).drop_last() =~= items.take(i as int));
            assert(items[i as int] == module.items@[i as int].view());
            lemma_items_prefix(items, (i + 1) as int, strs, n0);
        }
        emit_item(&module.items[i], &mut out, &string_map, counter);
        i += 1;
        assert(out@ =~= o1 + cm_items(items.take(i as int), strs, n0).0);
    }
    assert(items.take(module.items.len() as int) =~= items);
    proof {
        acc@ = grow(e, acc@, cm_items(items, literal_map(mv), n0).0);
    }
    acc = push_more(
        &mut out,
        ";***************************************************************************\n; RUNTIME SECTION\n;***************************************************************************\n; Runtime helpers\n",
        Ghost(e),
        acc,
    );
    acc = push_more(
        &mut out,
        "__mul32:\n    PUSH {r2,r3,lr}\n    MOV r2,#0\n    CMP r1,#0\n    BEQ __mul32_done\n__mul32_loop:\n    AND r3,r1,#1\n    CMP r3,#0\n    BEQ __mul32_skip\n    ADD r2,r2,r0\n__mul32_skip:\n    LSR r1,r1,#1\n    LSL r0,r0,#1\n    CMP r1,#0\n    BNE __mul32_loop\n__mul32_done:\n    MOV r0,r2\n    POP {r2,r3,lr}\n    BX lr\n\n",
        Ghost(e),
        acc,
    );
    acc = push_more(
        &mut out,
        "__div32:\n    PUSH {r2,r3,lr}\n    MOV r2,#0\n    CMP r1,#0\n    BEQ __div32_done\n    MOV r3,r0\n__div32_loop:\n    CMP r3,r1\n    BLT __div32_done\n    SUB r3,r3,r1\n    ADD r2,r2,#1\n    B __div32_loop\n__div32_done:\n    MOV r0,r2\n    POP {r2,r3,lr}\n    BX lr\n\n",
        Ghost(e),
        acc,
    );
    acc = push_more(
        &mut out,
        ";***************************************************************************\n; DATA SECTION\n;***************************************************************************\n; Data\n    .section .data\n",
        Ghost(e),
        acc,
    );
    acc = push_more(&mut out, "; Trig tables (shared)\n", Ghost(e), acc);
    acc = push_more(&mut out, trig_tables, Ghost(e), acc);
    let ghost sv = sviews(syms@);
    let ghost o2 = out@;
    let mut k: usize = 0;
    assert(sv.take(0) =~= Seq::<Seq<char>>::empty());
    assert(o2 =~= o2 + arm_var_lines(sv.take(0)));
    while k < syms.len()
        invariant
            k <= syms.len(),
            sv == sviews(syms@),
            out@ == o2 + arm_var_lines(sv.take(k as int)),
        decreases syms.len() - k,
    {
        assert(sv.take(k + 1).drop_last() =~= sv.take(k as int));
        push_str(&mut out, "VAR_");
        let up = to_upper(syms[k].as_str());
        push_str(&mut out, up.as_str());
        push_str(&mut out, ": .word 0\n");
        k += 1;
        assert(out@ =~= o2 + arm_var_lines(sv.take(k as int)));
    }
    assert(sv.take(syms.len() as int) =~= sv);
    proof {
        acc@ = grow(e, acc@, arm_var_lines(sv));
    }
    let ghost o3 = out@;
    if string_map.len() > 0 {
        push_str(&mut out, "; String literals (null-terminated)\n");
    }
    let ghost names = literal_names(mv);
    let ghost lit_head: Seq<char> = if names.len() > 0 {
        "; String literals (null-terminated)\n"@
    } else {
        Seq::empty()
    };
    assert(out@ =~= o3 + lit_head);
    proof {
        acc@ = grow(e, acc@, lit_head);
    }
    let ghost o4 = out@;
    let mut j: usize = 0;
    assert(names.take(0) =~= Seq::<Seq<char>>::empty());
    assert(o4 =~= o4 + arm_literal_lines(names.take(0)));
    while j < string_map.len()
        invariant
            j <= string_map.len(),
            names == string_map@.map_values(|p: (String, String)| p.0@),
            forall|q: int| 0 <= q < string_map.len() ==> #[trigger] string_map@[q].1@ == literal_label(q as nat),
            out@ == o4 + arm_literal_lines(names.take(j as int)),
        decreases string_map.len() - j,
    {
        assert(names.take(j + 1).drop_last() =~= names.take(j as int));
        assert(names[j as int] == string_map@[j as int].0@);
        push_str(&mut out, string_map[j].1.as_str());
        push_str(&mut out, ": .ascii \"");
        let esc = escape_ascii(string_map[j].0.as_str());
        push_str(&mut out, esc.as_str());
        push_str(&mut out, "\"\n    .byte 0\n");
        j += 1;
        assert(out@ =~= o4 + arm_literal_lines(names.take(j as int)));
    }
    assert(names.take(string_map.len() as int) =~= names);
    proof {
        acc@ = grow(e, acc@, arm_literal_lines(names));
    }
    acc = push_more(
        &mut out,
        "; Call arg scratch\nVAR_ARG0: .word 0\nVAR_ARG1: .word 0\nVAR_ARG2: .word 0\nVAR_ARG3: .word 0\n",
        Ghost(e),
        acc,
    );
    assert(acc@ =~= cm_module(mv, target@, opts.title@, origin@, trig_tables@, n0).0);
    assert(out@ =~= acc@);
    out
}


/// The Cortex-M operator code, like the ARM one, takes its left operand from
/// r4 and its right one from r5: `ADD`/`SUB`/`AND`/`ORR`/`EOR r0,r4,r5` (the
/// arithmetic ones then masked with `AND r0,r0,#0xFFFF`), the helper calls
/// with r4 in r0 and r5 in r1, and the shifts of r4 by r5.
pub proof fn lemma_cm_binop_operands()
    ensures
        cm_binop_text(BinOp::Add) == arm_rrr("ADD"@, 0, 4, 5, false) + arm_rri("AND"@, 0, 0, "#0xFFFF"@, false),
        cm_binop_text(BinOp::Sub) == arm_rrr("SUB"@, 0, 4, 5, false) + arm_rri("AND"@, 0, 0, "#0xFFFF"@, false),
        cm_binop_text(BinOp::BitAnd) == arm_rrr("AND"@, 0, 4, 5, false),
        cm_binop_text(BinOp::BitOr) == arm_rrr("ORR"@, 0, 4, 5, false),
        cm_binop_text(BinOp::BitXor) == arm_rrr("EOR"@, 0, 4, 5, false),
        cm_binop_text(BinOp::Mul).take(28) == arm_mov(0, 4) + arm_mov(1, 5),
        cm_binop_text(BinOp::Div).take(28) == arm_mov(0, 4) + arm_mov(1, 5),
        cm_binop_text(BinOp::FloorDiv).take(28) == arm_mov(0, 4) + arm_mov(1, 5),
        cm_binop_text(BinOp::Mod).take(28) == arm_mov(0, 4) + arm_mov(1, 5),
        cm_binop_text(BinOp::Shl).take(21) == arm_mov_shift(0, 4, "LSL"@, 5),
        cm_binop_text(BinOp::Shr).take(21) == arm_mov_shift(0, 4, "LSR"@, 5),
{
    reveal_strlit("    MOV r0,r4\n    MOV r1,r5\n    BL __div32\n    AND r0,r0,#0xFFFF\n");
    reveal_strlit("    MOV r0,r4\n    MOV r1,r5\n    BL __div32\n    MOV r2,r0\n    MUL r2,r2,r5\n    RSBS r0,r2,r4\n    AND r0,r0,#0xFFFF\n");
    reveal_strlit("    ADD r0,r4,r5\n    AND r0,r0,#0xFFFF\n");
    reveal_strlit("    SUB r0,r4,r5\n    AND r0,r0,#0xFFFF\n");
    reveal_strlit("    AND r0,r4,r5\n");
    reveal_strlit("    ORR r0,r4,r5\n");
    reveal_strlit("    EOR r0,r4,r5\n");
    reveal_strlit("    MOV r0,r4\n    MOV r1,r5\n    BL __mul32\n    AND r0,r0,#0xFFFF\n");
    reveal_strlit("    MOV r0,r4\n    MOV r1,r5\n    BL __div32\n    AND r0,r0,#0xFFFF\n");
    reveal_strlit("    MOV r0,r4,LSL r5\n    AND r0,r0,#0xFFFF\n");
    reveal_strlit("    MOV r0,r4,LSR r5\n    AND r0,r0,#0xFFFF\n");
    reveal_strlit("    ");
    reveal_strlit(" r");
    reveal_strlit(",r");
    reveal_strlit(",");
    reveal_strlit("\n");
    reveal_strlit("#0xFFFF");
    reveal_strlit("    MOV r");
    reveal_strlit("ADD");
    reveal_strlit("SUB");
    reveal_strlit("AND");
    reveal_strlit("ORR");
    reveal_strlit("EOR");
    reveal_strlit("LSL");
    reveal_strlit("LSR");
    assert(dec(0) =~= seq![digit_char(0)]);
    assert(dec(1) =~= seq![digit_char(1)]);
    assert(dec(4) =~= seq![digit_char(4)]);
    assert(dec(5) =~= seq![digit_char(5)]);
    assert(digit_char(0) == '0');
    assert(digit_char(1) == '1');
    assert(digit_char(4) == '4');
    assert(digit_char(5) == '5');
    let mask = arm_rri("AND"@, 0, 0, "#0xFFFF"@, false);
    assert(mask =~= "    AND r0,r0,#0xFFFF\n"@) by {
        reveal_strlit("    AND r0,r0,#0xFFFF\n");
    }
    assert(cm_binop_text(BinOp::Add) =~= arm_rrr("ADD"@, 0, 4, 5, false) + mask);
    assert(cm_binop_text(BinOp::Sub) =~= arm_rrr("SUB"@, 0, 4, 5, false) + mask);
    assert(cm_binop_text(BinOp::BitAnd) =~= arm_rrr("AND"@, 0, 4, 5, false));
    assert(cm_binop_text(BinOp::BitOr) =~= arm_rrr("ORR"@, 0, 4, 5, false));
    assert(cm_binop_text(BinOp::BitXor) =~= arm_rrr("EOR"@, 0, 4, 5, false));
    assert(arm_mov(0, 4) =~= "    MOV r0,r4\n"@) by {
        reveal_strlit("    MOV r0,r4\n");
    }
    assert(arm_mov(1, 5) =~= "    MOV r1,r5\n"@) by {
        reveal_strlit("    MOV r1,r5\n");
    }
    assert(cm_binop_text(BinOp::Mul).take(28) =~= arm_mov(0, 4) + arm_mov(1, 5));
    assert(cm_binop_text(BinOp::Div).take(28) =~= arm_mov(0, 4) + arm_mov(1, 5));
    assert(cm_binop_text(BinOp::FloorDiv).take(28) =~= arm_mov(0, 4) + arm_mov(1, 5));
    assert(cm_binop_text(BinOp::Mod).take(28) =~= arm_mov(0, 4) + arm_mov(1, 5));
    assert(cm_binop_text(BinOp::Shl).take(21) =~= arm_mov_shift(0, 4, "LSL"@, 5));
    assert(cm_binop_text(BinOp::Shr).take(21) =~= arm_mov_shift(0, 4, "LSR"@, 5));
}

} // verus!
