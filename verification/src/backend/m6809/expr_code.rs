//! Emitting the 6809 code of expressions and builtin calls, as the model in
//! `lowering` describes it.

use vstd::prelude::*;
use crate::ast::{lemma_view_exprs, view_exprs, BinOp, CmpOp, Expr, ExprM, LogicOp};
use crate::backend::arm::{arm_ctx, label, local_offset};
use crate::backend::m6809::lowering::{
    abs_text, asset_index, clamp_text, draw_vector_text, is_listed, jsr, label_arg,
    lemma_asset_index_take, lemma_m6_args_ok, lemma_m6_builtin_mono, lemma_m6_builtin_variant,
    lemma_m6_expr_mono, lemma_m6_line_args_mono, lemma_nums_take, lemma_shape_for_take, m6_args,
    m6_args_ok, m6_binop_text, m6_branch, m6_builtin, m6_builtin_ok, m6_expr, m6_line_args, m6_ok,
    minmax_text, native, nums, pairs_of, path_lines, poly_call, ref_of, repeat_text, shape_for,
    shape_kind, symbol_of, trig_text, vector_list_text, AssetData, BuiltinOut, M6Ctx, ShapeData,
    lemma_m6_two_operands, lemma_m6_call, compare_text, and_text, or_text, early_builtin,
    mid_builtin, first_builtin, lemma_m6_builtin_ok_facts, lemma_m6_draw_vector,
};
use crate::backend::m6809::builtin_texts::{
    emit_asset_box, emit_draw_line_const, emit_polygon_const, emit_shape, fixed_builtin_exec,
    DRAW_VECTOR_LIST_LOOP, RESULT_CLEAR, RESULT_ZERO,
};
use crate::backend::m6809::analysis::resolve_function_name;
use crate::backend::m6809::utils::{format_expr_ref, fresh_label, power_of_two_const, FuncCtx};
use crate::codegen::{AssetInfo, AssetType, CodegenOptions};
use crate::keyed::{keys_unique, kv_get};
use crate::text::{
    ascii_upper_vec, chars_of, ends_with_str, push_chars, push_dec, push_dec_i64, push_str,
    replace_char_vec, str_eq, string_from, string_of, to_lower, to_upper, vec_eq, vec_is,
};

verus! {

/// The vertices given for the constant shapes, as values.
pub open spec fn shapes_view(s: Seq<ShapeData>) -> Seq<(Seq<char>, Seq<i32>, Seq<(i32, i32)>)> {
    Seq::new(s.len(), |i: int| (s[i].name@, s[i].args@, s[i].verts@))
}

/// The model of what the lowering reads.
pub open spec fn m6_ctx(
    fctx: &FuncCtx,
    strs: &Vec<(String, String)>,
    opts: &CodegenOptions,
    data: &AssetData,
) -> M6Ctx {
    M6Ctx {
        cx: arm_ctx(fctx, strs),
        auto_loop: opts.auto_loop,
        force_ext: opts.force_extended_jsr,
        assets: opts.assets@,
        paths: data.vector_paths@,
        shapes: shapes_view(data.shapes@),
    }
}

// ---------------------------------------------------------------------------
// Small pieces
// ---------------------------------------------------------------------------

fn push_jsr(out: &mut String, opts: &CodegenOptions, data: &AssetData, fctx: &FuncCtx, strs: &Vec<(String, String)>, target: &str)
    ensures
        final(out)@ == old(out)@ + jsr(m6_ctx(fctx, strs, opts, data), target@),
{
    let ghost o = out@;
    push_str(out, "    JSR ");
    if opts.force_extended_jsr {
        push_str(out, ">");
    }
    push_str(out, target);
    push_str(out, "\n");
    assert(out@ =~= o + jsr(m6_ctx(fctx, strs, opts, data), target@));
}

fn push_repeat(out: &mut String, t: &str, k: u32)
    ensures
        final(out)@ == old(out)@ + repeat_text(t@, k as nat),
{
    let ghost o = out@;
    let mut i: u32 = 0;
    while i < k
        invariant
            i <= k,
            out@ == o + repeat_text(t@, i as nat),
        decreases k - i,
    {
        push_str(out, t);
        i += 1;
        assert(out@ =~= o + repeat_text(t@, i as nat));
    }
}

fn m6_branch_exec(op: CmpOp) -> (r: &'static str)
    ensures
        r@ == m6_branch(op),
{
    match op {
        CmpOp::Eq => "BEQ",
        CmpOp::Ne => "BNE",
        CmpOp::Lt => "BLT",
        CmpOp::Le => "BLE",
        CmpOp::Gt => "BGT",
        CmpOp::Ge => "BGE",
    }
}

fn m6_binop_exec(op: BinOp) -> (r: &'static str)
    ensures
        r@ == m6_binop_text(op),
{
    match op {
        BinOp::Add => "    LDD TMPLEFT\n    ADDD TMPRIGHT\n    STD RESULT\n",
        BinOp::Sub => "    LDD TMPLEFT\n    SUBD TMPRIGHT\n    STD RESULT\n",
        BinOp::Mul => "    LDD TMPLEFT\n    STD MUL_A\n    LDD TMPRIGHT\n    STD MUL_B\n    JSR MUL16\n",
        BinOp::Div => "    LDD TMPLEFT\n    STD DIV_A\n    LDD TMPRIGHT\n    STD DIV_B\n    JSR DIV16\n",
        BinOp::FloorDiv => "    LDD TMPLEFT\n    STD DIV_A\n    LDD TMPRIGHT\n    STD DIV_B\n    JSR DIV16\n",
        BinOp::Mod => "    LDD TMPLEFT\n    STD DIV_A\n    LDD TMPRIGHT\n    STD DIV_B\n    JSR DIV16\n    ; quotient in RESULT, need remainder: A - Q*B\n    LDD DIV_A\n    STD TMPLEFT\n    LDD RESULT\n    STD MUL_A\n    LDD DIV_B\n    STD MUL_B\n    JSR MUL16\n    ; product in RESULT, subtract from original A (TMPLEFT)\n    LDD TMPLEFT\n    SUBD RESULT\n    STD RESULT\n",
        BinOp::Shl => "    LDD TMPLEFT\nSHL_LOOP: LDA TMPRIGHT+1\n    BEQ SHL_DONE\n    ASLB\n    ROLA\n    DEC TMPRIGHT+1\n    BRA SHL_LOOP\nSHL_DONE: STD RESULT\n",
        BinOp::Shr => "    LDD TMPLEFT\nSHR_LOOP: LDA TMPRIGHT+1\n    BEQ SHR_DONE\n    LSRA\n    RORB\n    DEC TMPRIGHT+1\n    BRA SHR_LOOP\nSHR_DONE: STD RESULT\n",
        BinOp::BitAnd => "    LDD TMPLEFT\n    ANDA TMPRIGHT+1\n    ANDB TMPRIGHT\n    STD RESULT\n",
        BinOp::BitOr => "    LDD TMPLEFT\n    ORA TMPRIGHT+1\n    ORB TMPRIGHT\n    STD RESULT\n",
        BinOp::BitXor => "    LDD TMPLEFT\n    EORA TMPRIGHT+1\n    EORB TMPRIGHT\n    STD RESULT\n",
    }
}

fn refs_equal(l: &Expr, r: &Expr) -> (b: bool)
    ensures
        b == (ref_of(l.view()) == ref_of(r.view())),
{
    let a = format_expr_ref(l);
    let c = format_expr_ref(r);
    str_eq(a.as_str(), c.as_str())
}

/// Appends an asset name as an assembler symbol.
fn push_symbol(out: &mut String, name: &str)
    ensures
        final(out)@ == old(out)@ + symbol_of(name@),
{
    let u = to_upper(name);
    let v = chars_of(u.as_str());
    let v1 = replace_char_vec(&v, '-', '_');
    let v2 = replace_char_vec(&v1, ' ', '_');
    push_chars(out, &v2);
}

fn push_path_lines(out: &mut String, sym: &Vec<char>, k: usize)
    ensures
        final(out)@ == old(out)@ + path_lines(sym@, k as nat),
{
    let ghost o = out@;
    let mut p: usize = 0;
    while p < k
        invariant
            p <= k,
            out@ == o + path_lines(sym@, p as nat),
        decreases k - p,
    {
        push_str(out, "    LDX #");
        push_chars(out, sym);
        push_str(out, "_PATH");
        push_dec(out, p as u64);
        push_str(out, "  ; Path ");
        push_dec(out, p as u64);
        push_str(out, "\n    JSR Draw_Sync_List_At\n");
        p += 1;
        assert(out@ =~= o + path_lines(sym@, p as nat));
    }
}

fn push_native(out: &mut String, line: Option<usize>, f: &str)
    ensures
        final(out)@ == old(out)@ + native(line, f@),
{
    let ghost o = out@;
    if let Some(l) = line {
        push_str(out, "; NATIVE_CALL: ");
        push_str(out, f);
        push_str(out, " at line ");
        push_dec(out, l as u64);
        push_str(out, "\n");
    }
    assert(out@ =~= o + native(line, f@));
}

/// The first asset of the given kind (0 vector, 1 music, 2 sound effect)
/// named `name`.
fn asset_index_exec(assets: &Vec<AssetInfo>, name: &str, kind: u8) -> (r: Option<usize>)
    requires
        kind <= 2,
    ensures
        match asset_index(assets@, name@, kind as nat) {
            Some(i) => r == Some(i as usize),
            None => r is None,
        },
        r matches Some(k) ==> k < assets.len() && asset_index(assets@, name@, kind as nat) == Some(
            k as int,
        ),
{
    let mut i: usize = 0;
    while i < assets.len()
        invariant
            i <= assets.len(),
            kind <= 2,
            asset_index(assets@.take(i as int), name@, kind as nat) is None,
        decreases assets.len() - i,
    {
        assert(assets@.take(i + 1).drop_last() =~= assets@.take(i as int));
        let a = &assets[i];
        let k = match a.asset_type {
            AssetType::Vector => kind == 0,
            AssetType::Music => kind == 1,
            AssetType::Sfx => kind == 2,
        };
        if str_eq(a.name.as_str(), name) && k {
            proof {
                lemma_asset_index_take(assets@, name@, kind as nat, i + 1);
            }
            return Some(i);
        }
        i += 1;
    }
    assert(assets@.take(assets.len() as int) =~= assets@);
    None
}

/// The values of the arguments from `st` on, when all are number literals.
fn nums_from(args: &Vec<Expr>, st: usize) -> (r: Option<Vec<i32>>)
    requires
        st <= args.len(),
    ensures
        match nums(view_exprs(args@).subrange(st as int, args.len() as int)) {
            Some(v) => r matches Some(w) && w@ == v,
            None => r is None,
        },
        r matches Some(w) ==> w.len() == args.len() - st,
{
    let ghost av = view_exprs(args@);
    let ghost s = av.subrange(st as int, args.len() as int);
    proof {
        lemma_view_exprs(args@);
        assert(s.take(0) =~= Seq::<ExprM>::empty());
    }
    let mut w: Vec<i32> = Vec::new();
    let mut i: usize = st;
    while i < args.len()
        invariant
            st <= i <= args.len(),
            av == view_exprs(args@),
            av.len() == args.len(),
            forall|j: int| 0 <= j < args.len() ==> #[trigger] av[j] == args@[j].view(),
            s == av.subrange(st as int, args.len() as int),
            nums(s.take(i - st)) == Some(w@),
            w.len() == i - st,
        decreases args.len() - i,
    {
        assert(s.take(i - st + 1).drop_last() =~= s.take(i - st));
        assert(s.take(i - st + 1).last() == av[i as int]);
        match &args[i] {
            Expr::Number(x) => {
                w.push(*x);
            },
            _ => {
                proof {
                    lemma_nums_take(s, i - st + 1);
                }
                return None;
            },
        }
        i += 1;
    }
    assert(s.take(i - st) =~= s);
    Some(w)
}

fn pairs_exec(v: &Vec<i32>) -> (r: Vec<(i32, i32)>)
    ensures
        r@ == pairs_of(v@),
{
    let n = v.len() / 2;
    let mut r: Vec<(i32, i32)> = Vec::new();
    let mut i: usize = 0;
    while i < n
        invariant
            i <= n,
            n == v.len() / 2,
            r.len() == i,
            forall|j: int| 0 <= j < i ==> #[trigger] r@[j] == (v@[2 * j], v@[2 * j + 1]),
        decreases n - i,
    {
        r.push((v[2 * i], v[2 * i + 1]));
        i += 1;
    }
    assert(r@ =~= pairs_of(v@));
    r
}

fn i32_vec_eq(a: &Vec<i32>, b: &Vec<i32>) -> (r: bool)
    ensures
        r == (a@ == b@),
{
    if a.len() != b.len() {
        return false;
    }
    let mut i: usize = 0;
    while i < a.len()
        invariant
            i <= a.len() == b.len(),
            forall|j: int| 0 <= j < i ==> a@[j] == b@[j],
        decreases a.len() - i,
    {
        if a[i] != b[i] {
            return false;
        }
        i += 1;
    }
    assert(a@ =~= b@);
    true
}

/// The entry of the given constant shape call.
fn shape_index(shapes: &Vec<ShapeData>, up: &Vec<char>, vals: &Vec<i32>) -> (r: Option<usize>)
    ensures
        match shape_for(shapes_view(shapes@), up@, vals@) {
            Some(v) => r matches Some(k) && k < shapes.len() && shapes@[k as int].verts@ == v,
            None => r is None,
        },
{
    let ghost sv = shapes_view(shapes@);
    let mut i: usize = 0;
    while i < shapes.len()
        invariant
            i <= shapes.len(),
            sv == shapes_view(shapes@),
            shape_for(sv.take(i as int), up@, vals@) is None,
        decreases shapes.len() - i,
    {
        assert(sv.take(i + 1).drop_last() =~= sv.take(i as int));
        let nv = chars_of(shapes[i].name.as_str());
        if vec_eq(&nv, up) && i32_vec_eq(&shapes[i].args, vals) {
            proof {
                lemma_shape_for_take(sv, up@, vals@, i + 1);
            }
            return Some(i);
        }
        i += 1;
    }
    assert(sv.take(shapes.len() as int) =~= sv);
    None
}

fn shape_kind_exec(up: &Vec<char>, v: &Vec<i32>) -> (r: Option<(bool, i32, bool)>)
    ensures
        r == shape_kind(up@, v@),
{
    let n = v.len();
    if vec_is(up, "DRAW_CIRCLE") && (n == 3 || n == 4) {
        Some((true, if n == 4 { v[3] } else { 0x5F }, true))
    } else if vec_is(up, "DRAW_CIRCLE_SEG") && (n == 4 || n == 5) {
        Some((true, if n == 5 { v[4] } else { 0x5F }, false))
    } else if vec_is(up, "DRAW_ARC") && (n == 6 || n == 7) {
        Some((false, if n == 7 { v[6] } else { 0x5F }, false))
    } else if vec_is(up, "DRAW_SPIRAL") && 6 <= n && n <= 8 {
        Some((false, if n > 6 { v[n - 1] } else { 0x5F }, false))
    } else {
        None
    }
}

fn is_listed_exec(up: &Vec<char>) -> (r: bool)
    ensures
        r == is_listed(up@),
{
    vec_is(up, "VECTREX_PRINT_TEXT") || vec_is(up, "VECTREX_DEBUG_PRINT") || vec_is(
        up,
        "VECTREX_DEBUG_PRINT_LABELED",
    ) || vec_is(up, "VECTREX_POKE") || vec_is(up, "VECTREX_PEEK") || vec_is(
        up,
        "VECTREX_PRINT_NUMBER",
    ) || vec_is(up, "VECTREX_MOVE_TO") || vec_is(up, "VECTREX_DRAW_TO") || vec_is(
        up,
        "DRAW_LINE_WRAPPER",
    ) || vec_is(up, "DRAW_LINE_FAST") || vec_is(up, "SETUP_DRAW_COMMON") || vec_is(
        up,
        "VECTREX_DRAW_VL",
    ) || vec_is(up, "VECTREX_FRAME_BEGIN") || vec_is(up, "VECTREX_VECTOR_PHASE_BEGIN") || vec_is(
        up,
        "VECTREX_SET_ORIGIN",
    ) || vec_is(up, "VECTREX_SET_INTENSITY") || vec_is(up, "VECTREX_WAIT_RECAL") || vec_is(
        up,
        "VECTREX_PLAY_MUSIC1",
    ) || vec_is(up, "DRAW_VECTOR") || vec_is(up, "PLAY_MUSIC") || vec_is(up, "PLAY_SFX")
        || vec_is(up, "STOP_MUSIC") || vec_is(up, "MUSIC_UPDATE") || vec_is(up, "J1_X") || vec_is(
        up,
        "J1_Y",
    ) || vec_is(up, "J1_BUTTON_1") || vec_is(up, "J1_BUTTON_2") || vec_is(up, "J1_BUTTON_3")
        || vec_is(up, "J1_BUTTON_4") || vec_is(up, "J2_X") || vec_is(up, "J2_Y") || vec_is(
        up,
        "J2_BUTTON_1",
    ) || vec_is(up, "J2_BUTTON_2") || vec_is(up, "J2_BUTTON_3") || vec_is(up, "J2_BUTTON_4")
        || vec_is(up, "SIN") || vec_is(up, "COS") || vec_is(up, "TAN") || vec_is(up, "MATH_SIN")
        || vec_is(up, "MATH_COS") || vec_is(up, "MATH_TAN") || vec_is(up, "ABS") || vec_is(
        up,
        "MATH_ABS",
    ) || vec_is(up, "MIN") || vec_is(up, "MATH_MIN") || vec_is(up, "MAX") || vec_is(
        up,
        "MATH_MAX",
    ) || vec_is(up, "CLAMP") || vec_is(up, "MATH_CLAMP") || vec_is(up, "DRAW_CIRCLE") || vec_is(
        up,
        "DRAW_CIRCLE_SEG",
    ) || vec_is(up, "DRAW_ARC") || vec_is(up, "DRAW_SPIRAL") || vec_is(up, "DRAW_VECTORLIST")
}

fn label_arg_exec(e: &Expr) -> (r: Option<&String>)
    ensures
        match label_arg(e.view()) {
            Some(s) => r matches Some(t) && t@ == s,
            None => r is None,
        },
{
    match e {
        Expr::StringLit(s) => Some(s),
        Expr::Ident(info) => Some(&info.name),
        _ => None,
    }
}

fn string_arg(args: &Vec<Expr>) -> (r: Option<&String>)
    ensures
        args.len() > 0 && args@[0].view() is StringLit ==> (r matches Some(s) && s@
            == args@[0].view()->StringLit_0),
        !(args.len() > 0 && args@[0].view() is StringLit) ==> r is None,
{
    if args.len() == 0 {
        return None;
    }
    match &args[0] {
        Expr::StringLit(s) => Some(s),
        _ => None,
    }
}


// ---------------------------------------------------------------------------
// Expressions
// ---------------------------------------------------------------------------

/// Emits the code that leaves the value of `expr` in RESULT, lowered at
/// nesting depth `depth`; labels are numbered from `counter` on.
pub fn emit_expr_depth(
    expr: &Expr,
    out: &mut String,
    fctx: &FuncCtx,
    string_map: &Vec<(String, String)>,
    opts: &CodegenOptions,
    data: &AssetData,
    depth: usize,
    counter: &mut usize,
)
    requires
        keys_unique(string_map@),
        fctx.locals.len() < 0x4000_0000,
        m6_ok(expr.view(), depth as int, m6_ctx(fctx, string_map, opts, data)),
        m6_expr(expr.view(), m6_ctx(fctx, string_map, opts, data), *old(counter) as nat).1 <= usize::MAX,
    ensures
        final(out)@ == old(out)@ + m6_expr(expr.view(), m6_ctx(fctx, string_map, opts, data), *old(counter) as nat).0,
        *final(counter) == m6_expr(expr.view(), m6_ctx(fctx, string_map, opts, data), *old(counter) as nat).1,
    decreases expr, 0nat, 1nat,
{
    reveal(m6_expr);
    reveal(m6_builtin);
    let ghost o0 = out@;
    match expr {
        Expr::Number(n) => {
            push_str(out, "    LDD #");
            push_dec_i64(out, *n as i64);
            push_str(out, "\n    STD RESULT\n");
        },
        Expr::StringLit(s) => {
            match kv_get(string_map, s.as_str()) {
                Some(lbl) => {
                    push_str(out, "    LDX #");
                    push_str(out, lbl.as_str());
                    push_str(out, "\n    STX RESULT\n");
                },
                None => {
                    push_str(out, "    LDD #0\n    STD RESULT\n");
                },
            }
        },
        Expr::Ident(info) => {
            match local_offset(fctx, info.name.as_str()) {
                Some(off) => {
                    push_str(out, "    LDD ");
                    push_dec_i64(out, off as i64);
                    push_str(out, " ,S\n    STD RESULT\n");
                },
                None => {
                    push_str(out, "    LDD VAR_");
                    let up = to_upper(info.name.as_str());
                    push_str(out, up.as_str());
                    push_str(out, "\n    STD RESULT\n");
                },
            }
        },
        Expr::Call(_) => emit_call_m6(expr, out, fctx, string_map, opts, data, depth, counter),
        Expr::Binary { .. } => emit_binary_m6(expr, out, fctx, string_map, opts, data, depth, counter),
        Expr::BitNot(inner) => {
            emit_expr_depth(inner, out, fctx, string_map, opts, data, depth + 1, counter);
            push_str(out, "    LDD RESULT\n    COMA\n    COMB\n    STD RESULT\n");
        },
        Expr::Compare { .. } => emit_compare_m6(expr, out, fctx, string_map, opts, data, depth, counter),
        Expr::Logic { op: LogicOp::And, .. } => emit_and_m6(
            expr,
            out,
            fctx,
            string_map,
            opts,
            data,
            depth,
            counter,
        ),
        Expr::Logic { .. } => emit_or_m6(expr, out, fctx, string_map, opts, data, depth, counter),
        Expr::Not(inner) => {
            emit_expr_depth(inner, out, fctx, string_map, opts, data, depth + 1, counter);
            push_str(
                out,
                "    LDD RESULT\n    BEQ NOT_TRUE\n    LDD #0\n    STD RESULT\n    BRA NOT_END\nNOT_TRUE:\n    LDD #1\n    STD RESULT\nNOT_END:\n",
            );
        },
    }
}

/// Emits the code of an expression at depth 0.
pub fn emit_expr(
    expr: &Expr,
    out: &mut String,
    fctx: &FuncCtx,
    string_map: &Vec<(String, String)>,
    opts: &CodegenOptions,
    data: &AssetData,
    counter: &mut usize,
)
    requires
        keys_unique(string_map@),
        fctx.locals.len() < 0x4000_0000,
        m6_ok(expr.view(), 0, m6_ctx(fctx, string_map, opts, data)),
        m6_expr(expr.view(), m6_ctx(fctx, string_map, opts, data), *old(counter) as nat).1 <= usize::MAX,
    ensures
        final(out)@ == old(out)@ + m6_expr(expr.view(), m6_ctx(fctx, string_map, opts, data), *old(counter) as nat).0,
        *final(counter) == m6_expr(expr.view(), m6_ctx(fctx, string_map, opts, data), *old(counter) as nat).1,
{
    emit_expr_depth(expr, out, fctx, string_map, opts, data, 0, counter);
}

fn emit_call_m6(
    expr: &Expr,
    out: &mut String,
    fctx: &FuncCtx,
    string_map: &Vec<(String, String)>,
    opts: &CodegenOptions,
    data: &AssetData,
    depth: usize,
    counter: &mut usize,
)
    requires
        expr is Call,
        keys_unique(string_map@),
        fctx.locals.len() < 0x4000_0000,
        m6_ok(expr.view(), depth as int, m6_ctx(fctx, string_map, opts, data)),
        m6_expr(expr.view(), m6_ctx(fctx, string_map, opts, data), *old(counter) as nat).1 <= usize::MAX,
    ensures
        final(out)@ == old(out)@ + m6_expr(expr.view(), m6_ctx(fctx, string_map, opts, data), *old(counter) as nat).0,
        *final(counter) == m6_expr(expr.view(), m6_ctx(fctx, string_map, opts, data), *old(counter) as nat).1,
    decreases expr, 0nat, 0nat,
{
    let ghost c = m6_ctx(fctx, string_map, opts, data);
    let ghost n0 = *counter as nat;
    let ghost o0 = out@;
    if let Expr::Call(ci) = expr {
        proof {
            lemma_view_exprs(ci.args@);
        }
        let ghost av = view_exprs(ci.args@);
        let nv = chars_of(ci.name.as_str());
        let up = ascii_upper_vec(&nv);
        proof {
            lemma_m6_call(expr.view(), c, n0, depth as int);
            lemma_m6_builtin_variant(up@, av, c, Some(ci.source_line), Some(ci.source_line), 0, n0, 2);
        }
        if emit_builtin_up(&up, &ci.args, out, fctx, string_map, opts, data, Some(ci.source_line), 2, counter) {
            return;
        }
        let limit: usize = if ci.args.len() < 5 {
            ci.args.len()
        } else {
            5
        };
        emit_m6_args(&ci.args, limit, out, fctx, string_map, opts, data, depth + 1, counter);
        let lw = to_lower(ci.name.as_str());
        let target: String = if opts.auto_loop && str_eq(lw.as_str(), "loop") {
            string_from("LOOP_BODY")
        } else {
            to_upper(ci.name.as_str())
        };
        push_jsr(out, opts, data, fctx, string_map, target.as_str());
    }
}

#[verifier::rlimit(100)]
fn emit_binary_m6(
    expr: &Expr,
    out: &mut String,
    fctx: &FuncCtx,
    string_map: &Vec<(String, String)>,
    opts: &CodegenOptions,
    data: &AssetData,
    depth: usize,
    counter: &mut usize,
)
    requires
        expr is Binary,
        keys_unique(string_map@),
        fctx.locals.len() < 0x4000_0000,
        m6_ok(expr.view(), depth as int, m6_ctx(fctx, string_map, opts, data)),
        m6_expr(expr.view(), m6_ctx(fctx, string_map, opts, data), *old(counter) as nat).1 <= usize::MAX,
    ensures
        final(out)@ == old(out)@ + m6_expr(expr.view(), m6_ctx(fctx, string_map, opts, data), *old(counter) as nat).0,
        *final(counter) == m6_expr(expr.view(), m6_ctx(fctx, string_map, opts, data), *old(counter) as nat).1,
    decreases expr, 0nat, 0nat,
{
    reveal(m6_expr);
    reveal(m6_builtin);
    let ghost c = m6_ctx(fctx, string_map, opts, data);
    let ghost n0 = *counter as nat;
    let ghost o0 = out@;
    if let Expr::Binary { op, left, right } = expr {
        let rs = power_of_two_const(right);
        let ls = power_of_two_const(left);
        if *op == BinOp::Add && refs_equal(left, right) {
            emit_expr_depth(left, out, fctx, string_map, opts, data, depth + 1, counter);
            push_str(out, "    LDD RESULT\n    ADDD RESULT\n    STD RESULT\n");
        } else if *op == BinOp::Sub && refs_equal(left, right) {
            push_str(out, "    CLRA\n    CLRB\n    STD RESULT\n");
        } else if *op == BinOp::Mul && rs.is_some() {
            emit_expr_depth(left, out, fctx, string_map, opts, data, depth + 1, counter);
            push_str(out, "    LDD RESULT\n");
            push_repeat(out, "    ASLB\n    ROLA\n", rs.unwrap());
            push_str(out, "    STD RESULT\n");
        } else if *op == BinOp::Mul && ls.is_some() {
            emit_expr_depth(right, out, fctx, string_map, opts, data, depth + 1, counter);
            push_str(out, "    LDD RESULT\n");
            push_repeat(out, "    ASLB\n    ROLA\n", ls.unwrap());
            push_str(out, "    STD RESULT\n");
        } else if *op == BinOp::Div && rs.is_some() {
            emit_expr_depth(left, out, fctx, string_map, opts, data, depth + 1, counter);
            push_str(out, "    LDD RESULT\n");
            push_repeat(out, "    LSRA\n    RORB\n", rs.unwrap());
            push_str(out, "    STD RESULT\n");
        } else {
            proof {
                lemma_m6_expr_mono(right.view(), c, m6_expr(left.view(), c, n0).1);
            }
            emit_expr_depth(left, out, fctx, string_map, opts, data, depth + 1, counter);
            push_str(out, "    LDD RESULT\n    STD TMPLEFT\n");
            emit_expr_depth(right, out, fctx, string_map, opts, data, depth + 1, counter);
            push_str(out, "    LDD RESULT\n    STD TMPRIGHT\n");
            push_str(out, m6_binop_exec(*op));
        }
        assert(out@ =~= o0 + m6_expr(expr.view(), c, n0).0);
    }
}

#[verifier::spinoff_prover]
#[verifier::rlimit(100)]
fn emit_compare_m6(
    expr: &Expr,
    out: &mut String,
    fctx: &FuncCtx,
    string_map: &Vec<(String, String)>,
    opts: &CodegenOptions,
    data: &AssetData,
    depth: usize,
    counter: &mut usize,
)
    requires
        expr is Compare,
        keys_unique(string_map@),
        fctx.locals.len() < 0x4000_0000,
        m6_ok(expr.view(), depth as int, m6_ctx(fctx, string_map, opts, data)),
        m6_expr(expr.view(), m6_ctx(fctx, string_map, opts, data), *old(counter) as nat).1 <= usize::MAX,
    ensures
        final(out)@ == old(out)@ + m6_expr(expr.view(), m6_ctx(fctx, string_map, opts, data), *old(counter) as nat).0,
        *final(counter) == m6_expr(expr.view(), m6_ctx(fctx, string_map, opts, data), *old(counter) as nat).1,
    decreases expr, 0nat, 0nat,
{
    proof {
        lemma_m6_two_operands(expr.view(), m6_ctx(fctx, string_map, opts, data), *counter as nat, depth as int);
    }
    let ghost c = m6_ctx(fctx, string_map, opts, data);
    let ghost n0 = *counter as nat;
    let ghost o0 = out@;
    if let Expr::Compare { op, left, right } = expr {
        proof {
            lemma_m6_expr_mono(left.view(), c, n0);
            lemma_m6_expr_mono(right.view(), c, m6_expr(left.view(), c, n0).1);
        }
        emit_expr_depth(left, out, fctx, string_map, opts, data, depth + 1, counter);
        push_str(out, "    LDD RESULT\n    STD TMPLEFT\n");
        emit_expr_depth(right, out, fctx, string_map, opts, data, depth + 1, counter);
        push_str(out, "    LDD RESULT\n    STD TMPRIGHT\n    LDD TMPLEFT\n    SUBD TMPRIGHT\n");
        let lt = fresh_label("CT", counter);
        let en = fresh_label("CE", counter);
        push_str(out, "    ");
        push_str(out, m6_branch_exec(*op));
        push_str(out, " ");
        push_str(out, lt.as_str());
        push_str(out, "\n    LDD #0\n    STD RESULT\n    BRA ");
        push_str(out, en.as_str());
        push_str(out, "\n");
        push_str(out, lt.as_str());
        push_str(out, ":\n    LDD #1\n    STD RESULT\n");
        push_str(out, en.as_str());
        push_str(out, ":\n");
        assert(out@ =~= o0 + compare_text(
            *op,
            m6_expr(left.view(), c, n0).0,
            m6_expr(right.view(), c, m6_expr(left.view(), c, n0).1).0,
            m6_expr(right.view(), c, m6_expr(left.view(), c, n0).1).1,
        ));
    }
}

#[verifier::spinoff_prover]
#[verifier::rlimit(100)]
fn emit_and_m6(
    expr: &Expr,
    out: &mut String,
    fctx: &FuncCtx,
    string_map: &Vec<(String, String)>,
    opts: &CodegenOptions,
    data: &AssetData,
    depth: usize,
    counter: &mut usize,
)
    requires
        expr matches Expr::Logic { op: LogicOp::And, .. },
        keys_unique(string_map@),
        fctx.locals.len() < 0x4000_0000,
        m6_ok(expr.view(), depth as int, m6_ctx(fctx, string_map, opts, data)),
        m6_expr(expr.view(), m6_ctx(fctx, string_map, opts, data), *old(counter) as nat).1 <= usize::MAX,
    ensures
        final(out)@ == old(out)@ + m6_expr(expr.view(), m6_ctx(fctx, string_map, opts, data), *old(counter) as nat).0,
        *final(counter) == m6_expr(expr.view(), m6_ctx(fctx, string_map, opts, data), *old(counter) as nat).1,
    decreases expr, 0nat, 0nat,
{
    proof {
        lemma_m6_two_operands(expr.view(), m6_ctx(fctx, string_map, opts, data), *counter as nat, depth as int);
    }
    let ghost c = m6_ctx(fctx, string_map, opts, data);
    let ghost n0 = *counter as nat;
    let ghost o0 = out@;
    if let Expr::Logic { left, right, .. } = expr {
        proof {
            lemma_m6_expr_mono(left.view(), c, n0);
            lemma_m6_expr_mono(right.view(), c, m6_expr(left.view(), c, n0).1 + 2);
        }
        emit_expr_depth(left, out, fctx, string_map, opts, data, depth + 1, counter);
        let f = fresh_label("AND_FALSE", counter);
        let en = fresh_label("AND_END", counter);
        push_str(out, "    LDD RESULT\n    BEQ ");
        push_str(out, f.as_str());
        push_str(out, "\n");
        emit_expr_depth(right, out, fctx, string_map, opts, data, depth + 1, counter);
        push_str(out, "    LDD RESULT\n    BEQ ");
        push_str(out, f.as_str());
        push_str(out, "\n    LDD #1\n    STD RESULT\n    BRA ");
        push_str(out, en.as_str());
        push_str(out, "\n");
        push_str(out, f.as_str());
        push_str(out, ":\n    LDD #0\n    STD RESULT\n");
        push_str(out, en.as_str());
        push_str(out, ":\n");
        assert(out@ =~= o0 + and_text(
            m6_expr(left.view(), c, n0).0,
            m6_expr(right.view(), c, m6_expr(left.view(), c, n0).1 + 2).0,
            m6_expr(left.view(), c, n0).1,
        ));
    }
}

#[verifier::spinoff_prover]
#[verifier::rlimit(100)]
fn emit_or_m6(
    expr: &Expr,
    out: &mut String,
    fctx: &FuncCtx,
    string_map: &Vec<(String, String)>,
    opts: &CodegenOptions,
    data: &AssetData,
    depth: usize,
    counter: &mut usize,
)
    requires
        expr matches Expr::Logic { op: LogicOp::Or, .. },
        keys_unique(string_map@),
        fctx.locals.len() < 0x4000_0000,
        m6_ok(expr.view(), depth as int, m6_ctx(fctx, string_map, opts, data)),
        m6_expr(expr.view(), m6_ctx(fctx, string_map, opts, data), *old(counter) as nat).1 <= usize::MAX,
    ensures
        final(out)@ == old(out)@ + m6_expr(expr.view(), m6_ctx(fctx, string_map, opts, data), *old(counter) as nat).0,
        *final(counter) == m6_expr(expr.view(), m6_ctx(fctx, string_map, opts, data), *old(counter) as nat).1,
    decreases expr, 0nat, 0nat,
{
    proof {
        lemma_m6_two_operands(expr.view(), m6_ctx(fctx, string_map, opts, data), *counter as nat, depth as int);
    }
    let ghost c = m6_ctx(fctx, string_map, opts, data);
    let ghost n0 = *counter as nat;
    let ghost o0 = out@;
    if let Expr::Logic { left, right, .. } = expr {
        proof {
            lemma_m6_expr_mono(left.view(), c, n0 + 2);
            lemma_m6_expr_mono(right.view(), c, m6_expr(left.view(), c, n0 + 2).1);
        }
        let t = fresh_label("OR_TRUE", counter);
        let en = fresh_label("OR_END", counter);
        emit_expr_depth(left, out, fctx, string_map, opts, data, depth + 1, counter);
        push_str(out, "    LDD RESULT\n    BNE ");
        push_str(out, t.as_str());
        push_str(out, "\n");
        emit_expr_depth(right, out, fctx, string_map, opts, data, depth + 1, counter);
        push_str(out, "    LDD RESULT\n    BNE ");
        push_str(out, t.as_str());
        push_str(out, "\n    LDD #0\n    STD RESULT\n    BRA ");
        push_str(out, en.as_str());
        push_str(out, "\n");
        push_str(out, t.as_str());
        push_str(out, ":\n    LDD #1\n    STD RESULT\n");
        push_str(out, en.as_str());
        push_str(out, ":\n");
        assert(out@ =~= o0 + or_text(
            m6_expr(left.view(), c, n0 + 2).0,
            m6_expr(right.view(), c, m6_expr(left.view(), c, n0 + 2).1).0,
            n0,
        ));
    }
}

/// Stores the first `k` arguments into the argument slots.
fn emit_m6_args(
    args: &Vec<Expr>,
    k: usize,
    out: &mut String,
    fctx: &FuncCtx,
    string_map: &Vec<(String, String)>,
    opts: &CodegenOptions,
    data: &AssetData,
    depth: usize,
    counter: &mut usize,
)
    requires
        keys_unique(string_map@),
        fctx.locals.len() < 0x4000_0000,
        k <= args.len(),
        m6_args_ok(view_exprs(args@), k as nat, depth as int, m6_ctx(fctx, string_map, opts, data)),
        m6_args(view_exprs(args@), k as nat, m6_ctx(fctx, string_map, opts, data), *old(counter) as nat).1 <= usize::MAX,
    ensures
        final(out)@ == old(out)@ + m6_args(view_exprs(args@), k as nat, m6_ctx(fctx, string_map, opts, data), *old(counter) as nat).0,
        *final(counter) == m6_args(view_exprs(args@), k as nat, m6_ctx(fctx, string_map, opts, data), *old(counter) as nat).1,
    decreases args, 0nat, k,
{
    reveal(m6_expr);
    reveal(m6_builtin);
    let ghost c = m6_ctx(fctx, string_map, opts, data);
    let ghost av = view_exprs(args@);
    let ghost n0 = *counter as nat;
    let ghost o0 = out@;
    proof {
        lemma_view_exprs(args@);
    }
    if k == 0 {
        return;
    }
    proof {
        lemma_m6_args_ok(av, k as nat, depth as int, c, (k - 1) as nat);
        lemma_m6_expr_mono(av[k - 1], c, m6_args(av, (k - 1) as nat, c, n0).1);
    }
    emit_m6_args(args, k - 1, out, fctx, string_map, opts, data, depth, counter);
    emit_expr_depth(&args[k - 1], out, fctx, string_map, opts, data, depth, counter);
    push_str(out, "    LDD RESULT\n    STD VAR_ARG");
    push_dec(out, (k - 1) as u64);
    push_str(out, "\n");
    assert(out@ =~= o0 + m6_args(av, k as nat, c, n0).0);
}

/// Stores the first `k` arguments of `DRAW_LINE` into the argument slots.
#[verifier::rlimit(100)]
fn emit_m6_line_args(
    args: &Vec<Expr>,
    k: usize,
    out: &mut String,
    fctx: &FuncCtx,
    string_map: &Vec<(String, String)>,
    opts: &CodegenOptions,
    data: &AssetData,
    counter: &mut usize,
)
    requires
        keys_unique(string_map@),
        fctx.locals.len() < 0x4000_0000,
        k <= args.len(),
        m6_args_ok(view_exprs(args@), k as nat, 0, m6_ctx(fctx, string_map, opts, data)),
        m6_line_args(view_exprs(args@), k as nat, m6_ctx(fctx, string_map, opts, data), *old(counter) as nat).1 <= usize::MAX,
    ensures
        final(out)@ == old(out)@ + m6_line_args(view_exprs(args@), k as nat, m6_ctx(fctx, string_map, opts, data), *old(counter) as nat).0,
        *final(counter) == m6_line_args(view_exprs(args@), k as nat, m6_ctx(fctx, string_map, opts, data), *old(counter) as nat).1,
    decreases args, 0nat, k,
{
    reveal(m6_expr);
    reveal(m6_builtin);
    let ghost c = m6_ctx(fctx, string_map, opts, data);
    let ghost av = view_exprs(args@);
    let ghost n0 = *counter as nat;
    let ghost o0 = out@;
    proof {
        lemma_view_exprs(args@);
    }
    if k == 0 {
        return;
    }
    proof {
        lemma_m6_args_ok(av, k as nat, 0, c, (k - 1) as nat);
        lemma_m6_expr_mono(av[k - 1], c, m6_line_args(av, (k - 1) as nat, c, n0).1);
    }
    emit_m6_line_args(args, k - 1, out, fctx, string_map, opts, data, counter);
    match &args[k - 1] {
        Expr::Number(v) => {
            push_str(out, "    LDD #");
            push_dec_i64(out, crate::codegen::fold::trunc16(*v) as i64);
            push_str(out, "\n    STD VAR_ARG");
        },
        _ => {
            emit_expr_depth(&args[k - 1], out, fctx, string_map, opts, data, 0, counter);
            push_str(out, "    LDD RESULT\n    STD VAR_ARG");
        },
    }
    push_dec(out, (k - 1) as u64);
    push_str(out, "\n");
    assert(out@ =~= o0 + m6_line_args(av, k as nat, c, n0).0);
}


// ---------------------------------------------------------------------------
// Builtin calls
// ---------------------------------------------------------------------------

#[verifier::rlimit(100)]
fn emit_draw_vector_m6(
    nm: &String,
    pc: usize,
    args: &Vec<Expr>,
    out: &mut String,
    fctx: &FuncCtx,
    string_map: &Vec<(String, String)>,
    opts: &CodegenOptions,
    data: &AssetData,
    counter: &mut usize,
)
    requires
        keys_unique(string_map@),
        fctx.locals.len() < 0x4000_0000,
        args.len() == 3,
        m6_ok(view_exprs(args@)[1], 0, m6_ctx(fctx, string_map, opts, data)),
        m6_ok(view_exprs(args@)[2], 0, m6_ctx(fctx, string_map, opts, data)),
        m6_expr(view_exprs(args@)[2], m6_ctx(fctx, string_map, opts, data), m6_expr(view_exprs(args@)[1], m6_ctx(fctx, string_map, opts, data), *old(counter) as nat).1).1 <= usize::MAX,
    ensures
        final(out)@ == old(out)@ + draw_vector_text(
            nm@,
            pc as nat,
            m6_expr(view_exprs(args@)[1], m6_ctx(fctx, string_map, opts, data), *old(counter) as nat).0,
            m6_expr(view_exprs(args@)[2], m6_ctx(fctx, string_map, opts, data), m6_expr(view_exprs(args@)[1], m6_ctx(fctx, string_map, opts, data), *old(counter) as nat).1).0,
        ),
        *final(counter) == m6_expr(view_exprs(args@)[2], m6_ctx(fctx, string_map, opts, data), m6_expr(view_exprs(args@)[1], m6_ctx(fctx, string_map, opts, data), *old(counter) as nat).1).1,
    decreases args, 0nat, 7nat,
{
    let ghost c = m6_ctx(fctx, string_map, opts, data);
    let ghost av = view_exprs(args@);
    let ghost n0 = *counter as nat;
    let ghost o0 = out@;
    proof {
        lemma_view_exprs(args@);
        lemma_m6_expr_mono(av[2], c, m6_expr(av[1], c, n0).1);
    }
    push_str(out, "; DRAW_VECTOR(\"");
    push_str(out, nm.as_str());
    push_str(out, "\", x, y) - ");
    push_dec(out, pc as u64);
    push_str(out, " path(s) at position\n");
    emit_expr_depth(&args[1], out, fctx, string_map, opts, data, 0, counter);
    push_str(out, "    LDA RESULT+1  ; X position (low byte)\n    STA DRAW_VEC_X\n");
    emit_expr_depth(&args[2], out, fctx, string_map, opts, data, 0, counter);
    push_str(out, "    LDA RESULT+1  ; Y position (low byte)\n    STA DRAW_VEC_Y\n");
    let mut sym = string_from("_");
    push_symbol(&mut sym, nm.as_str());
    let sv = chars_of(sym.as_str());
    push_path_lines(out, &sv, pc);
    push_str(out, RESULT_ZERO);
    assert(out@ =~= o0 + draw_vector_text(
        nm@,
        pc as nat,
        m6_expr(av[1], c, n0).0,
        m6_expr(av[2], c, m6_expr(av[1], c, n0).1).0,
    ));
}

#[verifier::rlimit(100)]
fn emit_vector_list_m6(
    lbl: &String,
    args: &Vec<Expr>,
    out: &mut String,
    fctx: &FuncCtx,
    string_map: &Vec<(String, String)>,
    opts: &CodegenOptions,
    data: &AssetData,
    counter: &mut usize,
)
    requires
        keys_unique(string_map@),
        fctx.locals.len() < 0x4000_0000,
        args.len() == 4,
        m6_ok(view_exprs(args@)[1], 0, m6_ctx(fctx, string_map, opts, data)),
        m6_ok(view_exprs(args@)[2], 0, m6_ctx(fctx, string_map, opts, data)),
        m6_ok(view_exprs(args@)[3], 0, m6_ctx(fctx, string_map, opts, data)),
        m6_expr(view_exprs(args@)[3], m6_ctx(fctx, string_map, opts, data), m6_expr(view_exprs(args@)[2], m6_ctx(fctx, string_map, opts, data), m6_expr(view_exprs(args@)[1], m6_ctx(fctx, string_map, opts, data), *old(counter) as nat).1).1).1 <= usize::MAX,
    ensures
        final(out)@ == old(out)@ + vector_list_text(
            lbl@,
            m6_expr(view_exprs(args@)[1], m6_ctx(fctx, string_map, opts, data), *old(counter) as nat).0,
            m6_expr(view_exprs(args@)[2], m6_ctx(fctx, string_map, opts, data), m6_expr(view_exprs(args@)[1], m6_ctx(fctx, string_map, opts, data), *old(counter) as nat).1).0,
            m6_expr(view_exprs(args@)[3], m6_ctx(fctx, string_map, opts, data), m6_expr(view_exprs(args@)[2], m6_ctx(fctx, string_map, opts, data), m6_expr(view_exprs(args@)[1], m6_ctx(fctx, string_map, opts, data), *old(counter) as nat).1).1).0,
        ),
        *final(counter) == m6_expr(view_exprs(args@)[3], m6_ctx(fctx, string_map, opts, data), m6_expr(view_exprs(args@)[2], m6_ctx(fctx, string_map, opts, data), m6_expr(view_exprs(args@)[1], m6_ctx(fctx, string_map, opts, data), *old(counter) as nat).1).1).1,
    decreases args, 0nat, 7nat,
{
    let ghost c = m6_ctx(fctx, string_map, opts, data);
    let ghost av = view_exprs(args@);
    let ghost n0 = *counter as nat;
    let ghost o0 = out@;
    proof {
        lemma_view_exprs(args@);
        let m1 = m6_expr(av[1], c, n0).1;
        lemma_m6_expr_mono(av[2], c, m1);
        lemma_m6_expr_mono(av[3], c, m6_expr(av[2], c, m1).1);
    }
    emit_expr_depth(&args[1], out, fctx, string_map, opts, data, 0, counter);
    push_str(out, "    LDA RESULT+1\n    STA VL_Y\n");
    emit_expr_depth(&args[2], out, fctx, string_map, opts, data, 0, counter);
    push_str(out, "    LDA RESULT+1\n    STA VL_X\n");
    emit_expr_depth(&args[3], out, fctx, string_map, opts, data, 0, counter);
    push_str(out, "    LDA RESULT+1\n    STA VL_SCALE\n");
    push_str(out, "; DRAW_VECTOR_LIST(");
    push_str(out, lbl.as_str());
    push_str(out, ", y, x, scale) - Malban algorithm\n    LDX #_");
    let u = to_upper(lbl.as_str());
    push_str(out, u.as_str());
    push_str(out, "\n");
    push_str(out, DRAW_VECTOR_LIST_LOOP);
    proof {
        let m1 = m6_expr(av[1], c, n0).1;
        let m2 = m6_expr(av[2], c, m1).1;
        assert(out@ =~= o0 + vector_list_text(
            lbl@,
            m6_expr(av[1], c, n0).0,
            m6_expr(av[2], c, m1).0,
            m6_expr(av[3], c, m2).0,
        ));
    }
}

fn emit_abs_m6(
    args: &Vec<Expr>,
    out: &mut String,
    fctx: &FuncCtx,
    string_map: &Vec<(String, String)>,
    opts: &CodegenOptions,
    data: &AssetData,
    counter: &mut usize,
)
    requires
        keys_unique(string_map@),
        fctx.locals.len() < 0x4000_0000,
        args.len() > 0,
        m6_ok(view_exprs(args@)[0], 0, m6_ctx(fctx, string_map, opts, data)),
        m6_expr(view_exprs(args@)[0], m6_ctx(fctx, string_map, opts, data), *old(counter) as nat).1 + 1 <= usize::MAX,
    ensures
        final(out)@ == old(out)@ + abs_text(m6_expr(view_exprs(args@)[0], m6_ctx(fctx, string_map, opts, data), *old(counter) as nat).0, m6_expr(view_exprs(args@)[0], m6_ctx(fctx, string_map, opts, data), *old(counter) as nat).1),
        *final(counter) == m6_expr(view_exprs(args@)[0], m6_ctx(fctx, string_map, opts, data), *old(counter) as nat).1 + 1,
    decreases args, 0nat, 7nat,
{
    let ghost c = m6_ctx(fctx, string_map, opts, data);
    let ghost av = view_exprs(args@);
    let ghost n0 = *counter as nat;
    let ghost o0 = out@;
    proof {
        lemma_view_exprs(args@);
    }
    emit_expr_depth(&args[0], out, fctx, string_map, opts, data, 0, counter);
    let d = fresh_label("ABS_DONE", counter);
    push_str(out, "    LDD RESULT\n    TSTA\n    BPL ");
    push_str(out, d.as_str());
    push_str(out, "\n    COMA\n    COMB\n    ADDD #1\n");
    push_str(out, d.as_str());
    push_str(out, ": STD RESULT\n");
    assert(out@ =~= o0 + abs_text(m6_expr(av[0], c, n0).0, m6_expr(av[0], c, n0).1));
}

#[verifier::rlimit(100)]
fn emit_minmax_m6(
    is_min: bool,
    args: &Vec<Expr>,
    out: &mut String,
    fctx: &FuncCtx,
    string_map: &Vec<(String, String)>,
    opts: &CodegenOptions,
    data: &AssetData,
    counter: &mut usize,
)
    requires
        keys_unique(string_map@),
        fctx.locals.len() < 0x4000_0000,
        args.len() >= 2,
        m6_ok(view_exprs(args@)[0], 0, m6_ctx(fctx, string_map, opts, data)),
        m6_ok(view_exprs(args@)[1], 0, m6_ctx(fctx, string_map, opts, data)),
        m6_expr(view_exprs(args@)[1], m6_ctx(fctx, string_map, opts, data), m6_expr(view_exprs(args@)[0], m6_ctx(fctx, string_map, opts, data), *old(counter) as nat).1).1 + 2 <= usize::MAX,
    ensures
        final(out)@ == old(out)@ + minmax_text(
            is_min,
            m6_expr(view_exprs(args@)[0], m6_ctx(fctx, string_map, opts, data), *old(counter) as nat).0,
            m6_expr(view_exprs(args@)[1], m6_ctx(fctx, string_map, opts, data), m6_expr(view_exprs(args@)[0], m6_ctx(fctx, string_map, opts, data), *old(counter) as nat).1).0,
            m6_expr(view_exprs(args@)[1], m6_ctx(fctx, string_map, opts, data), m6_expr(view_exprs(args@)[0], m6_ctx(fctx, string_map, opts, data), *old(counter) as nat).1).1,
        ),
        *final(counter) == m6_expr(view_exprs(args@)[1], m6_ctx(fctx, string_map, opts, data), m6_expr(view_exprs(args@)[0], m6_ctx(fctx, string_map, opts, data), *old(counter) as nat).1).1 + 2,
    decreases args, 0nat, 7nat,
{
    let ghost c = m6_ctx(fctx, string_map, opts, data);
    let ghost av = view_exprs(args@);
    let ghost n0 = *counter as nat;
    let ghost o0 = out@;
    proof {
        lemma_view_exprs(args@);
        lemma_m6_expr_mono(av[1], c, m6_expr(av[0], c, n0).1);
    }
    emit_expr_depth(&args[0], out, fctx, string_map, opts, data, 0, counter);
    push_str(out, "    LDD RESULT\n    STD TMPLEFT\n");
    emit_expr_depth(&args[1], out, fctx, string_map, opts, data, 0, counter);
    push_str(out, "    LDD RESULT\n    STD TMPRIGHT\n");
    let ur = fresh_label(if is_min { "MIN_USE_R" } else { "MAX_USE_R" }, counter);
    let d = fresh_label(if is_min { "MIN_DONE" } else { "MAX_DONE" }, counter);
    push_str(out, "    LDD TMPLEFT\n    SUBD TMPRIGHT\n    ");
    push_str(out, if is_min { "BGT" } else { "BLT" });
    push_str(out, " ");
    push_str(out, ur.as_str());
    push_str(out, "\n    LDD TMPLEFT\n    BRA ");
    push_str(out, d.as_str());
    push_str(out, "\n");
    push_str(out, ur.as_str());
    push_str(out, ": LDD TMPRIGHT\n");
    push_str(out, d.as_str());
    push_str(out, ": STD RESULT\n");
    proof {
        let m0 = m6_expr(av[0], c, n0).1;
        assert(out@ =~= o0 + minmax_text(
            is_min,
            m6_expr(av[0], c, n0).0,
            m6_expr(av[1], c, m0).0,
            m6_expr(av[1], c, m0).1,
        ));
    }
}

#[verifier::rlimit(100)]
fn emit_clamp_m6(
    args: &Vec<Expr>,
    out: &mut String,
    fctx: &FuncCtx,
    string_map: &Vec<(String, String)>,
    opts: &CodegenOptions,
    data: &AssetData,
    counter: &mut usize,
)
    requires
        keys_unique(string_map@),
        fctx.locals.len() < 0x4000_0000,
        args.len() >= 3,
        m6_ok(view_exprs(args@)[0], 0, m6_ctx(fctx, string_map, opts, data)),
        m6_ok(view_exprs(args@)[1], 0, m6_ctx(fctx, string_map, opts, data)),
        m6_ok(view_exprs(args@)[2], 0, m6_ctx(fctx, string_map, opts, data)),
        m6_expr(view_exprs(args@)[2], m6_ctx(fctx, string_map, opts, data), m6_expr(view_exprs(args@)[1], m6_ctx(fctx, string_map, opts, data), m6_expr(view_exprs(args@)[0], m6_ctx(fctx, string_map, opts, data), *old(counter) as nat).1).1).1 + 4 <= usize::MAX,
    ensures
        final(out)@ == old(out)@ + clamp_text(
            m6_expr(view_exprs(args@)[0], m6_ctx(fctx, string_map, opts, data), *old(counter) as nat).0,
            m6_expr(view_exprs(args@)[1], m6_ctx(fctx, string_map, opts, data), m6_expr(view_exprs(args@)[0], m6_ctx(fctx, string_map, opts, data), *old(counter) as nat).1).0,
            m6_expr(view_exprs(args@)[2], m6_ctx(fctx, string_map, opts, data), m6_expr(view_exprs(args@)[1], m6_ctx(fctx, string_map, opts, data), m6_expr(view_exprs(args@)[0], m6_ctx(fctx, string_map, opts, data), *old(counter) as nat).1).1).0,
            m6_expr(view_exprs(args@)[2], m6_ctx(fctx, string_map, opts, data), m6_expr(view_exprs(args@)[1], m6_ctx(fctx, string_map, opts, data), m6_expr(view_exprs(args@)[0], m6_ctx(fctx, string_map, opts, data), *old(counter) as nat).1).1).1,
        ),
        *final(counter) == m6_expr(view_exprs(args@)[2], m6_ctx(fctx, string_map, opts, data), m6_expr(view_exprs(args@)[1], m6_ctx(fctx, string_map, opts, data), m6_expr(view_exprs(args@)[0], m6_ctx(fctx, string_map, opts, data), *old(counter) as nat).1).1).1 + 4,
    decreases args, 0nat, 7nat,
{
    let ghost c = m6_ctx(fctx, string_map, opts, data);
    let ghost av = view_exprs(args@);
    let ghost n0 = *counter as nat;
    let ghost o0 = out@;
    proof {
        lemma_view_exprs(args@);
        let m0 = m6_expr(av[0], c, n0).1;
        lemma_m6_expr_mono(av[1], c, m0);
        lemma_m6_expr_mono(av[2], c, m6_expr(av[1], c, m0).1);
    }
    emit_expr_depth(&args[0], out, fctx, string_map, opts, data, 0, counter);
    push_str(out, "    LDD RESULT\n    STD TMPLEFT\n");
    emit_expr_depth(&args[1], out, fctx, string_map, opts, data, 0, counter);
    push_str(out, "    LDD RESULT\n    STD TMPRIGHT\n");
    emit_expr_depth(&args[2], out, fctx, string_map, opts, data, 0, counter);
    push_str(out, "    LDD RESULT\n    STD DIV_A\n");
    let lo = fresh_label("CLAMP_USE_LO", counter);
    let ch = fresh_label("CLAMP_CHECK_HI", counter);
    let hi = fresh_label("CLAMP_USE_HI", counter);
    let d = fresh_label("CLAMP_DONE", counter);
    push_str(out, "    LDD TMPLEFT\n    SUBD TMPRIGHT\n    BLT ");
    push_str(out, lo.as_str());
    push_str(out, "\n    BRA ");
    push_str(out, ch.as_str());
    push_str(out, "\n");
    push_str(out, lo.as_str());
    push_str(out, ": LDD TMPRIGHT\n    BRA ");
    push_str(out, d.as_str());
    push_str(out, "\n");
    push_str(out, ch.as_str());
    push_str(out, ": LDD TMPLEFT\n    SUBD DIV_A\n    BGT ");
    push_str(out, hi.as_str());
    push_str(out, "\n    LDD TMPLEFT\n    BRA ");
    push_str(out, d.as_str());
    push_str(out, "\n");
    push_str(out, hi.as_str());
    push_str(out, ": LDD DIV_A\n");
    push_str(out, d.as_str());
    push_str(out, ": STD RESULT\n");
    proof {
        let m0 = m6_expr(av[0], c, n0).1;
        let m1 = m6_expr(av[1], c, m0).1;
        assert(out@ =~= o0 + clamp_text(
            m6_expr(av[0], c, n0).0,
            m6_expr(av[1], c, m0).0,
            m6_expr(av[2], c, m1).0,
            m6_expr(av[2], c, m1).1,
        ));
    }
}

fn emit_trig_m6(
    up: &Vec<char>,
    args: &Vec<Expr>,
    out: &mut String,
    fctx: &FuncCtx,
    string_map: &Vec<(String, String)>,
    opts: &CodegenOptions,
    data: &AssetData,
    counter: &mut usize,
)
    requires
        keys_unique(string_map@),
        fctx.locals.len() < 0x4000_0000,
        args.len() > 0,
        m6_ok(view_exprs(args@)[0], 0, m6_ctx(fctx, string_map, opts, data)),
        m6_expr(view_exprs(args@)[0], m6_ctx(fctx, string_map, opts, data), *old(counter) as nat).1 <= usize::MAX,
    ensures
        final(out)@ == old(out)@ + trig_text(up@, m6_expr(view_exprs(args@)[0], m6_ctx(fctx, string_map, opts, data), *old(counter) as nat).0),
        *final(counter) == m6_expr(view_exprs(args@)[0], m6_ctx(fctx, string_map, opts, data), *old(counter) as nat).1,
    decreases args, 0nat, 7nat,
{
    let ghost c = m6_ctx(fctx, string_map, opts, data);
    let ghost av = view_exprs(args@);
    let ghost n0 = *counter as nat;
    let ghost o0 = out@;
    proof {
        lemma_view_exprs(args@);
    }
    emit_expr_depth(&args[0], out, fctx, string_map, opts, data, 0, counter);
    push_str(out, "    LDD RESULT\n    ANDB #$7F\n    CLRA\n    ASLB\n    ROLA\n    LDX #SIN_TABLE\n");
    if ends_with_str(up, "COS") {
        push_str(out, "    LDX #COS_TABLE\n");
    }
    if ends_with_str(up, "TAN") {
        push_str(out, "    LDX #TAN_TABLE\n");
    }
    push_str(out, "    ABX\n    LDD ,X\n    STD RESULT\n");
    assert(out@ =~= o0 + trig_text(up@, m6_expr(av[0], c, n0).0));
}

fn emit_native_m6(
    up: &Vec<char>,
    line: Option<usize>,
    args: &Vec<Expr>,
    out: &mut String,
    fctx: &FuncCtx,
    string_map: &Vec<(String, String)>,
    opts: &CodegenOptions,
    data: &AssetData,
    counter: &mut usize,
)
    requires
        keys_unique(string_map@),
        fctx.locals.len() < 0x4000_0000,
        m6_args_ok(view_exprs(args@), view_exprs(args@).len(), 0, m6_ctx(fctx, string_map, opts, data)),
        m6_args(view_exprs(args@), if args.len() < 5 { args.len() as nat } else { 5 }, m6_ctx(fctx, string_map, opts, data), *old(counter) as nat).1 <= usize::MAX,
    ensures
        final(out)@ == old(out)@ + m6_args(view_exprs(args@), if args.len() < 5 { args.len() as nat } else { 5 }, m6_ctx(fctx, string_map, opts, data), *old(counter) as nat).0
            + native(line, up@) + jsr(m6_ctx(fctx, string_map, opts, data), up@) + RESULT_CLEAR@,
        *final(counter) == m6_args(view_exprs(args@), if args.len() < 5 { args.len() as nat } else { 5 }, m6_ctx(fctx, string_map, opts, data), *old(counter) as nat).1,
    decreases args, 0nat, 7nat,
{
    let ghost c = m6_ctx(fctx, string_map, opts, data);
    let ghost av = view_exprs(args@);
    let ghost n0 = *counter as nat;
    let ghost o0 = out@;
    proof {
        lemma_view_exprs(args@);
    }
    let limit: usize = if args.len() < 5 {
        args.len()
    } else {
        5
    };
    proof {
        lemma_m6_args_ok(av, av.len(), 0, c, limit as nat);
    }
    emit_m6_args(args, limit, out, fctx, string_map, opts, data, 0, counter);
    let us = string_of(up);
    push_native(out, line, us.as_str());
    push_jsr(out, opts, data, fctx, string_map, us.as_str());
    push_str(out, RESULT_CLEAR);
}


/// The code of a builtin call by its upper-case name: true, and the code
/// appended, when it is a builtin; false, and nothing appended, otherwise.
#[verifier::rlimit(80)]
#[verifier::spinoff_prover]
fn emit_builtin_up(
    up: &Vec<char>,
    args: &Vec<Expr>,
    out: &mut String,
    fctx: &FuncCtx,
    string_map: &Vec<(String, String)>,
    opts: &CodegenOptions,
    data: &AssetData,
    line: Option<usize>,
    fuel: usize,
    counter: &mut usize,
) -> (r: bool)
    requires
        keys_unique(string_map@),
        fctx.locals.len() < 0x4000_0000,
        !(m6_builtin(up@, view_exprs(args@), m6_ctx(fctx, string_map, opts, data), line, *old(counter) as nat, fuel as nat) is Diverges),
        m6_builtin(up@, view_exprs(args@), m6_ctx(fctx, string_map, opts, data), line, *old(counter) as nat, fuel as nat) is Text ==> m6_builtin_ok(up@, view_exprs(args@), m6_ctx(fctx, string_map, opts, data), fuel as nat),
        m6_builtin(up@, view_exprs(args@), m6_ctx(fctx, string_map, opts, data), line, *old(counter) as nat, fuel as nat) matches BuiltinOut::Text(_, m) ==> m <= usize::MAX,
    ensures
        match m6_builtin(up@, view_exprs(args@), m6_ctx(fctx, string_map, opts, data), line, *old(counter) as nat, fuel as nat) {
            BuiltinOut::Text(t, m) => r && final(out)@ == old(out)@ + t && *final(counter) == m,
            _ => !r && final(out)@ == old(out)@ && *final(counter) == *old(counter),
        },
    decreases args, 1nat, 5 * fuel + 4,
{
    let ghost c = m6_ctx(fctx, string_map, opts, data);
    let ghost av = view_exprs(args@);
    let ghost n0 = *counter as nat;
    let ghost o0 = out@;
    proof {
        lemma_view_exprs(args@);
        lemma_m6_builtin_mono(up@, av, c, line, n0, fuel as nat);
        if m6_builtin(up@, av, c, line, n0, fuel as nat) is Text {
            lemma_m6_builtin_ok_facts(up@, av, c, fuel as nat);
        }
    }
    let s0 = string_arg(args);
    if vec_is(up, "DRAW_VECTOR") && args.len() == 3 && s0.is_some() {
        let nm = s0.unwrap();
        proof {
            lemma_m6_draw_vector(up@, av, c, line, n0, fuel as nat);
        }
        match asset_index_exec(&opts.assets, nm.as_str(), 0) {
            Some(k) => {
                proof {
                    lemma_m6_args_ok(av, av.len(), 0, c, 1);
                    lemma_m6_args_ok(av, av.len(), 0, c, 2);
                }
                let pc = data.vector_paths[k];
                emit_draw_vector_m6(nm, pc, args, out, fctx, string_map, opts, data, counter);
            },
            None => {
                emit_asset_box(out, nm.as_str(), &opts.assets, false);
            },
        }
        return true;
    }
    emit_builtin_first(up, args, out, fctx, string_map, opts, data, line, fuel, counter)
}

/// The builtin calls other than `DRAW_VECTOR` with an asset name.
#[verifier::rlimit(80)]
#[verifier::spinoff_prover]
fn emit_builtin_first(
    up: &Vec<char>,
    args: &Vec<Expr>,
    out: &mut String,
    fctx: &FuncCtx,
    string_map: &Vec<(String, String)>,
    opts: &CodegenOptions,
    data: &AssetData,
    line: Option<usize>,
    fuel: usize,
    counter: &mut usize,
) -> (r: bool)
    requires
        keys_unique(string_map@),
        fctx.locals.len() < 0x4000_0000,
        !(up@ == "DRAW_VECTOR"@ && args.len() == 3 && view_exprs(args@)[0] is StringLit),
        !(m6_builtin(up@, view_exprs(args@), m6_ctx(fctx, string_map, opts, data), line, *old(counter) as nat, fuel as nat) is Diverges),
        m6_builtin(up@, view_exprs(args@), m6_ctx(fctx, string_map, opts, data), line, *old(counter) as nat, fuel as nat) is Text ==> m6_builtin_ok(up@, view_exprs(args@), m6_ctx(fctx, string_map, opts, data), fuel as nat),
        m6_builtin(up@, view_exprs(args@), m6_ctx(fctx, string_map, opts, data), line, *old(counter) as nat, fuel as nat) matches BuiltinOut::Text(_, m) ==> m <= usize::MAX,
    ensures
        match m6_builtin(up@, view_exprs(args@), m6_ctx(fctx, string_map, opts, data), line, *old(counter) as nat, fuel as nat) {
            BuiltinOut::Text(t, m) => r && final(out)@ == old(out)@ + t && *final(counter) == m,
            _ => !r && final(out)@ == old(out)@ && *final(counter) == *old(counter),
        },
    decreases args, 1nat, 5 * fuel + 3,
{
    reveal(m6_builtin);
    let ghost c = m6_ctx(fctx, string_map, opts, data);
    let ghost av = view_exprs(args@);
    let ghost n0 = *counter as nat;
    let ghost o0 = out@;
    proof {
        lemma_view_exprs(args@);
        lemma_m6_builtin_mono(up@, av, c, line, n0, fuel as nat);
        if m6_builtin(up@, av, c, line, n0, fuel as nat) is Text {
            lemma_m6_builtin_ok_facts(up@, av, c, fuel as nat);
        }
    }
    let s0 = string_arg(args);
    if vec_is(up, "PLAY_MUSIC") && args.len() == 1 && s0.is_some() {
        let nm = s0.unwrap();
        if asset_index_exec(&opts.assets, nm.as_str(), 1).is_some() {
            push_str(out, "; PLAY_MUSIC(\"");
            push_str(out, nm.as_str());
            push_str(out, "\") - play music asset\n    LDX #_");
            push_symbol(out, nm.as_str());
            push_str(out, "_MUSIC\n    JSR PLAY_MUSIC_RUNTIME\n");
            push_str(out, RESULT_ZERO);
        } else {
            push_str(out, "; ERROR: Music asset '");
            push_str(out, nm.as_str());
            push_str(out, "' not found\n");
        }
        assert(out@ =~= o0 + (m6_builtin(up@, view_exprs(args@), m6_ctx(fctx, string_map, opts, data), line, *old(counter) as nat, fuel as nat)->Text_0));
        return true;
    }
    if vec_is(up, "PLAY_SFX") && args.len() == 1 && s0.is_some() {
        let nm = s0.unwrap();
        if asset_index_exec(&opts.assets, nm.as_str(), 2).is_some() {
            push_str(out, "; PLAY_SFX(\"");
            push_str(out, nm.as_str());
            push_str(out, "\") - play sound effect (one-shot)\n    LDX #_");
            push_symbol(out, nm.as_str());
            push_str(out, "_SFX\n    JSR PLAY_SFX_RUNTIME\n");
            push_str(out, RESULT_ZERO);
            assert(out@ =~= o0 + (m6_builtin(up@, view_exprs(args@), m6_ctx(fctx, string_map, opts, data), line, *old(counter) as nat, fuel as nat)->Text_0));
        } else {
            emit_asset_box(out, nm.as_str(), &opts.assets, true);
        }
        return true;
    }
    let fb = fixed_builtin_exec(up);
    if args.len() == 0 && fb.is_some() {
        let (f, t) = fb.unwrap();
        push_native(out, line, f);
        push_str(out, t);
        return true;
    }
    emit_builtin_early(up, args, out, fctx, string_map, opts, data, line, fuel, counter)
}

/// The builtin calls past the first ones (see `first_builtin`).
#[verifier::rlimit(80)]
#[verifier::spinoff_prover]
fn emit_builtin_early(
    up: &Vec<char>,
    args: &Vec<Expr>,
    out: &mut String,
    fctx: &FuncCtx,
    string_map: &Vec<(String, String)>,
    opts: &CodegenOptions,
    data: &AssetData,
    line: Option<usize>,
    fuel: usize,
    counter: &mut usize,
) -> (r: bool)
    requires
        keys_unique(string_map@),
        fctx.locals.len() < 0x4000_0000,
        !first_builtin(up@, view_exprs(args@)),
        !(m6_builtin(up@, view_exprs(args@), m6_ctx(fctx, string_map, opts, data), line, *old(counter) as nat, fuel as nat) is Diverges),
        m6_builtin(up@, view_exprs(args@), m6_ctx(fctx, string_map, opts, data), line, *old(counter) as nat, fuel as nat) is Text ==> m6_builtin_ok(up@, view_exprs(args@), m6_ctx(fctx, string_map, opts, data), fuel as nat),
        m6_builtin(up@, view_exprs(args@), m6_ctx(fctx, string_map, opts, data), line, *old(counter) as nat, fuel as nat) matches BuiltinOut::Text(_, m) ==> m <= usize::MAX,
    ensures
        match m6_builtin(up@, view_exprs(args@), m6_ctx(fctx, string_map, opts, data), line, *old(counter) as nat, fuel as nat) {
            BuiltinOut::Text(t, m) => r && final(out)@ == old(out)@ + t && *final(counter) == m,
            _ => !r && final(out)@ == old(out)@ && *final(counter) == *old(counter),
        },
    decreases args, 1nat, 5 * fuel + 2,
{
    reveal(m6_builtin);
    let ghost c = m6_ctx(fctx, string_map, opts, data);
    let ghost av = view_exprs(args@);
    let ghost n0 = *counter as nat;
    let ghost o0 = out@;
    proof {
        lemma_view_exprs(args@);
        lemma_m6_builtin_mono(up@, av, c, line, n0, fuel as nat);
        if m6_builtin(up@, av, c, line, n0, fuel as nat) is Text {
            lemma_m6_builtin_ok_facts(up@, av, c, fuel as nat);
        }
    }
    let s0 = string_arg(args);
    if vec_is(up, "VECTREX_DRAW_VECTORLIST") && args.len() == 1 && label_arg_exec(&args[0]).is_some() {
        let lbl = label_arg_exec(&args[0]).unwrap();
        push_str(out, "    LDX #VL_");
        let lv = chars_of(lbl.as_str());
        let lu = ascii_upper_vec(&lv);
        push_chars(out, &lu);
        push_str(out, "\n    JSR Run_VectorList\n");
        assert(out@ =~= o0 + (m6_builtin(up@, view_exprs(args@), m6_ctx(fctx, string_map, opts, data), line, *old(counter) as nat, fuel as nat)->Text_0));
        return true;
    }
    if vec_is(up, "DRAW_VECTORLIST") && args.len() == 0 {
        assert(out@ =~= o0 + (m6_builtin(up@, view_exprs(args@), m6_ctx(fctx, string_map, opts, data), line, *old(counter) as nat, fuel as nat)->Text_0));
        return true;
    }
    if vec_is(up, "DRAW_VECTORLIST") && label_arg_exec(&args[0]).is_some() {
        let lbl = label_arg_exec(&args[0]).unwrap();
        push_str(out, "    JSR VL_");
        let lv = chars_of(lbl.as_str());
        let lu = ascii_upper_vec(&lv);
        push_chars(out, &lu);
        push_str(out, "\n");
        assert(out@ =~= o0 + (m6_builtin(up@, view_exprs(args@), m6_ctx(fctx, string_map, opts, data), line, *old(counter) as nat, fuel as nat)->Text_0));
        return true;
    }
    if vec_is(up, "ASM") && args.len() == 1 && s0.is_some() {
        let t = s0.unwrap();
        push_str(out, "    ");
        push_str(out, t.as_str());
        push_str(out, "\n");
        assert(out@ =~= o0 + (m6_builtin(up@, view_exprs(args@), m6_ctx(fctx, string_map, opts, data), line, *old(counter) as nat, fuel as nat)->Text_0));
        return true;
    }
    if vec_is(up, "DRAW_VECTOR_LIST") && args.len() == 4 {
        match label_arg_exec(&args[0]) {
            None => {
                push_str(out, "; ERROR: DRAW_VECTOR_LIST requires label as first arg\n");
            },
            Some(lbl) => {
                proof {
                    lemma_m6_args_ok(av, av.len(), 0, c, 1);
                    lemma_m6_args_ok(av, av.len(), 0, c, 2);
                    lemma_m6_args_ok(av, av.len(), 0, c, 3);
                }
                emit_vector_list_m6(lbl, args, out, fctx, string_map, opts, data, counter);
            },
        }
        return true;
    }
    emit_builtin_mid(up, args, out, fctx, string_map, opts, data, line, fuel, counter)
}

/// The builtin calls past the early ones (see `early_builtin`).
#[verifier::rlimit(80)]
#[verifier::spinoff_prover]
fn emit_builtin_mid(
    up: &Vec<char>,
    args: &Vec<Expr>,
    out: &mut String,
    fctx: &FuncCtx,
    string_map: &Vec<(String, String)>,
    opts: &CodegenOptions,
    data: &AssetData,
    line: Option<usize>,
    fuel: usize,
    counter: &mut usize,
) -> (r: bool)
    requires
        keys_unique(string_map@),
        fctx.locals.len() < 0x4000_0000,
        !early_builtin(up@, view_exprs(args@)),
        !(m6_builtin(up@, view_exprs(args@), m6_ctx(fctx, string_map, opts, data), line, *old(counter) as nat, fuel as nat) is Diverges),
        m6_builtin(up@, view_exprs(args@), m6_ctx(fctx, string_map, opts, data), line, *old(counter) as nat, fuel as nat) is Text ==> m6_builtin_ok(up@, view_exprs(args@), m6_ctx(fctx, string_map, opts, data), fuel as nat),
        m6_builtin(up@, view_exprs(args@), m6_ctx(fctx, string_map, opts, data), line, *old(counter) as nat, fuel as nat) matches BuiltinOut::Text(_, m) ==> m <= usize::MAX,
    ensures
        match m6_builtin(up@, view_exprs(args@), m6_ctx(fctx, string_map, opts, data), line, *old(counter) as nat, fuel as nat) {
            BuiltinOut::Text(t, m) => r && final(out)@ == old(out)@ + t && *final(counter) == m,
            _ => !r && final(out)@ == old(out)@ && *final(counter) == *old(counter),
        },
    decreases args, 1nat, 5 * fuel + 1,
{
    reveal(m6_builtin);
    let ghost c = m6_ctx(fctx, string_map, opts, data);
    let ghost av = view_exprs(args@);
    let ghost n0 = *counter as nat;
    let ghost o0 = out@;
    proof {
        lemma_view_exprs(args@);
        lemma_m6_builtin_mono(up@, av, c, line, n0, fuel as nat);
        if m6_builtin(up@, av, c, line, n0, fuel as nat) is Text {
            lemma_m6_builtin_ok_facts(up@, av, c, fuel as nat);
        }
    }
    let all = nums_from(args, 0);
    proof {
        assert(av.subrange(0, args.len() as int) =~= av);
    }
    if vec_is(up, "DRAW_LINE") && args.len() == 5 && all.is_some() {
        let v = all.unwrap();
        emit_draw_line_const(out, v[0], v[1], v[2], v[3], v[4]);
        return true;
    }
    if vec_is(up, "DRAW_LINE") && args.len() == 5 {
        proof {
            lemma_m6_line_args_mono(av, 5, c, n0);
        }
        emit_m6_line_args(args, 5, out, fctx, string_map, opts, data, counter);
        push_str(out, "    JSR DRAW_LINE_WRAPPER\n");
        push_str(out, RESULT_ZERO);
        assert(out@ =~= o0 + (m6_builtin(up@, view_exprs(args@), m6_ctx(fctx, string_map, opts, data), line, *old(counter) as nat, fuel as nat)->Text_0));
        return true;
    }
    let pc = poly_call_exec(args);
    if vec_is(up, "DRAW_POLYGON") && pc.is_some() {
        let (pv, pi) = pc.unwrap();
        emit_polygon_const(out, &pv, pi);
        return true;
    }
    if all.is_some() {
        let vals = all.unwrap();
        let sk = shape_kind_exec(up, &vals);
        if sk.is_some() {
            let (closed, inten, circle) = sk.unwrap();
            match shape_index(&data.shapes, up, &vals) {
                Some(k) => {
                    emit_shape(out, &data.shapes[k].verts, closed, inten, circle);
                },
                None => {},
            }
            return true;
        }
    }
    if !is_listed_exec(up) {
        let us = string_of(up);
        match resolve_function_name(us.as_str()) {
            Some(t) => {
                let tv = chars_of(t.as_str());
                return emit_builtin_up(&tv, args, out, fctx, string_map, opts, data, line, fuel - 1, counter);
            },
            None => {
                return false;
            },
        }
    }
    emit_builtin_math(up, args, out, fctx, string_map, opts, data, line, fuel, counter)
}

/// The listed builtins past the early and middle ones: arithmetic, table
/// lookups and native routines.
#[verifier::rlimit(80)]
#[verifier::spinoff_prover]
fn emit_builtin_math(
    up: &Vec<char>,
    args: &Vec<Expr>,
    out: &mut String,
    fctx: &FuncCtx,
    string_map: &Vec<(String, String)>,
    opts: &CodegenOptions,
    data: &AssetData,
    line: Option<usize>,
    fuel: usize,
    counter: &mut usize,
) -> (r: bool)
    requires
        keys_unique(string_map@),
        fctx.locals.len() < 0x4000_0000,
        !early_builtin(up@, view_exprs(args@)),
        !mid_builtin(up@, view_exprs(args@)),
        !(m6_builtin(up@, view_exprs(args@), m6_ctx(fctx, string_map, opts, data), line, *old(counter) as nat, fuel as nat) is Diverges),
        m6_builtin(up@, view_exprs(args@), m6_ctx(fctx, string_map, opts, data), line, *old(counter) as nat, fuel as nat) is Text ==> m6_builtin_ok(up@, view_exprs(args@), m6_ctx(fctx, string_map, opts, data), fuel as nat),
        m6_builtin(up@, view_exprs(args@), m6_ctx(fctx, string_map, opts, data), line, *old(counter) as nat, fuel as nat) matches BuiltinOut::Text(_, m) ==> m <= usize::MAX,
    ensures
        match m6_builtin(up@, view_exprs(args@), m6_ctx(fctx, string_map, opts, data), line, *old(counter) as nat, fuel as nat) {
            BuiltinOut::Text(t, m) => r && final(out)@ == old(out)@ + t && *final(counter) == m,
            _ => !r && final(out)@ == old(out)@ && *final(counter) == *old(counter),
        },
    decreases args, 1nat, 5 * fuel,
{
    reveal(m6_builtin);
    let ghost c = m6_ctx(fctx, string_map, opts, data);
    let ghost av = view_exprs(args@);
    let ghost n0 = *counter as nat;
    let ghost o0 = out@;
    proof {
        lemma_view_exprs(args@);
        lemma_m6_builtin_mono(up@, av, c, line, n0, fuel as nat);
        if m6_builtin(up@, av, c, line, n0, fuel as nat) is Text {
            lemma_m6_builtin_ok_facts(up@, av, c, fuel as nat);
        }
    }
    if vec_is(up, "ABS") || vec_is(up, "MATH_ABS") {
        if args.len() > 0 {
            proof {
                lemma_m6_args_ok(av, av.len(), 0, c, 0);
            }
            emit_abs_m6(args, out, fctx, string_map, opts, data, counter);
        } else {
            push_str(out, RESULT_ZERO);
        }
        return true;
    }
    if vec_is(up, "MIN") || vec_is(up, "MATH_MIN") || vec_is(up, "MAX") || vec_is(up, "MATH_MAX") {
        if args.len() < 2 {
            push_str(out, RESULT_ZERO);
        } else {
            proof {
                lemma_m6_args_ok(av, av.len(), 0, c, 0);
                lemma_m6_args_ok(av, av.len(), 0, c, 1);
            }
            let is_min = vec_is(up, "MIN") || vec_is(up, "MATH_MIN");
            emit_minmax_m6(is_min, args, out, fctx, string_map, opts, data, counter);
        }
        return true;
    }
    if vec_is(up, "CLAMP") || vec_is(up, "MATH_CLAMP") {
        if args.len() < 3 {
            push_str(out, RESULT_ZERO);
        } else {
            proof {
                lemma_m6_args_ok(av, av.len(), 0, c, 0);
                lemma_m6_args_ok(av, av.len(), 0, c, 1);
                lemma_m6_args_ok(av, av.len(), 0, c, 2);
            }
            emit_clamp_m6(args, out, fctx, string_map, opts, data, counter);
        }
        return true;
    }
    if vec_is(up, "SIN") || vec_is(up, "COS") || vec_is(up, "TAN") || vec_is(up, "MATH_SIN")
        || vec_is(up, "MATH_COS") || vec_is(up, "MATH_TAN") {
        if args.len() > 0 {
            proof {
                lemma_m6_args_ok(av, av.len(), 0, c, 0);
            }
            emit_trig_m6(up, args, out, fctx, string_map, opts, data, counter);
        } else {
            push_str(out, RESULT_CLEAR);
        }
        return true;
    }
    emit_native_m6(up, line, args, out, fctx, string_map, opts, data, counter);
    true
}

fn poly_call_exec(args: &Vec<Expr>) -> (r: Option<(Vec<(i32, i32)>, i32)>)
    ensures
        match poly_call(view_exprs(args@)) {
            Some((v, i)) => r matches Some((w, j)) && w@ == v && j == i,
            None => r is None,
        },
{
    proof {
        lemma_view_exprs(args@);
    }
    if args.len() == 0 {
        return None;
    }
    let n: i32 = match &args[0] {
        Expr::Number(x) => *x,
        _ => {
            return None;
        },
    };
    let len = args.len() as i128;
    let st: usize = if len == 1 + 2 * (n as i128) {
        1
    } else if len == 2 + 2 * (n as i128) {
        2
    } else {
        return None;
    };
    match nums_from(args, st) {
        Some(v) => {
            let i: i32 = if st == 2 {
                match &args[1] {
                    Expr::Number(x) => *x,
                    _ => 0x5F,
                }
            } else {
                0x5F
            };
            let w = pairs_exec(&v);
            Some((w, i))
        },
        None => None,
    }
}

/// Emits a builtin call: whether `name` names a builtin (its ASCII
/// upper case, or the newer spelling it maps to); the code appended when it
/// does, nothing otherwise.
pub fn emit_builtin_call(
    name: &str,
    args: &Vec<Expr>,
    out: &mut String,
    fctx: &FuncCtx,
    string_map: &Vec<(String, String)>,
    opts: &CodegenOptions,
    data: &AssetData,
    line_info: Option<usize>,
    counter: &mut usize,
) -> (r: bool)
    requires
        keys_unique(string_map@),
        fctx.locals.len() < 0x4000_0000,
        m6_builtin(crate::text::ascii_upper_seq(name@), view_exprs(args@), m6_ctx(fctx, string_map, opts, data), line_info, *old(counter) as nat, 2) is Text
            ==> m6_builtin_ok(crate::text::ascii_upper_seq(name@), view_exprs(args@), m6_ctx(fctx, string_map, opts, data), 2),
        m6_builtin(crate::text::ascii_upper_seq(name@), view_exprs(args@), m6_ctx(fctx, string_map, opts, data), line_info, *old(counter) as nat, 2) matches BuiltinOut::Text(_, m)
            ==> m <= usize::MAX,
        !(m6_builtin(crate::text::ascii_upper_seq(name@), view_exprs(args@), m6_ctx(fctx, string_map, opts, data), line_info, *old(counter) as nat, 2) is Diverges),
    ensures
        match m6_builtin(crate::text::ascii_upper_seq(name@), view_exprs(args@), m6_ctx(fctx, string_map, opts, data), line_info, *old(counter) as nat, 2) {
            BuiltinOut::Text(t, m) => r && final(out)@ == old(out)@ + t && *final(counter) == m,
            _ => !r && final(out)@ == old(out)@ && *final(counter) == *old(counter),
        },
{
    let nv = chars_of(name);
    let up = ascii_upper_vec(&nv);
    emit_builtin_up(&up, args, out, fctx, string_map, opts, data, line_info, 2, counter)
}

} // verus!
