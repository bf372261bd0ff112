//! Analyses of a module that steer the M6809 code generator: builtin name
//! resolution, used assets, trigonometry, call arguments and runtime needs.

use vstd::prelude::*;
use crate::ast::{
    BinOp, Expr, ExprM, Item, ItemM, Module, Stmt, StmtM, compound_free, compound_free_all,
    compound_free_arms, lemma_compound_free_arms_take, lemma_compound_free_take, lemma_view_arms,
    lemma_view_exprs, lemma_view_stmts, module_compound_free, sviews, view_arms, view_exprs,
    view_opt_expr, view_stmts,
};
use crate::codegen::CodegenOptions;
use crate::strset::{set_insert, set_of, sorted};
use crate::text::{
    ascii_lower_seq, ascii_lower_vec, ascii_upper_seq, ascii_upper_vec, chars_of, starts_with,
    starts_with_str, str_eq, string_from, to_upper, unicode_upper, vec_is,
};

verus! {

// ---------------------------------------------------------------------------
// Builtin names and paths
// ---------------------------------------------------------------------------

/// The modern name of a legacy builtin, or the name itself when it already
/// carries the `VECTREX_` prefix.
pub open spec fn resolved_name(name: Seq<char>) -> Option<Seq<char>> {
    if name == "PRINT_TEXT"@ {
        Some("VECTREX_PRINT_TEXT"@)
    } else if name == "DEBUG_PRINT"@ {
        Some("VECTREX_DEBUG_PRINT"@)
    } else if name == "DEBUG_PRINT_LABELED"@ {
        Some("VECTREX_DEBUG_PRINT_LABELED"@)
    } else if name == "MOVE"@ || name == "MOVE_TO"@ {
        Some("VECTREX_MOVE_TO"@)
    } else if name == "DRAW_TO"@ {
        Some("VECTREX_DRAW_TO"@)
    } else if name == "POKE"@ {
        Some("VECTREX_POKE"@)
    } else if name == "PEEK"@ {
        Some("VECTREX_PEEK"@)
    } else if name == "PRINT_NUMBER"@ {
        Some("VECTREX_PRINT_NUMBER"@)
    } else if name == "DRAW_POLYGON"@ {
        Some("DRAW_POLYGON"@)
    } else if name == "DRAW_VL"@ {
        Some("VECTREX_DRAW_VL"@)
    } else if name == "FRAME_BEGIN"@ {
        Some("VECTREX_FRAME_BEGIN"@)
    } else if name == "VECTOR_PHASE_BEGIN"@ {
        Some("VECTREX_VECTOR_PHASE_BEGIN"@)
    } else if name == "SET_ORIGIN"@ {
        Some("VECTREX_SET_ORIGIN"@)
    } else if name == "SET_INTENSITY"@ {
        Some("VECTREX_SET_INTENSITY"@)
    } else if name == "WAIT_RECAL"@ {
        Some("VECTREX_WAIT_RECAL"@)
    } else if name == "PLAY_MUSIC1"@ {
        Some("VECTREX_PLAY_MUSIC1"@)
    } else if name == "DBG_STATIC_VL"@ {
        Some("VECTREX_DBG_STATIC_VL"@)
    } else if starts_with(name, "VECTREX_"@) {
        Some(name)
    } else {
        None
    }
}

/// Map a legacy builtin name to its modern counterpart.
pub fn resolve_function_name(name: &str) -> (r: Option<String>)
    ensures
        match r {
            Some(s) => resolved_name(name@) == Some(s@),
            None => resolved_name(name@) is None,
        },
{
    let table: [(&str, &str); 17] = [
        ("PRINT_TEXT", "VECTREX_PRINT_TEXT"),
        ("DEBUG_PRINT", "VECTREX_DEBUG_PRINT"),
        ("DEBUG_PRINT_LABELED", "VECTREX_DEBUG_PRINT_LABELED"),
        ("MOVE", "VECTREX_MOVE_TO"),
        ("MOVE_TO", "VECTREX_MOVE_TO"),
        ("DRAW_TO", "VECTREX_DRAW_TO"),
        ("POKE", "VECTREX_POKE"),
        ("PEEK", "VECTREX_PEEK"),
        ("PRINT_NUMBER", "VECTREX_PRINT_NUMBER"),
        ("DRAW_POLYGON", "DRAW_POLYGON"),
        ("DRAW_VL", "VECTREX_DRAW_VL"),
        ("FRAME_BEGIN", "VECTREX_FRAME_BEGIN"),
        ("VECTOR_PHASE_BEGIN", "VECTREX_VECTOR_PHASE_BEGIN"),
        ("SET_ORIGIN", "VECTREX_SET_ORIGIN"),
        ("SET_INTENSITY", "VECTREX_SET_INTENSITY"),
        ("WAIT_RECAL", "VECTREX_WAIT_RECAL"),
        ("PLAY_MUSIC1", "VECTREX_PLAY_MUSIC1"),
    ];
    if str_eq(name, table[0].0) {
        return Some(string_from(table[0].1));
    }
    if str_eq(name, table[1].0) {
        return Some(string_from(table[1].1));
    }
    if str_eq(name, table[2].0) {
        return Some(string_from(table[2].1));
    }
    if str_eq(name, table[3].0) || str_eq(name, table[4].0) {
        return Some(string_from(table[3].1));
    }
    if str_eq(name, table[5].0) {
        return Some(string_from(table[5].1));
    }
    if str_eq(name, table[6].0) {
        return Some(string_from(table[6].1));
    }
    if str_eq(name, table[7].0) {
        return Some(string_from(table[7].1));
    }
    if str_eq(name, table[8].0) {
        return Some(string_from(table[8].1));
    }
    if str_eq(name, table[9].0) {
        return Some(string_from(table[9].1));
    }
    if str_eq(name, table[10].0) {
        return Some(string_from(table[10].1));
    }
    if str_eq(name, table[11].0) {
        return Some(string_from(table[11].1));
    }
    if str_eq(name, table[12].0) {
        return Some(string_from(table[12].1));
    }
    if str_eq(name, table[13].0) {
        return Some(string_from(table[13].1));
    }
    if str_eq(name, table[14].0) {
        return Some(string_from(table[14].1));
    }
    if str_eq(name, table[15].0) {
        return Some(string_from(table[15].1));
    }
    if str_eq(name, table[16].0) {
        return Some(string_from(table[16].1));
    }
    if str_eq(name, "DBG_STATIC_VL") {
        return Some(string_from("VECTREX_DBG_STATIC_VL"));
    }
    let v = chars_of(name);
    if starts_with_str(&v, "VECTREX_") {
        return Some(string_from(name));
    }
    None
}

/// The include file of the generated assembly.
pub fn calculate_include_path(_opts: &CodegenOptions) -> (r: String)
    ensures
        r@ == "VECTREX.I"@,
{
    string_from("VECTREX.I")
}

/// The vector-list runtime of the generated assembly.
pub fn calculate_runtime_path(_opts: &CodegenOptions) -> (r: String)
    ensures
        r@ == "runtime/vectorlist_runtime.asm"@,
{
    string_from("runtime/vectorlist_runtime.asm")
}

// ---------------------------------------------------------------------------
// Used assets
// ---------------------------------------------------------------------------

/// The asset a call names: the string first argument of
/// `DRAW_VECTOR(name, x, y)`, `PLAY_MUSIC(name)` or `PLAY_SFX(name)`, the
/// function name compared in upper case.
pub open spec fn call_asset(name: Seq<char>, args: Seq<ExprM>) -> Set<Seq<char>> {
    let up = unicode_upper(name);
    if ((up == "DRAW_VECTOR"@ && args.len() == 3) || (up == "PLAY_MUSIC"@ && args.len() == 1) || (
    up == "PLAY_SFX"@ && args.len() == 1)) && args[0] is StringLit {
        set![args[0]->StringLit_0]
    } else {
        Set::empty()
    }
}

/// The assets an expression uses.
pub open spec fn expr_assets(e: ExprM) -> Set<Seq<char>>
    decreases e,
{
    match e {
        ExprM::Call(n, _, _, args) => call_asset(n, args) + exprs_assets(args),
        ExprM::Binary(_, l, r) => expr_assets(*l) + expr_assets(*r),
        ExprM::Compare(_, l, r) => expr_assets(*l) + expr_assets(*r),
        ExprM::Logic(_, l, r) => expr_assets(*l) + expr_assets(*r),
        ExprM::Not(x) => expr_assets(*x),
        ExprM::BitNot(x) => expr_assets(*x),
        _ => Set::empty(),
    }
}

pub open spec fn exprs_assets(s: Seq<ExprM>) -> Set<Seq<char>>
    decreases s,
{
    if s.len() == 0 {
        Set::empty()
    } else {
        exprs_assets(s.drop_last()) + expr_assets(s.last())
    }
}

pub open spec fn opt_assets(o: Option<ExprM>) -> Set<Seq<char>> {
    match o {
        Some(e) => expr_assets(e),
        None => Set::empty(),
    }
}

/// The assets a statement uses, in its expressions and nested bodies.
pub open spec fn stmt_assets(s: StmtM) -> Set<Seq<char>>
    decreases s,
{
    match s {
        StmtM::Assign(_, v, _) => expr_assets(v),
        StmtM::Let(_, v, _) => expr_assets(v),
        StmtM::CompoundAssign(_, _, v, _) => expr_assets(v),
        StmtM::Expr(e, _) => expr_assets(e),
        StmtM::If(c, b, elifs, els, _) => expr_assets(c) + stmts_assets(b) + arms_assets(elifs) + (
        match els {
            Some(eb) => stmts_assets(eb),
            None => Set::empty(),
        }),
        StmtM::While(c, b, _) => expr_assets(c) + stmts_assets(b),
        StmtM::For(_, st, en, step, b, _) => expr_assets(st) + expr_assets(en) + opt_assets(step)
            + stmts_assets(b),
        StmtM::Switch(e, cases, def, _) => expr_assets(e) + arms_assets(cases) + (match def {
            Some(db) => stmts_assets(db),
            None => Set::empty(),
        }),
        StmtM::Return(Some(e), _) => expr_assets(e),
        _ => Set::empty(),
    }
}

pub open spec fn stmts_assets(s: Seq<StmtM>) -> Set<Seq<char>>
    decreases s,
{
    if s.len() == 0 {
        Set::empty()
    } else {
        stmts_assets(s.drop_last()) + stmt_assets(s.last())
    }
}

pub open spec fn arms_assets(s: Seq<(ExprM, Seq<StmtM>)>) -> Set<Seq<char>>
    decreases s,
{
    if s.len() == 0 {
        Set::empty()
    } else {
        arms_assets(s.drop_last()) + expr_assets(s.last().0) + stmts_assets(s.last().1)
    }
}

/// The assets of an item: function bodies, constant and global values, and
/// top-level expressions.
pub open spec fn item_assets(i: ItemM) -> Set<Seq<char>> {
    match i {
        ItemM::Function(f) => stmts_assets(f.body),
        ItemM::Const(_, v, _) => expr_assets(v),
        ItemM::GlobalLet(_, v, _) => expr_assets(v),
        ItemM::ExprStatement(e) => expr_assets(e),
        _ => Set::empty(),
    }
}

pub open spec fn items_assets(s: Seq<ItemM>) -> Set<Seq<char>>
    decreases s,
{
    if s.len() == 0 {
        Set::empty()
    } else {
        items_assets(s.drop_last()) + item_assets(s.last())
    }
}

/// The deepest nesting the asset scan reaches stays within 500: each
/// expression and statement is scanned one level below its parent.
pub open spec fn expr_depth_ok(e: ExprM, d: int) -> bool
    decreases e,
{
    d <= 500 && match e {
        ExprM::Call(_, _, _, args) => exprs_depth_ok(args, d + 1),
        ExprM::Binary(_, l, r) => expr_depth_ok(*l, d + 1) && expr_depth_ok(*r, d + 1),
        ExprM::Compare(_, l, r) => expr_depth_ok(*l, d + 1) && expr_depth_ok(*r, d + 1),
        ExprM::Logic(_, l, r) => expr_depth_ok(*l, d + 1) && expr_depth_ok(*r, d + 1),
        ExprM::Not(x) => expr_depth_ok(*x, d + 1),
        ExprM::BitNot(x) => expr_depth_ok(*x, d + 1),
        _ => true,
    }
}

pub open spec fn exprs_depth_ok(s: Seq<ExprM>, d: int) -> bool
    decreases s,
{
    if s.len() == 0 {
        true
    } else {
        exprs_depth_ok(s.drop_last(), d) && expr_depth_ok(s.last(), d)
    }
}

pub open spec fn opt_depth_ok(o: Option<ExprM>, d: int) -> bool {
    match o {
        Some(e) => expr_depth_ok(e, d),
        None => true,
    }
}

pub open spec fn stmt_depth_ok(s: StmtM, d: int) -> bool
    decreases s,
{
    d <= 500 && match s {
        StmtM::Assign(_, v, _) => expr_depth_ok(v, d + 1),
        StmtM::Let(_, v, _) => expr_depth_ok(v, d + 1),
        StmtM::CompoundAssign(_, _, v, _) => expr_depth_ok(v, d + 1),
        StmtM::Expr(e, _) => expr_depth_ok(e, d + 1),
        StmtM::If(c, b, elifs, els, _) => expr_depth_ok(c, d + 1) && stmts_depth_ok(b, d + 1)
            && arms_depth_ok(elifs, d + 1) && (match els {
            Some(eb) => stmts_depth_ok(eb, d + 1),
            None => true,
        }),
        StmtM::While(c, b, _) => expr_depth_ok(c, d + 1) && stmts_depth_ok(b, d + 1),
        StmtM::For(_, st, en, step, b, _) => expr_depth_ok(st, d + 1) && expr_depth_ok(en, d + 1)
            && opt_depth_ok(step, d + 1) && stmts_depth_ok(b, d + 1),
        StmtM::Switch(e, cases, def, _) => expr_depth_ok(e, d + 1) && arms_depth_ok(cases, d + 1)
            && (match def {
            Some(db) => stmts_depth_ok(db, d + 1),
            None => true,
        }),
        StmtM::Return(Some(e), _) => expr_depth_ok(e, d + 1),
        _ => true,
    }
}

pub open spec fn stmts_depth_ok(s: Seq<StmtM>, d: int) -> bool
    decreases s,
{
    if s.len() == 0 {
        true
    } else {
        stmts_depth_ok(s.drop_last(), d) && stmt_depth_ok(s.last(), d)
    }
}

pub open spec fn arms_depth_ok(s: Seq<(ExprM, Seq<StmtM>)>, d: int) -> bool
    decreases s,
{
    if s.len() == 0 {
        true
    } else {
        arms_depth_ok(s.drop_last(), d) && expr_depth_ok(s.last().0, d) && stmts_depth_ok(
            s.last().1,
            d,
        )
    }
}

/// The items of a module stay within the nesting the asset scan allows.
pub open spec fn items_depth_ok(s: Seq<ItemM>) -> bool {
    forall|i: int|
        0 <= i < s.len() ==> match #[trigger] s[i] {
            ItemM::Function(f) => stmts_depth_ok(f.body, 0),
            ItemM::Const(_, v, _) => expr_depth_ok(v, 0),
            ItemM::GlobalLet(_, v, _) => expr_depth_ok(v, 0),
            ItemM::ExprStatement(e) => expr_depth_ok(e, 0),
            _ => true,
        }
}

proof fn lemma_seq_prop_take_exprs(s: Seq<ExprM>, d: int, i: int)
    requires
        exprs_depth_ok(s, d),
        0 <= i < s.len(),
    ensures
        expr_depth_ok(s[i], d),
    decreases s.len(),
{
    if i < s.len() - 1 {
        lemma_seq_prop_take_exprs(s.drop_last(), d, i);
    }
}

proof fn lemma_seq_prop_take_stmts(s: Seq<StmtM>, d: int, i: int)
    requires
        stmts_depth_ok(s, d),
        0 <= i < s.len(),
    ensures
        stmt_depth_ok(s[i], d),
    decreases s.len(),
{
    if i < s.len() - 1 {
        lemma_seq_prop_take_stmts(s.drop_last(), d, i);
    }
}

proof fn lemma_seq_prop_take_arms(s: Seq<(ExprM, Seq<StmtM>)>, d: int, i: int)
    requires
        arms_depth_ok(s, d),
        0 <= i < s.len(),
    ensures
        expr_depth_ok(s[i].0, d),
        stmts_depth_ok(s[i].1, d),
    decreases s.len(),
{
    if i < s.len() - 1 {
        lemma_seq_prop_take_arms(s.drop_last(), d, i);
    }
}

fn call_asset_exec(name: &String, args: &Vec<Expr>, used: &mut Vec<String>)
    requires
        sorted(sviews(old(used)@)),
    ensures
        sorted(sviews(final(used)@)),
        set_of(final(used)@) == set_of(old(used)@) + call_asset(name@, view_exprs(args@)),
{
    proof {
        lemma_view_exprs(args@);
    }
    let up = to_upper(name.as_str());
    if (str_eq(up.as_str(), "DRAW_VECTOR") && args.len() == 3) || (str_eq(
        up.as_str(),
        "PLAY_MUSIC",
    ) && args.len() == 1) || (str_eq(up.as_str(), "PLAY_SFX") && args.len() == 1) {
        if let Expr::StringLit(asset_name) = &args[0] {
            set_insert(used, asset_name.clone());
            return ;
        }
    }
    assert(set_of(used@) =~= set_of(old(used)@) + call_asset(name@, view_exprs(args@)));
}

fn scan_expr_assets(expr: &Expr, used: &mut Vec<String>, depth: usize)
    requires
        sorted(sviews(old(used)@)),
        expr_depth_ok(expr.view(), depth as int),
    ensures
        sorted(sviews(final(used)@)),
        set_of(final(used)@) == set_of(old(used)@) + expr_assets(expr.view()),
    decreases expr,
{
    match expr {
        Expr::Call(call_info) => {
            call_asset_exec(&call_info.name, &call_info.args, used);
            scan_exprs_assets(&call_info.args, used, depth + 1);
        },
        Expr::Binary { left, right, .. } | Expr::Compare { left, right, .. } | Expr::Logic {
            left,
            right,
            ..
        } => {
            scan_expr_assets(left, used, depth + 1);
            scan_expr_assets(right, used, depth + 1);
        },
        Expr::Not(inner) | Expr::BitNot(inner) => scan_expr_assets(inner, used, depth + 1),
        _ => {},
    }
    assert(set_of(used@) =~= set_of(old(used)@) + expr_assets(expr.view()));
}

fn scan_exprs_assets(v: &Vec<Expr>, used: &mut Vec<String>, depth: usize)
    requires
        sorted(sviews(old(used)@)),
        exprs_depth_ok(view_exprs(v@), depth as int),
        depth <= 501,
    ensures
        sorted(sviews(final(used)@)),
        set_of(final(used)@) == set_of(old(used)@) + exprs_assets(view_exprs(v@)),
    decreases v,
{
    let ghost vs = view_exprs(v@);
    proof {
        lemma_view_exprs(v@);
        assert(vs.take(0) =~= Seq::<ExprM>::empty());
    }
    let mut i: usize = 0;
    while i < v.len()
        invariant
            i <= v.len(),
            vs == view_exprs(v@),
            vs.len() == v.len(),
            forall|k: int| 0 <= k < v.len() ==> #[trigger] vs[k] == v@[k].view(),
            exprs_depth_ok(vs, depth as int),
            sorted(sviews(used@)),
            set_of(used@) == set_of(old(used)@) + exprs_assets(vs.take(i as int)),
        decreases v.len() - i,
    {
        proof {
            assert(vs.take(i + 1).drop_last() =~= vs.take(i as int));
            lemma_seq_prop_take_exprs(vs, depth as int, i as int);
        }
        scan_expr_assets(&v[i], used, depth);
        assert(set_of(used@) =~= set_of(old(used)@) + exprs_assets(vs.take(i + 1)));
        i += 1;
    }
    assert(vs.take(v.len() as int) =~= vs);
}

fn scan_stmt_assets(stmt: &Stmt, used: &mut Vec<String>, depth: usize)
    requires
        sorted(sviews(old(used)@)),
        stmt_depth_ok(stmt.view(), depth as int),
    ensures
        sorted(sviews(final(used)@)),
        set_of(final(used)@) == set_of(old(used)@) + stmt_assets(stmt.view()),
    decreases stmt,
{
    match stmt {
        Stmt::Assign { value, .. } => scan_expr_assets(value, used, depth + 1),
        Stmt::Let { value, .. } => scan_expr_assets(value, used, depth + 1),
        Stmt::CompoundAssign { value, .. } => scan_expr_assets(value, used, depth + 1),
        Stmt::Expr(expr, _) => scan_expr_assets(expr, used, depth + 1),
        Stmt::If { cond, body, elifs, else_body, .. } => {
            scan_expr_assets(cond, used, depth + 1);
            scan_stmts_assets(body, used, depth + 1);
            scan_arms_assets(elifs, used, depth + 1);
            if let Some(els) = else_body {
                scan_stmts_assets(els, used, depth + 1);
            }
        },
        Stmt::While { cond, body, .. } => {
            scan_expr_assets(cond, used, depth + 1);
            scan_stmts_assets(body, used, depth + 1);
        },
        Stmt::For { start, end, step, body, .. } => {
            scan_expr_assets(start, used, depth + 1);
            scan_expr_assets(end, used, depth + 1);
            if let Some(step_expr) = step {
                scan_expr_assets(step_expr, used, depth + 1);
            }
            scan_stmts_assets(body, used, depth + 1);
        },
        Stmt::Switch { expr, cases, default, .. } => {
            scan_expr_assets(expr, used, depth + 1);
            scan_arms_assets(cases, used, depth + 1);
            if let Some(default_body) = default {
                scan_stmts_assets(default_body, used, depth + 1);
            }
        },
        Stmt::Return(Some(expr), _) => scan_expr_assets(expr, used, depth + 1),
        _ => {},
    }
    assert(set_of(used@) =~= set_of(old(used)@) + stmt_assets(stmt.view()));
}

fn scan_stmts_assets(v: &Vec<Stmt>, used: &mut Vec<String>, depth: usize)
    requires
        sorted(sviews(old(used)@)),
        stmts_depth_ok(view_stmts(v@), depth as int),
        depth <= 501,
    ensures
        sorted(sviews(final(used)@)),
        set_of(final(used)@) == set_of(old(used)@) + stmts_assets(view_stmts(v@)),
    decreases v,
{
    let ghost vs = view_stmts(v@);
    proof {
        lemma_view_stmts(v@);
        assert(vs.take(0) =~= Seq::<StmtM>::empty());
    }
    let mut i: usize = 0;
    while i < v.len()
        invariant
            i <= v.len(),
            vs == view_stmts(v@),
            vs.len() == v.len(),
            forall|k: int| 0 <= k < v.len() ==> #[trigger] vs[k] == v@[k].view(),
            stmts_depth_ok(vs, depth as int),
            sorted(sviews(used@)),
            set_of(used@) == set_of(old(used)@) + stmts_assets(vs.take(i as int)),
        decreases v.len() - i,
    {
        proof {
            assert(vs.take(i + 1).drop_last() =~= vs.take(i as int));
            lemma_seq_prop_take_stmts(vs, depth as int, i as int);
        }
        scan_stmt_assets(&v[i], used, depth);
        assert(set_of(used@) =~= set_of(old(used)@) + stmts_assets(vs.take(i + 1)));
        i += 1;
    }
    assert(vs.take(v.len() as int) =~= vs);
}

fn scan_arms_assets(v: &Vec<(Expr, Vec<Stmt>)>, used: &mut Vec<String>, depth: usize)
    requires
        sorted(sviews(old(used)@)),
        arms_depth_ok(view_arms(v@), depth as int),
        depth <= 501,
    ensures
        sorted(sviews(final(used)@)),
        set_of(final(used)@) == set_of(old(used)@) + arms_assets(view_arms(v@)),
    decreases v,
{
    let ghost va = view_arms(v@);
    proof {
        lemma_view_arms(v@);
        assert(va.take(0) =~= Seq::<(ExprM, Seq<StmtM>)>::empty());
    }
    let mut i: usize = 0;
    while i < v.len()
        invariant
            i <= v.len(),
            va == view_arms(v@),
            va.len() == v.len(),
            forall|k: int|
                0 <= k < v.len() ==> #[trigger] va[k] == (v@[k].0.view(), view_stmts(v@[k].1@)),
            arms_depth_ok(va, depth as int),
            sorted(sviews(used@)),
            set_of(used@) == set_of(old(used)@) + arms_assets(va.take(i as int)),
        decreases v.len() - i,
    {
        proof {
            assert(va.take(i + 1).drop_last() =~= va.take(i as int));
            lemma_seq_prop_take_arms(va, depth as int, i as int);
        }
        scan_expr_assets(&v[i].0, used, depth);
        scan_stmts_assets(&v[i].1, used, depth);
        assert(set_of(used@) =~= set_of(old(used)@) + arms_assets(va.take(i + 1)));
        i += 1;
    }
    assert(va.take(v.len() as int) =~= va);
}

/// The assets a module uses (the names given to `DRAW_VECTOR`,
/// `PLAY_MUSIC` and `PLAY_SFX`), in ascending order, each once. The scan
/// allows 500 levels of nesting.
pub fn analyze_used_assets(module: &Module) -> (r: Vec<String>)
    requires
        items_depth_ok(module.view().items),
    ensures
        sorted(sviews(r@)),
        set_of(r@) == items_assets(module.view().items),
{
    let ghost items = module.view().items;
    let mut used: Vec<String> = Vec::new();
    assert(set_of(used@) =~= Set::<Seq<char>>::empty());
    assert(items.take(0) =~= Seq::<ItemM>::empty());
    let mut i: usize = 0;
    while i < module.items.len()
        invariant
            i <= module.items.len(),
            items == module.view().items,
            items.len() == module.items.len(),
            items_depth_ok(items),
            sorted(sviews(used@)),
            set_of(used@) == items_assets(items.take(i as int)),
        decreases module.items.len() - i,
    {
        proof {
            assert(items.take(i + 1).drop_last() =~= items.take(i as int));
            assert(items.take(i + 1).last() == module.items@[i as int].view());
            assert(items[i as int] == module.items@[i as int].view());
        }
        let ghost before = set_of(used@);
        match &module.items[i] {
            Item::Function(func) => scan_stmts_assets(&func.body, &mut used, 0),
            Item::Const { value, .. } | Item::GlobalLet { value, .. } => scan_expr_assets(
                value,
                &mut used,
                0,
            ),
            Item::ExprStatement(expr) => scan_expr_assets(expr, &mut used, 0),
            _ => {
                assert(set_of(used@) =~= before + Set::<Seq<char>>::empty());
            },
        }
        i += 1;
    }
    assert(items.take(module.items.len() as int) =~= items);
    used
}

// ---------------------------------------------------------------------------
// Call arguments
// ---------------------------------------------------------------------------

pub open spec fn max_nat(a: nat, b: nat) -> nat {
    if a >= b {
        a
    } else {
        b
    }
}

/// Every argument is a number literal.
pub open spec fn all_numbers(args: Seq<ExprM>) -> bool {
    forall|i: int| 0 <= i < args.len() ==> #[trigger] args[i] is Number
}

/// The argument slots an expression needs: a call needs one per argument,
/// at most five, except a `DRAW_LINE` with five number arguments, which is
/// drawn inline; and what its arguments need.
pub open spec fn expr_args(e: ExprM) -> nat
    decreases e,
{
    match e {
        ExprM::Call(n, _, _, args) => if ascii_upper_seq(n) == "DRAW_LINE"@ && args.len() == 5
            && all_numbers(args) {
            exprs_args(args)
        } else {
            max_nat(if args.len() < 5 {
                args.len()
            } else {
                5
            }, exprs_args(args))
        },
        ExprM::Binary(_, l, r) => max_nat(expr_args(*l), expr_args(*r)),
        ExprM::Compare(_, l, r) => max_nat(expr_args(*l), expr_args(*r)),
        ExprM::Logic(_, l, r) => max_nat(expr_args(*l), expr_args(*r)),
        ExprM::Not(x) => expr_args(*x),
        ExprM::BitNot(x) => expr_args(*x),
        _ => 0,
    }
}

pub open spec fn exprs_args(s: Seq<ExprM>) -> nat
    decreases s,
{
    if s.len() == 0 {
        0
    } else {
        max_nat(exprs_args(s.drop_last()), expr_args(s.last()))
    }
}

pub open spec fn opt_args(o: Option<ExprM>) -> nat {
    match o {
        Some(e) => expr_args(e),
        None => 0,
    }
}

/// The argument slots a statement needs.
pub open spec fn stmt_args(s: StmtM) -> nat
    decreases s,
{
    match s {
        StmtM::Assign(_, v, _) => expr_args(v),
        StmtM::Let(_, v, _) => expr_args(v),
        StmtM::Expr(v, _) => expr_args(v),
        StmtM::For(_, st, en, step, b, _) => max_nat(
            max_nat(max_nat(expr_args(st), expr_args(en)), opt_args(step)),
            stmts_args(b),
        ),
        StmtM::While(c, b, _) => max_nat(expr_args(c), stmts_args(b)),
        StmtM::If(c, b, elifs, els, _) => max_nat(
            max_nat(max_nat(expr_args(c), stmts_args(b)), arms_args(elifs)),
            match els {
                Some(eb) => stmts_args(eb),
                None => 0,
            },
        ),
        StmtM::Return(o, _) => opt_args(o),
        StmtM::Switch(e, cases, def, _) => max_nat(
            max_nat(expr_args(e), arms_args(cases)),
            match def {
                Some(db) => stmts_args(db),
                None => 0,
            },
        ),
        _ => 0,
    }
}

pub open spec fn stmts_args(s: Seq<StmtM>) -> nat
    decreases s,
{
    if s.len() == 0 {
        0
    } else {
        max_nat(stmts_args(s.drop_last()), stmt_args(s.last()))
    }
}

pub open spec fn arms_args(s: Seq<(ExprM, Seq<StmtM>)>) -> nat
    decreases s,
{
    if s.len() == 0 {
        0
    } else {
        max_nat(max_nat(arms_args(s.drop_last()), expr_args(s.last().0)), stmts_args(s.last().1))
    }
}

/// The argument slots an item needs: a function's parameters and body, a
/// top-level expression.
pub open spec fn item_args(i: ItemM) -> nat {
    match i {
        ItemM::Function(f) => max_nat(f.params.len(), stmts_args(f.body)),
        ItemM::ExprStatement(e) => expr_args(e),
        _ => 0,
    }
}

pub open spec fn items_args(s: Seq<ItemM>) -> nat
    decreases s,
{
    if s.len() == 0 {
        0
    } else {
        max_nat(items_args(s.drop_last()), item_args(s.last()))
    }
}

proof fn lemma_exprs_args_bound(s: Seq<ExprM>, bound: nat)
    requires
        forall|i: int| 0 <= i < s.len() ==> expr_args(#[trigger] s[i]) <= bound,
    ensures
        exprs_args(s) <= bound,
    decreases s.len(),
{
    if s.len() > 0 {
        lemma_exprs_args_bound(s.drop_last(), bound);
    }
}

fn max_usize(a: usize, b: usize) -> (r: usize)
    ensures
        r == max_nat(a as nat, b as nat),
{
    if a >= b {
        a
    } else {
        b
    }
}

fn all_numbers_exec(args: &Vec<Expr>) -> (r: bool)
    ensures
        r == all_numbers(view_exprs(args@)),
{
    proof {
        lemma_view_exprs(args@);
    }
    let mut i: usize = 0;
    while i < args.len()
        invariant
            i <= args.len(),
            view_exprs(args@).len() == args.len(),
            forall|k: int| 0 <= k < args.len() ==> #[trigger] view_exprs(args@)[k] == args@[k].view(),
            forall|k: int| 0 <= k < i ==> #[trigger] view_exprs(args@)[k] is Number,
        decreases args.len() - i,
    {
        if !matches!(args[i], Expr::Number(_)) {
            assert(!(view_exprs(args@)[i as int] is Number));
            return false;
        }
        i += 1;
    }
    true
}

/// The argument slots an expression needs (see `expr_args`).
pub fn scan_expr_args(e: &Expr) -> (r: usize)
    ensures
        r == expr_args(e.view()),
    decreases e,
{
    match e {
        Expr::Call(ci) => {
            proof {
                lemma_view_exprs(ci.args@);
            }
            let up = ascii_upper_vec(&chars_of(ci.name.as_str()));
            let inner = scan_exprs_args(&ci.args);
            if vec_is(&up, "DRAW_LINE") && ci.args.len() == 5 && all_numbers_exec(&ci.args) {
                return inner;
            }
            let n = if ci.args.len() < 5 {
                ci.args.len()
            } else {
                5
            };
            proof {
                lemma_view_exprs(ci.args@);
            }
            max_usize(n, inner)
        },
        Expr::Binary { left, right, .. } | Expr::Compare { left, right, .. } | Expr::Logic {
            left,
            right,
            ..
        } => max_usize(scan_expr_args(left), scan_expr_args(right)),
        Expr::Not(inner) | Expr::BitNot(inner) => scan_expr_args(inner),
        _ => 0,
    }
}

fn scan_exprs_args(v: &Vec<Expr>) -> (r: usize)
    ensures
        r == exprs_args(view_exprs(v@)),
    decreases v,
{
    let ghost vs = view_exprs(v@);
    proof {
        lemma_view_exprs(v@);
        assert(vs.take(0) =~= Seq::<ExprM>::empty());
    }
    let mut m: usize = 0;
    let mut i: usize = 0;
    while i < v.len()
        invariant
            i <= v.len(),
            vs == view_exprs(v@),
            vs.len() == v.len(),
            forall|k: int| 0 <= k < v.len() ==> #[trigger] vs[k] == v@[k].view(),
            m == exprs_args(vs.take(i as int)),
        decreases v.len() - i,
    {
        assert(vs.take(i + 1).drop_last() =~= vs.take(i as int));
        m = max_usize(m, scan_expr_args(&v[i]));
        i += 1;
    }
    assert(vs.take(v.len() as int) =~= vs);
    m
}

fn scan_opt_args(o: &Option<Expr>) -> (r: usize)
    ensures
        r == opt_args(view_opt_expr(*o)),
{
    match o {
        Some(e) => scan_expr_args(e),
        None => 0,
    }
}

/// The argument slots a statement needs (see `stmt_args`); compound
/// assignments must have been rewritten.
pub fn scan_stmt_args(s: &Stmt) -> (r: usize)
    requires
        compound_free(s.view()),
    ensures
        r == stmt_args(s.view()),
    decreases s,
{
    match s {
        Stmt::Assign { value, .. } | Stmt::Let { value, .. } | Stmt::Expr(value, _) => scan_expr_args(
            value,
        ),
        Stmt::For { start, end, step, body, .. } => {
            let mut m = max_usize(scan_expr_args(start), scan_expr_args(end));
            m = max_usize(m, scan_opt_args(step));
            max_usize(m, scan_stmts_args(body))
        },
        Stmt::While { cond, body, .. } => max_usize(scan_expr_args(cond), scan_stmts_args(body)),
        Stmt::If { cond, body, elifs, else_body, .. } => {
            let mut m = max_usize(scan_expr_args(cond), scan_stmts_args(body));
            m = max_usize(m, scan_arms_args(elifs));
            let e = match else_body {
                Some(eb) => scan_stmts_args(eb),
                None => 0,
            };
            max_usize(m, e)
        },
        Stmt::Return(o, _) => scan_opt_args(o),
        Stmt::Switch { expr, cases, default, .. } => {
            let m = max_usize(scan_expr_args(expr), scan_arms_args(cases));
            let d = match default {
                Some(db) => scan_stmts_args(db),
                None => 0,
            };
            max_usize(m, d)
        },
        _ => 0,
    }
}

fn scan_stmts_args(v: &Vec<Stmt>) -> (r: usize)
    requires
        compound_free_all(view_stmts(v@)),
    ensures
        r == stmts_args(view_stmts(v@)),
    decreases v,
{
    let ghost vs = view_stmts(v@);
    proof {
        lemma_view_stmts(v@);
        assert(vs.take(0) =~= Seq::<StmtM>::empty());
    }
    let mut m: usize = 0;
    let mut i: usize = 0;
    while i < v.len()
        invariant
            i <= v.len(),
            vs == view_stmts(v@),
            vs.len() == v.len(),
            compound_free_all(vs),
            forall|k: int| 0 <= k < v.len() ==> #[trigger] vs[k] == v@[k].view(),
            m == stmts_args(vs.take(i as int)),
        decreases v.len() - i,
    {
        assert(vs.take(i + 1).drop_last() =~= vs.take(i as int));
        proof {
            lemma_compound_free_take(vs, i as int);
        }
        m = max_usize(m, scan_stmt_args(&v[i]));
        i += 1;
    }
    assert(vs.take(v.len() as int) =~= vs);
    m
}

fn scan_arms_args(v: &Vec<(Expr, Vec<Stmt>)>) -> (r: usize)
    requires
        compound_free_arms(view_arms(v@)),
    ensures
        r == arms_args(view_arms(v@)),
    decreases v,
{
    let ghost va = view_arms(v@);
    proof {
        lemma_view_arms(v@);
        assert(va.take(0) =~= Seq::<(ExprM, Seq<StmtM>)>::empty());
    }
    let mut m: usize = 0;
    let mut i: usize = 0;
    while i < v.len()
        invariant
            i <= v.len(),
            va == view_arms(v@),
            va.len() == v.len(),
            compound_free_arms(va),
            forall|k: int|
                0 <= k < v.len() ==> #[trigger] va[k] == (v@[k].0.view(), view_stmts(v@[k].1@)),
            m == arms_args(va.take(i as int)),
        decreases v.len() - i,
    {
        assert(va.take(i + 1).drop_last() =~= va.take(i as int));
        proof {
            lemma_compound_free_arms_take(va, i as int);
        }
        let c = scan_expr_args(&v[i].0);
        let b = scan_stmts_args(&v[i].1);
        m = max_usize(max_usize(m, c), b);
        i += 1;
    }
    assert(va.take(v.len() as int) =~= va);
    m
}

/// The most argument slots any function or top-level expression of the
/// module needs: parameters count, and calls (see `expr_args`).
pub fn compute_max_args_used(module: &Module) -> (r: usize)
    requires
        module_compound_free(module.view()),
    ensures
        r == items_args(module.view().items),
{
    let ghost items = module.view().items;
    let mut maxa: usize = 0;
    let mut i: usize = 0;
    assert(items.take(0) =~= Seq::<ItemM>::empty());
    while i < module.items.len()
        invariant
            i <= module.items.len(),
            items == module.view().items,
            items.len() == module.items.len(),
            module_compound_free(module.view()),
            maxa == items_args(items.take(i as int)),
        decreases module.items.len() - i,
    {
        proof {
            assert(items.take(i + 1).drop_last() =~= items.take(i as int));
            assert(items.take(i + 1).last() == module.items@[i as int].view());
            assert(module.view().items[i as int] == module.items@[i as int].view());
        }
        match &module.items[i] {
            Item::Function(f) => {
                maxa = max_usize(maxa, f.params.len());
                maxa = max_usize(maxa, scan_stmts_args(&f.body));
                proof {
                    assert(sviews(f.params@).len() == f.params.len());
                }
            },
            Item::ExprStatement(expr) => {
                maxa = max_usize(maxa, scan_expr_args(expr));
            },
            _ => {},
        }
        i += 1;
    }
    assert(items.take(module.items.len() as int) =~= items);
    maxa
}

// ---------------------------------------------------------------------------
// Runtime needs
// ---------------------------------------------------------------------------

/// What the generated code needs from the runtime: helper routines,
/// temporaries, variable groups, and the builtin wrappers it calls (in
/// ascending order, each once).
pub struct RuntimeUsage {
    pub needs_mul_helper: bool,
    pub needs_div_helper: bool,
    pub needs_tmp_left: bool,
    pub needs_tmp_right: bool,
    pub needs_tmp_ptr: bool,
    pub needs_line_vars: bool,
    pub needs_vcur_vars: bool,
    pub needs_vectorlist_runtime: bool,
    pub wrappers_used: Vec<String>,
}

/// Model of the runtime needs.
#[verifier::ext_equal]
pub struct UsageM {
    pub mul: bool,
    pub div: bool,
    pub tmp_left: bool,
    pub tmp_right: bool,
    pub tmp_ptr: bool,
    pub line_vars: bool,
    pub vcur_vars: bool,
    pub vl_runtime: bool,
    pub wrappers: Set<Seq<char>>,
}

impl RuntimeUsage {
    pub open spec fn view(&self) -> UsageM {
        UsageM {
            mul: self.needs_mul_helper,
            div: self.needs_div_helper,
            tmp_left: self.needs_tmp_left,
            tmp_right: self.needs_tmp_right,
            tmp_ptr: self.needs_tmp_ptr,
            line_vars: self.needs_line_vars,
            vcur_vars: self.needs_vcur_vars,
            vl_runtime: self.needs_vectorlist_runtime,
            wrappers: set_of(self.wrappers_used@),
        }
    }

    pub open spec fn wf(&self) -> bool {
        sorted(sviews(self.wrappers_used@))
    }
}

/// No needs.
pub open spec fn no_usage() -> UsageM {
    UsageM {
        mul: false,
        div: false,
        tmp_left: false,
        tmp_right: false,
        tmp_ptr: false,
        line_vars: false,
        vcur_vars: false,
        vl_runtime: false,
        wrappers: Set::empty(),
    }
}

/// The needs of both.
pub open spec fn join(a: UsageM, b: UsageM) -> UsageM {
    UsageM {
        mul: a.mul || b.mul,
        div: a.div || b.div,
        tmp_left: a.tmp_left || b.tmp_left,
        tmp_right: a.tmp_right || b.tmp_right,
        tmp_ptr: a.tmp_ptr || b.tmp_ptr,
        line_vars: a.line_vars || b.line_vars,
        vcur_vars: a.vcur_vars || b.vcur_vars,
        vl_runtime: a.vl_runtime || b.vl_runtime,
        wrappers: a.wrappers + b.wrappers,
    }
}

/// The two temporaries of binary operations.
pub open spec fn temps() -> UsageM {
    UsageM { tmp_left: true, tmp_right: true, ..no_usage() }
}

/// The wrappers a call uses, by its name in ASCII upper case: its
/// resolved builtin, the line wrapper for a `DRAW_LINE` that cannot be
/// drawn inline, and the music and sound-effect runtimes.
pub open spec fn call_wrappers(up: Seq<char>, args: Seq<ExprM>) -> Set<Seq<char>> {
    (match resolved_name(up) {
        Some(r) => set![r],
        None => Set::empty(),
    }) + (if up == "DRAW_LINE"@ && !(args.len() == 5 && all_numbers(args)) {
        set!["DRAW_LINE_WRAPPER"@]
    } else {
        Set::empty()
    }) + (if up == "PLAY_MUSIC"@ {
        set!["PLAY_MUSIC_RUNTIME"@]
    } else {
        Set::empty()
    }) + (if up == "PLAY_SFX"@ {
        set!["PLAY_SFX_RUNTIME"@]
    } else {
        Set::empty()
    }) + (if up == "STOP_MUSIC"@ {
        set!["STOP_MUSIC_RUNTIME"@]
    } else {
        Set::empty()
    }) + (if up == "MUSIC_UPDATE"@ {
        set!["UPDATE_MUSIC_PSG"@]
    } else {
        Set::empty()
    })
}

/// The runtime needs of a call itself.
pub open spec fn call_usage(name: Seq<char>, args: Seq<ExprM>) -> UsageM {
    let up = ascii_upper_seq(name);
    UsageM {
        vl_runtime: up == "VECTREX_DRAW_VECTORLIST"@ || up == "DRAW_VECTORLIST"@,
        wrappers: call_wrappers(up, args),
        ..no_usage()
    }
}

/// The runtime needs of an expression: multiplication and division
/// helpers, temporaries of binary operators, comparisons and logic, and
/// the needs of calls.
pub open spec fn expr_usage(e: ExprM) -> UsageM
    decreases e,
{
    match e {
        ExprM::Binary(op, l, r) => join(
            join(
                UsageM {
                    mul: op == BinOp::Mul,
                    div: op == BinOp::Div || op == BinOp::Mod,
                    ..temps()
                },
                expr_usage(*l),
            ),
            expr_usage(*r),
        ),
        ExprM::Call(n, _, _, args) => join(call_usage(n, args), exprs_usage(args)),
        ExprM::Compare(_, l, r) => join(join(expr_usage(*l), expr_usage(*r)), temps()),
        ExprM::Logic(_, l, r) => join(join(expr_usage(*l), expr_usage(*r)), temps()),
        ExprM::Not(x) => expr_usage(*x),
        ExprM::BitNot(x) => expr_usage(*x),
        _ => no_usage(),
    }
}

pub open spec fn exprs_usage(s: Seq<ExprM>) -> UsageM
    decreases s,
{
    if s.len() == 0 {
        no_usage()
    } else {
        join(exprs_usage(s.drop_last()), expr_usage(s.last()))
    }
}

pub open spec fn opt_usage(o: Option<ExprM>) -> UsageM {
    match o {
        Some(e) => expr_usage(e),
        None => no_usage(),
    }
}

/// The runtime needs of a statement: an assignment needs the pointer
/// temporary, a `switch` the operator temporaries.
pub open spec fn stmt_usage(s: StmtM) -> UsageM
    decreases s,
{
    match s {
        StmtM::Assign(_, v, _) => join(UsageM { tmp_ptr: true, ..no_usage() }, expr_usage(v)),
        StmtM::Let(_, v, _) => expr_usage(v),
        StmtM::Expr(v, _) => expr_usage(v),
        StmtM::For(_, st, en, step, b, _) => join(
            join(join(expr_usage(st), expr_usage(en)), opt_usage(step)),
            stmts_usage(b),
        ),
        StmtM::While(c, b, _) => join(expr_usage(c), stmts_usage(b)),
        StmtM::If(c, b, elifs, els, _) => join(
            join(join(expr_usage(c), stmts_usage(b)), arms_usage(elifs)),
            match els {
                Some(eb) => stmts_usage(eb),
                None => no_usage(),
            },
        ),
        StmtM::Return(o, _) => opt_usage(o),
        StmtM::Switch(e, cases, def, _) => join(
            join(
                join(expr_usage(e), arms_usage(cases)),
                match def {
                    Some(db) => stmts_usage(db),
                    None => no_usage(),
                },
            ),
            temps(),
        ),
        _ => no_usage(),
    }
}

pub open spec fn stmts_usage(s: Seq<StmtM>) -> UsageM
    decreases s,
{
    if s.len() == 0 {
        no_usage()
    } else {
        join(stmts_usage(s.drop_last()), stmt_usage(s.last()))
    }
}

pub open spec fn arms_usage(s: Seq<(ExprM, Seq<StmtM>)>) -> UsageM
    decreases s,
{
    if s.len() == 0 {
        no_usage()
    } else {
        join(join(arms_usage(s.drop_last()), expr_usage(s.last().0)), stmts_usage(s.last().1))
    }
}

pub open spec fn item_usage(i: ItemM) -> UsageM {
    match i {
        ItemM::Function(f) => stmts_usage(f.body),
        ItemM::ExprStatement(e) => expr_usage(e),
        _ => no_usage(),
    }
}

pub open spec fn items_usage(s: Seq<ItemM>) -> UsageM
    decreases s,
{
    if s.len() == 0 {
        no_usage()
    } else {
        join(items_usage(s.drop_last()), item_usage(s.last()))
    }
}

/// The needs of a module, with the line variables needed by the line and
/// vector-list wrappers and the cursor variables by the move and draw
/// wrappers.
pub open spec fn module_usage(items: Seq<ItemM>) -> UsageM {
    let u = items_usage(items);
    UsageM {
        line_vars: u.line_vars || u.wrappers.contains("DRAW_LINE_WRAPPER"@) || u.wrappers.contains(
            "VECTREX_DRAW_VL"@,
        ) || u.wrappers.contains("VECTREX_DRAW_TO"@),
        vcur_vars: u.vcur_vars || u.wrappers.contains("VECTREX_MOVE_TO"@) || u.wrappers.contains(
            "VECTREX_DRAW_TO"@,
        ),
        ..u
    }
}

fn add_wrapper(usage: &mut RuntimeUsage, w: &str)
    requires
        old(usage).wf(),
    ensures
        final(usage).wf(),
        final(usage).view() == join(old(usage).view(), UsageM { wrappers: set![w@], ..no_usage() }),
{
    set_insert(&mut usage.wrappers_used, string_from(w));
    assert(final(usage).view() =~= join(old(usage).view(), UsageM { wrappers: set![w@], ..no_usage() }));
}

fn add_wrapper_if(usage: &mut RuntimeUsage, cond: bool, w: &str)
    requires
        old(usage).wf(),
    ensures
        final(usage).wf(),
        final(usage).view() == (UsageM {
            wrappers: old(usage).view().wrappers + (if cond {
                set![w@]
            } else {
                Set::empty()
            }),
            ..old(usage).view()
        }),
{
    if cond {
        set_insert(&mut usage.wrappers_used, string_from(w));
    }
    assert(usage.view() =~= (UsageM {
        wrappers: old(usage).view().wrappers + (if cond {
            set![w@]
        } else {
            Set::empty()
        }),
        ..old(usage).view()
    }));
}

fn add_resolved(usage: &mut RuntimeUsage, up: &str)
    requires
        old(usage).wf(),
    ensures
        final(usage).wf(),
        final(usage).view() == (UsageM {
            wrappers: old(usage).view().wrappers + (match resolved_name(up@) {
                Some(r) => set![r],
                None => Set::empty(),
            }),
            ..old(usage).view()
        }),
{
    match resolve_function_name(up) {
        Some(r) => {
            set_insert(&mut usage.wrappers_used, r);
        },
        None => {},
    }
    assert(usage.view() =~= (UsageM {
        wrappers: old(usage).view().wrappers + (match resolved_name(up@) {
            Some(r) => set![r],
            None => Set::empty(),
        }),
        ..old(usage).view()
    }));
}

fn scan_call_runtime(name: &String, args: &Vec<Expr>, usage: &mut RuntimeUsage)
    requires
        old(usage).wf(),
    ensures
        final(usage).wf(),
        final(usage).view() == join(old(usage).view(), call_usage(name@, view_exprs(args@))),
{
    proof {
        lemma_view_exprs(args@);
    }
    let upv = ascii_upper_vec(&chars_of(name.as_str()));
    let up = crate::text::string_of(&upv);
    let ghost u0 = usage.view();
    add_resolved(usage, up.as_str());
    if vec_is(&upv, "VECTREX_DRAW_VECTORLIST") || vec_is(&upv, "DRAW_VECTORLIST") {
        usage.needs_vectorlist_runtime = true;
    }
    let is_line = vec_is(&upv, "DRAW_LINE");
    let inline = args.len() == 5 && all_numbers_exec(args);
    add_wrapper_if(usage, is_line && !inline, "DRAW_LINE_WRAPPER");
    let c = vec_is(&upv, "PLAY_MUSIC");
    add_wrapper_if(usage, c, "PLAY_MUSIC_RUNTIME");
    let c = vec_is(&upv, "PLAY_SFX");
    add_wrapper_if(usage, c, "PLAY_SFX_RUNTIME");
    let c = vec_is(&upv, "STOP_MUSIC");
    add_wrapper_if(usage, c, "STOP_MUSIC_RUNTIME");
    let c = vec_is(&upv, "MUSIC_UPDATE");
    add_wrapper_if(usage, c, "UPDATE_MUSIC_PSG");
    assert(usage.view().wrappers =~= u0.wrappers + call_wrappers(upv@, view_exprs(args@)));
    assert(usage.view() =~= join(u0, call_usage(name@, view_exprs(args@))));
}

/// Record the runtime needs of an expression (see `expr_usage`).
pub fn scan_expr_runtime(e: &Expr, usage: &mut RuntimeUsage)
    requires
        old(usage).wf(),
    ensures
        final(usage).wf(),
        final(usage).view() == join(old(usage).view(), expr_usage(e.view())),
    decreases e,
{
    let ghost u0 = usage.view();
    match e {
        Expr::Binary { op, left, right } => {
            match op {
                BinOp::Mul => {
                    usage.needs_mul_helper = true;
                },
                BinOp::Div | BinOp::Mod => {
                    usage.needs_div_helper = true;
                },
                _ => {},
            }
            usage.needs_tmp_left = true;
            usage.needs_tmp_right = true;
            scan_expr_runtime(left, usage);
            scan_expr_runtime(right, usage);
        },
        Expr::Call(ci) => {
            scan_call_runtime(&ci.name, &ci.args, usage);
            scan_exprs_runtime(&ci.args, usage);
        },
        Expr::Compare { left, right, .. } | Expr::Logic { left, right, .. } => {
            scan_expr_runtime(left, usage);
            scan_expr_runtime(right, usage);
            usage.needs_tmp_left = true;
            usage.needs_tmp_right = true;
        },
        Expr::Not(inner) | Expr::BitNot(inner) => scan_expr_runtime(inner, usage),
        _ => {},
    }
    assert(usage.view() =~= join(u0, expr_usage(e.view())));
}

fn scan_exprs_runtime(v: &Vec<Expr>, usage: &mut RuntimeUsage)
    requires
        old(usage).wf(),
    ensures
        final(usage).wf(),
        final(usage).view() == join(old(usage).view(), exprs_usage(view_exprs(v@))),
    decreases v,
{
    let ghost vs = view_exprs(v@);
    let ghost u0 = usage.view();
    proof {
        lemma_view_exprs(v@);
        assert(vs.take(0) =~= Seq::<ExprM>::empty());
        assert(usage.view() =~= join(u0, exprs_usage(vs.take(0))));
    }
    let mut i: usize = 0;
    while i < v.len()
        invariant
            i <= v.len(),
            vs == view_exprs(v@),
            vs.len() == v.len(),
            forall|k: int| 0 <= k < v.len() ==> #[trigger] vs[k] == v@[k].view(),
            usage.wf(),
            usage.view() == join(u0, exprs_usage(vs.take(i as int))),
        decreases v.len() - i,
    {
        assert(vs.take(i + 1).drop_last() =~= vs.take(i as int));
        scan_expr_runtime(&v[i], usage);
        assert(usage.view() =~= join(u0, exprs_usage(vs.take(i + 1))));
        i += 1;
    }
    assert(vs.take(v.len() as int) =~= vs);
}

fn scan_opt_runtime(o: &Option<Expr>, usage: &mut RuntimeUsage)
    requires
        old(usage).wf(),
    ensures
        final(usage).wf(),
        final(usage).view() == join(old(usage).view(), opt_usage(view_opt_expr(*o))),
{
    match o {
        Some(e) => scan_expr_runtime(e, usage),
        None => {
            assert(usage.view() =~= join(old(usage).view(), no_usage()));
        },
    }
}

/// Record the runtime needs of a statement (see `stmt_usage`); compound
/// assignments must have been rewritten.
#[verifier::rlimit(60)]
pub fn scan_stmt_runtime(s: &Stmt, usage: &mut RuntimeUsage)
    requires
        old(usage).wf(),
        compound_free(s.view()),
    ensures
        final(usage).wf(),
        final(usage).view() == join(old(usage).view(), stmt_usage(s.view())),
    decreases s,
{
    let ghost u0 = usage.view();
    match s {
        Stmt::Assign { value, .. } => {
            usage.needs_tmp_ptr = true;
            scan_expr_runtime(value, usage);
        },
        Stmt::Let { value, .. } => scan_expr_runtime(value, usage),
        Stmt::Expr(value, _) => scan_expr_runtime(value, usage),
        Stmt::For { start, end, step, body, .. } => {
            scan_expr_runtime(start, usage);
            scan_expr_runtime(end, usage);
            scan_opt_runtime(step, usage);
            scan_stmts_runtime(body, usage);
        },
        Stmt::While { cond, body, .. } => {
            scan_expr_runtime(cond, usage);
            scan_stmts_runtime(body, usage);
        },
        Stmt::If { cond, body, elifs, else_body, .. } => {
            scan_expr_runtime(cond, usage);
            scan_stmts_runtime(body, usage);
            scan_arms_runtime(elifs, usage);
            if let Some(eb) = else_body {
                scan_stmts_runtime(eb, usage);
            }
        },
        Stmt::Return(o, _) => scan_opt_runtime(o, usage),
        Stmt::Switch { expr, cases, default, .. } => {
            scan_expr_runtime(expr, usage);
            scan_arms_runtime(cases, usage);
            if let Some(db) = default {
                scan_stmts_runtime(db, usage);
            }
            usage.needs_tmp_left = true;
            usage.needs_tmp_right = true;
        },
        _ => {},
    }
    assert(usage.view() =~= join(u0, stmt_usage(s.view())));
}

fn scan_stmts_runtime(v: &Vec<Stmt>, usage: &mut RuntimeUsage)
    requires
        old(usage).wf(),
        compound_free_all(view_stmts(v@)),
    ensures
        final(usage).wf(),
        final(usage).view() == join(old(usage).view(), stmts_usage(view_stmts(v@))),
    decreases v,
{
    let ghost vs = view_stmts(v@);
    let ghost u0 = usage.view();
    proof {
        lemma_view_stmts(v@);
        assert(vs.take(0) =~= Seq::<StmtM>::empty());
        assert(usage.view() =~= join(u0, stmts_usage(vs.take(0))));
    }
    let mut i: usize = 0;
    while i < v.len()
        invariant
            i <= v.len(),
            vs == view_stmts(v@),
            vs.len() == v.len(),
            compound_free_all(vs),
            forall|k: int| 0 <= k < v.len() ==> #[trigger] vs[k] == v@[k].view(),
            usage.wf(),
            usage.view() == join(u0, stmts_usage(vs.take(i as int))),
        decreases v.len() - i,
    {
        assert(vs.take(i + 1).drop_last() =~= vs.take(i as int));
        proof {
            lemma_compound_free_take(vs, i as int);
        }
        scan_stmt_runtime(&v[i], usage);
        assert(usage.view() =~= join(u0, stmts_usage(vs.take(i + 1))));
        i += 1;
    }
    assert(vs.take(v.len() as int) =~= vs);
}

fn scan_arms_runtime(v: &Vec<(Expr, Vec<Stmt>)>, usage: &mut RuntimeUsage)
    requires
        old(usage).wf(),
        compound_free_arms(view_arms(v@)),
    ensures
        final(usage).wf(),
        final(usage).view() == join(old(usage).view(), arms_usage(view_arms(v@))),
    decreases v,
{
    let ghost va = view_arms(v@);
    let ghost u0 = usage.view();
    proof {
        lemma_view_arms(v@);
        assert(va.take(0) =~= Seq::<(ExprM, Seq<StmtM>)>::empty());
        assert(usage.view() =~= join(u0, arms_usage(va.take(0))));
    }
    let mut i: usize = 0;
    while i < v.len()
        invariant
            i <= v.len(),
            va == view_arms(v@),
            va.len() == v.len(),
            compound_free_arms(va),
            forall|k: int|
                0 <= k < v.len() ==> #[trigger] va[k] == (v@[k].0.view(), view_stmts(v@[k].1@)),
            usage.wf(),
            usage.view() == join(u0, arms_usage(va.take(i as int))),
        decreases v.len() - i,
    {
        assert(va.take(i + 1).drop_last() =~= va.take(i as int));
        proof {
            lemma_compound_free_arms_take(va, i as int);
        }
        scan_expr_runtime(&v[i].0, usage);
        scan_stmts_runtime(&v[i].1, usage);
        assert(usage.view() =~= join(u0, arms_usage(va.take(i + 1))));
        i += 1;
    }
    assert(va.take(v.len() as int) =~= va);
}

/// The runtime needs of a module (see `module_usage`).
pub fn analyze_runtime_usage(module: &Module) -> (usage: RuntimeUsage)
    requires
        module_compound_free(module.view()),
    ensures
        usage.wf(),
        usage.view() == module_usage(module.view().items),
{
    let ghost items = module.view().items;
    let mut usage = RuntimeUsage {
        needs_mul_helper: false,
        needs_div_helper: false,
        needs_tmp_left: false,
        needs_tmp_right: false,
        needs_tmp_ptr: false,
        needs_line_vars: false,
        needs_vcur_vars: false,
        needs_vectorlist_runtime: false,
        wrappers_used: Vec::new(),
    };
    assert(usage.view() =~= no_usage());
    assert(items.take(0) =~= Seq::<ItemM>::empty());
    let mut i: usize = 0;
    while i < module.items.len()
        invariant
            i <= module.items.len(),
            items == module.view().items,
            items.len() == module.items.len(),
            module_compound_free(module.view()),
            usage.wf(),
            usage.view() == items_usage(items.take(i as int)),
        decreases module.items.len() - i,
    {
        proof {
            assert(items.take(i + 1).drop_last() =~= items.take(i as int));
            assert(items.take(i + 1).last() == module.items@[i as int].view());
            assert(module.view().items[i as int] == module.items@[i as int].view());
        }
        let ghost u0 = usage.view();
        match &module.items[i] {
            Item::Function(f) => scan_stmts_runtime(&f.body, &mut usage),
            Item::ExprStatement(expr) => scan_expr_runtime(expr, &mut usage),
            _ => {},
        }
        assert(usage.view() =~= items_usage(items.take(i + 1)));
        i += 1;
    }
    assert(items.take(module.items.len() as int) =~= items);
    let lines = crate::strset::set_contains(&usage.wrappers_used, "DRAW_LINE_WRAPPER")
        || crate::strset::set_contains(&usage.wrappers_used, "VECTREX_DRAW_VL")
        || crate::strset::set_contains(&usage.wrappers_used, "VECTREX_DRAW_TO");
    if lines {
        usage.needs_line_vars = true;
    }
    let cursor = crate::strset::set_contains(&usage.wrappers_used, "VECTREX_MOVE_TO")
        || crate::strset::set_contains(&usage.wrappers_used, "VECTREX_DRAW_TO");
    if cursor {
        usage.needs_vcur_vars = true;
    }
    assert(usage.view() =~= module_usage(items));
    usage
}

// ---------------------------------------------------------------------------
// Trigonometry
// ---------------------------------------------------------------------------

/// The names, lower-cased, of the trigonometric builtins.
pub open spec fn is_trig_name(n: Seq<char>) -> bool {
    n == "sin"@ || n == "cos"@ || n == "tan"@ || n == "math.sin"@ || n == "math.cos"@ || n
        == "math.tan"@
}

/// Whether an expression calls a trigonometric builtin, looking at its
/// operands left to right and stopping at the first found (the arguments of
/// calls are not looked at); `None` when the search would go deeper than 500
/// levels, where it gives up.
pub open spec fn expr_trig(e: ExprM, d: int) -> Option<bool>
    decreases e,
{
    if d > 500 {
        None
    } else {
        match e {
            ExprM::Call(name, _, _, _) => Some(is_trig_name(ascii_lower_seq(name))),
            ExprM::Binary(_, l, r) => either_trig(expr_trig(*l, d + 1), expr_trig(*r, d + 1)),
            ExprM::Compare(_, l, r) => either_trig(expr_trig(*l, d + 1), expr_trig(*r, d + 1)),
            ExprM::Logic(_, l, r) => either_trig(expr_trig(*l, d + 1), expr_trig(*r, d + 1)),
            ExprM::Not(x) => expr_trig(*x, d + 1),
            ExprM::BitNot(x) => expr_trig(*x, d + 1),
            _ => Some(false),
        }
    }
}

/// `a || b` for searches that may give up: `b` only counts when `a` found
/// nothing.
pub open spec fn either_trig(a: Option<bool>, b: Option<bool>) -> Option<bool> {
    match a {
        Some(true) => Some(true),
        Some(false) => b,
        None => None,
    }
}

pub open spec fn opt_trig(o: Option<ExprM>, d: int) -> Option<bool> {
    match o {
        Some(e) => expr_trig(e, d),
        None => Some(false),
    }
}

/// Whether a statement calls a trigonometric builtin (see `expr_trig`); a
/// compound assignment is not expected here and gives up. The guards and
/// bodies of a `switch` are searched from depth 0 again.
pub open spec fn stmt_trig(s: StmtM, d: int) -> Option<bool>
    decreases s,
{
    if d > 500 {
        None
    } else {
        match s {
            StmtM::Assign(_, v, _) => expr_trig(v, d + 1),
            StmtM::Let(_, v, _) => expr_trig(v, d + 1),
            StmtM::Expr(e, _) => expr_trig(e, d + 1),
            StmtM::For(_, st, en, step, b, _) => either_trig(
                expr_trig(st, d + 1),
                either_trig(
                    expr_trig(en, d + 1),
                    either_trig(opt_trig(step, d + 1), stmts_trig(b, d + 1)),
                ),
            ),
            StmtM::While(c, b, _) => either_trig(expr_trig(c, d + 1), stmts_trig(b, d + 1)),
            StmtM::If(c, b, elifs, els, _) => either_trig(
                expr_trig(c, d + 1),
                either_trig(
                    stmts_trig(b, d + 1),
                    either_trig(
                        arms_trig(elifs, d + 1),
                        match els {
                            Some(eb) => stmts_trig(eb, d + 1),
                            None => Some(false),
                        },
                    ),
                ),
            ),
            StmtM::Return(o, _) => opt_trig(o, d + 1),
            StmtM::Switch(e, cases, def, _) => either_trig(
                expr_trig(e, 0),
                either_trig(
                    arms_trig(cases, 0),
                    match def {
                        Some(db) => stmts_trig(db, 0),
                        None => Some(false),
                    },
                ),
            ),
            StmtM::CompoundAssign(..) => None,
            _ => Some(false),
        }
    }
}

/// The first statement, in order, that calls a trigonometric builtin.
pub open spec fn stmts_trig(s: Seq<StmtM>, d: int) -> Option<bool>
    decreases s,
{
    if s.len() == 0 {
        Some(false)
    } else {
        either_trig(stmt_trig(s[0], d), stmts_trig(s.drop_first(), d))
    }
}

/// The first guarded arm, in order, whose guard or body calls a
/// trigonometric builtin.
pub open spec fn arms_trig(s: Seq<(ExprM, Seq<StmtM>)>, d: int) -> Option<bool>
    decreases s,
{
    if s.len() == 0 {
        Some(false)
    } else {
        either_trig(
            either_trig(expr_trig(s[0].0, d), stmts_trig(s[0].1, d)),
            arms_trig(s.drop_first(), d),
        )
    }
}

fn is_trig_call(name: &String) -> (r: bool)
    ensures
        r == is_trig_name(ascii_lower_seq(name@)),
{
    let nv = chars_of(name.as_str());
    let u = ascii_lower_vec(&nv);
    vec_is(&u, "sin") || vec_is(&u, "cos") || vec_is(&u, "tan") || vec_is(&u, "math.sin")
        || vec_is(&u, "math.cos") || vec_is(&u, "math.tan")
}

pub fn expr_has_trig(e: &Expr) -> (r: bool)
    requires
        expr_trig(e.view(), 0) is Some,
    ensures
        expr_trig(e.view(), 0) == Some(r),
{
    expr_has_trig_depth(e, 0)
}

fn expr_has_trig_depth(e: &Expr, depth: usize) -> (r: bool)
    requires
        expr_trig(e.view(), depth as int) is Some,
    ensures
        expr_trig(e.view(), depth as int) == Some(r),
    decreases e,
{
    match e {
        Expr::Call(ci) => is_trig_call(&ci.name),
        Expr::Binary { left, right, .. } | Expr::Compare { left, right, .. } | Expr::Logic {
            left,
            right,
            ..
        } => expr_has_trig_depth(left, depth + 1) || expr_has_trig_depth(right, depth + 1),
        Expr::Not(inner) | Expr::BitNot(inner) => expr_has_trig_depth(inner, depth + 1),
        _ => false,
    }
}

pub fn stmt_has_trig(s: &Stmt) -> (r: bool)
    requires
        stmt_trig(s.view(), 0) is Some,
    ensures
        stmt_trig(s.view(), 0) == Some(r),
{
    stmt_has_trig_depth(s, 0)
}

fn opt_has_trig(o: &Option<Expr>, depth: usize) -> (r: bool)
    requires
        opt_trig(view_opt_expr(*o), depth as int) is Some,
    ensures
        opt_trig(view_opt_expr(*o), depth as int) == Some(r),
{
    match o {
        Some(e) => expr_has_trig_depth(e, depth),
        None => false,
    }
}

fn stmt_has_trig_depth(s: &Stmt, depth: usize) -> (r: bool)
    requires
        stmt_trig(s.view(), depth as int) is Some,
    ensures
        stmt_trig(s.view(), depth as int) == Some(r),
    decreases s,
{
    match s {
        Stmt::Assign { value, .. } => expr_has_trig_depth(value, depth + 1),
        Stmt::Let { value, .. } => expr_has_trig_depth(value, depth + 1),
        Stmt::Expr(e, _) => expr_has_trig_depth(e, depth + 1),
        Stmt::For { start, end, step, body, .. } => expr_has_trig_depth(start, depth + 1)
            || expr_has_trig_depth(end, depth + 1) || opt_has_trig(step, depth + 1)
            || stmts_have_trig(body, depth + 1),
        Stmt::While { cond, body, .. } => expr_has_trig_depth(cond, depth + 1) || stmts_have_trig(
            body,
            depth + 1,
        ),
        Stmt::If { cond, body, elifs, else_body, .. } => expr_has_trig_depth(cond, depth + 1)
            || stmts_have_trig(body, depth + 1) || arms_have_trig(elifs, depth + 1) || match else_body {
            Some(eb) => stmts_have_trig(eb, depth + 1),
            None => false,
        },
        Stmt::Return(o, _) => opt_has_trig(o, depth + 1),
        Stmt::Switch { expr, cases, default, .. } => expr_has_trig_depth(expr, 0) || arms_have_trig(
            cases,
            0,
        ) || match default {
            Some(db) => stmts_have_trig(db, 0),
            None => false,
        },
        Stmt::Break { .. } | Stmt::Continue { .. } => false,
        Stmt::CompoundAssign { .. } => false,
    }
}

fn stmts_have_trig(v: &Vec<Stmt>, depth: usize) -> (r: bool)
    requires
        stmts_trig(view_stmts(v@), depth as int) is Some,
    ensures
        stmts_trig(view_stmts(v@), depth as int) == Some(r),
    decreases v,
{
    let ghost vs = view_stmts(v@);
    proof {
        lemma_view_stmts(v@);
        assert(vs.skip(0) =~= vs);
    }
    let mut i: usize = 0;
    while i < v.len()
        invariant
            i <= v.len(),
            vs == view_stmts(v@),
            vs.len() == v.len(),
            forall|k: int| 0 <= k < v.len() ==> #[trigger] vs[k] == v@[k].view(),
            stmts_trig(vs, depth as int) == stmts_trig(vs.skip(i as int), depth as int),
            stmts_trig(vs, depth as int) is Some,
        decreases v.len() - i,
    {
        assert(vs.skip(i as int)[0] == vs[i as int]);
        assert(vs.skip(i as int).drop_first() =~= vs.skip(i + 1));
        if stmt_has_trig_depth(&v[i], depth) {
            return true;
        }
        i += 1;
    }
    false
}

fn arms_have_trig(v: &Vec<(Expr, Vec<Stmt>)>, depth: usize) -> (r: bool)
    requires
        arms_trig(view_arms(v@), depth as int) is Some,
    ensures
        arms_trig(view_arms(v@), depth as int) == Some(r),
    decreases v,
{
    let ghost vs = view_arms(v@);
    proof {
        lemma_view_arms(v@);
        assert(vs.skip(0) =~= vs);
    }
    let mut i: usize = 0;
    while i < v.len()
        invariant
            i <= v.len(),
            vs == view_arms(v@),
            vs.len() == v.len(),
            forall|k: int| 0 <= k < v.len() ==> #[trigger] vs[k] == (v@[k].0.view(), view_stmts(v@[k].1@)),
            arms_trig(vs, depth as int) == arms_trig(vs.skip(i as int), depth as int),
            arms_trig(vs, depth as int) is Some,
        decreases v.len() - i,
    {
        assert(vs.skip(i as int)[0] == vs[i as int]);
        assert(vs.skip(i as int).drop_first() =~= vs.skip(i + 1));
        if expr_has_trig_depth(&v[i].0, depth) || stmts_have_trig(&v[i].1, depth) {
            return true;
        }
        i += 1;
    }
    false
}

/// Whether the functions and top-level expressions of a module, in order,
/// call a trigonometric builtin (stopping at the first).
pub open spec fn items_trig(s: Seq<ItemM>) -> Option<bool>
    decreases s.len(),
{
    if s.len() == 0 {
        Some(false)
    } else {
        either_trig(
            match s[0] {
                ItemM::Function(f) => stmts_trig(f.body, 0),
                ItemM::ExprStatement(e) => expr_trig(e, 0),
                _ => Some(false),
            },
            items_trig(s.drop_first()),
        )
    }
}

pub fn module_uses_trig(module: &Module) -> (r: bool)
    requires
        items_trig(module.view().items) is Some,
    ensures
        items_trig(module.view().items) == Some(r),
{
    let ghost items = module.view().items;
    let mut i: usize = 0;
    assert(items.skip(0) =~= items);
    while i < module.items.len()
        invariant
            i <= module.items.len(),
            items == module.view().items,
            items_trig(items) == items_trig(items.skip(i as int)),
            items_trig(items) is Some,
        decreases module.items.len() - i,
    {
        assert(items.skip(i as int)[0] == module.items@[i as int].view());
        assert(items.skip(i as int).drop_first() =~= items.skip(i + 1));
        match &module.items[i] {
            Item::Function(f) => {
                if stmts_have_trig(&f.body, 0) {
                    return true;
                }
            },
            Item::ExprStatement(e) => {
                if expr_has_trig(e) {
                    return true;
                }
            },
            _ => {},
        }
        i += 1;
    }
    false
}

} // verus!
