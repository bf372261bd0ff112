//! The optimisation pipeline: folding of statements, pruning of dead code,
//! selection of constant `switch` arms, and the fixpoint that repeats them.

use vstd::prelude::*;
use crate::ast::{
    Expr, ExprM, Function, FunctionM, IdentInfo, Item, ItemM, Module, ModuleM, Stmt, StmtM,
    TargetM, copy_expr, copy_meta, copy_opt_expr, copy_strings, copy_target, copy_vl_entries,
    lemma_view_arms_take, lemma_view_stmts_take, module_eq, view_arms, view_opt_expr, view_stmts,
};
use crate::codegen::fold::{
    fold_expr, lemma_fold_idempotent, lemma_fold_numbers_16, low16, numbers_16, opt_expr,
};

verus! {

// ---------------------------------------------------------------------------
// Folding of statements
// ---------------------------------------------------------------------------

/// The folded form of an optional expression.
pub open spec fn fold_opt(o: Option<ExprM>) -> Option<ExprM> {
    match o {
        Some(e) => Some(fold_expr(e)),
        None => None,
    }
}

/// The identifier expression that reads an assignment target.
pub open spec fn target_read(t: TargetM) -> ExprM {
    ExprM::Ident(t.name, t.line, t.col)
}

/// The folded form of a statement: every expression is folded, and a
/// compound assignment `x op= e` becomes `x = x op e` with `e` folded.
pub open spec fn opt_stmt_m(s: StmtM) -> StmtM
    decreases s,
{
    match s {
        StmtM::Assign(t, v, l) => StmtM::Assign(t, fold_expr(v), l),
        StmtM::Let(n, v, l) => StmtM::Let(n, fold_expr(v), l),
        StmtM::CompoundAssign(t, op, v, l) => StmtM::Assign(
            t,
            ExprM::Binary(op, Box::new(target_read(t)), Box::new(fold_expr(v))),
            l,
        ),
        StmtM::For(var, st, en, step, b, l) => StmtM::For(
            var,
            fold_expr(st),
            fold_expr(en),
            fold_opt(step),
            opt_stmts_m(b),
            l,
        ),
        StmtM::While(c, b, l) => StmtM::While(fold_expr(c), opt_stmts_m(b), l),
        StmtM::Expr(e, l) => StmtM::Expr(fold_expr(e), l),
        StmtM::If(c, b, elifs, els, l) => StmtM::If(
            fold_expr(c),
            opt_stmts_m(b),
            opt_arms_m(elifs),
            match els {
                Some(eb) => Some(opt_stmts_m(eb)),
                None => None,
            },
            l,
        ),
        StmtM::Switch(e, cases, def, l) => StmtM::Switch(
            fold_expr(e),
            opt_arms_m(cases),
            match def {
                Some(db) => Some(opt_stmts_m(db)),
                None => None,
            },
            l,
        ),
        StmtM::Return(o, l) => StmtM::Return(fold_opt(o), l),
        _ => s,
    }
}

/// The folded forms of a sequence of statements.
pub open spec fn opt_stmts_m(s: Seq<StmtM>) -> Seq<StmtM>
    decreases s,
{
    if s.len() == 0 {
        Seq::empty()
    } else {
        opt_stmts_m(s.drop_last()).push(opt_stmt_m(s.last()))
    }
}

/// The folded forms of guarded arms: guards and bodies.
pub open spec fn opt_arms_m(s: Seq<(ExprM, Seq<StmtM>)>) -> Seq<(ExprM, Seq<StmtM>)>
    decreases s,
{
    if s.len() == 0 {
        Seq::empty()
    } else {
        opt_arms_m(s.drop_last()).push((fold_expr(s.last().0), opt_stmts_m(s.last().1)))
    }
}

fn opt_opt_expr(o: &Option<Expr>) -> (r: Option<Expr>)
    ensures
        view_opt_expr(r) == fold_opt(view_opt_expr(*o)),
{
    match o {
        Some(e) => Some(opt_expr(e)),
        None => None,
    }
}

/// Fold a statement.
pub fn opt_stmt(s: &Stmt) -> (r: Stmt)
    ensures
        r.view() == opt_stmt_m(s.view()),
    decreases s,
{
    let source_line = s.source_line();
    match s {
        Stmt::Assign { target, value, .. } => Stmt::Assign {
            target: copy_target(target),
            value: opt_expr(value),
            source_line,
        },
        Stmt::Let { name, value, .. } => Stmt::Let {
            name: name.clone(),
            value: opt_expr(value),
            source_line,
        },
        Stmt::CompoundAssign { target, op, value, .. } => {
            let var_expr = Expr::Ident(
                IdentInfo {
                    name: target.name.clone(),
                    source_line: target.source_line,
                    col: target.col,
                },
            );
            let combined_expr = Expr::Binary {
                op: *op,
                left: Box::new(var_expr),
                right: Box::new(opt_expr(value)),
            };
            assert(var_expr.view() == target_read(target.view()));
            Stmt::Assign { target: copy_target(target), value: combined_expr, source_line }
        },
        Stmt::For { var, start, end, step, body, .. } => Stmt::For {
            var: var.clone(),
            start: opt_expr(start),
            end: opt_expr(end),
            step: opt_opt_expr(step),
            body: opt_stmts(body),
            source_line,
        },
        Stmt::While { cond, body, .. } => Stmt::While {
            cond: opt_expr(cond),
            body: opt_stmts(body),
            source_line,
        },
        Stmt::Expr(e, _) => Stmt::Expr(opt_expr(e), source_line),
        Stmt::If { cond, body, elifs, else_body, .. } => Stmt::If {
            cond: opt_expr(cond),
            body: opt_stmts(body),
            elifs: opt_arms(elifs),
            else_body: match else_body {
                Some(v) => Some(opt_stmts(v)),
                None => None,
            },
            source_line,
        },
        Stmt::Return(o, _) => Stmt::Return(opt_opt_expr(o), source_line),
        Stmt::Break { .. } => Stmt::Break { source_line },
        Stmt::Continue { .. } => Stmt::Continue { source_line },
        Stmt::Switch { expr, cases, default, .. } => Stmt::Switch {
            expr: opt_expr(expr),
            cases: opt_arms(cases),
            default: match default {
                Some(v) => Some(opt_stmts(v)),
                None => None,
            },
            source_line,
        },
    }
}

/// Fold each statement of a sequence.
pub fn opt_stmts(v: &Vec<Stmt>) -> (r: Vec<Stmt>)
    ensures
        view_stmts(r@) == opt_stmts_m(view_stmts(v@)),
    decreases v,
{
    let mut r: Vec<Stmt> = Vec::new();
    let mut i: usize = 0;
    while i < v.len()
        invariant
            i <= v.len(),
            view_stmts(r@) == opt_stmts_m(view_stmts(v@.take(i as int))),
        decreases v.len() - i,
    {
        proof {
            lemma_view_stmts_take(v@, i as int);
            assert(view_stmts(v@.take(i + 1)).drop_last() =~= view_stmts(v@.take(i as int)));
        }
        let c = opt_stmt(&v[i]);
        let ghost r0 = r@;
        r.push(c);
        assert(r@.drop_last() =~= r0);
        i += 1;
    }
    assert(v@.take(v.len() as int) =~= v@);
    r
}

/// Fold the guards and bodies of guarded arms.
pub fn opt_arms(v: &Vec<(Expr, Vec<Stmt>)>) -> (r: Vec<(Expr, Vec<Stmt>)>)
    ensures
        view_arms(r@) == opt_arms_m(view_arms(v@)),
    decreases v,
{
    let mut r: Vec<(Expr, Vec<Stmt>)> = Vec::new();
    let mut i: usize = 0;
    while i < v.len()
        invariant
            i <= v.len(),
            view_arms(r@) == opt_arms_m(view_arms(v@.take(i as int))),
        decreases v.len() - i,
    {
        proof {
            lemma_view_arms_take(v@, i as int);
            assert(view_arms(v@.take(i + 1)).drop_last() =~= view_arms(v@.take(i as int)));
        }
        let c = (opt_expr(&v[i].0), opt_stmts(&v[i].1));
        let ghost r0 = r@;
        r.push(c);
        assert(r@.drop_last() =~= r0);
        i += 1;
    }
    assert(v@.take(v.len() as int) =~= v@);
    r
}

// ---------------------------------------------------------------------------
// Pruning of dead code
// ---------------------------------------------------------------------------

/// A guard that folding has reduced to a non-zero number.
pub open spec fn is_true_number(e: ExprM) -> bool {
    e is Number && e->Number_0 != 0
}

/// Pruning of one statement, given the termination flag before it: the
/// statements it leaves, and the flag after it. A `return` raises the flag;
/// a branch whose guard is a number is replaced by the pruned branch that
/// guard selects; `while 0` and a `for` over an empty constant range vanish.
/// Once the flag is up, a constant branch stops after its current
/// statement. Compound assignments, which folding has already rewritten,
/// pass unchanged.
pub open spec fn dce_stmt_m(s: StmtM, t: bool) -> (Seq<StmtM>, bool)
    decreases s,
{
    match s {
        StmtM::If(c, body, elifs, els, l) => if c is Number {
            if c->Number_0 != 0 {
                dce_until(body, t)
            } else {
                match dce_pick(elifs, t) {
                    Some(r) => r,
                    None => match els {
                        Some(eb) => dce_until(eb, t),
                        None => (Seq::empty(), t),
                    },
                }
            }
        } else {
            let (nb, t1) = dce_all(body, t);
            let (ne, t2) = dce_arms(elifs, t1);
            match els {
                Some(eb) => {
                    let (nels, t3) = dce_all(eb, t2);
                    (seq![StmtM::If(c, nb, ne, Some(nels), l)], t3)
                },
                None => (seq![StmtM::If(c, nb, ne, None, l)], t2),
            }
        },
        StmtM::While(c, b, l) => if c == ExprM::Number(0) {
            (Seq::empty(), t)
        } else {
            let (nb, t1) = dce_all(b, t);
            (seq![StmtM::While(c, nb, l)], t1)
        },
        StmtM::For(var, st, en, step, b, l) => if st is Number && en is Number && st->Number_0
            >= en->Number_0 {
            (Seq::empty(), t)
        } else {
            let (nb, t1) = dce_all(b, t);
            (seq![StmtM::For(var, st, en, step, nb, l)], t1)
        },
        StmtM::Switch(e, cases, def, l) => {
            let (nc, t1) = dce_arms(cases, t);
            match def {
                Some(db) => {
                    let (nd, t2) = dce_all(db, t1);
                    (seq![StmtM::Switch(e, nc, Some(nd), l)], t2)
                },
                None => (seq![StmtM::Switch(e, nc, None, l)], t1),
            }
        },
        StmtM::Return(_, _) => (seq![s], true),
        _ => (seq![s], t),
    }
}

/// Pruning of every statement of a sequence in turn.
pub open spec fn dce_all(ss: Seq<StmtM>, t: bool) -> (Seq<StmtM>, bool)
    decreases ss,
{
    if ss.len() == 0 {
        (Seq::empty(), t)
    } else {
        let (o, t1) = dce_all(ss.drop_last(), t);
        let (o2, t2) = dce_stmt_m(ss.last(), t1);
        (o + o2, t2)
    }
}

/// Pruning of a sequence that stops after the first statement that leaves
/// the termination flag up (the first statement is always pruned).
pub open spec fn dce_until(ss: Seq<StmtM>, t: bool) -> (Seq<StmtM>, bool)
    decreases ss,
{
    if ss.len() == 0 {
        (Seq::empty(), t)
    } else {
        let (o, t1) = dce_until(ss.drop_last(), t);
        if ss.len() > 1 && t1 {
            (o, t1)
        } else {
            let (o2, t2) = dce_stmt_m(ss.last(), t1);
            (o + o2, t2)
        }
    }
}

/// Pruning of the bodies of guarded arms; the guards stay.
pub open spec fn dce_arms(a: Seq<(ExprM, Seq<StmtM>)>, t: bool) -> (
    Seq<(ExprM, Seq<StmtM>)>,
    bool,
)
    decreases a,
{
    if a.len() == 0 {
        (Seq::empty(), t)
    } else {
        let (o, t1) = dce_arms(a.drop_last(), t);
        let (b, t2) = dce_all(a.last().1, t1);
        (o.push((a.last().0, b)), t2)
    }
}

/// The pruned body of the first arm whose guard is a non-zero number.
pub open spec fn dce_pick(a: Seq<(ExprM, Seq<StmtM>)>, t: bool) -> Option<(Seq<StmtM>, bool)>
    decreases a,
{
    if a.len() == 0 {
        None
    } else {
        match dce_pick(a.drop_last(), t) {
            Some(r) => Some(r),
            None => if is_true_number(a.last().0) {
                Some(dce_all(a.last().1, t))
            } else {
                None
            },
        }
    }
}

proof fn lemma_view_stmts_push(s: Seq<Stmt>, x: Stmt)
    ensures
        view_stmts(s.push(x)) == view_stmts(s).push(x.view()),
{
    assert(s.push(x).drop_last() =~= s);
}

proof fn lemma_until_stops(ss: Seq<StmtM>, j: int, t: bool)
    requires
        1 <= j <= ss.len(),
        dce_until(ss.take(j), t).1,
    ensures
        dce_until(ss, t) == dce_until(ss.take(j), t),
    decreases ss.len(),
{
    if j == ss.len() {
        assert(ss.take(j) =~= ss);
    } else {
        assert(ss.drop_last().take(j) =~= ss.take(j));
        lemma_until_stops(ss.drop_last(), j, t);
    }
}

proof fn lemma_pick_stays(a: Seq<(ExprM, Seq<StmtM>)>, j: int, t: bool)
    requires
        0 <= j <= a.len(),
        dce_pick(a.take(j), t) is Some,
    ensures
        dce_pick(a, t) == dce_pick(a.take(j), t),
    decreases a.len(),
{
    if j == a.len() {
        assert(a.take(j) =~= a);
    } else {
        assert(a.drop_last().take(j) =~= a.take(j));
        lemma_pick_stays(a.drop_last(), j, t);
    }
}

/// Prune every statement of `v`, appending to `out`.
fn dce_all_exec(v: &Vec<Stmt>, out: &mut Vec<Stmt>, terminated: &mut bool)
    ensures
        view_stmts(final(out)@) == view_stmts(old(out)@) + dce_all(
            view_stmts(v@),
            *old(terminated),
        ).0,
        *final(terminated) == dce_all(view_stmts(v@), *old(terminated)).1,
    decreases v,
{
    let ghost vs = view_stmts(v@);
    let ghost o0 = view_stmts(out@);
    let ghost t0 = *terminated;
    proof {
        crate::ast::lemma_view_stmts(v@);
        assert(vs.take(0) =~= Seq::<StmtM>::empty());
        assert(view_stmts(out@) =~= o0 + dce_all(vs.take(0), t0).0);
    }
    let mut i: usize = 0;
    while i < v.len()
        invariant
            i <= v.len(),
            vs == view_stmts(v@),
            vs.len() == v.len(),
            forall|k: int| 0 <= k < v.len() ==> #[trigger] vs[k] == v@[k].view(),
            view_stmts(out@) == o0 + dce_all(vs.take(i as int), t0).0,
            *terminated == dce_all(vs.take(i as int), t0).1,
        decreases v.len() - i,
    {
        proof {
            assert(vs.take(i + 1).drop_last() =~= vs.take(i as int));
            assert(vs.take(i + 1).last() == v@[i as int].view());
        }
        let ghost before = view_stmts(out@);
        dce_stmt(&v[i], out, terminated);
        proof {
            let (a, t1) = dce_all(vs.take(i as int), t0);
            let (b, t2) = dce_stmt_m(v@[i as int].view(), t1);
            assert(view_stmts(out@) =~= o0 + (a + b));
        }
        i += 1;
    }
    assert(vs.take(v.len() as int) =~= vs);
}

/// Prune the statements of `v` in turn, appending to `out`, and stop after
/// the first one that leaves the termination flag up.
fn dce_until_exec(v: &Vec<Stmt>, out: &mut Vec<Stmt>, terminated: &mut bool)
    ensures
        view_stmts(final(out)@) == view_stmts(old(out)@) + dce_until(
            view_stmts(v@),
            *old(terminated),
        ).0,
        *final(terminated) == dce_until(view_stmts(v@), *old(terminated)).1,
    decreases v,
{
    let ghost vs = view_stmts(v@);
    let ghost o0 = view_stmts(out@);
    let ghost t0 = *terminated;
    proof {
        crate::ast::lemma_view_stmts(v@);
        assert(vs.take(0) =~= Seq::<StmtM>::empty());
        assert(view_stmts(out@) =~= o0 + dce_until(vs.take(0), t0).0);
    }
    let mut i: usize = 0;
    while i < v.len()
        invariant
            i <= v.len(),
            vs == view_stmts(v@),
            vs.len() == v.len(),
            forall|k: int| 0 <= k < v.len() ==> #[trigger] vs[k] == v@[k].view(),
            view_stmts(out@) == o0 + dce_until(vs.take(i as int), t0).0,
            *terminated == dce_until(vs.take(i as int), t0).1,
            i > 0 ==> !*terminated,
            t0 == *old(terminated),
            o0 == view_stmts(old(out)@),
        decreases v.len() - i,
    {
        proof {
            assert(vs.take(i + 1).drop_last() =~= vs.take(i as int));
            assert(vs.take(i + 1).last() == v@[i as int].view());
        }
        dce_stmt(&v[i], out, terminated);
        proof {
            let (a, t1) = dce_until(vs.take(i as int), t0);
            let (b, t2) = dce_stmt_m(v@[i as int].view(), t1);
            assert(dce_until(vs.take(i + 1), t0) == (a + b, t2));
            assert(view_stmts(out@) =~= o0 + (a + b));
        }
        i += 1;
        if *terminated {
            proof {
                lemma_until_stops(vs, i as int, t0);
            }
            return;
        }
    }
    assert(vs.take(v.len() as int) =~= vs);
}

/// Prune the bodies of guarded arms; the guards are copied.
fn dce_arms_exec(v: &Vec<(Expr, Vec<Stmt>)>, terminated: &mut bool) -> (r: Vec<(Expr, Vec<Stmt>)>)
    ensures
        view_arms(r@) == dce_arms(view_arms(v@), *old(terminated)).0,
        *final(terminated) == dce_arms(view_arms(v@), *old(terminated)).1,
    decreases v,
{
    let ghost va = view_arms(v@);
    let ghost t0 = *terminated;
    proof {
        crate::ast::lemma_view_arms(v@);
        assert(va.take(0) =~= Seq::<(ExprM, Seq<StmtM>)>::empty());
    }
    let mut r: Vec<(Expr, Vec<Stmt>)> = Vec::new();
    let mut i: usize = 0;
    while i < v.len()
        invariant
            i <= v.len(),
            va == view_arms(v@),
            va.len() == v.len(),
            forall|k: int|
                0 <= k < v.len() ==> #[trigger] va[k] == (v@[k].0.view(), view_stmts(
                    v@[k].1@,
                )),
            view_arms(r@) == dce_arms(va.take(i as int), t0).0,
            *terminated == dce_arms(va.take(i as int), t0).1,
        decreases v.len() - i,
    {
        proof {
            assert(va.take(i + 1).drop_last() =~= va.take(i as int));
            assert(va.take(i + 1).last() == va[i as int]);
        }
        let mut nb: Vec<Stmt> = Vec::new();
        dce_all_exec(&v[i].1, &mut nb, terminated);
        assert(view_stmts(nb@) =~= Seq::<StmtM>::empty() + view_stmts(nb@));
        let c = (copy_expr(&v[i].0), nb);
        let ghost r0 = r@;
        r.push(c);
        assert(r@.drop_last() =~= r0);
        i += 1;
    }
    assert(va.take(v.len() as int) =~= va);
    r
}

/// Prune the body of the first arm whose guard is a non-zero number,
/// appending to `out`; tells whether there was such an arm.
fn dce_pick_exec(v: &Vec<(Expr, Vec<Stmt>)>, out: &mut Vec<Stmt>, terminated: &mut bool) -> (taken:
    bool)
    ensures
        taken == dce_pick(view_arms(v@), *old(terminated)) is Some,
        taken ==> view_stmts(final(out)@) == view_stmts(old(out)@) + dce_pick(
            view_arms(v@),
            *old(terminated),
        ).unwrap().0 && *final(terminated) == dce_pick(
            view_arms(v@),
            *old(terminated),
        ).unwrap().1,
        !taken ==> final(out)@ == old(out)@ && *final(terminated) == *old(terminated),
    decreases v,
{
    let ghost va = view_arms(v@);
    let ghost t0 = *terminated;
    proof {
        crate::ast::lemma_view_arms(v@);
        assert(va.take(0) =~= Seq::<(ExprM, Seq<StmtM>)>::empty());
    }
    let mut sel: Option<usize> = None;
    let mut k: usize = 0;
    while k < v.len()
        invariant
            k <= v.len(),
            va == view_arms(v@),
            va.len() == v.len(),
            forall|j: int|
                0 <= j < v.len() ==> #[trigger] va[j] == (v@[j].0.view(), view_stmts(v@[j].1@)),
            sel is None ==> dce_pick(va.take(k as int), t0) is None,
            sel matches Some(j) ==> j < k && is_true_number(va[j as int].0) && dce_pick(
                va.take(j as int),
                t0,
            ) is None,
        decreases v.len() - k,
    {
        proof {
            assert(va.take(k + 1).drop_last() =~= va.take(k as int));
            assert(va.take(k + 1).last() == va[k as int]);
        }
        if sel.is_none() {
            if let Expr::Number(n) = &v[k].0 {
                if *n != 0 {
                    sel = Some(k);
                }
            }
        }
        k += 1;
    }
    match sel {
        Some(j) => {
            proof {
                assert(va.take(j + 1).drop_last() =~= va.take(j as int));
                assert(va.take(j + 1).last() == va[j as int]);
                lemma_pick_stays(va, j + 1, t0);
            }
            dce_all_exec(&v[j].1, out, terminated);
            true
        },
        None => {
            assert(va.take(v.len() as int) =~= va);
            false
        },
    }
}

/// Prune one statement, appending what remains of it to `out`.
fn dce_stmt(stmt: &Stmt, out: &mut Vec<Stmt>, terminated: &mut bool)
    ensures
        view_stmts(final(out)@) == view_stmts(old(out)@) + dce_stmt_m(
            stmt.view(),
            *old(terminated),
        ).0,
        *final(terminated) == dce_stmt_m(stmt.view(), *old(terminated)).1,
    decreases stmt,
{
    let ghost o0 = view_stmts(out@);
    let source_line = stmt.source_line();
    match stmt {
        Stmt::If { cond, body, elifs, else_body, .. } => match cond {
            Expr::Number(n) => {
                if *n != 0 {
                    dce_until_exec(body, out, terminated);
                } else {
                    let taken = dce_pick_exec(elifs, out, terminated);
                    if !taken {
                        if let Some(eb) = else_body {
                            dce_until_exec(eb, out, terminated);
                        } else {
                            assert(view_stmts(out@) =~= o0 + Seq::<StmtM>::empty());
                        }
                    }
                }
            },
            _ => {
                let mut nb: Vec<Stmt> = Vec::new();
                dce_all_exec(body, &mut nb, terminated);
                assert(view_stmts(nb@) =~= Seq::<StmtM>::empty() + view_stmts(nb@));
                let nelifs = dce_arms_exec(elifs, terminated);
                let nelse = match else_body {
                    Some(v) => {
                        let mut vv: Vec<Stmt> = Vec::new();
                        dce_all_exec(v, &mut vv, terminated);
                        assert(view_stmts(vv@) =~= Seq::<StmtM>::empty() + view_stmts(vv@));
                        Some(vv)
                    },
                    None => None,
                };
                let ns = Stmt::If {
                    cond: copy_expr(cond),
                    body: nb,
                    elifs: nelifs,
                    else_body: nelse,
                    source_line,
                };
                let ghost before = out@;
                out.push(ns);
                proof {
                    lemma_view_stmts_push(before, ns);
                    assert(view_stmts(out@) =~= o0 + seq![ns.view()]);
                }
            },
        },
        Stmt::While { cond, body, .. } => {
            if let Expr::Number(0) = cond {
                assert(view_stmts(out@) =~= o0 + Seq::<StmtM>::empty());
                return ;
            }
            let mut nb: Vec<Stmt> = Vec::new();
            dce_all_exec(body, &mut nb, terminated);
            assert(view_stmts(nb@) =~= Seq::<StmtM>::empty() + view_stmts(nb@));
            let ns = Stmt::While { cond: copy_expr(cond), body: nb, source_line };
            let ghost before = out@;
            out.push(ns);
            proof {
                lemma_view_stmts_push(before, ns);
                assert(view_stmts(out@) =~= o0 + seq![ns.view()]);
            }
        },
        Stmt::For { var, start, end, step, body, .. } => {
            if let (Expr::Number(sv), Expr::Number(ev)) = (start, end) {
                if *sv >= *ev {
                    assert(view_stmts(out@) =~= o0 + Seq::<StmtM>::empty());
                    return ;
                }
            }
            let mut nb: Vec<Stmt> = Vec::new();
            dce_all_exec(body, &mut nb, terminated);
            assert(view_stmts(nb@) =~= Seq::<StmtM>::empty() + view_stmts(nb@));
            let ns = Stmt::For {
                var: var.clone(),
                start: copy_expr(start),
                end: copy_expr(end),
                step: copy_opt_expr(step),
                body: nb,
                source_line,
            };
            let ghost before = out@;
            out.push(ns);
            proof {
                lemma_view_stmts_push(before, ns);
                assert(view_stmts(out@) =~= o0 + seq![ns.view()]);
            }
        },
        Stmt::Switch { expr, cases, default, .. } => {
            let new_cases = dce_arms_exec(cases, terminated);
            let new_default = match default {
                Some(db) => {
                    let mut nb: Vec<Stmt> = Vec::new();
                    dce_all_exec(db, &mut nb, terminated);
                    assert(view_stmts(nb@) =~= Seq::<StmtM>::empty() + view_stmts(nb@));
                    Some(nb)
                },
                None => None,
            };
            let ns = Stmt::Switch {
                expr: copy_expr(expr),
                cases: new_cases,
                default: new_default,
                source_line,
            };
            let ghost before = out@;
            out.push(ns);
            proof {
                lemma_view_stmts_push(before, ns);
                assert(view_stmts(out@) =~= o0 + seq![ns.view()]);
            }
        },
        _ => {
            let ns = crate::ast::copy_stmt(stmt);
            if let Stmt::Return(..) = stmt {
                *terminated = true;
            }
            let ghost before = out@;
            out.push(ns);
            proof {
                lemma_view_stmts_push(before, ns);
                assert(view_stmts(out@) =~= o0 + seq![ns.view()]);
            }
        },
    }
}

// ---------------------------------------------------------------------------
// Selection of constant switch arms
// ---------------------------------------------------------------------------

/// Every guard of the arms is a number.
pub open spec fn all_numeric(a: Seq<(ExprM, Seq<StmtM>)>) -> bool {
    forall|i: int| 0 <= i < a.len() ==> #[trigger] a[i].0 is Number
}

/// A case value that equals `v` on the low 16 bits.
pub open spec fn case_matches(c: ExprM, v: i32) -> bool {
    c is Number && low16(c->Number_0 as int) == low16(v as int)
}

/// Selection of constant switch arms in one statement: a `switch` on a
/// number whose cases are all numbers is replaced by the statements of the
/// first matching case, or of the default, or by nothing; other
/// statements keep their shape with their bodies processed.
pub open spec fn fsw_stmt_m(s: StmtM) -> Seq<StmtM>
    decreases s,
{
    match s {
        StmtM::Switch(e, cases, def, l) => if e is Number && all_numeric(cases) {
            match fsw_pick(cases, e->Number_0) {
                Some(b) => b,
                None => match def {
                    Some(d) => fsw_all(d),
                    None => Seq::empty(),
                },
            }
        } else {
            seq![
                StmtM::Switch(
                    e,
                    fsw_arms(cases),
                    match def {
                        Some(d) => Some(fsw_all(d)),
                        None => None,
                    },
                    l,
                ),
            ]
        },
        StmtM::If(c, b, elifs, els, l) => seq![
            StmtM::If(
                c,
                fsw_all(b),
                fsw_arms(elifs),
                match els {
                    Some(eb) => Some(fsw_all(eb)),
                    None => None,
                },
                l,
            ),
        ],
        StmtM::While(c, b, l) => seq![StmtM::While(c, fsw_all(b), l)],
        StmtM::For(var, st, en, step, b, l) => seq![StmtM::For(var, st, en, step, fsw_all(b), l)],
        _ => seq![s],
    }
}

/// Selection of constant switch arms in a sequence of statements.
pub open spec fn fsw_all(ss: Seq<StmtM>) -> Seq<StmtM>
    decreases ss,
{
    if ss.len() == 0 {
        Seq::empty()
    } else {
        fsw_all(ss.drop_last()) + fsw_stmt_m(ss.last())
    }
}

/// Selection of constant switch arms in the bodies of guarded arms.
pub open spec fn fsw_arms(a: Seq<(ExprM, Seq<StmtM>)>) -> Seq<(ExprM, Seq<StmtM>)>
    decreases a,
{
    if a.len() == 0 {
        Seq::empty()
    } else {
        fsw_arms(a.drop_last()).push((a.last().0, fsw_all(a.last().1)))
    }
}

/// The processed body of the first case that matches `v`.
pub open spec fn fsw_pick(a: Seq<(ExprM, Seq<StmtM>)>, v: i32) -> Option<Seq<StmtM>>
    decreases a,
{
    if a.len() == 0 {
        None
    } else {
        match fsw_pick(a.drop_last(), v) {
            Some(r) => Some(r),
            None => if case_matches(a.last().0, v) {
                Some(fsw_all(a.last().1))
            } else {
                None
            },
        }
    }
}

proof fn lemma_fsw_pick_stays(a: Seq<(ExprM, Seq<StmtM>)>, j: int, v: i32)
    requires
        0 <= j <= a.len(),
        fsw_pick(a.take(j), v) is Some,
    ensures
        fsw_pick(a, v) == fsw_pick(a.take(j), v),
    decreases a.len(),
{
    if j == a.len() {
        assert(a.take(j) =~= a);
    } else {
        assert(a.drop_last().take(j) =~= a.take(j));
        lemma_fsw_pick_stays(a.drop_last(), j, v);
    }
}

/// Process every statement of `v`, appending to `out`.
fn fsw_all_exec(v: &Vec<Stmt>, out: &mut Vec<Stmt>)
    ensures
        view_stmts(final(out)@) == view_stmts(old(out)@) + fsw_all(view_stmts(v@)),
    decreases v,
{
    let ghost vs = view_stmts(v@);
    let ghost o0 = view_stmts(out@);
    proof {
        crate::ast::lemma_view_stmts(v@);
        assert(vs.take(0) =~= Seq::<StmtM>::empty());
        assert(view_stmts(out@) =~= o0 + fsw_all(vs.take(0)));
    }
    let mut i: usize = 0;
    while i < v.len()
        invariant
            i <= v.len(),
            vs == view_stmts(v@),
            vs.len() == v.len(),
            forall|k: int| 0 <= k < v.len() ==> #[trigger] vs[k] == v@[k].view(),
            view_stmts(out@) == o0 + fsw_all(vs.take(i as int)),
        decreases v.len() - i,
    {
        proof {
            assert(vs.take(i + 1).drop_last() =~= vs.take(i as int));
            assert(vs.take(i + 1).last() == v@[i as int].view());
        }
        fold_const_switch_stmt(&v[i], out);
        proof {
            let a = fsw_all(vs.take(i as int));
            let b = fsw_stmt_m(v@[i as int].view());
            assert(view_stmts(out@) =~= o0 + (a + b));
        }
        i += 1;
    }
    assert(vs.take(v.len() as int) =~= vs);
}

/// Process the bodies of guarded arms; the guards are copied.
fn fsw_arms_exec(v: &Vec<(Expr, Vec<Stmt>)>) -> (r: Vec<(Expr, Vec<Stmt>)>)
    ensures
        view_arms(r@) == fsw_arms(view_arms(v@)),
    decreases v,
{
    let ghost va = view_arms(v@);
    proof {
        crate::ast::lemma_view_arms(v@);
        assert(va.take(0) =~= Seq::<(ExprM, Seq<StmtM>)>::empty());
    }
    let mut r: Vec<(Expr, Vec<Stmt>)> = Vec::new();
    let mut i: usize = 0;
    while i < v.len()
        invariant
            i <= v.len(),
            va == view_arms(v@),
            va.len() == v.len(),
            forall|k: int|
                0 <= k < v.len() ==> #[trigger] va[k] == (v@[k].0.view(), view_stmts(
                    v@[k].1@,
                )),
            view_arms(r@) == fsw_arms(va.take(i as int)),
        decreases v.len() - i,
    {
        proof {
            assert(va.take(i + 1).drop_last() =~= va.take(i as int));
            assert(va.take(i + 1).last() == va[i as int]);
        }
        let mut nb: Vec<Stmt> = Vec::new();
        fsw_all_exec(&v[i].1, &mut nb);
        assert(view_stmts(nb@) =~= Seq::<StmtM>::empty() + view_stmts(nb@));
        let c = (copy_expr(&v[i].0), nb);
        let ghost r0 = r@;
        r.push(c);
        assert(r@.drop_last() =~= r0);
        i += 1;
    }
    assert(va.take(v.len() as int) =~= va);
    r
}

/// Whether every guard of the arms is a number.
fn all_numeric_exec(v: &Vec<(Expr, Vec<Stmt>)>) -> (b: bool)
    ensures
        b == all_numeric(view_arms(v@)),
{
    proof {
        crate::ast::lemma_view_arms(v@);
    }
    let mut k: usize = 0;
    while k < v.len()
        invariant
            k <= v.len(),
            view_arms(v@).len() == v.len(),
            forall|j: int|
                0 <= j < v.len() ==> #[trigger] view_arms(v@)[j] == (
                    v@[j].0.view(),
                    view_stmts(v@[j].1@),
                ),
            forall|j: int| 0 <= j < k ==> #[trigger] view_arms(v@)[j].0 is Number,
        decreases v.len() - k,
    {
        if !matches!(v[k].0, Expr::Number(_)) {
            assert(view_arms(v@)[k as int].0 !is Number);
            return false;
        }
        k += 1;
    }
    true
}

/// Process the body of the first case that matches `val`, appending to
/// `out`; tells whether there was such a case.
fn fsw_pick_exec(v: &Vec<(Expr, Vec<Stmt>)>, val: i32, out: &mut Vec<Stmt>) -> (taken: bool)
    ensures
        taken == fsw_pick(view_arms(v@), val) is Some,
        taken ==> view_stmts(final(out)@) == view_stmts(old(out)@) + fsw_pick(
            view_arms(v@),
            val,
        ).unwrap(),
        !taken ==> final(out)@ == old(out)@,
    decreases v,
{
    let ghost va = view_arms(v@);
    proof {
        crate::ast::lemma_view_arms(v@);
        assert(va.take(0) =~= Seq::<(ExprM, Seq<StmtM>)>::empty());
    }
    let want = crate::codegen::fold::trunc16(val);
    let mut sel: Option<usize> = None;
    let mut k: usize = 0;
    while k < v.len()
        invariant
            k <= v.len(),
            va == view_arms(v@),
            va.len() == v.len(),
            want == low16(val as int),
            forall|j: int|
                0 <= j < v.len() ==> #[trigger] va[j] == (v@[j].0.view(), view_stmts(v@[j].1@)),
            sel is None ==> fsw_pick(va.take(k as int), val) is None,
            sel matches Some(j) ==> j < k && case_matches(va[j as int].0, val) && fsw_pick(
                va.take(j as int),
                val,
            ) is None,
        decreases v.len() - k,
    {
        proof {
            assert(va.take(k + 1).drop_last() =~= va.take(k as int));
            assert(va.take(k + 1).last() == va[k as int]);
        }
        if sel.is_none() {
            if let Expr::Number(cv) = &v[k].0 {
                if crate::codegen::fold::trunc16(*cv) == want {
                    sel = Some(k);
                }
            }
        }
        k += 1;
    }
    match sel {
        Some(j) => {
            proof {
                assert(va.take(j + 1).drop_last() =~= va.take(j as int));
                assert(va.take(j + 1).last() == va[j as int]);
                lemma_fsw_pick_stays(va, j + 1, val);
            }
            fsw_all_exec(&v[j].1, out);
            true
        },
        None => {
            assert(va.take(v.len() as int) =~= va);
            false
        },
    }
}

/// Select constant switch arms in one statement, appending the result to
/// `out`.
fn fold_const_switch_stmt(s: &Stmt, out: &mut Vec<Stmt>)
    ensures
        view_stmts(final(out)@) == view_stmts(old(out)@) + fsw_stmt_m(s.view()),
    decreases s,
{
    let ghost o0 = view_stmts(out@);
    let source_line = s.source_line();
    match s {
        Stmt::Switch { expr, cases, default, .. } => {
            if let Expr::Number(v) = expr {
                if all_numeric_exec(cases) {
                    let taken = fsw_pick_exec(cases, *v, out);
                    if !taken {
                        if let Some(db) = default {
                            fsw_all_exec(db, out);
                        } else {
                            assert(view_stmts(out@) =~= o0 + Seq::<StmtM>::empty());
                        }
                    }
                    return ;
                }
            }
            let new_cases = fsw_arms_exec(cases);
            let new_default = match default {
                Some(db) => {
                    let mut nb: Vec<Stmt> = Vec::new();
                    fsw_all_exec(db, &mut nb);
                    assert(view_stmts(nb@) =~= Seq::<StmtM>::empty() + view_stmts(nb@));
                    Some(nb)
                },
                None => None,
            };
            let ns = Stmt::Switch {
                expr: copy_expr(expr),
                cases: new_cases,
                default: new_default,
                source_line,
            };
            let ghost before = out@;
            out.push(ns);
            proof {
                lemma_view_stmts_push(before, ns);
                assert(view_stmts(out@) =~= o0 + seq![ns.view()]);
            }
        },
        Stmt::If { cond, body, elifs, else_body, .. } => {
            let mut nb: Vec<Stmt> = Vec::new();
            fsw_all_exec(body, &mut nb);
            assert(view_stmts(nb@) =~= Seq::<StmtM>::empty() + view_stmts(nb@));
            let nelifs = fsw_arms_exec(elifs);
            let nelse = match else_body {
                Some(eb) => {
                    let mut nb3: Vec<Stmt> = Vec::new();
                    fsw_all_exec(eb, &mut nb3);
                    assert(view_stmts(nb3@) =~= Seq::<StmtM>::empty() + view_stmts(nb3@));
                    Some(nb3)
                },
                None => None,
            };
            let ns = Stmt::If {
                cond: copy_expr(cond),
                body: nb,
                elifs: nelifs,
                else_body: nelse,
                source_line,
            };
            let ghost before = out@;
            out.push(ns);
            proof {
                lemma_view_stmts_push(before, ns);
                assert(view_stmts(out@) =~= o0 + seq![ns.view()]);
            }
        },
        Stmt::While { cond, body, .. } => {
            let mut nb: Vec<Stmt> = Vec::new();
            fsw_all_exec(body, &mut nb);
            assert(view_stmts(nb@) =~= Seq::<StmtM>::empty() + view_stmts(nb@));
            let ns = Stmt::While { cond: copy_expr(cond), body: nb, source_line };
            let ghost before = out@;
            out.push(ns);
            proof {
                lemma_view_stmts_push(before, ns);
                assert(view_stmts(out@) =~= o0 + seq![ns.view()]);
            }
        },
        Stmt::For { var, start, end, step, body, .. } => {
            let mut nb: Vec<Stmt> = Vec::new();
            fsw_all_exec(body, &mut nb);
            assert(view_stmts(nb@) =~= Seq::<StmtM>::empty() + view_stmts(nb@));
            let ns = Stmt::For {
                var: var.clone(),
                start: copy_expr(start),
                end: copy_expr(end),
                step: copy_opt_expr(step),
                body: nb,
                source_line,
            };
            let ghost before = out@;
            out.push(ns);
            proof {
                lemma_view_stmts_push(before, ns);
                assert(view_stmts(out@) =~= o0 + seq![ns.view()]);
            }
        },
        _ => {
            let ns = crate::ast::copy_stmt(s);
            let ghost before = out@;
            out.push(ns);
            proof {
                lemma_view_stmts_push(before, ns);
                assert(view_stmts(out@) =~= o0 + seq![ns.view()]);
            }
        },
    }
}

// ---------------------------------------------------------------------------
// Items and modules
// ---------------------------------------------------------------------------

/// A function with another body.
pub open spec fn with_body(f: FunctionM, b: Seq<StmtM>) -> FunctionM {
    FunctionM { name: f.name, line: f.line, params: f.params, body: b }
}

/// Folding of an item: function bodies, constant and global values, and
/// top-level expressions.
pub open spec fn fold_item_m(i: ItemM) -> ItemM {
    match i {
        ItemM::Function(f) => ItemM::Function(with_body(f, opt_stmts_m(f.body))),
        ItemM::Const(n, v, l) => ItemM::Const(n, fold_expr(v), l),
        ItemM::GlobalLet(n, v, l) => ItemM::GlobalLet(n, fold_expr(v), l),
        ItemM::ExprStatement(e) => ItemM::ExprStatement(fold_expr(e)),
        _ => i,
    }
}

/// Pruning of an item: a function body is pruned from a lowered
/// termination flag, and stops after the first statement that raises it.
pub open spec fn dce_item_m(i: ItemM) -> ItemM {
    match i {
        ItemM::Function(f) => ItemM::Function(with_body(f, dce_until(f.body, false).0)),
        _ => i,
    }
}

/// Selection of constant switch arms in an item.
pub open spec fn fsw_item_m(i: ItemM) -> ItemM {
    match i {
        ItemM::Function(f) => ItemM::Function(with_body(f, fsw_all(f.body))),
        _ => i,
    }
}

/// One round of the pipeline on an item.
pub open spec fn round_item(i: ItemM) -> ItemM {
    fsw_item_m(dce_item_m(fold_item_m(i)))
}

/// One round of the pipeline on a module: folding, pruning, then
/// selection of constant switch arms, item by item; the metadata stays.
pub open spec fn opt_round(m: ModuleM) -> ModuleM {
    ModuleM { items: m.items.map_values(|i: ItemM| round_item(i)), meta: m.meta }
}

/// At most `n` rounds, stopping at the first round that changes nothing.
pub open spec fn optimize_m(m: ModuleM, n: nat) -> ModuleM
    decreases n,
{
    if n == 0 {
        m
    } else {
        let next = opt_round(m);
        if next == m {
            m
        } else {
            optimize_m(next, (n - 1) as nat)
        }
    }
}

fn opt_function(f: &Function) -> (r: Function)
    ensures
        r.view() == with_body(f.view(), opt_stmts_m(f.view().body)),
{
    Function {
        name: f.name.clone(),
        line: f.line,
        params: copy_strings(&f.params),
        body: opt_stmts(&f.body),
    }
}

/// Fold an item.
fn opt_item(it: &Item) -> (r: Item)
    ensures
        r.view() == fold_item_m(it.view()),
{
    match it {
        Item::Function(f) => Item::Function(opt_function(f)),
        Item::Const { name, value, source_line } => Item::Const {
            name: name.clone(),
            value: opt_expr(value),
            source_line: *source_line,
        },
        Item::GlobalLet { name, value, source_line } => Item::GlobalLet {
            name: name.clone(),
            value: opt_expr(value),
            source_line: *source_line,
        },
        Item::VectorList { name, entries } => Item::VectorList {
            name: name.clone(),
            entries: copy_vl_entries(entries),
        },
        Item::ExprStatement(expr) => Item::ExprStatement(opt_expr(expr)),
    }
}

fn dce_function(f: &Function) -> (r: Function)
    ensures
        r.view() == with_body(f.view(), dce_until(f.view().body, false).0),
{
    let mut new_body: Vec<Stmt> = Vec::new();
    let mut terminated = false;
    dce_until_exec(&f.body, &mut new_body, &mut terminated);
    assert(view_stmts(new_body@) =~= dce_until(view_stmts(f.body@), false).0);
    Function {
        name: f.name.clone(),
        line: f.line,
        params: copy_strings(&f.params),
        body: new_body,
    }
}

fn fold_const_switches_function(f: &Function) -> (r: Function)
    ensures
        r.view() == with_body(f.view(), fsw_all(f.view().body)),
{
    let mut out: Vec<Stmt> = Vec::new();
    fsw_all_exec(&f.body, &mut out);
    assert(view_stmts(out@) =~= fsw_all(view_stmts(f.body@)));
    Function { name: f.name.clone(), line: f.line, params: copy_strings(&f.params), body: out }
}

/// A copy of an item that is not a function.
fn copy_other_item(it: &Item) -> (r: Item)
    requires
        !(it is Function),
    ensures
        r.view() == it.view(),
{
    match it {
        Item::Const { name, value, source_line } => Item::Const {
            name: name.clone(),
            value: copy_expr(value),
            source_line: *source_line,
        },
        Item::GlobalLet { name, value, source_line } => Item::GlobalLet {
            name: name.clone(),
            value: copy_expr(value),
            source_line: *source_line,
        },
        Item::VectorList { name, entries } => Item::VectorList {
            name: name.clone(),
            entries: copy_vl_entries(entries),
        },
        Item::ExprStatement(expr) => Item::ExprStatement(copy_expr(expr)),
        Item::Function(f) => Item::Function(opt_function(f)),
    }
}

fn dce_item(it: &Item) -> (r: Item)
    ensures
        r.view() == dce_item_m(it.view()),
{
    match it {
        Item::Function(f) => Item::Function(dce_function(f)),
        _ => copy_other_item(it),
    }
}

fn fsw_item(it: &Item) -> (r: Item)
    ensures
        r.view() == fsw_item_m(it.view()),
{
    match it {
        Item::Function(f) => Item::Function(fold_const_switches_function(f)),
        _ => copy_other_item(it),
    }
}

/// The items of a module after a per-item pass, with the metadata copied.
pub open spec fn map_module(m: ModuleM, f: spec_fn(ItemM) -> ItemM) -> ModuleM {
    ModuleM { items: m.items.map_values(f), meta: m.meta }
}

/// Fold every item of a module.
fn fold_module(m: &Module) -> (r: Module)
    ensures
        r.view() == map_module(m.view(), |i: ItemM| fold_item_m(i)),
{
    let mut items: Vec<Item> = Vec::new();
    let mut i: usize = 0;
    while i < m.items.len()
        invariant
            i <= m.items.len(),
            items.len() == i,
            forall|k: int|
                0 <= k < i ==> #[trigger] items@[k].view() == fold_item_m(m.items@[k].view()),
        decreases m.items.len() - i,
    {
        items.push(opt_item(&m.items[i]));
        i += 1;
    }
    let r = Module { items, meta: copy_meta(&m.meta) };
    assert(r.view().items =~= map_module(m.view(), |i: ItemM| fold_item_m(i)).items);
    r
}

/// Prune dead code in every function of a module.
fn dead_code_elim(m: &Module) -> (r: Module)
    ensures
        r.view() == map_module(m.view(), |i: ItemM| dce_item_m(i)),
{
    let mut items: Vec<Item> = Vec::new();
    let mut i: usize = 0;
    while i < m.items.len()
        invariant
            i <= m.items.len(),
            items.len() == i,
            forall|k: int|
                0 <= k < i ==> #[trigger] items@[k].view() == dce_item_m(m.items@[k].view()),
        decreases m.items.len() - i,
    {
        items.push(dce_item(&m.items[i]));
        i += 1;
    }
    let r = Module { items, meta: copy_meta(&m.meta) };
    assert(r.view().items =~= map_module(m.view(), |i: ItemM| dce_item_m(i)).items);
    r
}

/// Select constant switch arms in every function of a module.
fn fold_const_switches(m: &Module) -> (r: Module)
    ensures
        r.view() == map_module(m.view(), |i: ItemM| fsw_item_m(i)),
{
    let mut items: Vec<Item> = Vec::new();
    let mut i: usize = 0;
    while i < m.items.len()
        invariant
            i <= m.items.len(),
            items.len() == i,
            forall|k: int|
                0 <= k < i ==> #[trigger] items@[k].view() == fsw_item_m(m.items@[k].view()),
        decreases m.items.len() - i,
    {
        items.push(fsw_item(&m.items[i]));
        i += 1;
    }
    let r = Module { items, meta: copy_meta(&m.meta) };
    assert(r.view().items =~= map_module(m.view(), |i: ItemM| fsw_item_m(i)).items);
    r
}

/// A copy of a module.
fn copy_module(m: &Module) -> (r: Module)
    ensures
        r.view() == m.view(),
{
    let mut items: Vec<Item> = Vec::new();
    let mut i: usize = 0;
    while i < m.items.len()
        invariant
            i <= m.items.len(),
            items.len() == i,
            forall|k: int| 0 <= k < i ==> #[trigger] items@[k].view() == m.items@[k].view(),
        decreases m.items.len() - i,
    {
        let it = match &m.items[i] {
            Item::Function(f) => Item::Function(
                Function {
                    name: f.name.clone(),
                    line: f.line,
                    params: copy_strings(&f.params),
                    body: crate::ast::copy_stmts(&f.body),
                },
            ),
            other => copy_other_item(other),
        };
        items.push(it);
        i += 1;
    }
    let r = Module { items, meta: copy_meta(&m.meta) };
    assert(r.view().items =~= m.view().items);
    r
}

/// The optimisation pipeline: up to five rounds of folding, pruning and
/// selection of constant switch arms, stopping at the first round that
/// leaves the module unchanged.
pub fn optimize_module(m: &Module) -> (r: Module)
    ensures
        r.view() == optimize_m(m.view(), 5),
{
    let mut current = copy_module(m);
    let mut round: usize = 0;
    while round < 5
        invariant
            round <= 5,
            optimize_m(current.view(), (5 - round) as nat) == optimize_m(m.view(), 5),
        ensures
            current.view() == optimize_m(m.view(), 5),
        decreases 5 - round,
    {
        let folded = fold_module(&current);
        let dce = dead_code_elim(&folded);
        let sw = fold_const_switches(&dce);
        proof {
            assert(sw.view().items =~= opt_round(current.view()).items);
        }
        if module_eq(&sw, &current) {
            break;
        }
        current = sw;
        round += 1;
    }
    current
}

// ---------------------------------------------------------------------------
// Laws of the pipeline
// ---------------------------------------------------------------------------

/// The kind and name of an item (a top-level expression has no name).
pub open spec fn item_key(i: ItemM) -> (int, Seq<char>) {
    match i {
        ItemM::Function(f) => (0, f.name),
        ItemM::Const(n, _, _) => (1, n),
        ItemM::GlobalLet(n, _, _) => (2, n),
        ItemM::VectorList(n, _) => (3, n),
        ItemM::ExprStatement(_) => (4, Seq::empty()),
    }
}

/// An item whose value, if it is a constant, a global or a top-level
/// expression, is in folded form.
pub open spec fn value_folded(i: ItemM) -> bool {
    match i {
        ItemM::Const(_, v, _) => fold_expr(v) == v,
        ItemM::GlobalLet(_, v, _) => fold_expr(v) == v,
        ItemM::ExprStatement(v) => fold_expr(v) == v,
        _ => true,
    }
}

/// Optimisation keeps the module's metadata, the number of its items, and
/// the kind and name of each item in its place.
pub proof fn lemma_optimize_keeps_items(m: ModuleM, n: nat)
    ensures
        optimize_m(m, n).meta == m.meta,
        optimize_m(m, n).items.len() == m.items.len(),
        forall|k: int|
            0 <= k < m.items.len() ==> #[trigger] item_key(optimize_m(m, n).items[k]) == item_key(
                m.items[k],
            ),
    decreases n,
{
    if n > 0 {
        let next = opt_round(m);
        if next != m {
            lemma_optimize_keeps_items(next, (n - 1) as nat);
            assert forall|k: int| 0 <= k < m.items.len() implies #[trigger] item_key(
                optimize_m(m, n).items[k],
            ) == item_key(m.items[k]) by {
                assert(item_key(next.items[k]) == item_key(m.items[k]));
            }
        }
    }
}

/// After at least one round, the value of every constant, global and
/// top-level expression is in folded form (folding it again changes
/// nothing), so it holds only 16-bit numbers.
pub proof fn lemma_optimize_folds_values(m: ModuleM, n: nat)
    requires
        n >= 1,
    ensures
        forall|k: int|
            0 <= k < optimize_m(m, n).items.len() ==> #[trigger] value_folded(
                optimize_m(m, n).items[k],
            ),
        forall|k: int|
            0 <= k < optimize_m(m, n).items.len() ==> (#[trigger] optimize_m(m, n).items[k]
                matches ItemM::Const(_, v, _) ==> numbers_16(v)),
    decreases n,
{
    let next = opt_round(m);
    assert forall|k: int| 0 <= k < next.items.len() implies #[trigger] value_folded(
        next.items[k],
    ) by {
        match m.items[k] {
            ItemM::Const(_, v, _) => lemma_fold_idempotent(v),
            ItemM::GlobalLet(_, v, _) => lemma_fold_idempotent(v),
            ItemM::ExprStatement(v) => lemma_fold_idempotent(v),
            _ => {},
        }
    }
    if next != m && n > 1 {
        lemma_optimize_folds_values(next, (n - 1) as nat);
    }
    let r = optimize_m(m, n);
    if next == m {
        assert(r == next);
    } else if n == 1 {
        assert(r == optimize_m(next, 0));
    }
    assert forall|k: int| 0 <= k < r.items.len() implies (#[trigger] r.items[k] matches ItemM::Const(
        _,
        v,
        _,
    ) ==> numbers_16(v)) by {
        if let ItemM::Const(_, v, _) = r.items[k] {
            assert(value_folded(r.items[k]));
            lemma_fold_numbers_16(v);
        }
    }
}

/// A module that one round leaves unchanged is left unchanged by the
/// whole pipeline.
pub proof fn lemma_optimize_fixpoint(m: ModuleM, n: nat)
    requires
        opt_round(m) == m,
    ensures
        optimize_m(m, n) == m,
{
}

} // verus!
