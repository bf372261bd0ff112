//! Dead store elimination over a function body, from its last statement
//! back to its first. The pipeline of `optimize_module` does not run this
//! pass.

use vstd::prelude::*;
use crate::ast::{
    Expr, ExprM, Function, Stmt, StmtM, compound_free, compound_free_all, compound_free_arms,
    copy_stmt, copy_strings, lemma_compound_free_arms_take, lemma_compound_free_take,
    lemma_view_arms, lemma_view_exprs, lemma_view_stmts, sviews, view_arms, view_exprs,
    view_opt_expr, view_stmts,
};
use crate::strset::{set_contains, set_insert, set_of, sorted};

verus! {

// ---------------------------------------------------------------------------
// Calls, string literals and reads
// ---------------------------------------------------------------------------

/// The expression calls a function somewhere outside call arguments (a call
/// counts wherever it stands in operators).
pub open spec fn has_call(e: ExprM) -> bool
    decreases e,
{
    match e {
        ExprM::Call(..) => true,
        ExprM::Binary(_, l, r) => has_call(*l) || has_call(*r),
        ExprM::Compare(_, l, r) => has_call(*l) || has_call(*r),
        ExprM::Logic(_, l, r) => has_call(*l) || has_call(*r),
        ExprM::Not(x) => has_call(*x),
        ExprM::BitNot(x) => has_call(*x),
        _ => false,
    }
}

/// Whether an expression contains a call.
pub fn expr_has_call(e: &Expr) -> (r: bool)
    ensures
        r == has_call(e.view()),
    decreases e,
{
    match e {
        Expr::Call(_) => true,
        Expr::Binary { left, right, .. } | Expr::Compare { left, right, .. } | Expr::Logic {
            left,
            right,
            ..
        } => expr_has_call(left) || expr_has_call(right),
        Expr::Not(inner) | Expr::BitNot(inner) => expr_has_call(inner),
        _ => false,
    }
}

/// The expression tree holds a string literal.
pub open spec fn has_string(e: ExprM) -> bool
    decreases e,
{
    match e {
        ExprM::StringLit(_) => true,
        ExprM::Binary(_, l, r) => has_string(*l) || has_string(*r),
        ExprM::Compare(_, l, r) => has_string(*l) || has_string(*r),
        ExprM::Logic(_, l, r) => has_string(*l) || has_string(*r),
        ExprM::Call(_, _, _, args) => any_has_string(args),
        ExprM::Not(x) => has_string(*x),
        ExprM::BitNot(x) => has_string(*x),
        _ => false,
    }
}

/// Some expression of the sequence holds a string literal.
pub open spec fn any_has_string(s: Seq<ExprM>) -> bool
    decreases s,
{
    if s.len() == 0 {
        false
    } else {
        any_has_string(s.drop_last()) || has_string(s.last())
    }
}

fn any_string_exec(v: &Vec<Expr>) -> (r: bool)
    ensures
        r == any_has_string(view_exprs(v@)),
    decreases v,
{
    let ghost vs = view_exprs(v@);
    proof {
        lemma_view_exprs(v@);
        assert(vs.take(0) =~= Seq::<ExprM>::empty());
    }
    let mut i: usize = 0;
    while i < v.len()
        invariant
            i <= v.len(),
            vs == view_exprs(v@),
            vs.len() == v.len(),
            forall|k: int| 0 <= k < v.len() ==> #[trigger] vs[k] == v@[k].view(),
            !any_has_string(vs.take(i as int)),
        decreases v.len() - i,
    {
        assert(vs.take(i + 1).drop_last() =~= vs.take(i as int));
        if expr_contains_string_lit(&v[i]) {
            proof {
                lemma_any_has_string_extend(vs, i + 1);
            }
            return true;
        }
        i += 1;
    }
    assert(vs.take(v.len() as int) =~= vs);
    false
}

proof fn lemma_any_has_string_extend(s: Seq<ExprM>, j: int)
    requires
        0 <= j <= s.len(),
        any_has_string(s.take(j)),
    ensures
        any_has_string(s),
    decreases s.len(),
{
    if j == s.len() {
        assert(s.take(j) =~= s);
    } else {
        assert(s.drop_last().take(j) =~= s.take(j));
        lemma_any_has_string_extend(s.drop_last(), j);
    }
}

/// Whether an expression tree contains a string literal.
pub fn expr_contains_string_lit(e: &Expr) -> (r: bool)
    ensures
        r == has_string(e.view()),
    decreases e,
{
    match e {
        Expr::StringLit(_) => true,
        Expr::Binary { left, right, .. } | Expr::Compare { left, right, .. } | Expr::Logic {
            left,
            right,
            ..
        } => expr_contains_string_lit(left) || expr_contains_string_lit(right),
        Expr::Call(ci) => any_string_exec(&ci.args),
        Expr::Not(inner) | Expr::BitNot(inner) => expr_contains_string_lit(inner),
        _ => false,
    }
}

/// The variables an expression reads.
pub open spec fn expr_reads(e: ExprM) -> Set<Seq<char>>
    decreases e,
{
    match e {
        ExprM::Ident(n, _, _) => set![n],
        ExprM::Call(_, _, _, args) => exprs_reads(args),
        ExprM::Binary(_, l, r) => expr_reads(*l) + expr_reads(*r),
        ExprM::Compare(_, l, r) => expr_reads(*l) + expr_reads(*r),
        ExprM::Logic(_, l, r) => expr_reads(*l) + expr_reads(*r),
        ExprM::Not(x) => expr_reads(*x),
        ExprM::BitNot(x) => expr_reads(*x),
        _ => Set::empty(),
    }
}

pub open spec fn exprs_reads(s: Seq<ExprM>) -> Set<Seq<char>>
    decreases s,
{
    if s.len() == 0 {
        Set::empty()
    } else {
        exprs_reads(s.drop_last()) + expr_reads(s.last())
    }
}

pub open spec fn opt_reads(o: Option<ExprM>) -> Set<Seq<char>> {
    match o {
        Some(e) => expr_reads(e),
        None => Set::empty(),
    }
}

/// The variables a statement reads: those of its expressions and nested
/// bodies (not the names it assigns or declares).
pub open spec fn stmt_reads(s: StmtM) -> Set<Seq<char>>
    decreases s,
{
    match s {
        StmtM::Assign(_, v, _) => expr_reads(v),
        StmtM::Let(_, v, _) => expr_reads(v),
        StmtM::Expr(e, _) => expr_reads(e),
        StmtM::Return(o, _) => opt_reads(o),
        StmtM::If(c, b, elifs, els, _) => expr_reads(c) + stmts_reads(b) + arms_reads(elifs) + (
        match els {
            Some(eb) => stmts_reads(eb),
            None => Set::empty(),
        }),
        StmtM::While(c, b, _) => expr_reads(c) + stmts_reads(b),
        StmtM::For(_, st, en, step, b, _) => expr_reads(st) + expr_reads(en) + opt_reads(step)
            + stmts_reads(b),
        StmtM::Switch(e, cases, def, _) => expr_reads(e) + arms_reads(cases) + (match def {
            Some(db) => stmts_reads(db),
            None => Set::empty(),
        }),
        _ => Set::empty(),
    }
}

pub open spec fn stmts_reads(s: Seq<StmtM>) -> Set<Seq<char>>
    decreases s,
{
    if s.len() == 0 {
        Set::empty()
    } else {
        stmts_reads(s.drop_last()) + stmt_reads(s.last())
    }
}

pub open spec fn arms_reads(s: Seq<(ExprM, Seq<StmtM>)>) -> Set<Seq<char>>
    decreases s,
{
    if s.len() == 0 {
        Set::empty()
    } else {
        arms_reads(s.drop_last()) + expr_reads(s.last().0) + stmts_reads(s.last().1)
    }
}

/// Add the variables an expression reads to `used`.
pub fn collect_reads_expr(e: &Expr, used: &mut Vec<String>)
    requires
        sorted(sviews(old(used)@)),
    ensures
        sorted(sviews(final(used)@)),
        set_of(final(used)@) == set_of(old(used)@) + expr_reads(e.view()),
    decreases e,
{
    match e {
        Expr::Ident(n) => {
            set_insert(used, n.name.clone());
        },
        Expr::Call(ci) => collect_reads_exprs(&ci.args, used),
        Expr::Binary { left, right, .. } | Expr::Compare { left, right, .. } | Expr::Logic {
            left,
            right,
            ..
        } => {
            collect_reads_expr(left, used);
            collect_reads_expr(right, used);
        },
        Expr::Not(inner) | Expr::BitNot(inner) => collect_reads_expr(inner, used),
        _ => {},
    }
    assert(set_of(used@) =~= set_of(old(used)@) + expr_reads(e.view()));
}

fn collect_reads_exprs(v: &Vec<Expr>, used: &mut Vec<String>)
    requires
        sorted(sviews(old(used)@)),
    ensures
        sorted(sviews(final(used)@)),
        set_of(final(used)@) == set_of(old(used)@) + exprs_reads(view_exprs(v@)),
    decreases v,
{
    let ghost vs = view_exprs(v@);
    proof {
        lemma_view_exprs(v@);
        assert(vs.take(0) =~= Seq::<ExprM>::empty());
    }
    let mut i: usize = 0;
    while i < v.len()
        invariant
            i <= v.len(),
            vs == view_exprs(v@),
            vs.len() == v.len(),
            forall|k: int| 0 <= k < v.len() ==> #[trigger] vs[k] == v@[k].view(),
            sorted(sviews(used@)),
            set_of(used@) == set_of(old(used)@) + exprs_reads(vs.take(i as int)),
        decreases v.len() - i,
    {
        assert(vs.take(i + 1).drop_last() =~= vs.take(i as int));
        collect_reads_expr(&v[i], used);
        assert(set_of(used@) =~= set_of(old(used)@) + exprs_reads(vs.take(i + 1)));
        i += 1;
    }
    assert(vs.take(v.len() as int) =~= vs);
}

fn collect_reads_opt(o: &Option<Expr>, used: &mut Vec<String>)
    requires
        sorted(sviews(old(used)@)),
    ensures
        sorted(sviews(final(used)@)),
        set_of(final(used)@) == set_of(old(used)@) + opt_reads(view_opt_expr(*o)),
{
    match o {
        Some(e) => collect_reads_expr(e, used),
        None => {
            assert(set_of(used@) =~= set_of(old(used)@) + Set::<Seq<char>>::empty());
        },
    }
}

/// Add the variables a statement reads to `used`; compound assignments
/// must have been rewritten.
pub fn collect_reads_stmt(s: &Stmt, used: &mut Vec<String>)
    requires
        sorted(sviews(old(used)@)),
        compound_free(s.view()),
    ensures
        sorted(sviews(final(used)@)),
        set_of(final(used)@) == set_of(old(used)@) + stmt_reads(s.view()),
    decreases s,
{
    match s {
        Stmt::Assign { value, .. } => collect_reads_expr(value, used),
        Stmt::Let { value, .. } => collect_reads_expr(value, used),
        Stmt::Expr(e, _) => collect_reads_expr(e, used),
        Stmt::Return(o, _) => collect_reads_opt(o, used),
        Stmt::If { cond, body, elifs, else_body, .. } => {
            collect_reads_expr(cond, used);
            collect_reads_stmts(body, used);
            collect_reads_arms(elifs, used);
            if let Some(eb) = else_body {
                collect_reads_stmts(eb, used);
            }
        },
        Stmt::While { cond, body, .. } => {
            collect_reads_expr(cond, used);
            collect_reads_stmts(body, used);
        },
        Stmt::For { start, end, step, body, .. } => {
            collect_reads_expr(start, used);
            collect_reads_expr(end, used);
            collect_reads_opt(step, used);
            collect_reads_stmts(body, used);
        },
        Stmt::Switch { expr, cases, default, .. } => {
            collect_reads_expr(expr, used);
            collect_reads_arms(cases, used);
            if let Some(db) = default {
                collect_reads_stmts(db, used);
            }
        },
        _ => {},
    }
    assert(set_of(used@) =~= set_of(old(used)@) + stmt_reads(s.view()));
}

fn collect_reads_stmts(v: &Vec<Stmt>, used: &mut Vec<String>)
    requires
        sorted(sviews(old(used)@)),
        compound_free_all(view_stmts(v@)),
    ensures
        sorted(sviews(final(used)@)),
        set_of(final(used)@) == set_of(old(used)@) + stmts_reads(view_stmts(v@)),
    decreases v,
{
    let ghost vs = view_stmts(v@);
    proof {
        lemma_view_stmts(v@);
        assert(vs.take(0) =~= Seq::<StmtM>::empty());
    }
    let mut i: usize = 0;
    while i < v.len()
        invariant
            i <= v.len(),
            vs == view_stmts(v@),
            vs.len() == v.len(),
            compound_free_all(vs),
            forall|k: int| 0 <= k < v.len() ==> #[trigger] vs[k] == v@[k].view(),
            sorted(sviews(used@)),
            set_of(used@) == set_of(old(used)@) + stmts_reads(vs.take(i as int)),
        decreases v.len() - i,
    {
        assert(vs.take(i + 1).drop_last() =~= vs.take(i as int));
        proof {
            lemma_compound_free_take(vs, i as int);
        }
        collect_reads_stmt(&v[i], used);
        assert(set_of(used@) =~= set_of(old(used)@) + stmts_reads(vs.take(i + 1)));
        i += 1;
    }
    assert(vs.take(v.len() as int) =~= vs);
}

fn collect_reads_arms(v: &Vec<(Expr, Vec<Stmt>)>, used: &mut Vec<String>)
    requires
        sorted(sviews(old(used)@)),
        compound_free_arms(view_arms(v@)),
    ensures
        sorted(sviews(final(used)@)),
        set_of(final(used)@) == set_of(old(used)@) + arms_reads(view_arms(v@)),
    decreases v,
{
    let ghost va = view_arms(v@);
    proof {
        lemma_view_arms(v@);
        assert(va.take(0) =~= Seq::<(ExprM, Seq<StmtM>)>::empty());
    }
    let mut i: usize = 0;
    while i < v.len()
        invariant
            i <= v.len(),
            va == view_arms(v@),
            va.len() == v.len(),
            compound_free_arms(va),
            forall|k: int|
                0 <= k < v.len() ==> #[trigger] va[k] == (v@[k].0.view(), view_stmts(v@[k].1@)),
            sorted(sviews(used@)),
            set_of(used@) == set_of(old(used)@) + arms_reads(va.take(i as int)),
        decreases v.len() - i,
    {
        assert(va.take(i + 1).drop_last() =~= va.take(i as int));
        proof {
            lemma_compound_free_arms_take(va, i as int);
        }
        collect_reads_expr(&v[i].0, used);
        collect_reads_stmts(&v[i].1, used);
        assert(set_of(used@) =~= set_of(old(used)@) + arms_reads(va.take(i + 1)));
        i += 1;
    }
    assert(va.take(v.len() as int) =~= va);
}

// ---------------------------------------------------------------------------
// Dead stores
// ---------------------------------------------------------------------------

/// One statement of the backward pass, given the variables read after it:
/// whether it stays, and the variables read from it on. An assignment or a
/// `let` to a variable nobody reads later goes, unless its value calls a
/// function or holds a string; a kept assignment or `let` reads its value
/// and marks its name; a `for` marks its variable; other statements stay
/// and add their reads.
pub open spec fn dse_step(s: StmtM, used: Set<Seq<char>>) -> (bool, Set<Seq<char>>) {
    match s {
        StmtM::Assign(t, v, _) => if used.contains(t.name) || has_call(v) || has_string(v) {
            (true, used + expr_reads(v) + set![t.name])
        } else {
            (false, used)
        },
        StmtM::Let(n, v, _) => if used.contains(n) || has_call(v) || has_string(v) {
            (true, used + expr_reads(v) + set![n])
        } else {
            (false, used)
        },
        StmtM::For(var, _, _, _, _, _) => (true, used + stmt_reads(s) + set![var]),
        _ => (true, used + stmt_reads(s)),
    }
}

/// The backward pass over a body: the statements that stay, in order, and
/// the variables read from the first statement on.
pub open spec fn dse_run(ss: Seq<StmtM>) -> (Seq<StmtM>, Set<Seq<char>>)
    decreases ss.len(),
{
    if ss.len() == 0 {
        (Seq::empty(), Set::empty())
    } else {
        let (rest, used) = dse_run(ss.drop_first());
        let (keep, used2) = dse_step(ss[0], used);
        (if keep {
            seq![ss[0]] + rest
        } else {
            rest
        }, used2)
    }
}

/// Remove the assignments whose values nobody reads (see `dse_run`);
/// compound assignments must have been rewritten.
pub fn dse_function(f: &Function) -> (r: Function)
    requires
        compound_free_all(view_stmts(f.body@)),
    ensures
        r.view() == crate::codegen::optimize::with_body(f.view(), dse_run(f.view().body).0),
{
    let ghost vs = view_stmts(f.body@);
    proof {
        lemma_view_stmts(f.body@);
        assert(vs.skip(vs.len() as int) =~= Seq::<StmtM>::empty());
    }
    let mut used: Vec<String> = Vec::new();
    let mut rev_body: Vec<Stmt> = Vec::new();
    assert(set_of(used@) =~= Set::<Seq<char>>::empty());
    let mut i: usize = f.body.len();
    while i > 0
        invariant
            i <= f.body.len(),
            vs == view_stmts(f.body@),
            vs.len() == f.body.len(),
            compound_free_all(vs),
            forall|k: int| 0 <= k < f.body.len() ==> #[trigger] vs[k] == f.body@[k].view(),
            sorted(sviews(used@)),
            set_of(used@) == dse_run(vs.skip(i as int)).1,
            view_stmts(rev_body@).reverse() == dse_run(vs.skip(i as int)).0,
        decreases i,
    {
        i -= 1;
        proof {
            assert(vs.skip(i as int).drop_first() =~= vs.skip(i + 1));
            lemma_compound_free_take(vs, i as int);
        }
        let stmt = &f.body[i];
        let ghost u0 = set_of(used@);
        let ghost rb0 = rev_body@;
        let keep: bool = match stmt {
            Stmt::Assign { target, value, .. } => {
                let k = set_contains(&used, &target.name) || expr_has_call(value)
                    || expr_contains_string_lit(value);
                if k {
                    collect_reads_expr(value, &mut used);
                    set_insert(&mut used, target.name.clone());
                }
                k
            },
            Stmt::Let { name, value, .. } => {
                let k = set_contains(&used, name) || expr_has_call(value)
                    || expr_contains_string_lit(value);
                if k {
                    collect_reads_expr(value, &mut used);
                    set_insert(&mut used, name.clone());
                }
                k
            },
            Stmt::For { var, .. } => {
                collect_reads_stmt(stmt, &mut used);
                set_insert(&mut used, var.clone());
                true
            },
            _ => {
                collect_reads_stmt(stmt, &mut used);
                true
            },
        };
        proof {
            assert(set_of(used@) =~= dse_step(vs[i as int], u0).1);
        }
        if keep {
            let c = copy_stmt(stmt);
            rev_body.push(c);
            proof {
                assert(rev_body@.drop_last() =~= rb0);
                assert(view_stmts(rev_body@) =~= view_stmts(rb0).push(vs[i as int]));
                assert(view_stmts(rev_body@).reverse() =~= seq![vs[i as int]] + view_stmts(
                    rb0,
                ).reverse());
            }
        }
    }
    assert(vs.skip(0) =~= vs);
    let mut body: Vec<Stmt> = Vec::new();
    let mut j: usize = rev_body.len();
    let ghost rv = view_stmts(rev_body@);
    proof {
        lemma_view_stmts(rev_body@);
    }
    while j > 0
        invariant
            j <= rev_body.len(),
            rv == view_stmts(rev_body@),
            rv.len() == rev_body.len(),
            forall|k: int| 0 <= k < rev_body.len() ==> #[trigger] rv[k] == rev_body@[k].view(),
            view_stmts(body@) == rv.skip(j as int).reverse(),
        decreases j,
    {
        j -= 1;
        let c = copy_stmt(&rev_body[j]);
        let ghost b0 = body@;
        body.push(c);
        proof {
            assert(body@.drop_last() =~= b0);
            assert(rv.skip(j as int).reverse() =~= rv.skip(j + 1).reverse().push(rv[j as int]));
        }
    }
    assert(rv.skip(0) =~= rv);
    Function { name: f.name.clone(), line: f.line, params: copy_strings(&f.params), body }
}

} // verus!
