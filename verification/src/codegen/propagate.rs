//! Forward constant propagation with merging of branches. The pipeline of
//! `optimize_module` does not run this pass.

use vstd::prelude::*;
use crate::ast::{
    CallInfo, Expr, ExprM, Function, FunctionM, IdentInfo, Item, ItemM, Module, ModuleM, Stmt,
    StmtM, compound_free, compound_free_all, compound_free_arms, copy_expr, copy_meta,
    copy_strings, copy_target, copy_vl_entries, lemma_compound_free_arms_take,
    lemma_compound_free_take, lemma_view_arms, lemma_view_exprs, lemma_view_stmts,
    module_compound_free, view_arms, view_exprs, view_opt_expr, view_stmts,
};
use crate::keyed::{keys_unique, kmap, kv_get, kv_insert, kv_remove, lemma_kmap_dom, lemma_kmap_value};

verus! {

/// Known values of variables.
pub type EnvM = Map<Seq<char>, i32>;

/// An expression with every variable of known value replaced by it.
pub open spec fn cp_expr_m(e: ExprM, env: EnvM) -> ExprM
    decreases e,
{
    match e {
        ExprM::Ident(n, _, _) => if env.contains_key(n) {
            ExprM::Number(env[n])
        } else {
            e
        },
        ExprM::Binary(op, l, r) => ExprM::Binary(
            op,
            Box::new(cp_expr_m(*l, env)),
            Box::new(cp_expr_m(*r, env)),
        ),
        ExprM::Compare(op, l, r) => ExprM::Compare(
            op,
            Box::new(cp_expr_m(*l, env)),
            Box::new(cp_expr_m(*r, env)),
        ),
        ExprM::Logic(op, l, r) => ExprM::Logic(
            op,
            Box::new(cp_expr_m(*l, env)),
            Box::new(cp_expr_m(*r, env)),
        ),
        ExprM::Not(x) => ExprM::Not(Box::new(cp_expr_m(*x, env))),
        ExprM::BitNot(x) => ExprM::BitNot(Box::new(cp_expr_m(*x, env))),
        ExprM::Call(n, l, c, args) => ExprM::Call(n, l, c, cp_exprs_m(args, env)),
        _ => e,
    }
}

pub open spec fn cp_exprs_m(s: Seq<ExprM>, env: EnvM) -> Seq<ExprM>
    decreases s,
{
    if s.len() == 0 {
        Seq::empty()
    } else {
        cp_exprs_m(s.drop_last(), env).push(cp_expr_m(s.last(), env))
    }
}

pub open spec fn cp_opt_m(o: Option<ExprM>, env: EnvM) -> Option<ExprM> {
    match o {
        Some(e) => Some(cp_expr_m(e, env)),
        None => None,
    }
}

/// The variables of known value on which all the branch environments
/// agree, with that value.
pub open spec fn merge_envs(envs: Seq<EnvM>) -> EnvM {
    Map::new(
        |k: Seq<char>|
            envs[0].contains_key(k) && forall|i: int|
                1 <= i < envs.len() ==> #[trigger] agrees(envs[i], k, envs[0][k]),
        |k: Seq<char>| envs[0][k],
    )
}

/// The environment knows `k` to have the value `v`.
pub open spec fn agrees(m: EnvM, k: Seq<char>, v: i32) -> bool {
    m.contains_key(k) && m[k] == v
}

/// The environment after an assignment of `v` to `name`: its value when
/// `v` is a number, unknown otherwise.
pub open spec fn assigned(env: EnvM, name: Seq<char>, v: ExprM) -> EnvM {
    if v is Number {
        env.insert(name, v->Number_0)
    } else {
        env.remove(name)
    }
}

/// Propagation through one statement: the statement with known values put
/// in, and the environment after it. Loops and `switch` arms see the
/// environment before them and leave it as it was; the branches of an
/// `if` each start from the environment before it, and after it only the
/// values all the branches agree on remain known.
pub open spec fn cp_stmt_m(s: StmtM, env: EnvM) -> (StmtM, EnvM)
    decreases s,
{
    match s {
        StmtM::Assign(t, v, l) => {
            let v2 = cp_expr_m(v, env);
            (StmtM::Assign(t, v2, l), assigned(env, t.name, v2))
        },
        StmtM::Let(n, v, l) => {
            let v2 = cp_expr_m(v, env);
            (StmtM::Let(n, v2, l), assigned(env, n, v2))
        },
        StmtM::Expr(e, l) => (StmtM::Expr(cp_expr_m(e, env), l), env),
        StmtM::Return(o, l) => (StmtM::Return(cp_opt_m(o, env), l), env),
        StmtM::While(c, b, l) => (StmtM::While(cp_expr_m(c, env), cp_all(b, env).0, l), env),
        StmtM::For(var, st, en, step, b, l) => (
            StmtM::For(
                var,
                cp_expr_m(st, env),
                cp_expr_m(en, env),
                cp_opt_m(step, env),
                cp_all(b, env.remove(var)).0,
                l,
            ),
            env,
        ),
        StmtM::If(c, b, elifs, els, l) => {
            let (nb, then_env) = cp_all(b, env);
            let (nels, else_envs) = match els {
                Some(eb) => (Some(cp_all(eb, env).0), seq![cp_all(eb, env).1]),
                None => (None, Seq::empty()),
            };
            (
                StmtM::If(cp_expr_m(c, env), nb, cp_arms_m(elifs, env), nels, l),
                merge_envs(seq![then_env] + cp_arms_envs(elifs, env) + else_envs),
            )
        },
        StmtM::Switch(e, cases, def, l) => (
            StmtM::Switch(
                cp_expr_m(e, env),
                cp_arms_m(cases, env),
                match def {
                    Some(db) => Some(cp_all(db, env).0),
                    None => None,
                },
                l,
            ),
            env,
        ),
        _ => (s, env),
    }
}

/// Propagation through a sequence of statements in turn.
pub open spec fn cp_all(ss: Seq<StmtM>, env: EnvM) -> (Seq<StmtM>, EnvM)
    decreases ss,
{
    if ss.len() == 0 {
        (Seq::empty(), env)
    } else {
        let (o, e1) = cp_all(ss.drop_last(), env);
        let (s2, e2) = cp_stmt_m(ss.last(), e1);
        (o.push(s2), e2)
    }
}

/// Guarded arms, each guard and body from the same environment.
pub open spec fn cp_arms_m(a: Seq<(ExprM, Seq<StmtM>)>, env: EnvM) -> Seq<(ExprM, Seq<StmtM>)>
    decreases a,
{
    if a.len() == 0 {
        Seq::empty()
    } else {
        cp_arms_m(a.drop_last(), env).push(
            (cp_expr_m(a.last().0, env), cp_all(a.last().1, env).0),
        )
    }
}

/// The environments after the bodies of guarded arms.
pub open spec fn cp_arms_envs(a: Seq<(ExprM, Seq<StmtM>)>, env: EnvM) -> Seq<EnvM>
    decreases a,
{
    if a.len() == 0 {
        Seq::empty()
    } else {
        cp_arms_envs(a.drop_last(), env).push(cp_all(a.last().1, env).1)
    }
}

// ---------------------------------------------------------------------------
// Executable propagation
// ---------------------------------------------------------------------------

fn copy_env(env: &Vec<(String, i32)>) -> (r: Vec<(String, i32)>)
    requires
        keys_unique(env@),
    ensures
        keys_unique(r@),
        kmap(r@) == kmap(env@),
{
    let mut r: Vec<(String, i32)> = Vec::new();
    let mut i: usize = 0;
    while i < env.len()
        invariant
            i <= env.len(),
            r.len() == i,
            forall|k: int| 0 <= k < i ==> (#[trigger] r@[k]).0@ == env@[k].0@ && r@[k].1 == env@[k].1,
        decreases env.len() - i,
    {
        r.push((env[i].0.clone(), env[i].1));
        i += 1;
    }
    proof {
        lemma_kmap_same_views(r@, env@);
        assert forall|x: int, y: int| 0 <= x < y < r@.len() implies r@[x].0@ != r@[y].0@ by {
            assert(r@[x].0@ == env@[x].0@ && r@[y].0@ == env@[y].0@);
        }
    }
    r
}

proof fn lemma_kmap_same_views(a: Seq<(String, i32)>, b: Seq<(String, i32)>)
    requires
        a.len() == b.len(),
        forall|k: int| 0 <= k < a.len() ==> (#[trigger] a[k]).0@ == b[k].0@ && a[k].1 == b[k].1,
    ensures
        kmap(a) == kmap(b),
    decreases a.len(),
{
    if a.len() > 0 {
        lemma_kmap_same_views(a.drop_last(), b.drop_last());
    }
}

/// Propagate known values into an expression.
pub fn cp_expr(e: &Expr, env: &Vec<(String, i32)>) -> (r: Expr)
    requires
        keys_unique(env@),
    ensures
        r.view() == cp_expr_m(e.view(), kmap(env@)),
    decreases e,
{
    match e {
        Expr::Ident(name) => match kv_get(env, name.name.as_str()) {
            Some(v) => Expr::Number(*v),
            None => Expr::Ident(
                IdentInfo { name: name.name.clone(), source_line: name.source_line, col: name.col },
            ),
        },
        Expr::Binary { op, left, right } => Expr::Binary {
            op: *op,
            left: Box::new(cp_expr(left, env)),
            right: Box::new(cp_expr(right, env)),
        },
        Expr::Compare { op, left, right } => Expr::Compare {
            op: *op,
            left: Box::new(cp_expr(left, env)),
            right: Box::new(cp_expr(right, env)),
        },
        Expr::Logic { op, left, right } => Expr::Logic {
            op: *op,
            left: Box::new(cp_expr(left, env)),
            right: Box::new(cp_expr(right, env)),
        },
        Expr::Not(inner) => Expr::Not(Box::new(cp_expr(inner, env))),
        Expr::BitNot(inner) => Expr::BitNot(Box::new(cp_expr(inner, env))),
        Expr::Call(ci) => Expr::Call(
            CallInfo {
                name: ci.name.clone(),
                source_line: ci.source_line,
                col: ci.col,
                args: cp_exprs(&ci.args, env),
            },
        ),
        Expr::Number(n) => Expr::Number(*n),
        Expr::StringLit(s) => Expr::StringLit(s.clone()),
    }
}

fn cp_exprs(v: &Vec<Expr>, env: &Vec<(String, i32)>) -> (r: Vec<Expr>)
    requires
        keys_unique(env@),
    ensures
        view_exprs(r@) == cp_exprs_m(view_exprs(v@), kmap(env@)),
    decreases v,
{
    let ghost vs = view_exprs(v@);
    proof {
        lemma_view_exprs(v@);
        assert(vs.take(0) =~= Seq::<ExprM>::empty());
    }
    let mut r: Vec<Expr> = Vec::new();
    let mut i: usize = 0;
    while i < v.len()
        invariant
            i <= v.len(),
            keys_unique(env@),
            vs == view_exprs(v@),
            vs.len() == v.len(),
            forall|k: int| 0 <= k < v.len() ==> #[trigger] vs[k] == v@[k].view(),
            view_exprs(r@) == cp_exprs_m(vs.take(i as int), kmap(env@)),
        decreases v.len() - i,
    {
        assert(vs.take(i + 1).drop_last() =~= vs.take(i as int));
        let c = cp_expr(&v[i], env);
        let ghost r0 = r@;
        r.push(c);
        assert(r@.drop_last() =~= r0);
        i += 1;
    }
    assert(vs.take(v.len() as int) =~= vs);
    r
}

fn cp_opt(o: &Option<Expr>, env: &Vec<(String, i32)>) -> (r: Option<Expr>)
    requires
        keys_unique(env@),
    ensures
        view_opt_expr(r) == cp_opt_m(view_opt_expr(*o), kmap(env@)),
{
    match o {
        Some(e) => Some(cp_expr(e, env)),
        None => None,
    }
}

fn assign_env(env: &mut Vec<(String, i32)>, name: &String, v: &Expr)
    requires
        keys_unique(old(env)@),
    ensures
        keys_unique(final(env)@),
        kmap(final(env)@) == assigned(kmap(old(env)@), name@, v.view()),
{
    match v {
        Expr::Number(n) => kv_insert(env, name.clone(), *n),
        _ => kv_remove(env, name.as_str()),
    }
}

/// The environment of values on which all the given environments agree.
fn merge_env_exec(envs: &Vec<Vec<(String, i32)>>) -> (r: Vec<(String, i32)>)
    requires
        envs.len() >= 1,
        forall|i: int| 0 <= i < envs.len() ==> keys_unique(#[trigger] envs@[i]@),
    ensures
        keys_unique(r@),
        kmap(r@) == merge_envs(envs@.map_values(|e: Vec<(String, i32)>| kmap(e@))),
{
    let ghost ms = envs@.map_values(|e: Vec<(String, i32)>| kmap(e@));
    let first = &envs[0];
    let mut merged: Vec<(String, i32)> = Vec::new();
    let mut i: usize = 0;
    while i < first.len()
        invariant
            i <= first.len(),
            first == &envs@[0],
            envs.len() >= 1,
            forall|j: int| 0 <= j < envs.len() ==> keys_unique(#[trigger] envs@[j]@),
            ms == envs@.map_values(|e: Vec<(String, i32)>| kmap(e@)),
            keys_unique(merged@),
            forall|k: Seq<char>|
                #[trigger] kmap(merged@).contains_key(k) ==> merge_envs(ms).contains_key(k)
                    && kmap(merged@)[k] == merge_envs(ms)[k],
            forall|k: Seq<char>|
                #[trigger] merge_envs(ms).contains_key(k) && (exists|j: int|
                    0 <= j < i && first@[j].0@ == k) ==> kmap(merged@).contains_key(k),
            forall|k: Seq<char>|
                #[trigger] kmap(merged@).contains_key(k) ==> exists|j: int|
                    0 <= j < i && first@[j].0@ == k,
        decreases first.len() - i,
    {
        let key = &first[i].0;
        let val = first[i].1;
        proof {
            lemma_kmap_value(first@, i as int);
        }
        let mut all = true;
        let mut b: usize = 1;
        while b < envs.len()
            invariant
                1 <= b <= envs.len(),
                forall|j: int| 0 <= j < envs.len() ==> keys_unique(#[trigger] envs@[j]@),
                ms == envs@.map_values(|e: Vec<(String, i32)>| kmap(e@)),
                all == forall|j: int| 1 <= j < b ==> #[trigger] agrees(ms[j], key@, val),
            decreases envs.len() - b,
        {
            assert(ms[b as int] == kmap(envs@[b as int]@));
            let ghost all0 = all;
            match kv_get(&envs[b], key.as_str()) {
                Some(v) => {
                    if *v != val {
                        all = false;
                    }
                },
                None => {
                    all = false;
                },
            }
            proof {
                assert(all == (all0 && agrees(ms[b as int], key@, val)));
                if all {
                    assert forall|j: int| 1 <= j < b + 1 implies #[trigger] agrees(
                        ms[j],
                        key@,
                        val,
                    ) by {
                        if j < b {
                        }
                    }
                } else if !all0 {
                    let j = choose|j: int| 1 <= j < b && !#[trigger] agrees(ms[j], key@, val);
                    assert(!agrees(ms[j], key@, val));
                } else {
                    assert(!agrees(ms[b as int], key@, val));
                }
            }
            b += 1;
        }
        proof {
            assert(ms[0] == kmap(first@));
            assert(ms[0].contains_key(key@) && ms[0][key@] == val);
        }
        let ghost before = merged@;
        if all {
            proof {
                lemma_kmap_dom(merged@, key@);
                if kmap(merged@).contains_key(key@) {
                    let j = choose|j: int| 0 <= j < i && first@[j].0@ == key@;
                    assert(first@[j].0@ == first@[i as int].0@);
                }
            }
            kv_insert(&mut merged, key.clone(), val);
        }
        proof {
            assert forall|k: Seq<char>| #[trigger] merge_envs(ms).contains_key(k) && (exists|j: int|
                0 <= j < i + 1 && first@[j].0@ == k) implies kmap(merged@).contains_key(k) by {
                if k == key@ {
                } else {
                    let j = choose|j: int| 0 <= j < i + 1 && first@[j].0@ == k;
                    assert(j < i);
                }
            }
            assert forall|k: Seq<char>| #[trigger] kmap(merged@).contains_key(k) implies exists|
                j: int,
            | 0 <= j < i + 1 && first@[j].0@ == k by {
                if k == key@ {
                    assert(first@[i as int].0@ == k);
                } else {
                    assert(kmap(before).contains_key(k));
                }
            }
        }
        i += 1;
    }
    proof {
        assert forall|k: Seq<char>| #[trigger] merge_envs(ms).contains_key(k) implies kmap(
            merged@,
        ).contains_key(k) by {
            assert(ms[0] == kmap(first@));
            lemma_kmap_dom(first@, k);
        }
        assert(kmap(merged@) =~= merge_envs(ms));
    }
    merged
}

/// Propagate known values through a statement (see `cp_stmt_m`); compound
/// assignments must have been rewritten.
pub fn cp_stmt(stmt: &Stmt, env: &mut Vec<(String, i32)>) -> (r: Stmt)
    requires
        keys_unique(old(env)@),
        compound_free(stmt.view()),
    ensures
        keys_unique(final(env)@),
        (r.view(), kmap(final(env)@)) == cp_stmt_m(stmt.view(), kmap(old(env)@)),
    decreases stmt,
{
    let source_line = stmt.source_line();
    match stmt {
        Stmt::Assign { target, value, .. } => {
            let v2 = cp_expr(value, env);
            assign_env(env, &target.name, &v2);
            Stmt::Assign { target: copy_target(target), value: v2, source_line }
        },
        Stmt::Let { name, value, .. } => {
            let v2 = cp_expr(value, env);
            assign_env(env, name, &v2);
            Stmt::Let { name: name.clone(), value: v2, source_line }
        },
        Stmt::Expr(e, _) => Stmt::Expr(cp_expr(e, env), source_line),
        Stmt::Return(o, _) => Stmt::Return(cp_opt(o, env), source_line),
        Stmt::Break { .. } => Stmt::Break { source_line },
        Stmt::Continue { .. } => Stmt::Continue { source_line },
        Stmt::While { cond, body, .. } => {
            let c = cp_expr(cond, env);
            let mut inner = copy_env(env);
            let nb = cp_all_exec(body, &mut inner);
            Stmt::While { cond: c, body: nb, source_line }
        },
        Stmt::For { var, start, end, step, body, .. } => {
            let s = cp_expr(start, env);
            let e = cp_expr(end, env);
            let st = cp_opt(step, env);
            let mut inner = copy_env(env);
            kv_remove(&mut inner, var.as_str());
            let nb = cp_all_exec(body, &mut inner);
            Stmt::For { var: var.clone(), start: s, end: e, step: st, body: nb, source_line }
        },
        Stmt::If { cond, body, elifs, else_body, .. } => {
            let c = cp_expr(cond, env);
            let mut then_env = copy_env(env);
            let nb = cp_all_exec(body, &mut then_env);
            let mut branch_envs: Vec<Vec<(String, i32)>> = Vec::new();
            branch_envs.push(then_env);
            let ghost e0 = kmap(env@);
            let ghost va = view_arms(elifs@);
            let new_elifs = cp_elifs_exec(elifs, env, &mut branch_envs);
            let new_else = match else_body {
                Some(eb) => {
                    let mut eenv = copy_env(env);
                    let eb_new = cp_all_exec(eb, &mut eenv);
                    branch_envs.push(eenv);
                    Some(eb_new)
                },
                None => None,
            };
            let merged = merge_env_exec(&branch_envs);
            proof {
                let ms = branch_envs@.map_values(|e: Vec<(String, i32)>| kmap(e@));
                let want = seq![cp_all(view_stmts(body@), e0).1] + cp_arms_envs(va, e0) + (
                match else_body {
                    Some(eb) => seq![cp_all(view_stmts(eb@), e0).1],
                    None => Seq::<EnvM>::empty(),
                });
                assert(ms =~= want);
            }
            *env = merged;
            Stmt::If { cond: c, body: nb, elifs: new_elifs, else_body: new_else, source_line }
        },
        Stmt::Switch { expr, cases, default, .. } => {
            let se = cp_expr(expr, env);
            let new_cases = cp_arms_exec(cases, env);
            let new_default = match default {
                Some(db) => {
                    let mut inner = copy_env(env);
                    Some(cp_all_exec(db, &mut inner))
                },
                None => None,
            };
            Stmt::Switch { expr: se, cases: new_cases, default: new_default, source_line }
        },
        Stmt::CompoundAssign { .. } => {
            assert(false);
            crate::ast::copy_stmt(stmt)
        },
    }
}

/// Propagate known values through `elif` arms, each from the same
/// environment, adding the environment after each body to `envs`.
fn cp_elifs_exec(
    elifs: &Vec<(Expr, Vec<Stmt>)>,
    env: &Vec<(String, i32)>,
    envs: &mut Vec<Vec<(String, i32)>>,
) -> (r: Vec<(Expr, Vec<Stmt>)>)
    requires
        keys_unique(env@),
        compound_free_arms(view_arms(elifs@)),
        forall|j: int| 0 <= j < old(envs).len() ==> keys_unique(#[trigger] old(envs)@[j]@),
    ensures
        view_arms(r@) == cp_arms_m(view_arms(elifs@), kmap(env@)),
        final(envs).len() == old(envs).len() + elifs.len(),
        forall|j: int| 0 <= j < final(envs).len() ==> keys_unique(#[trigger] final(envs)@[j]@),
        forall|j: int| 0 <= j < old(envs).len() ==> #[trigger] final(envs)@[j] == old(envs)@[j],
        forall|j: int|
            old(envs).len() <= j < final(envs).len() ==> kmap(#[trigger] final(envs)@[j]@)
                == cp_arms_envs(view_arms(elifs@), kmap(env@))[j - old(envs).len()],
        cp_arms_envs(view_arms(elifs@), kmap(env@)).len() == elifs.len(),
    decreases elifs,
{
    let ghost e0 = kmap(env@);
    let ghost n0 = envs.len();
    let mut new_elifs: Vec<(Expr, Vec<Stmt>)> = Vec::new();
    let ghost va = view_arms(elifs@);
    proof {
        lemma_view_arms(elifs@);
        assert(va.take(0) =~= Seq::<(ExprM, Seq<StmtM>)>::empty());
    }
    let mut k: usize = 0;
    while k < elifs.len()
        invariant
            k <= elifs.len(),
            keys_unique(env@),
            kmap(env@) == e0,
            va == view_arms(elifs@),
            va.len() == elifs.len(),
            compound_free_arms(va),
            forall|j: int|
                0 <= j < elifs.len() ==> #[trigger] va[j] == (
                    elifs@[j].0.view(),
                    view_stmts(elifs@[j].1@),
                ),
            view_arms(new_elifs@) == cp_arms_m(va.take(k as int), e0),
            n0 == old(envs).len(),
            envs.len() == n0 + k,
            forall|j: int| 0 <= j < envs.len() ==> keys_unique(#[trigger] envs@[j]@),
            forall|j: int| 0 <= j < n0 ==> #[trigger] envs@[j] == old(envs)@[j],
            forall|j: int|
                n0 <= j < envs.len() ==> kmap(#[trigger] envs@[j]@) == cp_arms_envs(
                    va.take(k as int),
                    e0,
                )[j - n0],
            cp_arms_envs(va.take(k as int), e0).len() == k,
        decreases elifs.len() - k,
    {
        assert(va.take(k + 1).drop_last() =~= va.take(k as int));
        proof {
            lemma_compound_free_arms_take(va, k as int);
        }
        let ec2 = cp_expr(&elifs[k].0, env);
        let mut eenv = copy_env(env);
        let eb_new = cp_all_exec(&elifs[k].1, &mut eenv);
        let ghost r0 = new_elifs@;
        new_elifs.push((ec2, eb_new));
        assert(new_elifs@.drop_last() =~= r0);
        envs.push(eenv);
        k += 1;
    }
    assert(va.take(elifs.len() as int) =~= va);
    new_elifs
}

/// Propagate known values through statements in turn.
fn cp_all_exec(v: &Vec<Stmt>, env: &mut Vec<(String, i32)>) -> (r: Vec<Stmt>)
    requires
        keys_unique(old(env)@),
        compound_free_all(view_stmts(v@)),
    ensures
        keys_unique(final(env)@),
        (view_stmts(r@), kmap(final(env)@)) == cp_all(view_stmts(v@), kmap(old(env)@)),
    decreases v,
{
    let ghost vs = view_stmts(v@);
    let ghost e0 = kmap(env@);
    proof {
        lemma_view_stmts(v@);
        assert(vs.take(0) =~= Seq::<StmtM>::empty());
    }
    let mut r: Vec<Stmt> = Vec::new();
    let mut i: usize = 0;
    while i < v.len()
        invariant
            i <= v.len(),
            vs == view_stmts(v@),
            vs.len() == v.len(),
            compound_free_all(vs),
            forall|k: int| 0 <= k < v.len() ==> #[trigger] vs[k] == v@[k].view(),
            keys_unique(env@),
            e0 == kmap(old(env)@),
            (view_stmts(r@), kmap(env@)) == cp_all(vs.take(i as int), e0),
        decreases v.len() - i,
    {
        assert(vs.take(i + 1).drop_last() =~= vs.take(i as int));
        proof {
            lemma_compound_free_take(vs, i as int);
        }
        let c = cp_stmt(&v[i], env);
        let ghost r0 = r@;
        r.push(c);
        assert(r@.drop_last() =~= r0);
        i += 1;
    }
    assert(vs.take(v.len() as int) =~= vs);
    r
}

/// Propagate known values through guarded arms, each from the same
/// environment, which stays as it was.
fn cp_arms_exec(v: &Vec<(Expr, Vec<Stmt>)>, env: &Vec<(String, i32)>) -> (r: Vec<(Expr, Vec<Stmt>)>)
    requires
        keys_unique(env@),
        compound_free_arms(view_arms(v@)),
    ensures
        view_arms(r@) == cp_arms_m(view_arms(v@), kmap(env@)),
    decreases v,
{
    let ghost va = view_arms(v@);
    proof {
        lemma_view_arms(v@);
        assert(va.take(0) =~= Seq::<(ExprM, Seq<StmtM>)>::empty());
    }
    let mut r: Vec<(Expr, Vec<Stmt>)> = Vec::new();
    let mut i: usize = 0;
    while i < v.len()
        invariant
            i <= v.len(),
            keys_unique(env@),
            va == view_arms(v@),
            va.len() == v.len(),
            compound_free_arms(va),
            forall|k: int|
                0 <= k < v.len() ==> #[trigger] va[k] == (v@[k].0.view(), view_stmts(v@[k].1@)),
            view_arms(r@) == cp_arms_m(va.take(i as int), kmap(env@)),
        decreases v.len() - i,
    {
        assert(va.take(i + 1).drop_last() =~= va.take(i as int));
        proof {
            lemma_compound_free_arms_take(va, i as int);
        }
        let ce2 = cp_expr(&v[i].0, env);
        let mut inner = copy_env(env);
        let nb = cp_all_exec(&v[i].1, &mut inner);
        let ghost r0 = r@;
        r.push((ce2, nb));
        assert(r@.drop_last() =~= r0);
        i += 1;
    }
    assert(va.take(v.len() as int) =~= va);
    r
}

// ---------------------------------------------------------------------------
// Functions and modules
// ---------------------------------------------------------------------------

/// The numeric constants of a module by name (a later one replaces an
/// earlier one of the same name).
pub open spec fn const_globals(items: Seq<ItemM>) -> EnvM
    decreases items.len(),
{
    if items.len() == 0 {
        Map::empty()
    } else {
        let g = const_globals(items.drop_last());
        match items.last() {
            ItemM::Const(n, ExprM::Number(v), _) => g.insert(n, v),
            _ => g,
        }
    }
}

/// Propagation through a module: each function body from the numeric
/// constants; other items stay.
pub open spec fn propagate_m(m: ModuleM) -> ModuleM {
    ModuleM {
        items: m.items.map_values(
            |i: ItemM|
                match i {
                    ItemM::Function(f) => ItemM::Function(
                        crate::codegen::optimize::with_body(f, cp_all(f.body, const_globals(m.items)).0),
                    ),
                    _ => i,
                },
        ),
        meta: m.meta,
    }
}

/// Propagate known values through a function body, starting from the
/// given globals.
pub fn cp_function_with_globals(f: &Function, globals: &Vec<(String, i32)>) -> (r: Function)
    requires
        keys_unique(globals@),
        compound_free_all(view_stmts(f.body@)),
    ensures
        r.view() == crate::codegen::optimize::with_body(
            f.view(),
            cp_all(f.view().body, kmap(globals@)).0,
        ),
{
    let mut env = copy_env(globals);
    let new_body = cp_all_exec(&f.body, &mut env);
    Function { name: f.name.clone(), line: f.line, params: copy_strings(&f.params), body: new_body }
}

/// Forward constant propagation over a module (see `propagate_m`).
pub fn propagate_constants(m: &Module) -> (r: Module)
    requires
        module_compound_free(m.view()),
    ensures
        r.view() == propagate_m(m.view()),
{
    let ghost items = m.view().items;
    let mut globals: Vec<(String, i32)> = Vec::new();
    let mut i: usize = 0;
    assert(items.take(0) =~= Seq::<ItemM>::empty());
    assert(kmap(globals@) =~= const_globals(items.take(0)));
    while i < m.items.len()
        invariant
            i <= m.items.len(),
            items == m.view().items,
            items.len() == m.items.len(),
            keys_unique(globals@),
            kmap(globals@) == const_globals(items.take(i as int)),
        decreases m.items.len() - i,
    {
        assert(items.take(i + 1).drop_last() =~= items.take(i as int));
        assert(items.take(i + 1).last() == m.items@[i as int].view());
        if let Item::Const { name, value: Expr::Number(n), .. } = &m.items[i] {
            kv_insert(&mut globals, name.clone(), *n);
        }
        i += 1;
    }
    assert(items.take(m.items.len() as int) =~= items);
    let mut out: Vec<Item> = Vec::new();
    let mut k: usize = 0;
    while k < m.items.len()
        invariant
            k <= m.items.len(),
            items == m.view().items,
            items.len() == m.items.len(),
            keys_unique(globals@),
            kmap(globals@) == const_globals(items),
            module_compound_free(m.view()),
            out.len() == k,
            forall|j: int|
                0 <= j < k ==> #[trigger] out@[j].view() == propagate_m(m.view()).items[j],
        decreases m.items.len() - k,
    {
        assert(m.view().items[k as int] == m.items@[k as int].view());
        let it = match &m.items[k] {
            Item::Function(f) => Item::Function(cp_function_with_globals(f, &globals)),
            Item::Const { name, value, source_line } => Item::Const {
                name: name.clone(),
                value: copy_expr(value),
                source_line: *source_line,
            },
            Item::GlobalLet { name, value, source_line } => Item::GlobalLet {
                name: name.clone(),
                value: copy_expr(value),
                source_line: *source_line,
            },
            Item::VectorList { name, entries } => Item::VectorList {
                name: name.clone(),
                entries: copy_vl_entries(entries),
            },
            Item::ExprStatement(expr) => Item::ExprStatement(copy_expr(expr)),
        };
        out.push(it);
        k += 1;
    }
    let r = Module { items: out, meta: copy_meta(&m.meta) };
    assert(r.view().items =~= propagate_m(m.view()).items);
    r
}

} // verus!
