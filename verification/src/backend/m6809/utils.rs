//! Helpers of the M6809 backend: labels, constant recognition, and the
//! collection of identifiers from expressions and statements.

use vstd::prelude::*;
use crate::ast::{
    Expr, ExprM, Stmt, StmtM, lemma_view_exprs_take, lemma_view_stmts_take, lemma_view_arms_take,
    view_exprs, view_stmts, view_arms, sviews,
};
use crate::codegen::fold::{low16, shift_factor};
use crate::strset::{set_insert, set_of, sorted};
use crate::text::{dec, dec_int, push_dec, push_dec_i64, push_str, str_eq, string_from};

verus! {

// ---------------------------------------------------------------------------
// Identifiers of expressions and statements
// ---------------------------------------------------------------------------

/// Identifiers an expression reads.
pub open spec fn expr_syms(e: ExprM) -> Set<Seq<char>>
    decreases e,
{
    match e {
        ExprM::Ident(n, _, _) => set![n],
        ExprM::Call(_, _, _, args) => exprs_syms(args),
        ExprM::Binary(_, l, r) => expr_syms(*l) + expr_syms(*r),
        ExprM::Compare(_, l, r) => expr_syms(*l) + expr_syms(*r),
        ExprM::Logic(_, l, r) => expr_syms(*l) + expr_syms(*r),
        ExprM::Not(x) => expr_syms(*x),
        ExprM::BitNot(x) => expr_syms(*x),
        _ => Set::empty(),
    }
}

/// Identifiers a sequence of expressions reads.
pub open spec fn exprs_syms(s: Seq<ExprM>) -> Set<Seq<char>>
    decreases s,
{
    if s.len() == 0 {
        Set::empty()
    } else {
        exprs_syms(s.drop_last()) + expr_syms(s.last())
    }
}

/// Identifiers a statement names: assigned and declared names, and the
/// identifiers of its expressions and nested bodies (a `for` loop
/// contributes its body only; compound assignments, `break`, `continue` and
/// a bare `return` contribute nothing).
pub open spec fn stmt_syms(s: StmtM) -> Set<Seq<char>>
    decreases s,
{
    match s {
        StmtM::Assign(t, v, _) => set![t.name] + expr_syms(v),
        StmtM::Let(n, v, _) => set![n] + expr_syms(v),
        StmtM::Expr(e, _) => expr_syms(e),
        StmtM::Return(Some(e), _) => expr_syms(e),
        StmtM::If(c, b, elifs, els, _) => expr_syms(c) + stmts_syms(b) + arms_syms(elifs) + (match els {
            Some(eb) => stmts_syms(eb),
            None => Set::empty(),
        }),
        StmtM::While(c, b, _) => expr_syms(c) + stmts_syms(b),
        StmtM::For(_, _, _, _, b, _) => stmts_syms(b),
        StmtM::Switch(e, cases, def, _) => expr_syms(e) + arms_syms(cases) + (match def {
            Some(db) => stmts_syms(db),
            None => Set::empty(),
        }),
        _ => Set::empty(),
    }
}

/// Identifiers of a sequence of statements.
pub open spec fn stmts_syms(s: Seq<StmtM>) -> Set<Seq<char>>
    decreases s,
{
    if s.len() == 0 {
        Set::empty()
    } else {
        stmts_syms(s.drop_last()) + stmt_syms(s.last())
    }
}

/// Identifiers of guarded arms: each guard and each body.
pub open spec fn arms_syms(s: Seq<(ExprM, Seq<StmtM>)>) -> Set<Seq<char>>
    decreases s,
{
    if s.len() == 0 {
        Set::empty()
    } else {
        arms_syms(s.drop_last()) + expr_syms(s.last().0) + stmts_syms(s.last().1)
    }
}

/// Collect all expression identifiers
pub fn collect_expr_syms(expr: &Expr, set: &mut Vec<String>)
    requires
        sorted(sviews(old(set)@)),
    ensures
        sorted(sviews(final(set)@)),
        set_of(final(set)@) == set_of(old(set)@) + expr_syms(expr.view()),
    decreases expr,
{
    match expr {
        Expr::Ident(n) => {
            set_insert(set, n.name.clone());
            assert(set_of(set@) =~= set_of(old(set)@) + expr_syms(expr.view()));
        },
        Expr::Call(ci) => {
            collect_exprs_syms(&ci.args, set);
        },
        Expr::Binary { left, right, .. } | Expr::Compare { left, right, .. } | Expr::Logic {
            left,
            right,
            ..
        } => {
            collect_expr_syms(left, set);
            collect_expr_syms(right, set);
            assert(set_of(set@) =~= set_of(old(set)@) + expr_syms(expr.view()));
        },
        Expr::Not(inner) | Expr::BitNot(inner) => collect_expr_syms(inner, set),
        Expr::Number(_) | Expr::StringLit(_) => {
            assert(set_of(set@) =~= set_of(old(set)@) + expr_syms(expr.view()));
        },
    }
}

/// Collect the identifiers of a sequence of expressions.
pub fn collect_exprs_syms(v: &Vec<Expr>, set: &mut Vec<String>)
    requires
        sorted(sviews(old(set)@)),
    ensures
        sorted(sviews(final(set)@)),
        set_of(final(set)@) == set_of(old(set)@) + exprs_syms(view_exprs(v@)),
    decreases v,
{
    let mut i: usize = 0;
    assert(v@.take(0) =~= Seq::<Expr>::empty());
    assert(set_of(set@) =~= set_of(old(set)@) + exprs_syms(view_exprs(v@.take(0))));
    while i < v.len()
        invariant
            i <= v.len(),
            sorted(sviews(set@)),
            set_of(set@) == set_of(old(set)@) + exprs_syms(view_exprs(v@.take(i as int))),
        decreases v.len() - i,
    {
        proof {
            lemma_view_exprs_take(v@, i as int);
            let t = view_exprs(v@.take(i + 1));
            assert(t.drop_last() =~= view_exprs(v@.take(i as int)));
            assert(exprs_syms(t) == exprs_syms(view_exprs(v@.take(i as int))) + expr_syms(
                v@[i as int].view(),
            ));
        }
        collect_expr_syms(&v[i], set);
        i += 1;
        assert(set_of(set@) =~= set_of(old(set)@) + exprs_syms(view_exprs(v@.take(i as int))));
    }
    assert(v@.take(v.len() as int) =~= v@);
}

/// Collect all statement symbols
pub fn collect_stmt_syms(stmt: &Stmt, set: &mut Vec<String>)
    requires
        sorted(sviews(old(set)@)),
    ensures
        sorted(sviews(final(set)@)),
        set_of(final(set)@) == set_of(old(set)@) + stmt_syms(stmt.view()),
    decreases stmt,
{
    match stmt {
        Stmt::Assign { target, value, .. } => {
            set_insert(set, target.name.clone());
            collect_expr_syms(value, set);
        },
        Stmt::Let { name, value, .. } => {
            set_insert(set, name.clone());
            collect_expr_syms(value, set);
        },
        Stmt::Expr(e, ..) => {
            collect_expr_syms(e, set);
        },
        Stmt::Return(Some(e), _) => {
            collect_expr_syms(e, set);
        },
        Stmt::If { cond, body, elifs, else_body, .. } => {
            collect_expr_syms(cond, set);
            collect_stmts_syms(body, set);
            collect_arms_syms(elifs, set);
            if let Some(else_stmts) = else_body {
                collect_stmts_syms(else_stmts, set);
            }
        },
        Stmt::While { cond, body, .. } => {
            collect_expr_syms(cond, set);
            collect_stmts_syms(body, set);
        },
        Stmt::For { body, .. } => {
            collect_stmts_syms(body, set);
        },
        Stmt::Switch { expr, cases, default, .. } => {
            collect_expr_syms(expr, set);
            collect_arms_syms(cases, set);
            if let Some(default_body) = default {
                collect_stmts_syms(default_body, set);
            }
        },
        _ => {},
    }
    assert(set_of(set@) =~= set_of(old(set)@) + stmt_syms(stmt.view()));
}

/// Collect the symbols of a sequence of statements.
pub fn collect_stmts_syms(v: &Vec<Stmt>, set: &mut Vec<String>)
    requires
        sorted(sviews(old(set)@)),
    ensures
        sorted(sviews(final(set)@)),
        set_of(final(set)@) == set_of(old(set)@) + stmts_syms(view_stmts(v@)),
    decreases v,
{
    let mut i: usize = 0;
    assert(v@.take(0) =~= Seq::<Stmt>::empty());
    assert(set_of(set@) =~= set_of(old(set)@) + stmts_syms(view_stmts(v@.take(0))));
    while i < v.len()
        invariant
            i <= v.len(),
            sorted(sviews(set@)),
            set_of(set@) == set_of(old(set)@) + stmts_syms(view_stmts(v@.take(i as int))),
        decreases v.len() - i,
    {
        proof {
            lemma_view_stmts_take(v@, i as int);
            let t = view_stmts(v@.take(i + 1));
            assert(t.drop_last() =~= view_stmts(v@.take(i as int)));
            assert(stmts_syms(t) == stmts_syms(view_stmts(v@.take(i as int))) + stmt_syms(
                v@[i as int].view(),
            ));
        }
        collect_stmt_syms(&v[i], set);
        i += 1;
        assert(set_of(set@) =~= set_of(old(set)@) + stmts_syms(view_stmts(v@.take(i as int))));
    }
    assert(v@.take(v.len() as int) =~= v@);
}

/// Collect the symbols of guarded arms (guards and bodies).
pub fn collect_arms_syms(v: &Vec<(Expr, Vec<Stmt>)>, set: &mut Vec<String>)
    requires
        sorted(sviews(old(set)@)),
    ensures
        sorted(sviews(final(set)@)),
        set_of(final(set)@) == set_of(old(set)@) + arms_syms(view_arms(v@)),
    decreases v,
{
    let mut i: usize = 0;
    assert(v@.take(0) =~= Seq::<(Expr, Vec<Stmt>)>::empty());
    assert(set_of(set@) =~= set_of(old(set)@) + arms_syms(view_arms(v@.take(0))));
    while i < v.len()
        invariant
            i <= v.len(),
            sorted(sviews(set@)),
            set_of(set@) == set_of(old(set)@) + arms_syms(view_arms(v@.take(i as int))),
        decreases v.len() - i,
    {
        proof {
            lemma_view_arms_take(v@, i as int);
            let t = view_arms(v@.take(i + 1));
            assert(t.drop_last() =~= view_arms(v@.take(i as int)));
            assert(arms_syms(t) == arms_syms(view_arms(v@.take(i as int))) + expr_syms(
                v@[i as int].0.view(),
            ) + stmts_syms(view_stmts(v@[i as int].1@)));
        }
        collect_expr_syms(&v[i].0, set);
        collect_stmts_syms(&v[i].1, set);
        i += 1;
        assert(set_of(set@) =~= set_of(old(set)@) + arms_syms(view_arms(v@.take(i as int))));
    }
    assert(v@.take(v.len() as int) =~= v@);
}

// ---------------------------------------------------------------------------
// Labels, constants and references
// ---------------------------------------------------------------------------

/// Generate a unique label with the given prefix: the prefix, an
/// underscore and the counter's value, which then moves on by one.
pub fn fresh_label(prefix: &str, counter: &mut usize) -> (r: String)
    requires
        *old(counter) < usize::MAX,
    ensures
        r@ == prefix@ + seq!['_'] + dec(*old(counter) as nat),
        *final(counter) == *old(counter) + 1,
{
    let id = *counter;
    *counter = id + 1;
    let mut r = string_from(prefix);
    crate::text::push_char(&mut r, '_');
    push_dec(&mut r, id as u64);
    r
}

/// Labels drawn from different counter values differ, and each is the
/// prefix, an underscore and one or more decimal digits: a counter that only
/// moves on never gives the same label twice.
pub proof fn lemma_fresh_labels_distinct(prefix: Seq<char>, a: nat, b: nat)
    requires
        a != b,
    ensures
        prefix + seq!['_'] + dec(a) != prefix + seq!['_'] + dec(b),
        dec(a).len() >= 1,
        forall|i: int| 0 <= i < dec(a).len() ==> '0' <= #[trigger] dec(a)[i] <= '9',
{
    crate::text::lemma_dec_value(a);
    crate::text::lemma_dec_injective(a, b);
    let k = prefix.len() + 1;
    let la = prefix + seq!['_'] + dec(a);
    let lb = prefix + seq!['_'] + dec(b);
    if la == lb {
        assert(la.subrange(k as int, la.len() as int) =~= dec(a));
        assert(lb.subrange(k as int, lb.len() as int) =~= dec(b));
    }
}

/// Two labels drawn in turn with one prefix (the counter moving from `c` to
/// `c + 1` between them, as `fresh_label` moves it) differ, and each is the
/// prefix, an underscore and one or more decimal digits.
pub proof fn lemma_fresh_labels_in_turn(prefix: Seq<char>, c: nat)
    ensures
        prefix + seq!['_'] + dec(c) != prefix + seq!['_'] + dec(c + 1),
        dec(c).len() >= 1,
        dec(c + 1).len() >= 1,
        forall|i: int| 0 <= i < dec(c).len() ==> '0' <= #[trigger] dec(c)[i] <= '9',
        forall|i: int| 0 <= i < dec(c + 1).len() ==> '0' <= #[trigger] dec(c + 1)[i] <= '9',
{
    lemma_fresh_labels_distinct(prefix, c, c + 1);
    crate::text::lemma_dec_value(c + 1);
}

/// The exponent `k` below 16 of a power of two `2^k` at least 2, if the
/// low 16 bits of `n` are one.
pub open spec fn power_of_two_exponent(n: i32) -> Option<u32> {
    let v = low16(n as int);
    if v >= 2 && exists|k: nat| k < 16 && shift_factor(k) == v {
        Some((choose|k: nat| k < 16 && shift_factor(k) == v) as u32)
    } else {
        None
    }
}

proof fn lemma_shift_factor_injective(a: nat, b: nat)
    requires
        shift_factor(a) == shift_factor(b),
    ensures
        a == b,
    decreases a,
{
    if a > 0 && b > 0 {
        lemma_shift_factor_injective((a - 1) as nat, (b - 1) as nat);
    } else if a > 0 {
        lemma_shift_factor_positive((a - 1) as nat);
    } else if b > 0 {
        lemma_shift_factor_positive((b - 1) as nat);
    }
}

proof fn lemma_shift_factor_positive(a: nat)
    ensures
        shift_factor(a) >= 1,
    decreases a,
{
    if a > 0 {
        lemma_shift_factor_positive((a - 1) as nat);
    }
}

/// Check if an expression is a power of two constant: the exponent of the
/// power of two that its low 16 bits hold.
pub fn power_of_two_const(expr: &Expr) -> (r: Option<u32>)
    ensures
        r == (match expr.view() {
            ExprM::Number(n) => power_of_two_exponent(n),
            _ => None,
        }),
{
    if let Expr::Number(n) = expr {
        let val: i64 = crate::codegen::fold::trunc16(*n) as i64;
        if val >= 2 {
            let mut f: i64 = 1;
            let mut s: u32 = 0;
            while s < 16
                invariant
                    s <= 16,
                    f == shift_factor(s as nat),
                    1 <= f <= 65536,
                    val == low16(*n as int),
                    val >= 2,
                    expr.view() == ExprM::Number(*n),
                    forall|k: nat| k < s ==> shift_factor(k) != val,
                decreases 16 - s,
            {
                if f == val {
                    proof {
                        assert(exists|k: nat| k < 16 && shift_factor(k) == val) by {
                            assert(shift_factor(s as nat) == val);
                        }
                        let c = choose|k: nat| k < 16 && shift_factor(k) == val;
                        lemma_shift_factor_injective(c, s as nat);
                    }
                    return Some(s);
                }
                proof {
                    lemma_shift_factor_upper(s as nat);
                    assert(shift_factor((s + 1) as nat) == 2 * shift_factor(s as nat));
                }
                f = f * 2;
                s = s + 1;
            }
            proof {
                if exists|k: nat| k < 16 && shift_factor(k) == val {
                    let c = choose|k: nat| k < 16 && shift_factor(k) == val;
                    assert(shift_factor(c) != val);
                }
            }
        }
    }
    None
}

proof fn lemma_shift_factor_upper(k: nat)
    requires
        k < 16,
    ensures
        shift_factor(k) <= 32768,
    decreases k,
{
    crate::codegen::fold::lemma_shift_factor_bound(k);
}

/// Format an expression reference for debugging: a kind letter, a colon,
/// and the name, number or text; `?` for other expressions.
pub fn format_expr_ref(e: &Expr) -> (r: String)
    ensures
        r@ == (match e.view() {
            ExprM::Ident(n, _, _) => seq!['I', ':'] + n,
            ExprM::Number(v) => seq!['N', ':'] + dec_int(v as int),
            ExprM::StringLit(s) => seq!['S', ':'] + s,
            ExprM::Call(n, _, _, _) => seq!['C', ':'] + n,
            _ => seq!['?'],
        }),
{
    let mut r = String::new();
    match e {
        Expr::Ident(n) => {
            proof {
                reveal_strlit("I:");
            }
            push_str(&mut r, "I:");
            push_str(&mut r, &n.name);
        },
        Expr::Number(v) => {
            proof {
                reveal_strlit("N:");
            }
            push_str(&mut r, "N:");
            push_dec_i64(&mut r, *v as i64);
        },
        Expr::StringLit(s) => {
            proof {
                reveal_strlit("S:");
            }
            push_str(&mut r, "S:");
            push_str(&mut r, s);
        },
        Expr::Call(ci) => {
            proof {
                reveal_strlit("C:");
            }
            push_str(&mut r, "C:");
            push_str(&mut r, &ci.name);
        },
        _ => {
            proof {
                reveal_strlit("?");
            }
            push_str(&mut r, "?");
        },
    }
    r
}

// ---------------------------------------------------------------------------
// Local variables
// ---------------------------------------------------------------------------

/// Names that `let` declares in a statement, at any depth of the bodies of
/// `if`, `while`, `for` and `switch`.
pub open spec fn stmt_lets(s: StmtM) -> Set<Seq<char>>
    decreases s,
{
    match s {
        StmtM::Let(n, _, _) => set![n],
        StmtM::If(_, b, elifs, els, _) => stmts_lets(b) + arms_lets(elifs) + (match els {
            Some(eb) => stmts_lets(eb),
            None => Set::empty(),
        }),
        StmtM::While(_, b, _) => stmts_lets(b),
        StmtM::For(_, _, _, _, b, _) => stmts_lets(b),
        StmtM::Switch(_, cases, def, _) => arms_lets(cases) + (match def {
            Some(db) => stmts_lets(db),
            None => Set::empty(),
        }),
        _ => Set::empty(),
    }
}

/// Names that `let` declares in a sequence of statements.
pub open spec fn stmts_lets(s: Seq<StmtM>) -> Set<Seq<char>>
    decreases s,
{
    if s.len() == 0 {
        Set::empty()
    } else {
        stmts_lets(s.drop_last()) + stmt_lets(s.last())
    }
}

/// Names that `let` declares in the bodies of guarded arms.
pub open spec fn arms_lets(s: Seq<(ExprM, Seq<StmtM>)>) -> Set<Seq<char>>
    decreases s,
{
    if s.len() == 0 {
        Set::empty()
    } else {
        arms_lets(s.drop_last()) + stmts_lets(s.last().1)
    }
}

fn walk_lets(s: &Stmt, set: &mut Vec<String>)
    requires
        sorted(sviews(old(set)@)),
    ensures
        sorted(sviews(final(set)@)),
        set_of(final(set)@) == set_of(old(set)@) + stmt_lets(s.view()),
    decreases s,
{
    match s {
        Stmt::Let { name, .. } => {
            set_insert(set, name.clone());
        },
        Stmt::If { body, elifs, else_body, .. } => {
            walk_lets_all(body, set);
            walk_lets_arms(elifs, set);
            if let Some(else_stmts) = else_body {
                walk_lets_all(else_stmts, set);
            }
        },
        Stmt::While { body, .. } | Stmt::For { body, .. } => {
            walk_lets_all(body, set);
        },
        Stmt::Switch { cases, default, .. } => {
            walk_lets_arms(cases, set);
            if let Some(default_body) = default {
                walk_lets_all(default_body, set);
            }
        },
        _ => {},
    }
    assert(set_of(set@) =~= set_of(old(set)@) + stmt_lets(s.view()));
}

fn walk_lets_all(v: &Vec<Stmt>, set: &mut Vec<String>)
    requires
        sorted(sviews(old(set)@)),
    ensures
        sorted(sviews(final(set)@)),
        set_of(final(set)@) == set_of(old(set)@) + stmts_lets(view_stmts(v@)),
    decreases v,
{
    let mut i: usize = 0;
    assert(v@.take(0) =~= Seq::<Stmt>::empty());
    assert(set_of(set@) =~= set_of(old(set)@) + stmts_lets(view_stmts(v@.take(0))));
    while i < v.len()
        invariant
            i <= v.len(),
            sorted(sviews(set@)),
            set_of(set@) == set_of(old(set)@) + stmts_lets(view_stmts(v@.take(i as int))),
        decreases v.len() - i,
    {
        proof {
            lemma_view_stmts_take(v@, i as int);
            let t = view_stmts(v@.take(i + 1));
            assert(t.drop_last() =~= view_stmts(v@.take(i as int)));
        }
        walk_lets(&v[i], set);
        i += 1;
        assert(set_of(set@) =~= set_of(old(set)@) + stmts_lets(view_stmts(v@.take(i as int))));
    }
    assert(v@.take(v.len() as int) =~= v@);
}

fn walk_lets_arms(v: &Vec<(Expr, Vec<Stmt>)>, set: &mut Vec<String>)
    requires
        sorted(sviews(old(set)@)),
    ensures
        sorted(sviews(final(set)@)),
        set_of(final(set)@) == set_of(old(set)@) + arms_lets(view_arms(v@)),
    decreases v,
{
    let mut i: usize = 0;
    assert(v@.take(0) =~= Seq::<(Expr, Vec<Stmt>)>::empty());
    assert(set_of(set@) =~= set_of(old(set)@) + arms_lets(view_arms(v@.take(0))));
    while i < v.len()
        invariant
            i <= v.len(),
            sorted(sviews(set@)),
            set_of(set@) == set_of(old(set)@) + arms_lets(view_arms(v@.take(i as int))),
        decreases v.len() - i,
    {
        proof {
            lemma_view_arms_take(v@, i as int);
            let t = view_arms(v@.take(i + 1));
            assert(t.drop_last() =~= view_arms(v@.take(i as int)));
        }
        walk_lets_all(&v[i].1, set);
        i += 1;
        assert(set_of(set@) =~= set_of(old(set)@) + arms_lets(view_arms(v@.take(i as int))));
    }
    assert(v@.take(v.len() as int) =~= v@);
}

/// Collect local variables from statements: the names that `let`
/// declares, in ascending order, each once.
pub fn collect_locals(stmts: &Vec<Stmt>) -> (r: Vec<String>)
    ensures
        sorted(sviews(r@)),
        set_of(r@) == stmts_lets(view_stmts(stmts@)),
{
    let mut set: Vec<String> = Vec::new();
    assert(set_of(set@) =~= Set::<Seq<char>>::empty());
    walk_lets_all(stmts, &mut set);
    set
}

// ---------------------------------------------------------------------------
// Contexts
// ---------------------------------------------------------------------------

/// Loop context for break/continue handling
#[derive(Default, Clone)]
pub struct LoopCtx {
    pub start: Option<String>,
    pub end: Option<String>,
}

/// Function context with local variables
#[derive(Clone)]
pub struct FuncCtx {
    pub locals: Vec<String>,
    pub frame_size: i32,
}

impl FuncCtx {
    /// The stack offset of a local: twice the position of its first
    /// occurrence among the locals.
    pub fn offset_of(&self, name: &str) -> (r: Option<i32>)
        requires
            self.locals.len() < 0x4000_0000,
        ensures
            match r {
                Some(o) => exists|i: int|
                    0 <= i < self.locals.len() && self.locals@[i]@ == name@ && o == 2 * i
                        && forall|j: int| 0 <= j < i ==> self.locals@[j]@ != name@,
                None => forall|j: int| 0 <= j < self.locals.len() ==> self.locals@[j]@ != name@,
            },
    {
        let mut i: usize = 0;
        while i < self.locals.len()
            invariant
                i <= self.locals.len() < 0x4000_0000,
                forall|j: int| 0 <= j < i ==> self.locals@[j]@ != name@,
            decreases self.locals.len() - i,
        {
            if str_eq(&self.locals[i], name) {
                let o = (i as i32) * 2;
                return Some(o);
            }
            i += 1;
        }
        None
    }
}

} // verus!
