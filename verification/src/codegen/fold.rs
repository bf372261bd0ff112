//! Constant folding over the 16-bit integer model shared by the backends.
//!
//! Every integer that folding produces is reduced to its low 16 bits, so a
//! folded tree only holds numbers in `0..=0xFFFF`.

use vstd::prelude::*;
use crate::backend::m6809::lowering::relation_holds;
use crate::ast::{
    BinOp, CallInfo, CmpOp, Expr, ExprM, IdentInfo, LogicOp, lemma_view_exprs_take, view_exprs,
};

verus! {

// ---------------------------------------------------------------------------
// The 16-bit integer model
// ---------------------------------------------------------------------------

/// The low 16 bits of an integer, as a value in `0..=0xFFFF`.
pub open spec fn low16(v: int) -> int {
    v % 65536
}

/// `2` to the power `k`: the factor of a left shift by `k`.
pub open spec fn shift_factor(k: nat) -> int
    decreases k,
{
    if k == 0 {
        1
    } else {
        2 * shift_factor((k - 1) as nat)
    }
}

/// The value of `a op b` for two 16-bit operands, before the final
/// truncation: division and remainder by zero give the left operand, and a
/// shift uses the low four bits of its count.
pub open spec fn binop_value(op: BinOp, a: i32, b: i32) -> int {
    match op {
        BinOp::Add => a + b,
        BinOp::Sub => a - b,
        BinOp::Mul => a * b,
        BinOp::Div | BinOp::FloorDiv => if b != 0 {
            (a as int) / (b as int)
        } else {
            a as int
        },
        BinOp::Mod => if b != 0 {
            (a as int) % (b as int)
        } else {
            a as int
        },
        BinOp::Shl => a * shift_factor((b % 16) as nat),
        BinOp::Shr => (a as int) / shift_factor((b % 16) as nat),
        BinOp::BitAnd => (a & b) as int,
        BinOp::BitOr => (a | b) as int,
        BinOp::BitXor => (a ^ b) as int,
    }
}

/// The truth of `a op b` on the low 16 bits of both sides.
pub open spec fn compare_value(op: CmpOp, a: i32, b: i32) -> bool {
    let x = low16(a as int);
    let y = low16(b as int);
    match op {
        CmpOp::Eq => x == y,
        CmpOp::Ne => x != y,
        CmpOp::Lt => x < y,
        CmpOp::Le => x <= y,
        CmpOp::Gt => x > y,
        CmpOp::Ge => x >= y,
    }
}

/// The truth of `a op b`, each side true when its low 16 bits are not zero.
pub open spec fn logic_value(op: LogicOp, a: i32, b: i32) -> bool {
    let x = low16(a as int) != 0;
    let y = low16(b as int) != 0;
    match op {
        LogicOp::And => x && y,
        LogicOp::Or => x || y,
    }
}

pub open spec fn bool_number(b: bool) -> ExprM {
    ExprM::Number(if b { 1 } else { 0 })
}

pub open spec fn is_num(e: ExprM, n: i32) -> bool {
    e == ExprM::Number(n)
}

// ---------------------------------------------------------------------------
// Folding of expressions
// ---------------------------------------------------------------------------

/// The folded form of `l op r`, where `l` and `r` are already folded:
/// the neutral and absorbing operands first, then the evaluation of two
/// numbers, then the bitwise, remainder and shift identities.
pub open spec fn fold_binary(op: BinOp, l: ExprM, r: ExprM) -> ExprM {
    if op == BinOp::Add && is_num(l, 0) && r is Number {
        r
    } else if op == BinOp::Add && l is Number && is_num(r, 0) {
        l
    } else if op == BinOp::Sub && l is Number && is_num(r, 0) {
        l
    } else if op == BinOp::Mul && is_num(r, 1) {
        l
    } else if op == BinOp::Mul && is_num(l, 1) {
        r
    } else if op == BinOp::Mul && (is_num(r, 0) || is_num(l, 0)) {
        ExprM::Number(0)
    } else if op == BinOp::Div && is_num(r, 1) {
        l
    } else if l is Number && r is Number {
        ExprM::Number(low16(binop_value(op, l->Number_0, r->Number_0)) as i32)
    } else if op == BinOp::BitAnd && (is_num(r, 0) || is_num(l, 0)) {
        ExprM::Number(0)
    } else if op == BinOp::BitAnd && is_num(r, 0xFFFF) {
        l
    } else if op == BinOp::BitAnd && is_num(l, 0xFFFF) {
        r
    } else if (op == BinOp::BitOr || op == BinOp::BitXor) && is_num(r, 0) {
        l
    } else if (op == BinOp::BitOr || op == BinOp::BitXor) && is_num(l, 0) {
        r
    } else if op == BinOp::Mod && (is_num(r, 1) || is_num(l, 0)) {
        ExprM::Number(0)
    } else if (op == BinOp::Shl || op == BinOp::Shr) && is_num(r, 0) {
        l
    } else if (op == BinOp::Shl || op == BinOp::Shr) && is_num(l, 0) {
        ExprM::Number(0)
    } else {
        ExprM::Binary(op, Box::new(l), Box::new(r))
    }
}

/// The folded form of an expression: numbers are reduced to 16 bits,
/// operators whose operands fold to numbers are evaluated, and calls keep
/// their arguments folded.
pub open spec fn fold_expr(e: ExprM) -> ExprM
    decreases e,
{
    match e {
        ExprM::Number(n) => ExprM::Number(low16(n as int) as i32),
        ExprM::Binary(op, l, r) => fold_binary(op, fold_expr(*l), fold_expr(*r)),
        ExprM::BitNot(x) => match fold_expr(*x) {
            ExprM::Number(n) => ExprM::Number(low16(!n as int) as i32),
            y => ExprM::BitNot(Box::new(y)),
        },
        ExprM::Compare(op, l, r) => {
            let (a, b) = (fold_expr(*l), fold_expr(*r));
            if a is Number && b is Number {
                bool_number(compare_value(op, a->Number_0, b->Number_0))
            } else {
                ExprM::Compare(op, Box::new(a), Box::new(b))
            }
        },
        ExprM::Logic(op, l, r) => {
            let (a, b) = (fold_expr(*l), fold_expr(*r));
            if a is Number && b is Number {
                bool_number(logic_value(op, a->Number_0, b->Number_0))
            } else {
                ExprM::Logic(op, Box::new(a), Box::new(b))
            }
        },
        ExprM::Not(x) => match fold_expr(*x) {
            ExprM::Number(n) => bool_number(low16(n as int) == 0),
            y => ExprM::Not(Box::new(y)),
        },
        ExprM::Call(name, line, col, args) => ExprM::Call(name, line, col, fold_exprs(args)),
        _ => e,
    }
}

/// The folded forms of a sequence of expressions.
pub open spec fn fold_exprs(s: Seq<ExprM>) -> Seq<ExprM>
    decreases s,
{
    if s.len() == 0 {
        Seq::empty()
    } else {
        fold_exprs(s.drop_last()).push(fold_expr(s.last()))
    }
}

// ---------------------------------------------------------------------------
// Executable folding
// ---------------------------------------------------------------------------

/// The low 16 bits of `v`.
pub fn trunc16(v: i32) -> (r: i32)
    ensures
        r == low16(v as int),
        0 <= r < 65536,
{
    let w: i64 = v as i64;
    let m: i64 = w % 65536;
    let r: i64 = if m < 0 {
        m + 65536
    } else {
        m
    };
    assert(r == low16(v as int));
    r as i32
}

fn is_number(e: &Expr, n: i32) -> (b: bool)
    ensures
        b == is_num(e.view(), n),
{
    match e {
        Expr::Number(m) => *m == n,
        _ => false,
    }
}

/// `shift_factor(k)` for a count below 16.
fn shift_factor_exec(k: i64) -> (r: i64)
    requires
        0 <= k < 16,
    ensures
        r == shift_factor(k as nat),
        1 <= r <= 32768,
{
    let mut r: i64 = 1;
    let mut i: i64 = 0;
    while i < k
        invariant
            0 <= i <= k < 16,
            r == shift_factor(i as nat),
        decreases k - i,
    {
        proof {
            lemma_shift_factor_bound(i as nat);
        }
        r = r * 2;
        i = i + 1;
    }
    proof {
        lemma_shift_factor_bound(k as nat);
    }
    r
}

pub proof fn lemma_shift_factor_bound(k: nat)
    requires
        k <= 15,
    ensures
        1 <= shift_factor(k) <= 32768,
{
    lemma_shift_factor_split(k, (15 - k) as nat);
    lemma_shift_factor_split((15 - k) as nat, 0);
    assert(shift_factor(15) == 32768) by {
        reveal_with_fuel(shift_factor, 16);
    }
    let (x, y) = (shift_factor(k), shift_factor((15 - k) as nat));
    assert(x <= 32768) by (nonlinear_arith)
        requires
            x * y == 32768,
            x >= 1,
            y >= 1,
    ;
}

pub proof fn lemma_shift_factor_split(a: nat, b: nat)
    ensures
        shift_factor(a) * shift_factor(b) == shift_factor(a + b),
        shift_factor(a) >= 1,
    decreases a,
{
    if a > 0 {
        lemma_shift_factor_split((a - 1) as nat, b);
        let (p, q) = (shift_factor((a - 1) as nat), shift_factor(b));
        assert(shift_factor(a) == 2 * p);
        assert(shift_factor(a + b) == 2 * shift_factor((a - 1 + b) as nat));
        assert((2 * p) * q == 2 * (p * q)) by (nonlinear_arith);
    }
}

proof fn lemma_bits16(a: i32, b: i32)
    requires
        0 <= a < 65536,
        0 <= b < 65536,
    ensures
        0 <= a & b < 65536,
        0 <= a | b < 65536,
        0 <= a ^ b < 65536,
        0 <= low16(!a as int) < 65536,
{
    assert(0 <= a & b < 65536) by (bit_vector)
        requires
            0 <= a < 65536,
            0 <= b < 65536,
    ;
    assert(0 <= a | b < 65536) by (bit_vector)
        requires
            0 <= a < 65536,
            0 <= b < 65536,
    ;
    assert(0 <= a ^ b < 65536) by (bit_vector)
        requires
            0 <= a < 65536,
            0 <= b < 65536,
    ;
}

/// The folded value of `a op b` for two folded numbers.
fn eval_binop(op: BinOp, a: i32, b: i32) -> (r: i32)
    requires
        0 <= a < 65536,
        0 <= b < 65536,
    ensures
        r == low16(binop_value(op, a, b)),
{
    let x: i64 = a as i64;
    let y: i64 = b as i64;
    proof {
        lemma_bits16(a, b);
    }
    let raw: i64 = match op {
        BinOp::Add => x + y,
        BinOp::Sub => x - y,
        BinOp::Mul => {
            assert(0 <= x * y <= 65535 * 65535) by (nonlinear_arith)
                requires
                    0 <= x < 65536,
                    0 <= y < 65536,
            ;
            x * y
        },
        BinOp::Div | BinOp::FloorDiv => if y != 0 {
            x / y
        } else {
            x
        },
        BinOp::Mod => if y != 0 {
            x % y
        } else {
            x
        },
        BinOp::Shl => {
            let f = shift_factor_exec(y % 16);
            assert(x * f <= 65535 * 32768) by (nonlinear_arith)
                requires
                    0 <= x < 65536,
                    1 <= f <= 32768,
            ;
            x * f
        },
        BinOp::Shr => {
            let f = shift_factor_exec(y % 16);
            x / f
        },
        BinOp::BitAnd => (a & b) as i64,
        BinOp::BitOr => (a | b) as i64,
        BinOp::BitXor => (a ^ b) as i64,
    };
    assert(raw == binop_value(op, a, b));
    let m: i64 = raw % 65536;
    let r: i64 = if m < 0 {
        m + 65536
    } else {
        m
    };
    r as i32
}

fn eval_compare(op: CmpOp, a: i32, b: i32) -> (r: bool)
    ensures
        r == compare_value(op, a, b),
{
    let x = trunc16(a);
    let y = trunc16(b);
    match op {
        CmpOp::Eq => x == y,
        CmpOp::Ne => x != y,
        CmpOp::Lt => x < y,
        CmpOp::Le => x <= y,
        CmpOp::Gt => x > y,
        CmpOp::Ge => x >= y,
    }
}

fn eval_logic(op: LogicOp, a: i32, b: i32) -> (r: bool)
    ensures
        r == logic_value(op, a, b),
{
    let x = trunc16(a) != 0;
    let y = trunc16(b) != 0;
    match op {
        LogicOp::And => x && y,
        LogicOp::Or => x || y,
    }
}

fn number_of(b: bool) -> (e: Expr)
    ensures
        e.view() == bool_number(b),
{
    Expr::Number(if b { 1 } else { 0 })
}

/// Folds `l op r` where both sides are already folded.
fn fold_binary_exec(op: BinOp, l: Expr, r: Expr) -> (e: Expr)
    requires
        numbers_16(l.view()),
        numbers_16(r.view()),
    ensures
        e.view() == fold_binary(op, l.view(), r.view()),
{
    let add = matches!(op, BinOp::Add);
    let mul = matches!(op, BinOp::Mul);
    let l_num = matches!(l, Expr::Number(_));
    let r_num = matches!(r, Expr::Number(_));
    if add && is_number(&l, 0) && r_num {
        return r;
    }
    if add && l_num && is_number(&r, 0) {
        return l;
    }
    if matches!(op, BinOp::Sub) && l_num && is_number(&r, 0) {
        return l;
    }
    if mul && is_number(&r, 1) {
        return l;
    }
    if mul && is_number(&l, 1) {
        return r;
    }
    if mul && (is_number(&r, 0) || is_number(&l, 0)) {
        return Expr::Number(0);
    }
    if matches!(op, BinOp::Div) && is_number(&r, 1) {
        return l;
    }
    if let (Expr::Number(a), Expr::Number(b)) = (&l, &r) {
        return Expr::Number(eval_binop(op, *a, *b));
    }
    let and = matches!(op, BinOp::BitAnd);
    let or_xor = matches!(op, BinOp::BitOr) || matches!(op, BinOp::BitXor);
    let shift = matches!(op, BinOp::Shl) || matches!(op, BinOp::Shr);
    if and && (is_number(&r, 0) || is_number(&l, 0)) {
        return Expr::Number(0);
    }
    if and && is_number(&r, 0xFFFF) {
        return l;
    }
    if and && is_number(&l, 0xFFFF) {
        return r;
    }
    if or_xor && is_number(&r, 0) {
        return l;
    }
    if or_xor && is_number(&l, 0) {
        return r;
    }
    if matches!(op, BinOp::Mod) && (is_number(&r, 1) || is_number(&l, 0)) {
        return Expr::Number(0);
    }
    if shift && is_number(&r, 0) {
        return l;
    }
    if shift && is_number(&l, 0) {
        return Expr::Number(0);
    }
    Expr::Binary { op, left: Box::new(l), right: Box::new(r) }
}

// ---------------------------------------------------------------------------
// Numbers of a folded tree
// ---------------------------------------------------------------------------

/// Every number in the expression lies in `0..=0xFFFF`.
pub open spec fn numbers_16(e: ExprM) -> bool
    decreases e,
{
    match e {
        ExprM::Number(n) => 0 <= n < 65536,
        ExprM::Binary(_, l, r) => numbers_16(*l) && numbers_16(*r),
        ExprM::Compare(_, l, r) => numbers_16(*l) && numbers_16(*r),
        ExprM::Logic(_, l, r) => numbers_16(*l) && numbers_16(*r),
        ExprM::Not(x) => numbers_16(*x),
        ExprM::BitNot(x) => numbers_16(*x),
        ExprM::Call(_, _, _, args) => numbers_16_all(args),
        _ => true,
    }
}

/// Every number in the sequence lies in `0..=0xFFFF`.
pub open spec fn numbers_16_all(s: Seq<ExprM>) -> bool
    decreases s,
{
    if s.len() == 0 {
        true
    } else {
        numbers_16_all(s.drop_last()) && numbers_16(s.last())
    }
}

/// Folded expressions hold only 16-bit numbers.
pub proof fn lemma_fold_numbers_16(e: ExprM)
    ensures
        numbers_16(fold_expr(e)),
    decreases e,
{
    match e {
        ExprM::Binary(op, l, r) => {
            lemma_fold_numbers_16(*l);
            lemma_fold_numbers_16(*r);
            let (a, b) = (fold_expr(*l), fold_expr(*r));
            if a is Number && b is Number {
                lemma_bits16(a->Number_0, b->Number_0);
            }
        },
        ExprM::BitNot(x) => {
            lemma_fold_numbers_16(*x);
        },
        ExprM::Compare(_, l, r) => {
            lemma_fold_numbers_16(*l);
            lemma_fold_numbers_16(*r);
        },
        ExprM::Logic(_, l, r) => {
            lemma_fold_numbers_16(*l);
            lemma_fold_numbers_16(*r);
        },
        ExprM::Not(x) => {
            lemma_fold_numbers_16(*x);
        },
        ExprM::Call(_, _, _, args) => {
            lemma_fold_numbers_16_all(args);
        },
        _ => {},
    }
}

/// Folded sequences hold only 16-bit numbers.
pub proof fn lemma_fold_numbers_16_all(s: Seq<ExprM>)
    ensures
        numbers_16_all(fold_exprs(s)),
    decreases s,
{
    if s.len() > 0 {
        lemma_fold_numbers_16_all(s.drop_last());
        lemma_fold_numbers_16(s.last());
        assert(fold_exprs(s).drop_last() =~= fold_exprs(s.drop_last()));
    }
}

/// Folding is idempotent: a folded expression folds to itself.
pub proof fn lemma_fold_idempotent(e: ExprM)
    ensures
        fold_expr(fold_expr(e)) == fold_expr(e),
    decreases e,
{
    match e {
        ExprM::Binary(op, l, r) => {
            lemma_fold_idempotent(*l);
            lemma_fold_idempotent(*r);
        },
        ExprM::BitNot(x) => {
            lemma_fold_idempotent(*x);
        },
        ExprM::Compare(_, l, r) => {
            lemma_fold_idempotent(*l);
            lemma_fold_idempotent(*r);
        },
        ExprM::Logic(_, l, r) => {
            lemma_fold_idempotent(*l);
            lemma_fold_idempotent(*r);
        },
        ExprM::Not(x) => {
            lemma_fold_idempotent(*x);
        },
        ExprM::Call(_, _, _, args) => {
            lemma_fold_idempotent_all(args);
        },
        _ => {},
    }
}

/// Folding a sequence of expressions is idempotent.
pub proof fn lemma_fold_idempotent_all(s: Seq<ExprM>)
    ensures
        fold_exprs(fold_exprs(s)) == fold_exprs(s),
    decreases s,
{
    if s.len() > 0 {
        lemma_fold_idempotent_all(s.drop_last());
        lemma_fold_idempotent(s.last());
        let f = fold_exprs(s);
        assert(f.drop_last() =~= fold_exprs(s.drop_last()));
        assert(fold_exprs(f) =~= f);
    }
}

/// Fold an expression.
pub fn opt_expr(e: &Expr) -> (r: Expr)
    ensures
        r.view() == fold_expr(e.view()),
    decreases e,
{
    proof {
        lemma_fold_numbers_16(e.view());
    }
    match e {
        Expr::Binary { op, left, right } => {
            let l = opt_expr(left);
            let r = opt_expr(right);
            proof {
                lemma_fold_numbers_16(left.view());
                lemma_fold_numbers_16(right.view());
            }
            fold_binary_exec(*op, l, r)
        },
        Expr::BitNot(inner) => {
            let i2 = opt_expr(inner);
            match i2 {
                Expr::Number(n) => Expr::Number(trunc16(!n)),
                _ => Expr::BitNot(Box::new(i2)),
            }
        },
        Expr::Compare { op, left, right } => {
            let l = opt_expr(left);
            let r = opt_expr(right);
            if let (Expr::Number(a), Expr::Number(b)) = (&l, &r) {
                number_of(eval_compare(*op, *a, *b))
            } else {
                Expr::Compare { op: *op, left: Box::new(l), right: Box::new(r) }
            }
        },
        Expr::Logic { op, left, right } => {
            let l = opt_expr(left);
            let r = opt_expr(right);
            if let (Expr::Number(a), Expr::Number(b)) = (&l, &r) {
                number_of(eval_logic(*op, *a, *b))
            } else {
                Expr::Logic { op: *op, left: Box::new(l), right: Box::new(r) }
            }
        },
        Expr::Not(inner) => {
            let ni = opt_expr(inner);
            match ni {
                Expr::Number(v) => number_of(trunc16(v) == 0),
                _ => Expr::Not(Box::new(ni)),
            }
        },
        Expr::Call(ci) => Expr::Call(
            CallInfo {
                name: ci.name.clone(),
                source_line: ci.source_line,
                col: ci.col,
                args: opt_exprs(&ci.args),
            },
        ),
        Expr::Ident(i) => Expr::Ident(
            IdentInfo { name: i.name.clone(), source_line: i.source_line, col: i.col },
        ),
        Expr::Number(n) => Expr::Number(trunc16(*n)),
        Expr::StringLit(s) => Expr::StringLit(s.clone()),
    }
}

/// Fold each expression of a sequence.
pub fn opt_exprs(v: &Vec<Expr>) -> (r: Vec<Expr>)
    ensures
        view_exprs(r@) == fold_exprs(view_exprs(v@)),
    decreases v,
{
    let mut r: Vec<Expr> = Vec::new();
    let mut i: usize = 0;
    while i < v.len()
        invariant
            i <= v.len(),
            view_exprs(r@) == fold_exprs(view_exprs(v@.take(i as int))),
        decreases v.len() - i,
    {
        proof {
            lemma_view_exprs_take(v@, i as int);
            let t = view_exprs(v@.take(i + 1));
            assert(t.drop_last() =~= view_exprs(v@.take(i as int)));
        }
        let c = opt_expr(&v[i]);
        let ghost r0 = r@;
        r.push(c);
        assert(r@.drop_last() =~= r0);
        i += 1;
    }
    assert(v@.take(v.len() as int) =~= v@);
    r
}


// ---------------------------------------------------------------------------
// Meaning of folded comparisons
// ---------------------------------------------------------------------------

/// The comparisons order the 16-bit values as integers: equality is equality
/// of the low 16 bits, `>` is `<` with the sides swapped, `>=` is `<=` with
/// the sides swapped, `!=` is the negation of `==`, `<=` is `<` or `==`, and
/// exactly one of `<`, `==`, `>` holds.
pub proof fn lemma_compare_relations(a: i32, b: i32)
    ensures
        compare_value(CmpOp::Eq, a, b) == (low16(a as int) == low16(b as int)),
        compare_value(CmpOp::Lt, a, b) == (low16(a as int) < low16(b as int)),
        compare_value(CmpOp::Gt, a, b) == compare_value(CmpOp::Lt, b, a),
        compare_value(CmpOp::Ge, a, b) == compare_value(CmpOp::Le, b, a),
        compare_value(CmpOp::Ne, a, b) == !compare_value(CmpOp::Eq, a, b),
        compare_value(CmpOp::Le, a, b) == (compare_value(CmpOp::Lt, a, b) || compare_value(
            CmpOp::Eq,
            a,
            b,
        )),
        compare_value(CmpOp::Lt, a, b) ==> !compare_value(CmpOp::Lt, b, a),
        compare_value(CmpOp::Lt, a, b) || compare_value(CmpOp::Eq, a, b) || compare_value(
            CmpOp::Gt,
            a,
            b,
        ),
{
}

/// Folding a comparison of two numbers gives 1 exactly when the low 16 bits
/// of the left number stand in the compared relation to those of the right
/// one, and 0 otherwise.
pub proof fn lemma_fold_compare_numbers(op: CmpOp, a: i32, b: i32)
    ensures
        fold_expr(ExprM::Compare(op, Box::new(ExprM::Number(a)), Box::new(ExprM::Number(b))))
            == ExprM::Number(
            if relation_holds(op, low16(a as int), low16(b as int)) {
                1
            } else {
                0
            },
        ),
{
    let x = low16(a as int);
    let y = low16(b as int);
    assert(0 <= x < 65536 && 0 <= y < 65536);
    assert(fold_expr(ExprM::Number(a)) == ExprM::Number(x as i32));
    assert(fold_expr(ExprM::Number(b)) == ExprM::Number(y as i32));
    assert(low16((x as i32) as int) == x && low16((y as i32) as int) == y);
}

/// Folding the sum, difference or product of two numbers computes it on
/// their 16-bit values modulo `2^16`: the folded sum is `(x + y) mod 2^16`,
/// the folded difference is the value that, added to `y`, gives `x` modulo
/// `2^16` (so `5 - 3` folds to `2` and `3 - 5` to `0xFFFE`), and the folded
/// product is `(x * y) mod 2^16`.
pub proof fn lemma_fold_arith_numbers(a: i32, b: i32)
    ensures
        ({
            let x = low16(a as int);
            let y = low16(b as int);
            let na = ExprM::Number(a);
            let nb = ExprM::Number(b);
            &&& fold_expr(ExprM::Binary(BinOp::Add, Box::new(na), Box::new(nb))) matches ExprM::Number(r)
                && r as int == (x + y) % 65536
            &&& fold_expr(ExprM::Binary(BinOp::Sub, Box::new(na), Box::new(nb))) matches ExprM::Number(r)
                && 0 <= r < 65536 && (r + y) % 65536 == x
            &&& fold_expr(ExprM::Binary(BinOp::Mul, Box::new(na), Box::new(nb))) matches ExprM::Number(r)
                && r as int == (x * y) % 65536
        }),
{
    let x = low16(a as int);
    let y = low16(b as int);
    assert(0 <= x < 65536 && 0 <= y < 65536);
    assert(fold_expr(ExprM::Number(a)) == ExprM::Number(x as i32));
    assert(fold_expr(ExprM::Number(b)) == ExprM::Number(y as i32));
    let xi = x as i32;
    let yi = y as i32;
    assert(xi as int == x && yi as int == y);
    assert(0 <= x * y < 65536 * 65536) by (nonlinear_arith)
        requires
            0 <= x < 65536,
            0 <= y < 65536,
    ;
    assert(binop_value(BinOp::Mul, xi, yi) == x * y);
    let na = ExprM::Number(a);
    let nb = ExprM::Number(b);
    let nx = ExprM::Number(xi);
    let ny = ExprM::Number(yi);
    assert(fold_expr(ExprM::Binary(BinOp::Add, Box::new(na), Box::new(nb))) == fold_binary(BinOp::Add, nx, ny));
    assert(fold_expr(ExprM::Binary(BinOp::Sub, Box::new(na), Box::new(nb))) == fold_binary(BinOp::Sub, nx, ny));
    assert(fold_expr(ExprM::Binary(BinOp::Mul, Box::new(na), Box::new(nb))) == fold_binary(BinOp::Mul, nx, ny));
    assert(x * 1 == x && 1 * y == y && x * 0 == 0 && 0 * y == 0) by (nonlinear_arith);
    assert(fold_binary(BinOp::Add, nx, ny) == ExprM::Number(((x + y) % 65536) as i32));
    assert(fold_binary(BinOp::Mul, nx, ny) == ExprM::Number(((x * y) % 65536) as i32));
    assert(fold_binary(BinOp::Sub, nx, ny) == ExprM::Number(low16(x - y) as i32));
    let d = low16(x - y);
    assert((d + y) % 65536 == x) by (nonlinear_arith)
        requires
            d == (x - y) % 65536,
            0 <= x < 65536,
            0 <= y < 65536,
    ;
}

} // verus!
