use vpy_core::ast::{BinOp, CmpOp, Expr, Function, IdentInfo, Item, Module, ModuleMeta, Stmt};
use vpy_core::codegen::debug_optimize_module_for_tests;
use vpy_core::codegen::fold::{opt_expr, trunc16};

fn num(n: i32) -> Expr {
    Expr::Number(n)
}

fn ident(name: &str) -> Expr {
    Expr::Ident(IdentInfo { name: name.to_string(), source_line: 1, col: 1 })
}

fn bin(op: BinOp, l: Expr, r: Expr) -> Expr {
    Expr::Binary { op, left: Box::new(l), right: Box::new(r) }
}

#[test]
fn constants_fold_to_sixteen_bits() {
    assert_eq!(opt_expr(&bin(BinOp::Add, num(2), num(3))), num(5));
    assert_eq!(opt_expr(&bin(BinOp::Sub, num(0), num(1))), num(0xFFFF));
    assert_eq!(opt_expr(&bin(BinOp::Mul, num(0x100), num(0x100))), num(0));
    assert_eq!(opt_expr(&bin(BinOp::Div, num(7), num(0))), num(7));
    assert_eq!(opt_expr(&bin(BinOp::Shl, num(1), num(17))), num(2));
    assert_eq!(opt_expr(&Expr::BitNot(Box::new(num(0)))), num(0xFFFF));
    assert_eq!(trunc16(-1), 0xFFFF);
}

#[test]
fn algebraic_identities() {
    assert_eq!(opt_expr(&bin(BinOp::Mul, ident("x"), num(1))), ident("x"));
    assert_eq!(opt_expr(&bin(BinOp::Mul, ident("x"), num(0))), num(0));
    assert_eq!(opt_expr(&bin(BinOp::BitAnd, ident("x"), num(0xFFFF))), ident("x"));
    assert_eq!(opt_expr(&bin(BinOp::BitOr, num(0), ident("y"))), ident("y"));
    assert_eq!(opt_expr(&bin(BinOp::Mod, ident("y"), num(1))), num(0));
}

#[test]
fn comparisons_fold_to_flags() {
    let e = Expr::Compare { op: CmpOp::Lt, left: Box::new(num(1)), right: Box::new(num(2)) };
    assert_eq!(opt_expr(&e), num(1));
    let e = Expr::Compare { op: CmpOp::Eq, left: Box::new(num(-1)), right: Box::new(num(0xFFFF)) };
    assert_eq!(opt_expr(&e), num(1));
}

fn main_module(body: Vec<Stmt>) -> Module {
    Module {
        items: vec![Item::Function(Function { name: "main".to_string(), line: 1, params: Vec::new(), body })],
        meta: ModuleMeta::default(),
    }
}

fn body_of(m: &Module) -> &Vec<Stmt> {
    match &m.items[0] {
        Item::Function(f) => &f.body,
        _ => panic!("expected a function"),
    }
}

#[test]
fn code_after_return_is_removed() {
    let call = Expr::Call(vpy_core::ast::CallInfo { name: "PRINT".to_string(), source_line: 2, col: 1, args: Vec::new() });
    let m = main_module(vec![Stmt::Return(None, 1), Stmt::Expr(call, 2)]);
    let o = debug_optimize_module_for_tests(&m);
    assert_eq!(body_of(&o), &vec![Stmt::Return(None, 1)]);
}

#[test]
fn false_while_loops_disappear() {
    let call = Expr::Call(vpy_core::ast::CallInfo { name: "PRINT".to_string(), source_line: 2, col: 1, args: Vec::new() });
    let m = main_module(vec![
        Stmt::While { cond: bin(BinOp::Sub, num(1), num(1)), body: vec![Stmt::Expr(call, 2)], source_line: 1 },
        Stmt::Return(Some(num(4)), 3),
    ]);
    let o = debug_optimize_module_for_tests(&m);
    assert_eq!(body_of(&o), &vec![Stmt::Return(Some(num(4)), 3)]);
}

#[test]
fn constant_switch_selects_its_case() {
    let call = |n: &str| Expr::Call(vpy_core::ast::CallInfo { name: n.to_string(), source_line: 1, col: 1, args: Vec::new() });
    let m = main_module(vec![Stmt::Switch {
        expr: bin(BinOp::Add, num(1), num(1)),
        cases: vec![(num(1), vec![Stmt::Expr(call("ONE"), 2)]), (num(2), vec![Stmt::Expr(call("TWO"), 3)])],
        default: Some(vec![Stmt::Expr(call("OTHER"), 4)]),
        source_line: 1,
    }]);
    let o = debug_optimize_module_for_tests(&m);
    assert_eq!(body_of(&o), &vec![Stmt::Expr(call("TWO"), 3)]);
}

#[test]
fn optimizing_twice_changes_nothing() {
    let m = main_module(vec![
        Stmt::Let { name: "a".to_string(), value: bin(BinOp::Add, num(2), num(3)), source_line: 1 },
        Stmt::Return(Some(bin(BinOp::Mul, ident("a"), num(2))), 2),
    ]);
    let once = debug_optimize_module_for_tests(&m);
    let twice = debug_optimize_module_for_tests(&once);
    assert_eq!(once, twice);
}
