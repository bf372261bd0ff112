use vpy_core::ast::{AssignTarget, BinOp, CallInfo, Expr, Function, IdentInfo, Item, Module, ModuleMeta, Stmt};
use vpy_core::codegen::semantics::{expected_builtin_arity, validate_semantics};
use vpy_core::codegen::{Diagnostic, DiagnosticCode, DiagnosticSeverity};

fn ident(name: &str, line: usize, col: usize) -> Expr {
    Expr::Ident(IdentInfo { name: name.to_string(), source_line: line, col })
}

fn call(name: &str, line: usize, args: Vec<Expr>) -> Expr {
    Expr::Call(CallInfo { name: name.to_string(), source_line: line, col: 1, args })
}

fn let_(name: &str, value: Expr, line: usize) -> Stmt {
    Stmt::Let { name: name.to_string(), value, source_line: line }
}

fn assign(name: &str, value: Expr, line: usize) -> Stmt {
    Stmt::Assign { target: AssignTarget { name: name.to_string(), source_line: line, col: 1 }, value, source_line: line }
}

fn function(name: &str, params: &[&str], body: Vec<Stmt>) -> Item {
    Item::Function(Function {
        name: name.to_string(),
        line: 1,
        params: params.iter().map(|p| p.to_string()).collect(),
        body,
    })
}

fn module(items: Vec<Item>) -> Module {
    Module { items, meta: ModuleMeta::default() }
}

fn check(m: &Module) -> Vec<Diagnostic> {
    let mut d = Vec::new();
    validate_semantics(m, &mut d);
    d
}

#[test]
fn builtin_arities_ignore_case_and_prefix() {
    assert_eq!(expected_builtin_arity("PRINT_TEXT"), Some(3));
    assert_eq!(expected_builtin_arity("vectrex_print_text"), Some(3));
    assert_eq!(expected_builtin_arity("move_to"), Some(2));
    assert_eq!(expected_builtin_arity("wait_recal"), Some(0));
    assert_eq!(expected_builtin_arity("my_function"), None);
}

#[test]
fn clean_module_has_no_diagnostics() {
    let m = module(vec![
        Item::Const { name: "SPEED".to_string(), value: Expr::Number(2), source_line: 1 },
        function("main", &["n"], vec![
            let_("x", ident("SPEED", 3, 9), 3),
            Stmt::Expr(call("PRINT_TEXT", 4, vec![ident("x", 4, 12), ident("n", 4, 15), Expr::StringLit("HI".to_string())]), 4),
        ]),
    ]);
    assert!(check(&m).is_empty());
}

#[test]
fn undeclared_use_is_an_error() {
    let m = module(vec![function("main", &[], vec![Stmt::Expr(ident("ghost", 5, 7), 5)])]);
    let d = check(&m);
    assert_eq!(d.len(), 1);
    assert_eq!(d[0].severity, DiagnosticSeverity::Error);
    assert_eq!(d[0].code, DiagnosticCode::UndeclaredVar);
    assert_eq!(d[0].message, "SemanticsError: uso de variable no declarada 'ghost'.");
    assert_eq!((d[0].line, d[0].col), (Some(5), Some(7)));
}

#[test]
fn use_of_another_functions_local_names_it() {
    let m = module(vec![
        function("setup", &[], vec![let_("speed", Expr::Number(1), 2), Stmt::Expr(ident("speed", 3, 1), 3)]),
        function("loop", &[], vec![Stmt::Expr(ident("speed", 6, 4), 6)]),
    ]);
    let d = check(&m);
    assert_eq!(d.len(), 1);
    assert_eq!(
        d[0].message,
        "SemanticsError: variable 'speed' declarada en función 'setup' no es accesible en 'loop'. Las funciones en VPy tienen scopes separados (no comparten variables). Solución: declara 'speed' dentro de 'loop' donde la necesitas."
    );
}

#[test]
fn wrong_builtin_arity_and_unknown_function() {
    let m = module(vec![function("main", &[], vec![
        Stmt::Expr(call("DRAW_LINE", 2, vec![Expr::Number(1)]), 2),
        Stmt::Expr(call("missing", 3, vec![]), 3),
    ])]);
    let d = check(&m);
    assert_eq!(d.len(), 2);
    assert_eq!(d[0].code, DiagnosticCode::ArityMismatch);
    assert_eq!(d[0].message, "SemanticsErrorArity: llamada a 'DRAW_LINE' con 1 argumentos; se esperaban 5.");
    assert_eq!(d[1].message, "Unknown function 'missing'");
    assert_eq!(d[1].code, DiagnosticCode::UndeclaredVar);
}

#[test]
fn compound_assignment_needs_a_declared_target() {
    let m = module(vec![function("main", &[], vec![Stmt::CompoundAssign {
        target: AssignTarget { name: "total".to_string(), source_line: 4, col: 2 },
        op: BinOp::Add,
        value: Expr::Number(1),
        source_line: 4,
    }])]);
    let d = check(&m);
    assert_eq!(d.len(), 1);
    assert_eq!(d[0].code, DiagnosticCode::UndeclaredAssign);
    assert_eq!(
        d[0].message,
        "SemanticsError: asignación compuesta a variable no declarada 'total'. Declárala primero con 'total = ...' antes de usar 'total += ...'"
    );
}

#[test]
fn unread_locals_are_warned_before_errors() {
    let m = module(vec![function("main", &["p"], vec![
        assign("a", Expr::Number(1), 2),
        let_("b", Expr::Number(2), 3),
        Stmt::Expr(ident("nope", 4, 1), 4),
    ])]);
    let d = check(&m);
    assert_eq!(d.len(), 3);
    assert_eq!(d[0].severity, DiagnosticSeverity::Warning);
    assert_eq!(d[0].code, DiagnosticCode::UnusedVar);
    assert_eq!(d[0].message, "[unused-var] funcion='main' var='a'");
    assert_eq!((d[0].line, d[0].col), (None, None));
    assert_eq!(d[1].message, "[unused-var] funcion='main' var='b'");
    assert_eq!(d[2].severity, DiagnosticSeverity::Error);
}

#[test]
fn loop_variables_are_scoped_to_the_loop() {
    let m = module(vec![function("main", &[], vec![
        Stmt::For {
            var: "i".to_string(),
            start: Expr::Number(0),
            end: Expr::Number(3),
            step: None,
            body: vec![Stmt::Expr(ident("i", 2, 5), 2)],
            source_line: 1,
        },
        Stmt::Expr(ident("i", 3, 1), 3),
    ])]);
    let d = check(&m);
    assert_eq!(d.len(), 1);
    assert_eq!((d[0].code, d[0].line), (DiagnosticCode::UndeclaredVar, Some(3)));
}

#[test]
fn diagnostics_are_appended() {
    let m = module(vec![function("main", &[], vec![Stmt::Expr(ident("z", 1, 1), 1)])]);
    let mut d = vec![Diagnostic { severity: DiagnosticSeverity::Warning, code: DiagnosticCode::UnusedVar, message: "earlier".to_string(), line: None, col: None }];
    validate_semantics(&m, &mut d);
    assert_eq!(d.len(), 2);
    assert_eq!(d[0].message, "earlier");
}
