use vpy_core::ast::{CallInfo, Expr, Function, IdentInfo, Item, Module, ModuleMeta, Stmt};
use vpy_core::backend::m6809::address_tracker::estimate_instruction_size;
use vpy_core::backend::m6809::analysis::{expr_has_trig, module_uses_trig};
use vpy_core::backend::m6809::utils::{format_expr_ref, fresh_label, power_of_two_const};
use vpy_core::backend::m6809_opcodes::get_instruction_size;
use vpy_core::backend::string_literals::{collect_string_literals, escape_ascii};

fn lit(s: &str) -> Expr {
    Expr::StringLit(s.to_string())
}

#[test]
fn escape_keeps_printable_ascii() {
    assert_eq!(escape_ascii("HELLO 1"), "HELLO 1");
    assert_eq!(escape_ascii("a\"b\\c"), "a\\\"b\\\\c");
    assert_eq!(escape_ascii("\n"), "\\x0A");
    assert_eq!(escape_ascii("é"), "\\xC3\\xA9");
}

#[test]
fn string_literals_get_labels_in_sorted_order() {
    let call = Expr::Call(CallInfo { name: "PRINT_TEXT".to_string(), source_line: 2, col: 1, args: vec![lit("ZEBRA"), lit("APPLE")] });
    let m = Module {
        items: vec![
            Item::Const { name: "TITLE".to_string(), value: lit("MANGO"), source_line: 1 },
            Item::Function(Function { name: "main".to_string(), line: 2, params: Vec::new(), body: vec![Stmt::Expr(call, 2), Stmt::Return(Some(lit("APPLE")), 3)] }),
        ],
        meta: ModuleMeta::default(),
    };
    let table = collect_string_literals(&m);
    assert_eq!(
        table,
        vec![
            ("APPLE".to_string(), "STR_0".to_string()),
            ("MANGO".to_string(), "STR_1".to_string()),
            ("ZEBRA".to_string(), "STR_2".to_string()),
        ]
    );
}

#[test]
fn powers_of_two_give_their_exponent() {
    assert_eq!(power_of_two_const(&Expr::Number(8)), Some(3));
    assert_eq!(power_of_two_const(&Expr::Number(0x8000)), Some(15));
    assert_eq!(power_of_two_const(&Expr::Number(1)), None);
    assert_eq!(power_of_two_const(&Expr::Number(6)), None);
    assert_eq!(power_of_two_const(&Expr::Number(0x10004)), Some(2));
}

#[test]
fn expression_references() {
    assert_eq!(format_expr_ref(&Expr::Number(-3)), "N:-3");
    assert_eq!(format_expr_ref(&Expr::Ident(IdentInfo { name: "x".to_string(), source_line: 1, col: 1 })), "I:x");
    assert_eq!(format_expr_ref(&lit("hi")), "S:hi");
    assert_eq!(format_expr_ref(&Expr::Not(Box::new(Expr::Number(1)))), "?");
}

#[test]
fn fresh_labels_count_up() {
    let mut counter = 0usize;
    assert_eq!(fresh_label("IF_END", &mut counter), "IF_END_0");
    assert_eq!(fresh_label("IF_END", &mut counter), "IF_END_1");
    assert_eq!(counter, 2);
}

#[test]
fn opcode_sizes() {
    assert_eq!(get_instruction_size(0x86, None), 2);
    assert_eq!(get_instruction_size(0x39, None), 1);
    assert_eq!(get_instruction_size(0xBD, None), 3);
    assert_eq!(get_instruction_size(0x10, None), 1);
}

#[test]
fn emitted_line_sizes() {
    assert_eq!(estimate_instruction_size("; comment"), 0);
    assert_eq!(estimate_instruction_size("LABEL:"), 0);
    assert_eq!(estimate_instruction_size("    FCB 1,2,3"), 3);
    assert_eq!(estimate_instruction_size("    FDB $10,$20"), 4);
}

#[test]
fn trig_calls_are_found_in_functions() {
    let sin = Expr::Call(CallInfo { name: "Math.Sin".to_string(), source_line: 1, col: 1, args: vec![Expr::Number(1)] });
    assert!(expr_has_trig(&sin));
    let plain = Expr::Call(CallInfo { name: "PRINT".to_string(), source_line: 1, col: 1, args: vec![sin] });
    assert!(!expr_has_trig(&plain));
    let cos = Expr::Call(CallInfo { name: "cos".to_string(), source_line: 2, col: 1, args: Vec::new() });
    let with_trig = Module {
        items: vec![Item::Function(Function {
            name: "main".to_string(),
            line: 1,
            params: Vec::new(),
            body: vec![Stmt::While { cond: Expr::Number(1), body: vec![Stmt::Expr(cos, 2)], source_line: 1 }],
        })],
        meta: ModuleMeta::default(),
    };
    assert!(module_uses_trig(&with_trig));
    let without = Module { items: vec![Item::ExprStatement(plain)], meta: ModuleMeta::default() };
    assert!(!module_uses_trig(&without));
}
