use vpy_core::ast::{
    AssignTarget, BinOp, CallInfo, CmpOp, Expr, Function, IdentInfo, Item, Module, ModuleMeta, Stmt,
};
use vpy_core::backend::cortexm::{collect_symbols, emit, emit_expr, emit_stmt};
use vpy_core::backend::m6809::utils::{FuncCtx, LoopCtx};
use vpy_core::codegen::CodegenOptions;

fn num(n: i32) -> Expr {
    Expr::Number(n)
}

fn id(s: &str) -> Expr {
    Expr::Ident(IdentInfo { name: s.to_string(), source_line: 1, col: 0 })
}

fn ctx(locals: &[&str], frame: i32) -> FuncCtx {
    FuncCtx { locals: locals.iter().map(|s| s.to_string()).collect(), frame_size: frame }
}

fn expr_text(e: &Expr, f: &FuncCtx, counter: &mut usize) -> String {
    let mut out = String::new();
    emit_expr(e, &mut out, f, &Vec::new(), counter);
    out
}

fn stmt_text(s: &Stmt, f: &FuncCtx, counter: &mut usize) -> String {
    let mut out = String::new();
    emit_stmt(s, &mut out, &LoopCtx { start: None, end: None }, f, &Vec::new(), counter);
    out
}

fn test_opts() -> CodegenOptions {
    CodegenOptions {
        title: "demo".into(),
        auto_loop: false,
        diag_freeze: false,
        force_extended_jsr: false,
        _bank_size: 0,
        per_frame_silence: false,
        debug_init_draw: false,
        blink_intensity: false,
        exclude_ram_org: false,
        fast_wait: false,
        emit_sections: false,
        source_path: None,
        assets: vec![],
        const_values: vec![],
        type_context: vec![],
    }
}

#[test]
fn cortexm_expression_spellings() {
    let f = ctx(&["a", "x"], 4);
    let mut c = 0;
    assert_eq!(expr_text(&num(5), &f, &mut c), "    MOV r0,#5\n");
    assert_eq!(expr_text(&id("x"), &f, &mut c), "    LDR r0, [sp, #2]\n");
    assert_eq!(expr_text(&id("speed"), &f, &mut c), "    LDR r0, =VAR_SPEED\n    LDR r0,[r0]\n");
    assert_eq!(
        expr_text(&Expr::Binary { op: BinOp::Sub, left: Box::new(num(9)), right: Box::new(num(4)) }, &f, &mut c),
        "    MOV r0,#9\n    MOV r4,r0\n    MOV r0,#4\n    MOV r5,r0\n    SUB r0,r4,r5\n    AND r0,r0,#0xFFFF\n"
    );
    assert_eq!(
        expr_text(&Expr::Binary { op: BinOp::Mod, left: Box::new(num(9)), right: Box::new(num(4)) }, &f, &mut c),
        "    MOV r0,#9\n    MOV r4,r0\n    MOV r0,#4\n    MOV r5,r0\n    MOV r0,r4\n    MOV r1,r5\n    BL __div32\n    MOV r2,r0\n    MUL r2,r2,r5\n    RSBS r0,r2,r4\n    AND r0,r0,#0xFFFF\n"
    );
    assert_eq!(
        expr_text(&Expr::Binary { op: BinOp::Mul, left: Box::new(id("y")), right: Box::new(num(2)) }, &f, &mut c),
        "    LDR r0, =VAR_Y\n    LDR r0,[r0]\n    LSL r0,r0,#1\n    AND r0,r0,#0xFFFF\n"
    );
    assert_eq!(c, 0);
}

#[test]
fn cortexm_comparisons_and_builtins() {
    let f = ctx(&[], 0);
    let mut c = 4;
    let cmp = Expr::Compare { op: CmpOp::Ge, left: Box::new(num(1)), right: Box::new(num(2)) };
    assert_eq!(
        expr_text(&cmp, &f, &mut c),
        "    MOV r0,#1\n    MOV r4,r0\n    MOV r0,#2\n    MOV r5,r0\n    CMP r4,r5\n    MOV r0,#0\n    BGE CT_4\n    B CE_5\nCT_4:\n    MOV r0,#1\nCE_5:\n"
    );
    let sin = Expr::Call(CallInfo { name: "sin".into(), source_line: 1, col: 0, args: vec![num(3)] });
    assert_eq!(
        expr_text(&sin, &f, &mut c),
        "    MOV r0,#3\n    AND r0,r0,#0x7F\n    LSL r0,r0,#1\n    LDR r1,=SIN_TABLE\n    ADD r1,r1,r0\n    LDRH r0,[r1]\n"
    );
    let tan = Expr::Call(CallInfo { name: "MATH_TAN".into(), source_line: 1, col: 0, args: vec![num(3)] });
    assert_eq!(
        expr_text(&tan, &f, &mut c),
        "    MOV r0,#3\n    AND r0,r0,#0x7F\n    LSL r0,r0,#1\n    LDR r1,=SIN_TABLE\n    LDR r1,=TAN_TABLE\n    ADD r1,r1,r0\n    LDRH r0,[r1]\n"
    );
    assert_eq!(c, 6);
}

#[test]
fn cortexm_statements() {
    let f = ctx(&[], 0);
    let mut c = 0;
    assert_eq!(stmt_text(&Stmt::Break { source_line: 1 }, &f, &mut c), "");
    assert_eq!(stmt_text(&Stmt::Continue { source_line: 1 }, &f, &mut c), "");
    let iff = Stmt::If { cond: num(1), body: vec![], elifs: vec![], else_body: Some(vec![]), source_line: 1 };
    assert_eq!(
        stmt_text(&iff, &f, &mut c),
        "    MOV r0,#1\n    CMP r0,#0\n    BEQ IF_NEXT_1\n    B IF_END_0\nIF_NEXT_1:\nIF_END_0:\n"
    );
    let sw = Stmt::Switch {
        expr: num(1),
        cases: vec![(num(1), vec![]), (num(2), vec![])],
        default: Some(vec![]),
        source_line: 1,
    };
    let mut c = 0;
    assert_eq!(
        stmt_text(&sw, &f, &mut c),
        "    MOV r0,#1\n    MOV r4,r0\n    MOV r0,#1\n    CMP r4,r0\n    BEQ SW_CASE_2\n    MOV r0,#2\n    CMP r4,r0\n    BEQ SW_CASE_3\n    B SW_DEF_1\nSW_CASE_2:\n    B SW_END_0\nSW_CASE_3:\n    B SW_END_0\nSW_DEF_1:\nSW_END_0:\n"
    );
    let table = Stmt::Switch {
        expr: num(1),
        cases: vec![(num(1), vec![]), (num(2), vec![]), (num(3), vec![])],
        default: None,
        source_line: 1,
    };
    let mut c = 0;
    assert_eq!(
        stmt_text(&table, &f, &mut c),
        "    MOV r0,#1\n    MOV r4,r0\n    MOV r5,#1\n    CMP r4,r5\n    BLT SW_END_0\n    MOV r5,#3\n    CMP r4,r5\n    BGT SW_END_0\n    SUB r4,r4,#1\n    LDR r5, =SW_JT_1\n    LSL r4,r4,#2\n    ADD r5,r5,r4\n    LDR r5, [r5]\n    BX r5\nSW_CASE_2:\n    B SW_END_0\nSW_CASE_3:\n    B SW_END_0\nSW_CASE_4:\n    B SW_END_0\nSW_END_0:\nSW_JT_1:\n    .word SW_CASE_2\n    .word SW_CASE_3\n    .word SW_CASE_4\n"
    );
}

#[test]
fn cortexm_symbols_include_let_values_and_top_level_expressions() {
    let f = Function {
        name: "main".into(),
        line: 1,
        params: vec![],
        body: vec![
            Stmt::Let { name: "z".into(), value: id("w"), source_line: 2 },
            Stmt::Assign { target: AssignTarget { name: "x".into(), source_line: 3, col: 0 }, value: num(1), source_line: 3 },
        ],
    };
    let m = Module { items: vec![Item::Function(f), Item::ExprStatement(id("top"))], meta: ModuleMeta::default() };
    assert_eq!(collect_symbols(&m), vec!["top".to_string(), "w".to_string(), "x".to_string()]);
}

#[test]
fn cortexm_module_layout() {
    let main = Function { name: "main".into(), line: 2, params: vec![], body: vec![Stmt::Return(None, 3)] };
    let m = Module {
        items: vec![
            Item::Const { name: "N".into(), value: num(-1), source_line: 1 },
            Item::GlobalLet { name: "g".into(), value: num(3), source_line: 1 },
            Item::Function(main),
        ],
        meta: ModuleMeta::default(),
    };
    let mut c = 0;
    let text = emit(&m, "vecfever", "0x08000000", &test_opts(), "", &mut c);
    assert!(text.starts_with("; --- Cortex-M backend (vecfever) title='demo' origin=0x08000000 ---\n"));
    assert!(text.contains("Reset_Handler:\n    BL engine_init\n    BL main\n1:  B 1b\n\n.equ N , 65535\n.global main\nmain:\n    BX LR\n\n;****"));
    assert!(text.contains("; Data\n    .section .data\n; Trig tables (shared)\n; Call arg scratch\n"));
    assert!(text.ends_with("VAR_ARG3: .word 0\n"));
    assert!(!text.contains("GVAR_"));
}
