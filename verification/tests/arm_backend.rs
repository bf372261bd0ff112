use vpy_core::ast::{
    AssignTarget, BinOp, CallInfo, CmpOp, Expr, Function, IdentInfo, Item, LogicOp, Module,
    ModuleMeta, Stmt,
};
use vpy_core::backend::arm::{collect_locals, collect_symbols, emit, emit_expr, emit_function, emit_stmt};
use vpy_core::backend::m6809::utils::{FuncCtx, LoopCtx};
use vpy_core::codegen::CodegenOptions;

fn num(n: i32) -> Expr {
    Expr::Number(n)
}

fn id(s: &str) -> Expr {
    Expr::Ident(IdentInfo { name: s.to_string(), source_line: 1, col: 0 })
}

fn call(name: &str, args: Vec<Expr>) -> Expr {
    Expr::Call(CallInfo { name: name.to_string(), source_line: 1, col: 0, args })
}

fn bin(op: BinOp, l: Expr, r: Expr) -> Expr {
    Expr::Binary { op, left: Box::new(l), right: Box::new(r) }
}

fn ctx(locals: &[&str], frame: i32) -> FuncCtx {
    FuncCtx { locals: locals.iter().map(|s| s.to_string()).collect(), frame_size: frame }
}

fn no_loop() -> LoopCtx {
    LoopCtx { start: None, end: None }
}

fn expr_text(e: &Expr, f: &FuncCtx, strs: &Vec<(String, String)>, counter: &mut usize) -> String {
    let mut out = String::new();
    emit_expr(e, &mut out, f, strs, counter);
    out
}

fn stmt_text(s: &Stmt, f: &FuncCtx, counter: &mut usize) -> String {
    let mut out = String::new();
    emit_stmt(s, &mut out, &no_loop(), f, &Vec::new(), counter);
    out
}

fn test_opts() -> CodegenOptions {
    CodegenOptions {
        title: "test".into(),
        auto_loop: false,
        diag_freeze: false,
        force_extended_jsr: false,
        _bank_size: 0,
        per_frame_silence: false,
        debug_init_draw: false,
        blink_intensity: false,
        exclude_ram_org: false,
        fast_wait: false,
        emit_sections: false,
        source_path: None,
        assets: vec![],
        const_values: vec![],
        type_context: vec![],
    }
}

#[test]
fn arm_numbers_and_variables() {
    let f = ctx(&["a", "x"], 4);
    let mut c = 0;
    assert_eq!(expr_text(&num(5), &f, &Vec::new(), &mut c), "    MOV r0, #5\n");
    assert_eq!(expr_text(&num(-7), &f, &Vec::new(), &mut c), "    MOV r0, #-7\n");
    assert_eq!(expr_text(&id("x"), &f, &Vec::new(), &mut c), "    LDRH r0, [sp, #2]\n");
    assert_eq!(expr_text(&id("speed"), &f, &Vec::new(), &mut c), "    LDR r0, =VAR_SPEED\n    LDR r0, [r0]\n");
    assert_eq!(c, 0);
}

#[test]
fn arm_string_literals_use_their_labels() {
    let f = ctx(&[], 0);
    let strs = vec![("HI".to_string(), "STR_0".to_string())];
    let mut c = 0;
    assert_eq!(expr_text(&Expr::StringLit("HI".into()), &f, &strs, &mut c), "    LDR r0, =STR_0\n");
    assert_eq!(
        expr_text(&Expr::StringLit("NO".into()), &f, &strs, &mut c),
        "    MOV r0,#0 ; missing string label (should not happen)\n"
    );
}

#[test]
fn arm_powers_of_two_become_shifts() {
    let f = ctx(&[], 0);
    let mut c = 0;
    assert_eq!(
        expr_text(&bin(BinOp::Mul, id("y"), num(8)), &f, &Vec::new(), &mut c),
        "    LDR r0, =VAR_Y\n    LDR r0, [r0]\n    LSL r0, r0, #3\n    AND r0, r0, #0xFFFF\n"
    );
    assert_eq!(
        expr_text(&bin(BinOp::Mul, num(4), num(3)), &f, &Vec::new(), &mut c),
        "    MOV r0, #3\n    LSL r0, r0, #2\n    AND r0, r0, #0xFFFF\n"
    );
    assert_eq!(
        expr_text(&bin(BinOp::Div, num(100), num(16)), &f, &Vec::new(), &mut c),
        "    MOV r0, #100\n    LSR r0, r0, #4\n    AND r0, r0, #0xFFFF\n"
    );
    assert_eq!(
        expr_text(&bin(BinOp::Mul, num(5), num(65536)), &f, &Vec::new(), &mut c),
        "    MOV r0, #5\n    LSL r0, r0, #16\n    AND r0, r0, #0xFFFF\n"
    );
    assert_eq!(
        expr_text(&bin(BinOp::Mul, num(5), num(1)), &f, &Vec::new(), &mut c),
        "    MOV r0, #5\n    LSL r0, r0, #0\n    AND r0, r0, #0xFFFF\n"
    );
}

#[test]
fn arm_general_binary_operations() {
    let f = ctx(&[], 0);
    let mut c = 0;
    assert_eq!(
        expr_text(&bin(BinOp::Add, num(1), num(2)), &f, &Vec::new(), &mut c),
        "    MOV r0, #1\n    MOV r4, r0\n    MOV r0, #2\n    MOV r5, r0\n    ADD r0, r4, r5\n    AND r0, r0, #0xFFFF\n"
    );
    assert_eq!(
        expr_text(&bin(BinOp::Mul, num(3), num(0)), &f, &Vec::new(), &mut c),
        "    MOV r0, #3\n    MOV r4, r0\n    MOV r0, #0\n    MOV r5, r0\n    MOV r0,r4\n    MOV r1,r5\n    BL __mul32\n    AND r0, r0, #0xFFFF\n"
    );
    assert_eq!(
        expr_text(&bin(BinOp::BitXor, num(3), num(6)), &f, &Vec::new(), &mut c),
        "    MOV r0, #3\n    MOV r4, r0\n    MOV r0, #6\n    MOV r5, r0\n    EOR r0, r4, r5\n"
    );
    assert_eq!(
        expr_text(&Expr::Not(Box::new(num(0))), &f, &Vec::new(), &mut c),
        "    MOV r0, #0\n    CMP r0,#0\n    MOVEQ r0,#1\n    MOVNE r0,#0\n"
    );
    assert_eq!(
        expr_text(&Expr::BitNot(Box::new(num(1))), &f, &Vec::new(), &mut c),
        "    MOV r0, #1\n    MVN r0,r0\n    AND r0,r0,#0xFFFF\n"
    );
}

#[test]
fn arm_comparisons_and_logic_use_fresh_labels() {
    let f = ctx(&[], 0);
    let mut c = 7;
    let cmp = Expr::Compare { op: CmpOp::Lt, left: Box::new(num(1)), right: Box::new(num(2)) };
    assert_eq!(
        expr_text(&cmp, &f, &Vec::new(), &mut c),
        "    MOV r0, #1\n    MOV r4, r0\n    MOV r0, #2\n    MOV r5, r0\n    CMP r4, r5\n    MOV r0, #0\n    BLT CMP_T_7\n    B CMP_E_8\nCMP_T_7:\n    MOV r0, #1\nCMP_E_8:\n"
    );
    assert_eq!(c, 9);
    let mut c = 0;
    let and = Expr::Logic { op: LogicOp::And, left: Box::new(num(1)), right: Box::new(num(0)) };
    assert_eq!(
        expr_text(&and, &f, &Vec::new(), &mut c),
        "    MOV r0, #1\n    CMP r0,#0\n    BEQ AND_FALSE_0\n    MOV r0, #0\n    CMP r0,#0\n    BEQ AND_FALSE_0\n    MOV r0,#1\n    B AND_END_1\nAND_FALSE_0:\n    MOV r0,#0\nAND_END_1:\n"
    );
    let mut c = 3;
    let or = Expr::Logic { op: LogicOp::Or, left: Box::new(num(0)), right: Box::new(num(1)) };
    assert_eq!(
        expr_text(&or, &f, &Vec::new(), &mut c),
        "    MOV r0, #0\n    CMP r0,#0\n    BNE OR_TRUE_3\n    MOV r0, #1\n    CMP r0,#0\n    BNE OR_TRUE_3\n    MOV r0,#0\n    B OR_END_4\nOR_TRUE_3:\n    MOV r0,#1\nOR_END_4:\n"
    );
    assert_eq!(c, 5);
}

#[test]
fn arm_builtins_are_inlined() {
    let f = ctx(&[], 0);
    let mut c = 0;
    assert_eq!(
        expr_text(&call("abs", vec![num(-3)]), &f, &Vec::new(), &mut c),
        "    MOV r0, #-3\n    CMP r0,#0\n    BGE ABS_DONE_0\n    RSBS r0,r0,#0\nABS_DONE_0:\n"
    );
    assert_eq!(
        expr_text(&call("math_max", vec![num(1), num(2)]), &f, &Vec::new(), &mut c),
        "    MOV r0, #1\n    MOV r4,r0\n    MOV r0, #2\n    MOV r5,r0\n    CMP r4,r5\n    BGE 1f\n    MOV r0,r5\n    B 2f\n1:  MOV r0,r4\n2:\n"
    );
    assert_eq!(
        expr_text(&call("cos", vec![num(10)]), &f, &Vec::new(), &mut c),
        "    MOV r0, #10\n    AND r0,r0,#0x7F\n    LSL r0,r0,#1\n    LDR r1, =SIN_TABLE\n    LDR r1, =COS_TABLE\n    ADD r1,r1,r0\n    LDRH r0,[r1]\n"
    );
    assert_eq!(
        expr_text(&call("move", vec![num(1), num(2)]), &f, &Vec::new(), &mut c),
        "    MOV r0, #1\n    MOV r0, #2\n    MOV r0,#0\n"
    );
    assert_eq!(expr_text(&call("min", vec![num(1)]), &f, &Vec::new(), &mut c), "    MOV r0,#0\n");
    assert_eq!(
        expr_text(&call("clamp", vec![num(5), num(0), num(9)]), &f, &Vec::new(), &mut c),
        "    MOV r0, #5\n    MOV r4,r0\n    MOV r0, #0\n    MOV r5,r0\n    MOV r0, #9\n    MOV r6,r0\n    CMP r4,r5\n    BLT 1f\n    CMP r4,r6\n    BGT 2f\n    MOV r0,r4\n    B 3f\n1:  MOV r0,r5\n    B 3f\n2:  MOV r0,r6\n3:\n"
    );
    assert_eq!(c, 1);
}

#[test]
fn arm_calls_pass_four_arguments_in_registers() {
    let f = ctx(&[], 0);
    let mut c = 0;
    assert_eq!(
        expr_text(&call("foo", vec![num(1), num(2), num(3)]), &f, &Vec::new(), &mut c),
        "    MOV r0, #3\n    MOV r2 , r0\n    MOV r0, #2\n    MOV r1 , r0\n    MOV r0, #1\n    BL foo\n"
    );
    assert_eq!(
        expr_text(&call("bar", vec![num(1), num(2), num(3), num(4), num(5)]), &f, &Vec::new(), &mut c),
        "    MOV r0, #4\n    MOV r3 , r0\n    MOV r0, #3\n    MOV r2 , r0\n    MOV r0, #2\n    MOV r1 , r0\n    MOV r0, #1\n    BL bar\n"
    );
}

#[test]
fn arm_assignments_and_returns() {
    let f = ctx(&["i"], 4);
    let mut c = 0;
    let assign = Stmt::Assign {
        target: AssignTarget { name: "score".into(), source_line: 1, col: 0 },
        value: num(1),
        source_line: 1,
    };
    assert_eq!(stmt_text(&assign, &f, &mut c), "    MOV r0, #1\n    LDR r1, =VAR_SCORE\n    STR r0, [r1]\n");
    let set_local = Stmt::Assign { target: AssignTarget { name: "i".into(), source_line: 1, col: 0 }, value: num(2), source_line: 1 };
    assert_eq!(stmt_text(&set_local, &f, &mut c), "    MOV r0, #2\n    STRH r0, [sp, #0]\n");
    let let_local = Stmt::Let { name: "i".into(), value: num(3), source_line: 1 };
    assert_eq!(stmt_text(&let_local, &f, &mut c), "    MOV r0, #3\n    STRH r0, [sp, #0]\n");
    let let_other = Stmt::Let { name: "j".into(), value: num(3), source_line: 1 };
    assert_eq!(stmt_text(&let_other, &f, &mut c), "    MOV r0, #3\n");
    assert_eq!(stmt_text(&Stmt::Return(Some(num(5)), 1), &f, &mut c), "    MOV r0, #5\n    ADD sp, sp, #4\n    BX LR\n");
    assert_eq!(stmt_text(&Stmt::Return(None, 1), &ctx(&[], 0), &mut c), "    BX LR\n");
    assert_eq!(stmt_text(&Stmt::Break { source_line: 1 }, &f, &mut c), "    ; break outside loop\n");
    assert_eq!(stmt_text(&Stmt::Continue { source_line: 1 }, &f, &mut c), "    ; continue outside loop\n");
}

#[test]
fn arm_while_loops_break_to_their_end() {
    let f = ctx(&[], 0);
    let mut c = 0;
    let w = Stmt::While { cond: id("flag"), body: vec![Stmt::Break { source_line: 2 }], source_line: 1 };
    assert_eq!(
        stmt_text(&w, &f, &mut c),
        "WH_0:\n    LDR r0, =VAR_FLAG\n    LDR r0, [r0]\n    CMP r0, #0\n    BEQ WH_END_1\n    B WH_END_1\n    B WH_0\nWH_END_1:\n"
    );
    assert_eq!(c, 2);
}

#[test]
fn arm_for_loops_over_locals_and_globals() {
    let mut c = 0;
    let l = Stmt::For {
        var: "i".into(),
        start: num(0),
        end: num(10),
        step: None,
        body: vec![Stmt::Continue { source_line: 2 }],
        source_line: 1,
    };
    assert_eq!(
        stmt_text(&l, &ctx(&["i"], 2), &mut c),
        "    MOV r0, #0\n    STRH r0, [sp, #0]\nFOR_0:\n    LDRH r1, [sp, #0]\n    MOV r0, #10\n    CMP r1, r0\n    BGE FOR_END_1\n    B FOR_0\n    MOV r0, #1\n    LDRH r3, [sp, #0]\n    ADD r3, r3, r0\n    AND r3, r3, #0xFFFF\n    STRH r3, [sp, #0]\n    B FOR_0\nFOR_END_1:\n"
    );
    let mut c = 0;
    let g = Stmt::For { var: "k".into(), start: num(0), end: num(3), step: Some(num(2)), body: vec![], source_line: 1 };
    assert_eq!(
        stmt_text(&g, &ctx(&[], 0), &mut c),
        "    MOV r0, #0\n    LDR r1, =VAR_K\n    STR r0, [r1]\nFOR_0:\n    LDR r1, =VAR_K\n    LDR r1, [r1]\n    MOV r0, #3\n    CMP r1, r0\n    BGE FOR_END_1\n    MOV r0, #2\n    LDR r2, =VAR_K\n    LDR r3, [r2]\n    ADD r3, r3, r0\n    STR r3, [r2]\n    B FOR_0\nFOR_END_1:\n"
    );
}

#[test]
fn arm_if_chains() {
    let f = ctx(&[], 0);
    let full = Stmt::If {
        cond: num(1),
        body: vec![Stmt::Expr(num(5), 1)],
        elifs: vec![(num(2), vec![Stmt::Expr(num(6), 2)])],
        else_body: Some(vec![Stmt::Expr(num(7), 3)]),
        source_line: 1,
    };
    let mut c = 0;
    assert_eq!(
        stmt_text(&full, &f, &mut c),
        "    MOV r0, #1\n    CMP r0, #0\n    BEQ IF_NEXT_1\n    MOV r0, #5\n    B IF_END_0\nIF_NEXT_1:\n    MOV r0, #2\n    CMP r0, #0\n    BEQ IF_NEXT_2\n    MOV r0, #6\n    B IF_END_0\nIF_NEXT_2:\n    MOV r0, #7\nIF_END_0:\n"
    );
    assert_eq!(c, 3);
    let no_else = Stmt::If {
        cond: num(1),
        body: vec![Stmt::Expr(num(5), 1)],
        elifs: vec![(num(2), vec![Stmt::Expr(num(6), 2)])],
        else_body: None,
        source_line: 1,
    };
    let mut c = 0;
    assert_eq!(
        stmt_text(&no_else, &f, &mut c),
        "    MOV r0, #1\n    CMP r0, #0\n    BEQ IF_NEXT_1\n    MOV r0, #5\n    B IF_END_0\nIF_NEXT_1:\n    MOV r0, #2\n    CMP r0, #0\n    BEQ IF_END_0\n    MOV r0, #6\n    B IF_END_0\nIF_END_0:\nIF_END_0:\n"
    );
    let plain = Stmt::If { cond: num(1), body: vec![Stmt::Expr(num(5), 1)], elifs: vec![], else_body: None, source_line: 1 };
    let mut c = 0;
    assert_eq!(
        stmt_text(&plain, &f, &mut c),
        "    MOV r0, #1\n    CMP r0, #0\n    BEQ IF_NEXT_1\n    MOV r0, #5\n    B IF_END_0\nIF_END_0:\n"
    );
}

#[test]
fn arm_small_switch_compares_each_case() {
    let f = ctx(&[], 0);
    let sw = Stmt::Switch {
        expr: num(1),
        cases: vec![(num(1), vec![Stmt::Expr(num(10), 2)]), (num(2), vec![Stmt::Expr(num(20), 3)])],
        default: None,
        source_line: 1,
    };
    let mut c = 0;
    assert_eq!(
        stmt_text(&sw, &f, &mut c),
        "    MOV r0, #1\n    MOV r4, r0\n    MOV r0, #1\n    MOV r5, r0\n    CMP r4, r5\n    BEQ SW_CASE_1\n    MOV r0, #2\n    MOV r5, r0\n    CMP r4, r5\n    BEQ SW_CASE_2\n    B SW_END_0\nSW_CASE_1:\n    MOV r0, #10\n    B SW_END_0\nSW_CASE_2:\n    MOV r0, #20\n    B SW_END_0\nSW_END_0:\n"
    );
    assert_eq!(c, 3);
}

#[test]
fn arm_dense_switch_uses_a_jump_table() {
    let f = ctx(&[], 0);
    let sw = Stmt::Switch {
        expr: num(2),
        cases: vec![
            (num(3), vec![Stmt::Expr(num(13), 2)]),
            (num(1), vec![Stmt::Expr(num(11), 3)]),
            (num(2), vec![Stmt::Expr(num(12), 4)]),
        ],
        default: Some(vec![Stmt::Expr(num(99), 5)]),
        source_line: 1,
    };
    let mut c = 0;
    assert_eq!(
        stmt_text(&sw, &f, &mut c),
        "    MOV r0, #2\n    MOV r4, r0\n    MOV r5,#1\n    CMP r4,r5\n    BLT SW_DEF_1\n    MOV r5,#3\n    CMP r4,r5\n    BGT SW_DEF_1\n    SUB r4,r4,#1\n    LDR r5, =SW_JT_2\n    LSL r4,r4,#2\n    ADD r5,r5,r4\n    LDR r5, [r5]\n    MOV r15,r5 ; jump indirect\nSW_CASE_3:\n    MOV r0, #11\n    B SW_END_0\nSW_CASE_4:\n    MOV r0, #12\n    B SW_END_0\nSW_CASE_5:\n    MOV r0, #13\n    B SW_END_0\nSW_DEF_1:\n    MOV r0, #99\nSW_END_0:\nSW_JT_2:\n    .word SW_CASE_3\n    .word SW_CASE_4\n    .word SW_CASE_5\n"
    );
    assert_eq!(c, 6);
}

#[test]
fn arm_jump_table_gaps_go_to_the_end() {
    let f = ctx(&[], 0);
    let sw = Stmt::Switch {
        expr: num(0),
        cases: vec![(num(0), vec![]), (num(2), vec![]), (num(3), vec![])],
        default: None,
        source_line: 1,
    };
    let mut c = 0;
    assert_eq!(
        stmt_text(&sw, &f, &mut c),
        "    MOV r0, #0\n    MOV r4, r0\n    MOV r5,#0\n    CMP r4,r5\n    BLT SW_END_0\n    MOV r5,#3\n    CMP r4,r5\n    BGT SW_END_0\n    LDR r5, =SW_JT_1\n    LSL r4,r4,#2\n    ADD r5,r5,r4\n    LDR r5, [r5]\n    MOV r15,r5 ; jump indirect\nSW_CASE_2:\n    B SW_END_0\nSW_CASE_3:\n    B SW_END_0\nSW_CASE_4:\n    B SW_END_0\nSW_END_0:\nSW_JT_1:\n    .word SW_CASE_2\n    .word SW_END_0\n    .word SW_CASE_3\n    .word SW_CASE_4\n"
    );
}

#[test]
fn arm_sparse_switch_falls_back_to_comparisons() {
    let f = ctx(&[], 0);
    let sw = Stmt::Switch {
        expr: num(0),
        cases: vec![(num(0), vec![]), (num(50), vec![]), (num(100), vec![])],
        default: None,
        source_line: 1,
    };
    let mut c = 0;
    let text = stmt_text(&sw, &f, &mut c);
    assert!(text.contains("    BEQ SW_CASE_1\n"));
    assert!(!text.contains("SW_JT"));
    assert_eq!(c, 4);
}

#[test]
fn arm_functions_store_parameters_and_return() {
    let f = Function {
        name: "main".into(),
        line: 1,
        params: vec!["a".into(), "b".into()],
        body: vec![
            Stmt::Let { name: "x".into(), value: id("a"), source_line: 2 },
            Stmt::Return(Some(id("x")), 3),
        ],
    };
    let mut out = String::new();
    let mut c = 0;
    emit_function(&f, &mut out, &Vec::new(), &mut c);
    assert_eq!(
        out,
        ".global main\nmain:\n    SUB sp, sp, #2\n    LDR r4, =VAR_A\n    STR r0 , [r4]\n    LDR r4, =VAR_B\n    STR r1 , [r4]\n    LDR r0, =VAR_A\n    LDR r0, [r0]\n    STRH r0, [sp, #0]\n    LDRH r0, [sp, #0]\n    ADD sp, sp, #2\n    BX LR\n\n"
    );
    let empty = Function { name: "f".into(), line: 1, params: vec![], body: vec![] };
    let mut out = String::new();
    emit_function(&empty, &mut out, &Vec::new(), &mut c);
    assert_eq!(out, ".global f\nf:\n    BX LR\n\n");
}

#[test]
fn arm_locals_include_loop_variables_but_not_switch_bodies() {
    let body = vec![
        Stmt::Let { name: "b".into(), value: num(0), source_line: 1 },
        Stmt::For { var: "a".into(), start: num(0), end: num(1), step: None, body: vec![Stmt::Let { name: "c".into(), value: num(0), source_line: 2 }], source_line: 2 },
        Stmt::Switch { expr: num(0), cases: vec![(num(0), vec![Stmt::Let { name: "d".into(), value: num(0), source_line: 3 }])], default: None, source_line: 3 },
        Stmt::Let { name: "b".into(), value: num(1), source_line: 4 },
    ];
    assert_eq!(collect_locals(&body), vec!["a".to_string(), "b".to_string(), "c".to_string()]);
}

#[test]
fn arm_symbols_leave_out_locals() {
    let f = Function {
        name: "main".into(),
        line: 1,
        params: vec![],
        body: vec![
            Stmt::Assign { target: AssignTarget { name: "x".into(), source_line: 1, col: 0 }, value: id("y"), source_line: 1 },
            Stmt::Let { name: "z".into(), value: id("w"), source_line: 2 },
            Stmt::For { var: "q".into(), start: id("s"), end: id("e"), step: None, body: vec![], source_line: 3 },
            Stmt::Expr(id("z"), 4),
        ],
    };
    let m = Module { items: vec![Item::Function(f)], meta: ModuleMeta::default() };
    assert_eq!(collect_symbols(&m), vec!["e".to_string(), "s".to_string(), "x".to_string(), "y".to_string()]);
}

#[test]
fn arm_module_layout() {
    let main = Function {
        name: "main".into(),
        line: 3,
        params: vec![],
        body: vec![Stmt::Expr(call("print_text", vec![Expr::StringLit("HI".into())]), 4)],
    };
    let m = Module {
        items: vec![
            Item::Const { name: "N".into(), value: num(5), source_line: 1 },
            Item::GlobalLet { name: "g".into(), value: num(70000), source_line: 2 },
            Item::Function(main),
            Item::ExprStatement(num(1)),
        ],
        meta: ModuleMeta::default(),
    };
    let mut c = 0;
    let listing = emit(&m, "0x0", &test_opts(), "TRIG\n", &mut c);
    assert!(listing.starts_with("; --- ARM backend (PiTrex) --- title='test' origin=0x0 ---\n"));
    let items = ".equ N , 5\nGVAR_G: .word 4464\n.global main\nmain:\n    LDR r0, =STR_0\n    MOV r0,#0\n    BX LR\n\n; ExprStatement ignored on ARM backend (TODO: implement top-level execution)\n";
    assert!(listing.contains(items));
    assert!(listing.contains("; Trig tables (shared)\nTRIG\n; String literals (null-terminated)\nSTR_0: .ascii \"HI\"\n    .byte 0\n"));
    assert!(listing.ends_with("VAR_ARG3: .word 0\n"));
    assert!(listing.contains("__mul32:\n") && listing.contains("__div32:\n"));
    assert_eq!(c, 0);
}
