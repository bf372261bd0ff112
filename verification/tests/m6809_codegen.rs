use vpy_core::ast::{
    AssignTarget, BinOp, CallInfo, CmpOp, Expr, Function, IdentInfo, LogicOp, Stmt,
};
use vpy_core::backend::debug_info::LineTracker;
use vpy_core::backend::m6809::expr_code::{emit_builtin_call, emit_expr, emit_expr_depth};
use vpy_core::backend::m6809::lowering::{AssetData, ShapeData};
use vpy_core::backend::m6809::stmt_code::{emit_function, emit_stmt};
use vpy_core::backend::m6809::utils::{FuncCtx, LoopCtx};
use vpy_core::codegen::{AssetInfo, AssetType, CodegenOptions};

fn num(n: i32) -> Expr {
    Expr::Number(n)
}

fn id(s: &str) -> Expr {
    Expr::Ident(IdentInfo { name: s.to_string(), source_line: 1, col: 0 })
}

fn call(name: &str, args: Vec<Expr>) -> Expr {
    Expr::Call(CallInfo { name: name.to_string(), source_line: 7, col: 0, args })
}

fn bin(op: BinOp, l: Expr, r: Expr) -> Expr {
    Expr::Binary { op, left: Box::new(l), right: Box::new(r) }
}

fn ctx(locals: &[&str], frame: i32) -> FuncCtx {
    FuncCtx { locals: locals.iter().map(|s| s.to_string()).collect(), frame_size: frame }
}

fn opts(assets: Vec<AssetInfo>) -> CodegenOptions {
    CodegenOptions {
        title: "test".into(),
        auto_loop: false,
        diag_freeze: false,
        force_extended_jsr: false,
        _bank_size: 0,
        per_frame_silence: false,
        debug_init_draw: false,
        blink_intensity: false,
        exclude_ram_org: false,
        fast_wait: false,
        emit_sections: false,
        source_path: None,
        assets,
        const_values: vec![],
        type_context: vec![],
    }
}

fn no_data() -> AssetData {
    AssetData { vector_paths: vec![], shapes: vec![] }
}

fn expr_text(e: &Expr, f: &FuncCtx, counter: &mut usize) -> String {
    let mut out = String::new();
    emit_expr(e, &mut out, f, &Vec::new(), &opts(vec![]), &no_data(), counter);
    out
}

fn stmt_text(s: &Stmt, f: &FuncCtx, counter: &mut usize) -> String {
    let mut out = String::new();
    let mut tracker = LineTracker::new("a.vpy".to_string(), "a.bin".to_string(), 0xC800);
    emit_stmt(s, &mut out, &LoopCtx { start: None, end: None }, f, &Vec::new(), &opts(vec![]), &no_data(), &mut tracker, 0, counter);
    out
}

#[test]
fn m6809_numbers_and_variables() {
    let f = ctx(&["a", "x"], 4);
    let mut c = 0;
    assert_eq!(expr_text(&num(5), &f, &mut c), "    LDD #5\n    STD RESULT\n");
    assert_eq!(expr_text(&num(-7), &f, &mut c), "    LDD #-7\n    STD RESULT\n");
    assert_eq!(expr_text(&id("x"), &f, &mut c), "    LDD 2 ,S\n    STD RESULT\n");
    assert_eq!(expr_text(&id("speed"), &f, &mut c), "    LDD VAR_SPEED\n    STD RESULT\n");
    assert_eq!(c, 0);
}

#[test]
fn m6809_string_literal_labels() {
    let f = ctx(&[], 0);
    let strs = vec![("HI".to_string(), "STR_0".to_string())];
    let mut out = String::new();
    let mut c = 0;
    emit_expr(&Expr::StringLit("HI".to_string()), &mut out, &f, &strs, &opts(vec![]), &no_data(), &mut c);
    emit_expr(&Expr::StringLit("NO".to_string()), &mut out, &f, &strs, &opts(vec![]), &no_data(), &mut c);
    assert_eq!(out, "    LDX #STR_0\n    STX RESULT\n    LDD #0\n    STD RESULT\n");
}

#[test]
fn m6809_comparison_uses_two_labels() {
    let f = ctx(&["a", "x"], 4);
    let mut c = 0;
    let e = Expr::Compare { op: CmpOp::Lt, left: Box::new(id("x")), right: Box::new(num(3)) };
    assert_eq!(
        expr_text(&e, &f, &mut c),
        "    LDD 2 ,S\n    STD RESULT\n    LDD RESULT\n    STD TMPLEFT\n    LDD #3\n    STD RESULT\n    LDD RESULT\n    STD TMPRIGHT\n    LDD TMPLEFT\n    SUBD TMPRIGHT\n    BLT CT_0\n    LDD #0\n    STD RESULT\n    BRA CE_1\nCT_0:\n    LDD #1\n    STD RESULT\nCE_1:\n"
    );
    assert_eq!(c, 2);
}

#[test]
fn m6809_arithmetic_peepholes() {
    let f = ctx(&["x"], 2);
    let mut c = 0;
    assert_eq!(
        expr_text(&bin(BinOp::Mul, id("x"), num(4)), &f, &mut c),
        "    LDD 0 ,S\n    STD RESULT\n    LDD RESULT\n    ASLB\n    ROLA\n    ASLB\n    ROLA\n    STD RESULT\n"
    );
    assert_eq!(
        expr_text(&bin(BinOp::Div, id("x"), num(2)), &f, &mut c),
        "    LDD 0 ,S\n    STD RESULT\n    LDD RESULT\n    LSRA\n    RORB\n    STD RESULT\n"
    );
    assert_eq!(expr_text(&bin(BinOp::Sub, id("x"), id("x")), &f, &mut c), "    CLRA\n    CLRB\n    STD RESULT\n");
    assert_eq!(
        expr_text(&bin(BinOp::Add, id("x"), id("x")), &f, &mut c),
        "    LDD 0 ,S\n    STD RESULT\n    LDD RESULT\n    ADDD RESULT\n    STD RESULT\n"
    );
    assert_eq!(
        expr_text(&bin(BinOp::Add, num(1), num(2)), &f, &mut c),
        "    LDD #1\n    STD RESULT\n    LDD RESULT\n    STD TMPLEFT\n    LDD #2\n    STD RESULT\n    LDD RESULT\n    STD TMPRIGHT\n    LDD TMPLEFT\n    ADDD TMPRIGHT\n    STD RESULT\n"
    );
    assert_eq!(c, 0);
}

#[test]
fn m6809_logic_labels_in_order() {
    let f = ctx(&[], 0);
    let mut c = 3;
    let e = Expr::Logic { op: LogicOp::Or, left: Box::new(num(0)), right: Box::new(num(1)) };
    assert_eq!(
        expr_text(&e, &f, &mut c),
        "    LDD #0\n    STD RESULT\n    LDD RESULT\n    BNE OR_TRUE_3\n    LDD #1\n    STD RESULT\n    LDD RESULT\n    BNE OR_TRUE_3\n    LDD #0\n    STD RESULT\n    BRA OR_END_4\nOR_TRUE_3:\n    LDD #1\n    STD RESULT\nOR_END_4:\n"
    );
    assert_eq!(c, 5);
}

#[test]
fn m6809_plain_call_stores_arguments() {
    let f = ctx(&[], 0);
    let mut c = 0;
    assert_eq!(
        expr_text(&call("foo", vec![num(1), num(2)]), &f, &mut c),
        "    LDD #1\n    STD RESULT\n    LDD RESULT\n    STD VAR_ARG0\n    LDD #2\n    STD RESULT\n    LDD RESULT\n    STD VAR_ARG1\n    JSR FOO\n"
    );
}

#[test]
fn m6809_builtin_abs_and_native_call() {
    let f = ctx(&["x"], 2);
    let mut c = 0;
    assert_eq!(
        expr_text(&call("abs", vec![id("x")]), &f, &mut c),
        "    LDD 0 ,S\n    STD RESULT\n    LDD RESULT\n    TSTA\n    BPL ABS_DONE_0\n    COMA\n    COMB\n    ADDD #1\nABS_DONE_0: STD RESULT\n"
    );
    assert_eq!(c, 1);
    assert_eq!(
        expr_text(&call("vectrex_set_intensity", vec![num(95)]), &f, &mut c),
        "    LDD #95\n    STD RESULT\n    LDD RESULT\n    STD VAR_ARG0\n; NATIVE_CALL: VECTREX_SET_INTENSITY at line 7\n    JSR VECTREX_SET_INTENSITY\n    CLRA\n    CLRB\n    STD RESULT\n"
    );
}

#[test]
fn m6809_legacy_name_is_redispatched() {
    let f = ctx(&[], 0);
    let mut c = 0;
    assert_eq!(
        expr_text(&call("set_intensity", vec![num(95)]), &f, &mut c),
        "    LDD #95\n    STD RESULT\n    LDD RESULT\n    STD VAR_ARG0\n; NATIVE_CALL: VECTREX_SET_INTENSITY at line 7\n    JSR VECTREX_SET_INTENSITY\n    CLRA\n    CLRB\n    STD RESULT\n"
    );
}

#[test]
fn m6809_builtin_call_reports_whether_it_handled_the_name() {
    let f = ctx(&[], 0);
    let mut out = String::new();
    let mut c = 0;
    let handled = emit_builtin_call("foo", &vec![], &mut out, &f, &Vec::new(), &opts(vec![]), &no_data(), None, &mut c);
    assert!(!handled);
    assert_eq!(out, "");
    let handled = emit_builtin_call("j1_x", &vec![], &mut out, &f, &Vec::new(), &opts(vec![]), &no_data(), Some(5), &mut c);
    assert!(handled);
    assert!(out.starts_with("; NATIVE_CALL: J1_X at line 5\n; J1_X() - Read Joystick 1 X axis"));
    assert!(out.ends_with("    SEX\n    STD RESULT\n"));
}

#[test]
fn m6809_music_and_vector_assets() {
    let f = ctx(&[], 0);
    let assets = vec![
        AssetInfo { name: "player".into(), path: "p.vec".into(), asset_type: AssetType::Vector },
        AssetInfo { name: "theme".into(), path: "t.vmus".into(), asset_type: AssetType::Music },
    ];
    let data = AssetData { vector_paths: vec![2, 0], shapes: vec![] };
    let mut out = String::new();
    let mut c = 0;
    emit_expr(&call("PLAY_MUSIC", vec![Expr::StringLit("theme".into())]), &mut out, &f, &Vec::new(), &opts(assets.clone()), &data, &mut c);
    assert_eq!(out, "; PLAY_MUSIC(\"theme\") - play music asset\n    LDX #_THEME_MUSIC\n    JSR PLAY_MUSIC_RUNTIME\n    LDD #0\n    STD RESULT\n");
    let mut out = String::new();
    emit_expr(&call("PLAY_MUSIC", vec![Expr::StringLit("other".into())]), &mut out, &f, &Vec::new(), &opts(assets.clone()), &data, &mut c);
    assert_eq!(out, "; ERROR: Music asset 'other' not found\n");
    let mut out = String::new();
    emit_expr(&call("DRAW_VECTOR", vec![Expr::StringLit("player".into()), num(1), num(2)]), &mut out, &f, &Vec::new(), &opts(assets), &data, &mut c);
    assert_eq!(
        out,
        "; DRAW_VECTOR(\"player\", x, y) - 2 path(s) at position\n    LDD #1\n    STD RESULT\n    LDA RESULT+1  ; X position (low byte)\n    STA DRAW_VEC_X\n    LDD #2\n    STD RESULT\n    LDA RESULT+1  ; Y position (low byte)\n    STA DRAW_VEC_Y\n    LDX #_PLAYER_PATH0  ; Path 0\n    JSR Draw_Sync_List_At\n    LDX #_PLAYER_PATH1  ; Path 1\n    JSR Draw_Sync_List_At\n    LDD #0\n    STD RESULT\n"
    );
}

#[test]
fn m6809_constant_circle_uses_given_vertices() {
    let f = ctx(&[], 0);
    let verts: Vec<(i32, i32)> = (0..16).map(|k| (k, 0)).collect();
    let data = AssetData {
        vector_paths: vec![],
        shapes: vec![ShapeData { name: "DRAW_CIRCLE".into(), args: vec![0, 0, 10], verts }],
    };
    let mut out = String::new();
    let mut c = 0;
    emit_expr(&call("draw_circle", vec![num(0), num(0), num(10)]), &mut out, &f, &Vec::new(), &opts(vec![]), &data, &mut c);
    assert!(out.starts_with("    LDA #$D0\n    TFR A,DP\n"));
    assert!(out.ends_with("    LDD #0\n    STD RESULT\n"));
}

#[test]
fn m6809_deep_expression_depth_is_threaded() {
    let f = ctx(&[], 0);
    let mut out = String::new();
    let mut c = 0;
    emit_expr_depth(&Expr::Not(Box::new(num(1))), &mut out, &f, &Vec::new(), &opts(vec![]), &no_data(), 499, &mut c);
    assert_eq!(out, "    LDD #1\n    STD RESULT\n    LDD RESULT\n    BEQ NOT_TRUE\n    LDD #0\n    STD RESULT\n    BRA NOT_END\nNOT_TRUE:\n    LDD #1\n    STD RESULT\nNOT_END:\n");
}

#[test]
fn m6809_statements_carry_line_markers() {
    let f = ctx(&["i"], 2);
    let mut c = 0;
    let s = Stmt::Let { name: "i".into(), value: num(3), source_line: 4 };
    assert_eq!(stmt_text(&s, &f, &mut c), "    ; VPy_LINE:4\n    LDD #3\n    STD RESULT\n    LDX RESULT\n    STX 0 ,S\n");
    let s = Stmt::Assign {
        target: AssignTarget { name: "score".into(), source_line: 5, col: 0 },
        value: num(1),
        source_line: 5,
    };
    assert_eq!(
        stmt_text(&s, &f, &mut c),
        "    ; VPy_LINE:5\n    LDD #1\n    STD RESULT\n    LDX RESULT\n    LDU #VAR_SCORE\n    STU TMPPTR\n    STX ,U\n"
    );
    let s = Stmt::Return(None, 6);
    assert_eq!(stmt_text(&s, &f, &mut c), "    ; VPy_LINE:6\n    LEAS 2 ,S ; free locals\n    RTS\n");
}

#[test]
fn m6809_while_loop_labels() {
    let f = ctx(&[], 0);
    let mut c = 0;
    let s = Stmt::While { cond: num(1), body: vec![Stmt::Break { source_line: 3 }], source_line: 2 };
    assert_eq!(
        stmt_text(&s, &f, &mut c),
        "    ; VPy_LINE:2\nWH_0: ; while start\n    LDD #1\n    STD RESULT\n    LDD RESULT\n    LBEQ WH_END_1\n    ; VPy_LINE:3\n    BRA WH_END_1\n    LBRA WH_0\nWH_END_1: ; while end\n"
    );
    assert_eq!(c, 2);
}

#[test]
fn m6809_if_without_else_defines_next_label() {
    let f = ctx(&[], 0);
    let mut c = 0;
    let s = Stmt::If { cond: num(1), body: vec![], elifs: vec![], else_body: None, source_line: 9 };
    assert_eq!(
        stmt_text(&s, &f, &mut c),
        "    ; VPy_LINE:9\n    LDD #1\n    STD RESULT\n    LDD RESULT\n    LBEQ IF_NEXT_1\n    LBRA IF_END_0\nIF_NEXT_1:\nIF_END_0:\n"
    );
    let mut c = 0;
    let s = Stmt::If { cond: num(1), body: vec![], elifs: vec![(num(0), vec![])], else_body: None, source_line: 9 };
    assert_eq!(
        stmt_text(&s, &f, &mut c),
        "    ; VPy_LINE:9\n    LDD #1\n    STD RESULT\n    LDD RESULT\n    LBEQ IF_NEXT_1\n    LBRA IF_END_0\nIF_NEXT_1:\n    LDD #0\n    STD RESULT\n    LDD RESULT\n    LBEQ IF_END_0\n    LBRA IF_END_0\nIF_END_0:\n"
    );
}

#[test]
fn m6809_for_loop() {
    let f = ctx(&["i"], 2);
    let mut c = 0;
    let s = Stmt::For { var: "i".into(), start: num(0), end: num(3), step: None, body: vec![], source_line: 1 };
    assert_eq!(
        stmt_text(&s, &f, &mut c),
        "    ; VPy_LINE:1\n    LDD #0\n    STD RESULT\n    LDD RESULT\n    STD 0 ,S\nFOR_0: ; for loop\n    LDD 0 ,S\n    LDD #3\n    STD RESULT\n    LDX RESULT\n    CPD RESULT\n    LBCC FOR_END_1\n    LDX #1\n    LDD 0 ,S\n    ADDD ,X\n    STD 0 ,S\n    LBRA FOR_0\nFOR_END_1: ; for end\n"
    );
}

#[test]
fn m6809_switch_chain_and_jump_table() {
    let f = ctx(&[], 0);
    let mut c = 0;
    let s = Stmt::Switch { expr: id("v"), cases: vec![(num(5), vec![])], default: None, source_line: 1 };
    assert_eq!(
        stmt_text(&s, &f, &mut c),
        "    ; VPy_LINE:1\n    LDD VAR_V\n    STD RESULT\n    LDD RESULT\n    STD TMPLEFT ; switch value\n    LDD #5\n    STD RESULT\n    LDD RESULT\n    SUBD TMPLEFT\n    LBEQ SW_CASE_1\n    LBRA SW_END_0\nSW_CASE_1:\n    LBRA SW_END_0\nSW_END_0:\n"
    );
    let mut c = 0;
    let s = Stmt::Switch {
        expr: id("v"),
        cases: vec![(num(2), vec![]), (num(1), vec![]), (num(3), vec![])],
        default: None,
        source_line: 1,
    };
    assert_eq!(
        stmt_text(&s, &f, &mut c),
        "    ; VPy_LINE:1\n    LDD VAR_V\n    STD RESULT\n    LDD RESULT\n    STD TMPLEFT ; switch value\n    LDD TMPLEFT\n    SUBD #1\n    LBLT SW_END_0\n    CPD #2\n    LBHI SW_END_0\n    ASLB\n    ROLA\n    LDX #SW_JT_1\n    ABX\n    LDD ,X\n    TFR D,X\n    JMP ,X\nSW_CASE_2:\n    LBRA SW_END_0\nSW_CASE_3:\n    LBRA SW_END_0\nSW_CASE_4:\n    LBRA SW_END_0\nSW_END_0:\nSW_JT_1:\n    FDB SW_CASE_2\n    FDB SW_CASE_3\n    FDB SW_CASE_4\n"
    );
}

#[test]
fn m6809_statement_lines_are_recorded() {
    let f = ctx(&[], 0);
    let mut out = String::new();
    let mut c = 0;
    let mut tracker = LineTracker::new("a.vpy".to_string(), "a.bin".to_string(), 0xC800);
    let s = Stmt::While { cond: num(1), body: vec![Stmt::Break { source_line: 3 }], source_line: 2 };
    emit_stmt(&s, &mut out, &LoopCtx { start: None, end: None }, &f, &Vec::new(), &opts(vec![]), &no_data(), &mut tracker, 0, &mut c);
    let lm = &tracker.debug_info.line_map;
    assert_eq!(lm.len(), 2);
    assert!(lm.iter().any(|(k, v)| k == "2" && v == "0xC800"));
    assert!(lm.iter().any(|(k, v)| k == "3" && v == "0xC800"));
}

#[test]
fn m6809_function_frame_and_tail() {
    let f = Function {
        name: "main".into(),
        line: 1,
        params: vec!["a".into()],
        body: vec![Stmt::Let { name: "t".into(), value: num(1), source_line: 2 }],
    };
    let mut out = String::new();
    let mut c = 0;
    let mut tracker = LineTracker::new("a.vpy".to_string(), "a.bin".to_string(), 0);
    emit_function(&f, &mut out, &Vec::new(), &opts(vec![]), &no_data(), &mut tracker, &mut c);
    assert_eq!(
        out,
        "MAIN: ; function\n; --- function main ---\n    LEAS -2,S ; allocate locals\n    LDD VAR_ARG0\n    STD VAR_A\n    ; VPy_LINE:2\n    LDD #1\n    STD RESULT\n    LDX RESULT\n    STX 0 ,S\n    LEAS 2,S ; free locals\n    RTS\n\n"
    );
}

#[test]
fn m6809_draw_line_constant_and_variable() {
    let f = ctx(&[], 0);
    let mut c = 0;
    assert_eq!(
        expr_text(&call("DRAW_LINE", vec![num(0), num(0), num(10), num(20), num(127)]), &f, &mut c),
        "    LDA #$D0\n    TFR A,DP\n    LDA #$7F\n    JSR Intensity_a\n    CLR Vec_Misc_Count\n    LDA #$14\n    LDB #$0A\n    JSR Draw_Line_d\n    LDA #$C8\n    TFR A,DP\n    LDD #0\n    STD RESULT\n"
    );
    assert_eq!(
        expr_text(&call("draw_line", vec![id("x"), num(-1), num(1), num(2), num(3)]), &f, &mut c),
        "    LDD VAR_X\n    STD RESULT\n    LDD RESULT\n    STD VAR_ARG0\n    LDD #65535\n    STD VAR_ARG1\n    LDD #1\n    STD VAR_ARG2\n    LDD #2\n    STD VAR_ARG3\n    LDD #3\n    STD VAR_ARG4\n    JSR DRAW_LINE_WRAPPER\n    LDD #0\n    STD RESULT\n"
    );
    assert_eq!(c, 0);
}

#[test]
fn m6809_min_max_clamp_labels() {
    let f = ctx(&[], 0);
    let mut c = 0;
    assert_eq!(
        expr_text(&call("max", vec![num(1), num(2)]), &f, &mut c),
        "    LDD #1\n    STD RESULT\n    LDD RESULT\n    STD TMPLEFT\n    LDD #2\n    STD RESULT\n    LDD RESULT\n    STD TMPRIGHT\n    LDD TMPLEFT\n    SUBD TMPRIGHT\n    BLT MAX_USE_R_0\n    LDD TMPLEFT\n    BRA MAX_DONE_1\nMAX_USE_R_0: LDD TMPRIGHT\nMAX_DONE_1: STD RESULT\n"
    );
    let text = expr_text(&call("clamp", vec![num(5), num(0), num(9)]), &f, &mut c);
    assert!(text.contains("BLT CLAMP_USE_LO_2\n"));
    assert!(text.ends_with("CLAMP_DONE_5: STD RESULT\n"));
    assert_eq!(c, 6);
}
