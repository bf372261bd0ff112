use vpy_core::ast::{Expr, Function, Item, Module, ModuleMeta, Stmt};
use vpy_core::backend::m6809::header::{
    emit_cartridge_header, emit_plain_entry, emit_ram_equ, main_has_content_exec, emit_ram_vars, emit_string_section, emit_tail_vars,
    entry_error_exec, try_emit_cartridge_header,
};
use vpy_core::codegen::{AssetInfo, AssetType, CodegenOptions};

fn meta(copyright: Option<&str>, music: Option<&str>) -> ModuleMeta {
    ModuleMeta {
        title_override: None,
        metas: vec![],
        music_override: music.map(|s| s.to_string()),
        copyright_override: copyright.map(|s| s.to_string()),
    }
}

fn header(m: &ModuleMeta, title: &str) -> String {
    let mut out = String::new();
    emit_cartridge_header(m, title, &mut out);
    out
}

fn expected(copy: &str, music: &str, title: &str) -> String {
    format!(
        "    FCC \"{}\"\n    FCB $80\n    FDB {}\n    FCB $F8\n    FCB $50\n    FCB $20\n    FCB $BB\n    FCC \"{}\"\n    FCB $80\n    FCB 0\n\n",
        copy, music, title
    )
}

#[test]
fn test_header_defaults_and_title_cleanup() {
    assert_eq!(header(&meta(None, None), "My Game!"), expected("g GCE 1982", "music1", "MY GAME "));
    assert_eq!(header(&meta(None, None), ""), expected("g GCE 1982", "music1", " "));
}

#[test]
fn test_header_overrides() {
    assert_eq!(
        header(&meta(Some("g GCE 1982 ACME"), Some("0")), "x"),
        expected("g GCE 1982 ACME", "$0000", "X")
    );
    assert_eq!(
        header(&meta(Some("ACME 2024"), Some("tune")), "x"),
        expected("g GCE 1982", "tune", "X")
    );
}

#[test]
fn test_header_title_cut() {
    assert_eq!(
        header(&meta(None, None), "abcdefghijklmnopqrstuvwxyz0123"),
        expected("g GCE 1982", "music1", "ABCDEFGHIJKLMNOPQRSTUVWX")
    );
    let twelve_wide = "é".repeat(13);
    assert_eq!(header(&meta(None, None), &twelve_wide), expected("g GCE 1982", "music1", &" ".repeat(12)));
    let mut out = String::from("x");
    let bad = format!("A{}", "é".repeat(12));
    assert!(!try_emit_cartridge_header(&meta(None, None), &bad, &mut out));
    assert_eq!(out, "x");
    assert!(try_emit_cartridge_header(&meta(None, None), "ok", &mut out));
    assert_eq!(out, format!("x{}", expected("g GCE 1982", "music1", "OK")));
}

fn func(name: &str) -> Item {
    Item::Function(Function { name: name.to_string(), line: 1, params: vec![], body: vec![] })
}

#[test]
fn test_entry_error() {
    let m = |items: Vec<Item>| Module { items, meta: meta(None, None) };
    assert_eq!(entry_error_exec(&m(vec![func("MAIN"), func("Loop")])), None);
    assert_eq!(
        entry_error_exec(&m(vec![func("loop")])),
        Some("; ERROR: Missing required function 'def main():'\n; The main() function is required for initialization code that runs once at startup.\n        ; Compilation failed - please add def main(): function\n")
    );
    assert_eq!(
        entry_error_exec(&m(vec![func("main")])),
        Some("; ERROR: Missing required function 'def loop():'\n; The loop() function is required and contains code that runs every frame (60 FPS).\n        ; Compilation failed - please add def loop(): function\n")
    );
}

#[test]
fn test_ram_equ() {
    let head = "\n; === RAM VARIABLE DEFINITIONS (EQU) ===\n; Must be defined BEFORE builtin helpers that reference them\nRESULT         EQU $C880   ; Main result temporary\n";
    let mut out = String::new();
    emit_ram_equ(&vec![], &mut out);
    assert_eq!(out, format!("{}\n", head));
    let sfx = AssetInfo { name: "boom".into(), path: "boom.vsfx".into(), asset_type: AssetType::Sfx };
    let mut out = String::new();
    emit_ram_equ(&vec![sfx], &mut out);
    assert!(out.starts_with(head));
    assert!(out.contains("SFX_PTR        EQU $C8A8"));
    assert!(!out.contains("PSG_MUSIC_PTR"));
    assert!(out.ends_with("SFX_ACTIVE     EQU $C8B0   ; Playback state (RESULT+$30, 1 byte)\n\n"));
    let music = AssetInfo { name: "theme".into(), path: "theme.vmus".into(), asset_type: AssetType::Music };
    let mut out = String::new();
    emit_ram_equ(&vec![music], &mut out);
    assert!(out.contains("PSG_MUSIC_PTR    EQU $C89C"));
    assert!(!out.contains("SFX_PTR"));
}

fn usage(tmp_left: bool) -> vpy_core::backend::m6809::analysis::RuntimeUsage {
    vpy_core::backend::m6809::analysis::RuntimeUsage {
        needs_mul_helper: false,
        needs_div_helper: false,
        needs_tmp_left: tmp_left,
        needs_tmp_right: false,
        needs_tmp_ptr: false,
        needs_line_vars: false,
        needs_vcur_vars: false,
        needs_vectorlist_runtime: false,
        wrappers_used: vec![],
    }
}

#[test]
fn test_ram_vars() {
    let syms = vec!["x".to_string()];
    let vl_fdb = "VL_PTR:    FDB 0    ; Current position in vector list\nVL_Y:      FCB 0    ; Y position\nVL_X:      FCB 0    ; X position\nVL_SCALE:  FCB 0    ; Scale factor\n";
    let mut out = String::new();
    emit_ram_vars(&usage(true), false, &vec![], true, &syms, 2, &mut out);
    assert_eq!(
        out,
        format!(
            "    ORG $C880 ; begin runtime variables in RAM\n; Variables (in RAM)\nRESULT:   FDB 0\nTMPLEFT:  FDB 0\nTEMP_YX:   FDB 0   ; Temporary y,x storage\n{}VAR_X: FDB 0\n; Call argument scratch space\nVAR_ARG0: FDB 0\nVAR_ARG1: FDB 0\n",
            vl_fdb
        )
    );
    let vl_equ = "VL_PTR     EQU $CF80      ; Current position in vector list\nVL_Y       EQU $CF82      ; Y position (1 byte)\nVL_X       EQU $CF83      ; X position (1 byte)\nVL_SCALE   EQU $CF84      ; Scale factor (1 byte)\n";
    let mut out = String::new();
    emit_ram_vars(&usage(true), true, &vec![], true, &vec!["x".to_string(), "y".to_string()], 2, &mut out);
    assert_eq!(
        out,
        format!(
            "; Variables (in RAM)\nTMPLEFT   EQU RESULT+2\nTEMP_YX   EQU RESULT+26   ; Temporary y,x storage (2 bytes)\n{}VAR_X EQU $CF00+0\nVAR_Y EQU $CF00+2\n; Call argument scratch space\nVAR_ARG0 EQU $C8B2\nVAR_ARG1 EQU $C8B4\n",
            vl_equ
        )
    );
    let mut out = String::new();
    emit_ram_vars(&usage(false), false, &vec![], true, &vec![], 0, &mut out);
    assert_eq!(out, format!("RESULT:   FDB 0\nTEMP_YX:   FDB 0   ; Temporary y,x storage\n{}", vl_fdb));
}

#[test]
fn test_string_section() {
    let strs = vec![
        ("hello".to_string(), "STR_0".to_string()),
        ("theme".to_string(), "STR_1".to_string()),
        ("world".to_string(), "STR_2".to_string()),
    ];
    let theme = AssetInfo { name: "theme".into(), path: "theme.vmus".into(), asset_type: AssetType::Music };
    let mut out = String::new();
    emit_string_section(&strs, &vec![theme], false, &mut out);
    assert_eq!(
        out,
        "; String literals (classic FCC + $80 terminator)\nSTR_0:\n    FCC \"HELLO\"\n    FCB $80\nSTR_2:\n    FCC \"WORLD\"\n    FCB $80\n"
    );
    let mut out = String::new();
    emit_string_section(&vec![("hi".to_string(), "STR_5".to_string())], &vec![], true, &mut out);
    assert_eq!(out, "STR_0:\n    FCC \"HI\"\n    FCB $80\n");
    let mut out = String::new();
    emit_string_section(&vec![], &vec![], false, &mut out);
    assert_eq!(out, "");
}

fn opts(exclude: bool, diag: bool, blink: bool) -> CodegenOptions {
    CodegenOptions {
        title: "test".into(),
        auto_loop: false,
        diag_freeze: diag,
        force_extended_jsr: false,
        _bank_size: 0,
        per_frame_silence: false,
        debug_init_draw: false,
        blink_intensity: blink,
        exclude_ram_org: exclude,
        fast_wait: false,
        emit_sections: false,
        source_path: None,
        assets: vec![],
        const_values: vec![],
        type_context: vec![],
    }
}

#[test]
fn test_tail_vars() {
    let mut u = usage(false);
    u.needs_vcur_vars = true;
    let mut out = String::new();
    emit_tail_vars(&u, &opts(true, true, true), 3, true, "T\n", &mut out);
    assert_eq!(
        out,
        "DIAG_COUNTER EQU RESULT+6\nVCUR_X EQU RESULT+7\nVCUR_Y EQU RESULT+8\nDRAW_VEC_X EQU RESULT+9\nDRAW_VEC_Y EQU RESULT+10\nBLINK_STATE EQU RESULT+11\n; Trig tables (shared)\nT\n"
    );
    let mut out = String::new();
    emit_tail_vars(&usage(false), &opts(false, false, false), 3, false, "T\n", &mut out);
    assert_eq!(out, "; DRAW_VECTOR position offset\nDRAW_VEC_X: FCB 0\nDRAW_VEC_Y: FCB 0\n");
}

#[test]
fn test_main_has_content() {
    assert!(!main_has_content_exec(&vec![]));
    assert!(!main_has_content_exec(&vec![Stmt::Return(None, 1), Stmt::Return(None, 2)]));
    assert!(main_has_content_exec(&vec![Stmt::Return(None, 1), Stmt::Expr(Expr::Number(1), 2)]));
}

#[test]
fn test_plain_entry() {
    let mut out = String::new();
    emit_plain_entry(&opts(false, false, false), &mut out);
    assert_eq!(
        out,
        "; Init without implicit loop (auto_loop disabled)\nENTRY_START: LDS #Vec_Default_Stk ; set default stack like BIOS examples\n    JSR Wait_Recal\n    JSR Intensity_5F\n    JSR MAIN ; user initialization\n    JSR LOOP ; user loop\nHANG: BRA HANG\n\n"
    );
    let mut o = opts(false, false, true);
    o.force_extended_jsr = true;
    let mut out = String::new();
    emit_plain_entry(&o, &mut out);
    assert!(out.contains("    JSR >Wait_Recal\n    JSR VECTREX_BLINK_INT\n"));
}
