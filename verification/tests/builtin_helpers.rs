use vpy_core::backend::debug_info::DebugInfo;
use vpy_core::backend::m6809::analysis::RuntimeUsage;
use vpy_core::backend::m6809::builtin_helpers::{
    emit_builtin_helpers, BIOS_WRAPPERS_HEAD, DEBUG_PRINT, DRAW_SYNC_LIST, MUSIC_RUNTIME, PHASE_BEGIN,
    PHASE_BEGIN_FAST, PRINT_TEXT, RESET0_FAST, SET_ORIGIN, WAIT_RECAL, WAIT_RECAL_FAST,
};
use vpy_core::codegen::{AssetInfo, AssetType, CodegenOptions};

fn opts(fast_wait: bool, assets: Vec<AssetInfo>) -> CodegenOptions {
    CodegenOptions {
        title: "t".into(),
        auto_loop: false,
        diag_freeze: false,
        force_extended_jsr: false,
        _bank_size: 0,
        per_frame_silence: false,
        debug_init_draw: false,
        blink_intensity: false,
        exclude_ram_org: false,
        fast_wait,
        emit_sections: false,
        source_path: None,
        assets,
        const_values: vec![],
        type_context: vec![],
    }
}

fn usage(wrappers: &[&str]) -> RuntimeUsage {
    let mut w: Vec<String> = wrappers.iter().map(|s| s.to_string()).collect();
    w.sort();
    RuntimeUsage {
        needs_mul_helper: false,
        needs_div_helper: false,
        needs_tmp_left: false,
        needs_tmp_right: false,
        needs_tmp_ptr: false,
        needs_line_vars: false,
        needs_vcur_vars: false,
        needs_vectorlist_runtime: false,
        wrappers_used: w,
    }
}

#[test]
fn helpers_without_wrappers_are_only_the_bios_wrappers() {
    let mut out = String::new();
    let mut dbg = DebugInfo::new("main.vpy".into(), "main.bin".into());
    emit_builtin_helpers(&mut out, &usage(&[]), &opts(false, vec![]), &mut dbg);
    assert!(out.starts_with(BIOS_WRAPPERS_HEAD));
    assert!(out.ends_with(DRAW_SYNC_LIST));
    assert!(dbg.asm_functions.is_empty());
}

#[test]
fn helpers_follow_the_wrappers_used_and_the_options() {
    let mut out = String::from("line one\nline two\n");
    let mut dbg = DebugInfo::new("main.vpy".into(), "main.bin".into());
    emit_builtin_helpers(
        &mut out,
        &usage(&["VECTREX_VECTOR_PHASE_BEGIN", "VECTREX_PRINT_TEXT", "VECTREX_DEBUG_PRINT", "VECTREX_SET_ORIGIN"]),
        &opts(false, vec![]),
        &mut dbg,
    );
    let expected_start = format!("line one\nline two\n{}{}{}{}", PHASE_BEGIN, PRINT_TEXT, DEBUG_PRINT, SET_ORIGIN);
    assert!(out.starts_with(&expected_start));
    assert!(out.contains(&format!("{}{}", SET_ORIGIN, BIOS_WRAPPERS_HEAD)));
    assert!(!out.contains("VECTREX_WAIT_RECAL:"));
    assert!(!out.contains(MUSIC_RUNTIME));
    let lines_before = 2 + PHASE_BEGIN.lines().count();
    let pt = dbg.asm_functions.iter().find(|(k, _)| k == "VECTREX_PRINT_TEXT").unwrap();
    assert_eq!(pt.1.start_line, lines_before + 1);
    assert_eq!(pt.1.end_line, lines_before + PRINT_TEXT.lines().count());
    assert_eq!(pt.1.file, "main.asm");
    assert_eq!(pt.1.func_type, "native");
    let dp = dbg.asm_functions.iter().find(|(k, _)| k == "VECTREX_DEBUG_PRINT").unwrap();
    assert_eq!(dp.1.start_line, pt.1.end_line + 1);
    assert_eq!(dp.1.end_line, pt.1.end_line + DEBUG_PRINT.lines().count());
}

#[test]
fn fast_wait_brings_the_simulated_wait_and_fast_reset() {
    let mut out = String::new();
    let mut dbg = DebugInfo::new("a.vpy".into(), "a.bin".into());
    emit_builtin_helpers(&mut out, &usage(&["VECTREX_VECTOR_PHASE_BEGIN"]), &opts(true, vec![]), &mut dbg);
    assert!(out.starts_with(PHASE_BEGIN_FAST));
    assert!(out.contains(&format!("{}{}", WAIT_RECAL_FAST, RESET0_FAST)));
    let mut plain = String::new();
    emit_builtin_helpers(&mut plain, &usage(&["VECTREX_WAIT_RECAL"]), &opts(false, vec![]), &mut dbg);
    assert!(plain.starts_with(WAIT_RECAL));
}

#[test]
fn music_assets_bring_the_music_player() {
    let mut out = String::new();
    let mut dbg = DebugInfo::new("a.vpy".into(), "a.bin".into());
    let music = AssetInfo { name: "theme".into(), path: "theme.vmus".into(), asset_type: AssetType::Music };
    emit_builtin_helpers(&mut out, &usage(&[]), &opts(false, vec![music]), &mut dbg);
    assert!(out.starts_with(MUSIC_RUNTIME));
}
