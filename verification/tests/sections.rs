use vpy_core::backend::m6809::helpers::{emit_div_helper, emit_mul_helper};
use vpy_core::backend::m6809::sections::{
    emit_bss_section, emit_data_section, emit_function_section, emit_header_section,
    emit_helpers_section, emit_loop_section, emit_main_section, emit_rodata_section, emit_section,
};
use vpy_core::codegen::CodegenOptions;

fn test_opts(emit_sections: bool) -> CodegenOptions {
    CodegenOptions {
        title: "test".into(),
        auto_loop: false,
        diag_freeze: false,
        force_extended_jsr: false,
        _bank_size: 0,
        per_frame_silence: false,
        debug_init_draw: false,
        blink_intensity: false,
        exclude_ram_org: false,
        fast_wait: false,
        emit_sections,
        source_path: None,
        assets: vec![],
        const_values: vec![],
        type_context: vec![],
    }
}

#[test]
fn test_emit_section_disabled() {
    let mut out = String::new();
    let opts = test_opts(false);
    emit_section(&mut out, &opts, ".text.main", "ax", "@progbits");
    assert_eq!(out, "");
}

#[test]
fn test_emit_section_enabled() {
    let mut out = String::new();
    let opts = test_opts(true);
    emit_section(&mut out, &opts, ".text.main", "ax", "@progbits");
    assert_eq!(out, ".section .text.main, \"ax\", @progbits\n");
}

#[test]
fn test_emit_main_section() {
    let mut out = String::new();
    let opts = test_opts(true);
    emit_main_section(&mut out, &opts);
    assert_eq!(out, ".section .text.main, \"ax\", @progbits\n");
}

#[test]
fn test_emit_rodata_section() {
    let mut out = String::new();
    let opts = test_opts(true);
    emit_rodata_section(&mut out, &opts);
    assert_eq!(out, ".section .rodata, \"a\", @progbits\n");
}

#[test]
fn test_emit_bss_section() {
    let mut out = String::new();
    let opts = test_opts(true);
    emit_bss_section(&mut out, &opts);
    assert_eq!(out, ".section .bss, \"aw\", @nobits\n");
}

#[test]
fn other_section_markers() {
    let opts = test_opts(true);
    let mut out = String::from("X");
    emit_header_section(&mut out, &opts);
    emit_loop_section(&mut out, &opts);
    emit_helpers_section(&mut out, &opts);
    emit_data_section(&mut out, &opts);
    emit_function_section(&mut out, &opts, "DrawShip");
    assert_eq!(
        out,
        "X.section .text.header, \"ax\", @progbits\n.section .text.loop, \"ax\", @progbits\n.section .text.fixed, \"ax\", @progbits\n.section .data, \"aw\", @progbits\n.section .text.drawship, \"ax\", @progbits\n"
    );
    let mut quiet = String::from("Y");
    emit_function_section(&mut quiet, &test_opts(false), "DrawShip");
    assert_eq!(quiet, "Y");
}

#[test]
fn helper_routines() {
    let mut out = String::new();
    emit_mul_helper(&mut out);
    assert!(out.starts_with("MUL16:\n    LDD MUL_A\n"));
    assert!(out.ends_with("    STD RESULT\n    RTS\n\n"));
    let mut d = String::new();
    emit_div_helper(&mut d);
    assert!(d.starts_with("DIV16:\n    LDD #0\n"));
    assert!(d.contains("DIV16_LOOP:\n"));
}
