use vpy_core::backend::debug_info::{
    estimate_asm_size_deprecated, parse_asm_addresses_deprecated, parse_asm_variables,
    parse_native_call_comments, parse_vpy_line_markers_deprecated, DebugInfo, LineTracker,
};

fn lookup<'a, V>(table: &'a [(String, V)], key: &str) -> Option<&'a V> {
    table.iter().find(|(k, _)| k == key).map(|(_, v)| v)
}

#[test]
fn new_debug_info_derives_asm_name_from_binary() {
    let d = DebugInfo::new("main.vpy".to_string(), "game.bin".to_string());
    assert_eq!(d.asm_name, "game.asm");
    assert_eq!(d.version, "1.0");
    assert_eq!(d.entry_point, "0x0000");
    assert!(d.symbols.is_empty());
}

#[test]
fn symbols_and_lines_are_stored_as_hex_addresses() {
    let mut d = DebugInfo::new("main.vpy".to_string(), "main.bin".to_string());
    d.add_symbol("START".to_string(), 0x0030);
    d.add_symbol("START".to_string(), 0x0040);
    d.add_line_mapping(7, 0xC8A0);
    d.set_entry_point(0x1234);
    assert_eq!(d.symbols.len(), 1);
    assert_eq!(lookup(&d.symbols, "START"), Some(&"0x0040".to_string()));
    assert_eq!(lookup(&d.line_map, "7"), Some(&"0xC8A0".to_string()));
    assert_eq!(d.entry_point, "0x1234");
}

#[test]
fn line_tracker_records_current_address() {
    let mut t = LineTracker::new("a.vpy".to_string(), "a.bin".to_string(), 0x100);
    t.set_line(3);
    t.advance(5);
    t.add_symbol("LBL".to_string());
    assert_eq!(t.address(), 0x105);
    t.add_native_call("PRINT".to_string());
    let d = t.finish();
    assert_eq!(lookup(&d.symbols, "LBL"), Some(&"0x0105".to_string()));
    assert_eq!(lookup(&d.line_map, "3"), Some(&"0x0100".to_string()));
    assert_eq!(lookup(&d.native_calls, "3"), Some(&"PRINT".to_string()));
}

#[test]
fn asm_size_counts_data_and_instructions() {
    let text = "START:\n    LDA #1\n    STA $C880\n    FCB 1\n    FDB $1234\n    FCC \"HELLO\"\n; comment\n    RTS\n    JSR PRINT\n";
    // LDA # = 2, STA ext = 3, FCB = 1, FDB = 2, FCC = 5, RTS = 1, JSR = 3
    assert_eq!(estimate_asm_size_deprecated(text), 17);
}

#[test]
fn asm_size_of_indexed_and_long_branch() {
    let text = "    LDD ,X\n    LBRA FAR\n    LEAX 1,X\n    LDX #$1000\n";
    assert_eq!(estimate_asm_size_deprecated(text), 2 + 4 + 2 + 3);
}

#[test]
fn labels_get_addresses_from_org_and_sizes() {
    let text = "    ORG $C000\nSTART:\n    LDA #1\n    JSR FOO\nLOOP::\n    RMB 4\nEND:\n";
    let labels = parse_asm_addresses_deprecated(text, 0);
    assert_eq!(lookup(&labels, "START"), Some(&0xC000));
    assert_eq!(lookup(&labels, "LOOP"), Some(&0xC005));
    assert_eq!(lookup(&labels, "END"), Some(&0xC009));
    assert_eq!(labels.len(), 3);
}

#[test]
fn org_with_decimal_and_hex_prefixes() {
    let text = "    ORG 0x10\nA:\n    ORG 32\nB:\n";
    let labels = parse_asm_addresses_deprecated(text, 0);
    assert_eq!(lookup(&labels, "A"), Some(&0x10));
    assert_eq!(lookup(&labels, "B"), Some(&32));
}

#[test]
fn native_calls_are_read_from_comments() {
    let text = "; NATIVE_CALL: VECTREX_PRINT_TEXT at line 42\n    JSR PRINT\n; NATIVE_CALL: BAD at line x\n; NATIVE_CALL: TWO at line 1 at line 2\n;  NATIVE_CALL: SKIP at line 3\n";
    let calls = parse_native_call_comments(text);
    assert_eq!(calls.len(), 1);
    assert_eq!(calls.get(&42), Some(&"VECTREX_PRINT_TEXT".to_string()));
}

#[test]
fn vpy_line_markers_map_to_next_code_address() {
    let text = "    ORG $0000\n; VPy_LINE:3\n    LDA #1\n; VPy_LINE:4\nMAIN:\n    RTS\n; VPy_LINE:9\n";
    let markers = parse_vpy_line_markers_deprecated(text, 0);
    assert_eq!(lookup(&markers, "3"), Some(&"0x0000".to_string()));
    assert_eq!(lookup(&markers, "4"), Some(&"0x0002".to_string()));
    assert_eq!(lookup(&markers, "9"), Some(&"0x0003".to_string()));
}

#[test]
fn variables_from_equ_lines() {
    let text = "VAR_PLAYER_X EQU $CF10+0\nVAR_ENEMIES_DATA EQU $C880+$04 ; Array data (5 elements)\nRESULT EQU $C880+$00\nPSG_MUSIC_ACTIVE EQU $C8A0\nLEVEL_BUFFER EQU $C900 ; Level (320 bytes)\nVAR_ARG0 EQU $CF00\n; VAR_X EQU 1\n";
    let vars = parse_asm_variables(text);
    let x = lookup(&vars, "player_x").unwrap();
    assert_eq!(x.address, "0xCF10");
    assert_eq!(x.size, 2);
    assert_eq!(x.var_type, "int");
    let e = lookup(&vars, "enemies").unwrap();
    assert_eq!(e.address, "0xC884");
    assert_eq!(e.size, 5); // the count in parentheses is taken as the size
    assert_eq!(e.var_type, "array");
    let r = lookup(&vars, "RESULT").unwrap();
    assert_eq!(r.var_type, "system");
    assert_eq!(r.size, 2);
    let m = lookup(&vars, "PSG_MUSIC_ACTIVE").unwrap();
    assert_eq!(m.var_type, "audio");
    assert_eq!(m.size, 1);
    let b = lookup(&vars, "LEVEL_BUFFER").unwrap();
    assert_eq!(b.var_type, "system");
    assert_eq!(b.size, 320);
    let a = lookup(&vars, "arg0").unwrap();
    assert_eq!(a.var_type, "arg");
    assert_eq!(vars.len(), 6);
    for (k, v) in &vars {
        assert_eq!(k, &v.name);
        assert_eq!(v.decl_line, None);
    }
}

#[test]
fn array_size_from_element_count() {
    let vars = parse_asm_variables("VAR_ITEMS_DATA EQU $C800 ; Array (3 elements\n");
    let items = lookup(&vars, "items").unwrap();
    assert_eq!(items.size, 6);
    assert_eq!(items.var_type, "array");
    assert_eq!(items.address, "0xC800");
}

#[test]
fn equ_sum_wraps_to_sixteen_bits() {
    let vars = parse_asm_variables("TMP_HIGH EQU $FFFF+2\n");
    assert_eq!(lookup(&vars, "TMP_HIGH").unwrap().address, "0x0001");
}

#[test]
fn mnemonics_are_upper_cased_before_sizing() {
    assert_eq!(estimate_asm_size_deprecated("    lda #1\n"), 2);
    assert_eq!(estimate_asm_size_deprecated("    rts\n"), 1);
}
