use vpy_core::backend::asm_address_mapper::{generate_asm_address_map, map_asm_lines};
use vpy_core::backend::debug_info::DebugInfo;

fn chars(lines: &[&str]) -> Vec<Vec<char>> {
    lines.iter().map(|l| l.chars().collect()).collect()
}

#[test]
fn lines_before_first_org_are_not_mapped() {
    let lines = chars(&["    FCC \"HEADER\"", "    ORG $0000", "START:", "    LDA #1", "; comment", "    RTS"]);
    // LDA immediate (0x86) is two bytes, RTS (0x39) one.
    let bin = vec![0u8, 0, 0, 0, 0x86, 0x01, 0x39];
    let map = map_asm_lines(&lines, &bin, 4, &Vec::new());
    assert_eq!(map.len(), 3);
    assert_eq!((map[0].line_number, map[0].address), (2, 4));
    assert_eq!(map[0].instruction, "ORG $0000");
    assert_eq!((map[1].line_number, map[1].address), (4, 4));
    assert_eq!(map[1].instruction, "LDA #1");
    assert_eq!((map[2].line_number, map[2].address), (6, 6));
}

#[test]
fn labels_take_addresses_from_the_symbol_table() {
    let lines = chars(&["    ORG $0000", "FAR:", "    RTS"]);
    let bin = vec![0u8; 0x40];
    let symbols = vec![("FAR".to_string(), 0x30u16)];
    let map = map_asm_lines(&lines, &bin, 0x10, &symbols);
    assert_eq!(map.len(), 2);
    // FAR is at runtime address 0x30; the logical address is 0x20
    assert_eq!((map[1].line_number, map[1].address), (3, 0x30));
}

#[test]
fn sizes_past_the_binary_are_estimated() {
    let lines = chars(&["    ORG $0000", "    LDD #$1234", "    JSR FOO", "    NOP"]);
    let map = map_asm_lines(&lines, &Vec::new(), 0, &Vec::new());
    assert_eq!(map.len(), 4);
    assert_eq!(map[1].address, 0);
    assert_eq!(map[2].address, 3);
    assert_eq!(map[3].address, 6);
}

#[test]
fn address_map_is_recorded_in_debug_info() {
    let text = "    ORG $0000\n    LDA #1\n    RTS\n";
    let bin = vec![0x86u8, 0x01, 0x39];
    let mut d = DebugInfo::new("main.vpy".to_string(), "main.bin".to_string());
    generate_asm_address_map(text, &bin, 0, &Vec::new(), "main.asm", &mut d);
    let find = |k: &str| d.asm_address_map.iter().find(|(a, _)| a == k).map(|(_, v)| v.clone());
    assert_eq!(find("1"), Some("0x0000".to_string()));
    assert_eq!(find("2"), Some("0x0000".to_string()));
    assert_eq!(find("3"), Some("0x0002".to_string()));
    assert!(d.asm_functions.is_empty());
}

#[test]
fn org_directives_in_lower_case_are_read() {
    let lines = chars(&["    org $0010", "    NOP"]);
    let map = map_asm_lines(&lines, &Vec::new(), 0, &Vec::new());
    assert_eq!(map.len(), 2);
    assert_eq!(map[0].address, 0x10);
    assert_eq!(map[1].address, 0x10);
}

#[test]
fn lower_case_lines_are_not_instructions() {
    let lines = chars(&["    ORG $0000", "lda #1", "    NOP"]);
    let map = map_asm_lines(&lines, &Vec::new(), 0, &Vec::new());
    assert_eq!(map.len(), 2);
    assert_eq!(map[1].line_number, 3);
}
