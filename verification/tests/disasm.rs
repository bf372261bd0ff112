use vpy_core::disasm::{disasm_one, disasm_range};

fn one(mem: &[u8], pc: usize) -> (String, usize) {
    disasm_one(mem, pc)
}

#[test]
fn test_disasm_one_simple_opcodes() {
    assert_eq!(one(&[0x39], 0), ("0000: 39        RTS".to_string(), 1));
    assert_eq!(one(&[0x4F, 0x5F], 1), ("0001: 5F        CLRB".to_string(), 1));
    assert_eq!(one(&[0x12], 0), ("0000: 12        .db $12".to_string(), 1));
    assert_eq!(one(&[0x3F], 0), ("0000: 3F        SWI".to_string(), 1));
}

#[test]
fn test_disasm_one_prefix_group() {
    assert_eq!(one(&[0x10, 0x8E, 0x12, 0x34], 0), ("0000: 10 8E     LDY #$1234".to_string(), 4));
    assert_eq!(one(&[0x10, 0x3F], 0), ("0000: 10 3F     SWI2".to_string(), 2));
    assert_eq!(one(&[0x10, 0x27, 0x00, 0x10], 0), ("0000: 10 27 0010 LBEQ <rel>".to_string(), 4));
    assert_eq!(one(&[0x10, 0x93], 0), ("0000: 10 93     CMPD <various>".to_string(), 2));
    assert_eq!(one(&[0x10, 0x01], 0), ("0000: 10 01     (unimpl prefix)".to_string(), 2));
}

#[test]
fn test_disasm_one_operands() {
    assert_eq!(one(&[0xBD, 0xF1, 0x92], 0), ("0000: BD F1 92 JSR $F192".to_string(), 3));
    assert_eq!(one(&[0x9D, 0x1F], 0), ("0000: 9D 1F    JSR <$DP1F>".to_string(), 2));
    assert_eq!(one(&[0xCC, 0x00, 0x7F], 0), ("0000: CC 00 7F LDD #$007F".to_string(), 3));
    assert_eq!(one(&[0x86, 0x05], 0), ("0000: 86 05    LDA #$05".to_string(), 2));
    assert_eq!(one(&[0xC1, 0x80], 0), ("0000: C1 80    CMPB #$80".to_string(), 2));
    assert_eq!(one(&[0xF6, 0xC8, 0x00], 0), ("0000: F6 C8 00 LDB $C800".to_string(), 3));
    assert_eq!(one(&[0xDD, 0x10], 0), ("0000: DD 10    STD <$DP10>".to_string(), 2));
    assert_eq!(one(&[0x7A, 0xC8, 0x81], 0), ("0000: 7A C8 81 DEC $C881".to_string(), 3));
    assert_eq!(one(&[0x85, 0x01], 0), ("0000: 85 01    BITA #$01".to_string(), 2));
    assert_eq!(one(&[0xC4, 0x0F], 0), ("0000: C4 0F    IMM8".to_string(), 2));
    assert_eq!(one(&[0x17, 0x01, 0x02], 0), ("0000: 17 01 02 LBSR <rel>".to_string(), 3));
    assert_eq!(one(&[0x34, 0x06], 0), ("0000: 34 06    PSHS (regs)".to_string(), 2));
    assert_eq!(one(&[0x33, 0x84], 0), ("0000: 33 84    LEAU (postbyte)".to_string(), 2));
}

#[test]
fn test_disasm_one_branches() {
    let mut mem = vec![0u8; 0x12];
    mem[0x10] = 0x20;
    mem[0x11] = 0xFE;
    assert_eq!(one(&mem, 0x10), ("0010: 20 FE    BRA $0010".to_string(), 2));
    assert_eq!(one(&[0x8D, 0x80], 0), ("0000: 8D 80    BSR $FF82".to_string(), 2));
    assert_eq!(one(&[0x26, 0x05], 0), ("0000: 26 05    BNE $0007".to_string(), 2));
}

#[test]
fn test_disasm_one_edges() {
    assert_eq!(one(&[0x39], 1), (String::new(), 1));
    assert_eq!(one(&[0xCC], 0), ("0000: CC 00 00 LDD #$0000".to_string(), 3));
    let mut big = vec![0u8; 0x10001];
    big[0x10000] = 0x39;
    assert_eq!(one(&big, 0x10000), ("10000: 39        RTS".to_string(), 1));
}

#[test]
fn test_disasm_range_folds_padding() {
    let (lines, pc) = disasm_range(&[0xFF, 0xFF, 0xFF, 0x39], 0, 4);
    assert_eq!(
        lines,
        vec![
            "0000-0001: [FF padding - 2 bytes]".to_string(),
            "0002: FF        .db $FF".to_string(),
            "0003: 39        RTS".to_string(),
        ]
    );
    assert_eq!(pc, 4);
}

#[test]
fn test_disasm_range_bounds() {
    let (lines, pc) = disasm_range(&[0x39, 0xBD], 0, 100);
    assert_eq!(lines, vec!["0000: 39        RTS".to_string(), "0001: BD 00 00 JSR $0000".to_string()]);
    assert_eq!(pc, 4);
    let (lines, pc) = disasm_range(&[0x39, 0x39, 0x39], 1, 1);
    assert_eq!(lines, vec!["0001: 39        RTS".to_string()]);
    assert_eq!(pc, 2);
    let (lines, pc) = disasm_range(&[0x39], 5, 3);
    assert!(lines.is_empty());
    assert_eq!(pc, 5);
}
