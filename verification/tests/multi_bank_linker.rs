use vpy_core::backend::m6809::multi_bank_linker::MultiBankLinker;

#[test]
fn test_split_asm_by_bank() {
    let text = r#"
; Header
    ORG $0000

; ================================================
; BANK #31 - 2 function(s)
; ================================================
    ORG $4000  ; Fixed bank

LOOP_BODY:
    RTS

; ================================================
; BANK #0 - 13 function(s)
; ================================================
    ORG $0000  ; Banked window

INIT_GAME:
    RTS
"#;

    let linker = MultiBankLinker::new(16384, 32, true);
    let sections = linker.split_asm_by_bank(text).unwrap();

    assert_eq!(sections.len(), 3); // 2 banks + 1 header
    assert!(sections.contains_key(&31));
    assert!(sections.contains_key(&0));
    assert!(sections.contains_key(&255)); // header

    let bank31 = sections.get(&31).unwrap();
    assert_eq!(bank31.org, 0x4000);
    assert!(bank31.asm_code.contains("LOOP_BODY"));

    let bank0 = sections.get(&0).unwrap();
    assert_eq!(bank0.org, 0x0000);
    assert!(bank0.asm_code.contains("INIT_GAME"));
}

#[test]
fn split_puts_runtime_helpers_before_org_of_earlier_banks() {
    let text = "INCLUDE \"VECTREX.I\"\n; BANK #0 - 1 function(s)\n    ORG $0000\nA_FUNC:\n    RTS\n; BANK #1 - 1 function(s)\n    ORG $0000\nB_FUNC:\n    RTS\n; ===== HELPERS =====\n";
    let linker = MultiBankLinker::new(16384, 32, true);
    let sections = linker.split_asm_by_bank(text).unwrap();
    assert_eq!(sections.len(), 2);
    let bank0 = sections.get(&0).unwrap();
    assert_eq!(
        bank0.asm_code,
        "INCLUDE \"VECTREX.I\"\n\n\n; ===== HELPERS =====\n\n    ORG $0000\nA_FUNC:\n    RTS\n"
    );
    assert_eq!(bank0.size_estimate, bank0.asm_code.len());
    let bank1 = sections.get(&1).unwrap();
    assert_eq!(
        bank1.asm_code,
        "INCLUDE \"VECTREX.I\"\n\n\n; ===== HELPERS =====\n\n; ===== HELPERS =====\n\n    ORG $0000\nB_FUNC:\n    RTS\n"
    );
}

#[test]
fn split_without_banks_is_only_the_header() {
    let linker = MultiBankLinker::new(16384, 32, true);
    let sections = linker.split_asm_by_bank("START:\n    RTS\n").unwrap();
    assert_eq!(sections.len(), 2);
    assert_eq!(sections.get(&255).unwrap().asm_code, "START:\n    RTS\n");
    assert_eq!(sections.get(&31).unwrap().org, 0x4000);
    assert_eq!(sections.get(&31).unwrap().asm_code, "\n\n\nSTART:\n    RTS\n");
}

#[test]
fn split_shares_array_data_with_other_banks() {
    let text = "; BANK #0 - 1 function(s)\n    ORG $0000\nF0:\n    RTS\n; BANK #1 - 1 function(s)\n    ORG $0000\nF1:\n    RTS\n; Const array literal\nARR: FDB 1\n";
    let linker = MultiBankLinker::new(16384, 32, true);
    let sections = linker.split_asm_by_bank(text).unwrap();
    assert!(sections.get(&0).unwrap().asm_code.ends_with("\n; Const array literal\nARR: FDB 1\n"));
    assert_eq!(sections.get(&1).unwrap().asm_code.matches("ARR: FDB 1").count(), 1);
}

#[test]
fn short_branches_become_long_ones() {
    let text = "    BRA LOOP\n; BRA not code\nFOO:\n\tBEQ END\n    LDA #1\n";
    assert_eq!(
        vpy_core::backend::m6809::multi_bank_linker::convert_short_to_long_branches(text),
        "    LBRA LOOP\n; BRA not code\nFOO:\n LBEQ END\n    LDA #1\n"
    );
}
