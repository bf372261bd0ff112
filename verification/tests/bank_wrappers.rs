use vpy_core::backend::m6809::bank_wrappers::{
    clear_global_generator, get_wrapper_for_call, init_global_generator, BankWrapperGenerator,
};

fn banks(pairs: &[(&str, u8)]) -> Vec<(String, u8)> {
    pairs.iter().map(|(n, b)| (n.to_string(), *b)).collect()
}

#[test]
fn test_is_cross_bank_call() {
    let generator =
        BankWrapperGenerator::new(banks(&[("func_a", 0), ("func_b", 31), ("func_c", 0)]), 0x4000);

    // Cross-bank call (Bank 0 → Bank 31)
    assert_eq!(generator.is_cross_bank_call("func_a", "func_b"), Some(31));

    // Same-bank call (Bank 0 → Bank 0)
    assert_eq!(generator.is_cross_bank_call("func_a", "func_c"), None);

    // Unknown function
    assert_eq!(generator.is_cross_bank_call("func_a", "unknown"), None);
}

#[test]
fn test_wrapper_generation() {
    let mut generator = BankWrapperGenerator::new(banks(&[("target_func", 31)]), 0x4000);

    let wrapper = generator.generate_wrapper("target_func", 31);

    assert!(wrapper.contains("target_func_BANK_WRAPPER:"));
    assert!(wrapper.contains("LDA #31"));
    assert!(wrapper.contains("STA CURRENT_ROM_BANK"));
    assert!(wrapper.contains("JSR target_func"));

    // Second generation should return empty (already generated)
    let wrapper2 = generator.generate_wrapper("target_func", 31);
    assert!(wrapper2.is_empty());
}

#[test]
fn test_record_cross_bank_call() {
    let mut generator = BankWrapperGenerator::new(banks(&[("caller", 0), ("callee", 31)]), 0x4000);

    generator.record_cross_bank_call("caller".to_string(), "callee".to_string());

    assert_eq!(generator.cross_bank_calls.len(), 1);
    assert_eq!(generator.cross_bank_calls[0].caller_func, "caller");
    assert_eq!(generator.cross_bank_calls[0].callee_func, "callee");
    assert_eq!(generator.cross_bank_calls[0].caller_bank, 0);
    assert_eq!(generator.cross_bank_calls[0].callee_bank, 31);
}

#[test]
fn same_bank_call_is_not_recorded() {
    let mut generator = BankWrapperGenerator::new(banks(&[("a", 2), ("b", 2)]), 0x4000);
    generator.record_cross_bank_call("a".to_string(), "b".to_string());
    generator.record_cross_bank_call("a".to_string(), "missing".to_string());
    assert!(generator.cross_bank_calls.is_empty());
    assert_eq!(generator.generate_all_wrappers(), "");
}

#[test]
fn later_bank_overrides_earlier_one() {
    let generator = BankWrapperGenerator::new(banks(&[("f", 1), ("g", 1), ("f", 3)]), 0x4000);
    assert_eq!(generator.is_cross_bank_call("g", "f"), Some(3));
}

#[test]
fn wrapper_text_is_exact_and_carries_line_marker() {
    let mut generator = BankWrapperGenerator::new(banks(&[("f", 5)]), 0x4000);
    generator.register_function_line("f", 12);
    assert_eq!(generator.wrapper_name("f"), "f_BANK_WRAPPER");
    let w = generator.generate_wrapper("f", 5);
    let expected = "\n; Cross-bank wrapper for f (Bank #5)\nf_BANK_WRAPPER:\n    PSHS A              ; Save A register\n    LDA CURRENT_ROM_BANK ; Read current bank from RAM\n    PSHS A              ; Save current bank on stack\n    LDA #5             ; Load target bank ID\n    STA CURRENT_ROM_BANK ; Switch to target bank (RAM tracker)\n    STA $D000            ; Hardware bank switch register (cartucho intercepts)\n    ; VPy_LINE:12\n    JSR f              ; Call real function\n    PULS A              ; Restore original bank from stack\n    STA CURRENT_ROM_BANK ; Switch back to original bank (RAM tracker)\n    STA $D000            ; Hardware bank switch register (cartucho intercepts)\n    PULS A              ; Restore A register\n    RTS\n";
    assert_eq!(w, expected);
}

#[test]
fn all_wrappers_one_per_callee_in_first_call_order() {
    let mut generator =
        BankWrapperGenerator::new(banks(&[("main", 0), ("x", 1), ("y", 2)]), 0x4000);
    generator.record_cross_bank_call("main".to_string(), "y".to_string());
    generator.record_cross_bank_call("main".to_string(), "x".to_string());
    generator.record_cross_bank_call("main".to_string(), "y".to_string());
    let out = generator.generate_all_wrappers();
    assert!(out.starts_with("\n; ===== CROSS-BANK CALL WRAPPERS =====\n"));
    assert!(out.ends_with("; ===== END CROSS-BANK WRAPPERS =====\n\n"));
    let py = out.find("y_BANK_WRAPPER:").unwrap();
    let px = out.find("x_BANK_WRAPPER:").unwrap();
    assert!(py < px);
    assert_eq!(out.matches("y_BANK_WRAPPER:").count(), 1);
    // a second pass generates no wrapper again
    let again = generator.generate_all_wrappers();
    assert!(!again.contains("_BANK_WRAPPER:"));
}

#[test]
fn wrapper_lookup_through_slot() {
    let mut slot = None;
    assert_eq!(get_wrapper_for_call(&slot, "a", "b"), None);
    init_global_generator(&mut slot, BankWrapperGenerator::new(banks(&[("a", 0), ("b", 1)]), 0x4000));
    assert_eq!(get_wrapper_for_call(&slot, "a", "b"), Some("b_BANK_WRAPPER".to_string()));
    assert_eq!(get_wrapper_for_call(&slot, "a", "a"), None);
    clear_global_generator(&mut slot);
    assert_eq!(get_wrapper_for_call(&slot, "a", "b"), None);
}

#[test]
fn statistics_count_calls_wrappers_and_transitions() {
    let mut generator = BankWrapperGenerator::new(banks(&[("a", 0), ("b", 1), ("c", 2)]), 0x4000);
    assert_eq!(generator.statistics(), (0, 0, Vec::new()));
    generator.record_cross_bank_call("a".to_string(), "b".to_string());
    generator.record_cross_bank_call("a".to_string(), "c".to_string());
    generator.record_cross_bank_call("a".to_string(), "b".to_string());
    generator.generate_wrapper("b", 1);
    generator.generate_wrapper("b", 1);
    let (calls, wrappers, transitions) = generator.statistics();
    assert_eq!(calls, 3);
    assert_eq!(wrappers, 1);
    assert_eq!(transitions, vec![(0, 1, 2), (0, 2, 1)]);
}
