use vpy_core::backend::m6809::bank_optimizer::{BankConfig, BankOptimizer, CallGraph, FunctionNode};

fn graph(fs: &[(&str, usize)]) -> CallGraph {
    let mut nodes = Vec::new();
    for (n, s) in fs {
        nodes.push(FunctionNode { name: n.to_string(), size_bytes: *s });
    }
    CallGraph { nodes }
}

fn optimizer(bank_size: u32, count: u8, fs: &[(&str, usize)]) -> BankOptimizer {
    BankOptimizer::new(BankConfig { rom_bank_size: bank_size, rom_bank_count: count }, graph(fs))
}

fn pairs(v: &[(&str, u8)]) -> Vec<(String, u8)> {
    v.iter().map(|(n, b)| (n.to_string(), *b)).collect()
}

#[test]
fn test_num_banks() {
    let c = BankConfig { rom_bank_size: 16384, rom_bank_count: 32 };
    assert_eq!(c.num_banks(), 32);
}

#[test]
fn test_assign_first_fit_largest_first() {
    let opt = optimizer(100, 3, &[("d", 30), ("b", 50), ("a", 60), ("c", 40)]);
    let r = opt.assign_banks().unwrap();
    assert_eq!(r, pairs(&[("a", 0), ("b", 1), ("c", 0), ("d", 1)]));
}

#[test]
fn test_assign_equal_sizes_keep_order() {
    let opt = optimizer(100, 2, &[("x", 10), ("y", 20), ("z", 10)]);
    let r = opt.assign_banks().unwrap();
    assert_eq!(r, pairs(&[("y", 0), ("x", 0), ("z", 0)]));
}

#[test]
fn test_assign_never_uses_helper_bank() {
    let opt = optimizer(100, 4, &[("a", 100), ("b", 100), ("c", 100)]);
    let r = opt.assign_banks().unwrap();
    assert_eq!(r, pairs(&[("a", 0), ("b", 1), ("c", 2)]));
    let opt = optimizer(100, 3, &[("a", 100), ("b", 100), ("c", 100)]);
    assert_eq!(
        opt.assign_banks().unwrap_err(),
        "Function 'c' (100 bytes) doesn't fit in any code bank (bank size: 100 bytes, available code banks: 2)"
    );
}

#[test]
fn test_assign_function_too_large() {
    let opt = optimizer(100, 3, &[("small", 10), ("big", 150)]);
    assert_eq!(
        opt.assign_banks().unwrap_err(),
        "Function 'big' (150 bytes) doesn't fit in any code bank (bank size: 100 bytes, available code banks: 2)"
    );
}

#[test]
fn test_assign_needs_two_banks() {
    for count in [0u8, 1u8] {
        let opt = optimizer(16384, count, &[("main", 10)]);
        assert_eq!(
            opt.assign_banks().unwrap_err(),
            "Need at least 2 banks (1 for code, 1 for helpers)"
        );
    }
}

#[test]
fn test_assign_empty_and_zero_sized() {
    let opt = optimizer(16384, 2, &[]);
    assert_eq!(opt.assign_banks().unwrap(), Vec::<(String, u8)>::new());
    let opt = optimizer(10, 2, &[("full", 10), ("empty", 0)]);
    assert_eq!(opt.assign_banks().unwrap(), pairs(&[("full", 0), ("empty", 0)]));
}

#[test]
fn test_assignment_stats() {
    let opt = optimizer(100, 4, &[("d", 30), ("b", 50), ("a", 60), ("c", 40)]);
    let r = opt.assign_banks().unwrap();
    let st = opt.assignment_stats(&r);
    assert_eq!(st.total_banks, 4);
    assert_eq!(st.code_banks, 3);
    assert_eq!(st.helper_bank, 3);
    assert_eq!(st.used_banks, 2);
    assert_eq!(st.total_functions, 4);
    assert_eq!(st.total_used_bytes, 180);
    assert_eq!(st.total_available_bytes, 300);
    assert_eq!(st.banks.len(), 2);
    assert_eq!(st.banks[0].id, 0);
    assert_eq!(st.banks[0].used_bytes, 100);
    assert_eq!(st.banks[0].functions, vec!["a".to_string(), "c".to_string()]);
    assert_eq!(st.banks[1].id, 1);
    assert_eq!(st.banks[1].used_bytes, 80);
    assert_eq!(st.banks[1].functions, vec!["b".to_string(), "d".to_string()]);
}

#[test]
fn test_assignment_stats_ignores_unknown_entries() {
    let opt = optimizer(100, 2, &[("a", 10)]);
    let st = opt.assignment_stats(&pairs(&[("zz", 0), ("a", 5)]));
    assert_eq!(st.total_functions, 2);
    assert_eq!(st.code_banks, 1);
    assert_eq!(st.helper_bank, 1);
    assert_eq!(st.used_banks, 0);
    assert_eq!(st.total_used_bytes, 0);
    assert_eq!(st.total_available_bytes, 100);
    assert!(st.banks.is_empty());
}
