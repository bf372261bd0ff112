use vpy_core::emulator::CPU;

fn cpu_with(program: &[u8], at: u16) -> CPU {
    let mut cpu = CPU::default();
    cpu.load_bin(program, at);
    cpu.pc = at;
    cpu
}

#[test]
fn default_machine_is_cleared() {
    let cpu = CPU::default();
    assert_eq!(cpu.mem.len(), 65536);
    assert_eq!(cpu.dp, 0xD0);
    assert_eq!(cpu.pc, 0);
    assert!(!cpu.bios_present);
}

#[test]
fn load_bin_drops_bytes_past_the_end() {
    let mut cpu = CPU::default();
    cpu.load_bin(&[1, 2, 3], 0xFFFE);
    assert_eq!(cpu.mem[0xFFFE], 1);
    assert_eq!(cpu.mem[0xFFFF], 2);
    assert_eq!(cpu.mem[0], 0);
}

#[test]
fn load_bios_needs_eight_kilobytes() {
    let mut cpu = CPU::default();
    cpu.load_bios(&[1u8; 100]);
    assert!(!cpu.bios_present);
    assert_eq!(cpu.mem[0xF000], 0);
    cpu.load_bios(&[7u8; 8192]);
    assert!(cpu.bios_present);
    assert_eq!(cpu.mem[0xF000], 7);
    assert_eq!(cpu.mem[0xFFFF], 7);
}

#[test]
fn ldd_immediate_sets_d_and_flags() {
    let mut cpu = cpu_with(&[0xCC, 0x80, 0x01], 0x100);
    assert!(cpu.step());
    assert_eq!((cpu.a, cpu.b), (0x80, 0x01));
    assert!(cpu.cc_n);
    assert!(!cpu.cc_z);
    assert_eq!(cpu.pc, 0x103);
    assert_eq!(cpu.cycles, 3);
}

#[test]
fn store_and_load_through_direct_page() {
    // LDA #$42 ; STA <$10 ; CLRA ; LDA <$10
    let mut cpu = cpu_with(&[0x86, 0x42, 0x97, 0x10, 0x4F, 0x96, 0x10], 0x200);
    cpu.run(4);
    assert_eq!(cpu.mem[0xD010], 0x42);
    assert_eq!(cpu.a, 0x42);
    assert_eq!(cpu.pc, 0x207);
    assert_eq!(cpu.cycles, 4);
}

#[test]
fn subd_wraps_around() {
    // LDD #$0001 ; SUBD #$0002
    let mut cpu = cpu_with(&[0xCC, 0x00, 0x01, 0x83, 0x00, 0x02], 0x300);
    cpu.run(2);
    assert_eq!((cpu.a, cpu.b), (0xFF, 0xFF));
    assert!(cpu.cc_n);
}

#[test]
fn jsr_then_rts_returns_after_the_call() {
    // 0x400: JSR $0410 ; 0x410: RTS
    let mut cpu = CPU::default();
    cpu.load_bin(&[0xBD, 0x04, 0x10], 0x400);
    cpu.load_bin(&[0x39], 0x410);
    cpu.pc = 0x400;
    assert!(cpu.step());
    assert_eq!(cpu.pc, 0x410);
    assert_eq!(cpu.call_stack, vec![0x403]);
    assert!(cpu.step());
    assert_eq!(cpu.pc, 0x403);
    assert!(cpu.call_stack.is_empty());
    assert_eq!(cpu.cycles, 12);
}

#[test]
fn bios_calls_are_intercepted_and_recorded() {
    let mut cpu = CPU::default();
    cpu.load_bios(&[0u8; 8192]);
    cpu.load_bin(&[0xBD, 0xF1, 0x92, 0xBD, 0xF3, 0x7A], 0x500);
    cpu.pc = 0x500;
    cpu.dp = 0;
    cpu.run(2);
    assert_eq!(cpu.bios_calls, vec!["F192:WAIT_RECAL".to_string(), "F37A:PRINT_STR_D".to_string()]);
    assert_eq!(cpu.frame_count, 1);
    assert_eq!(cpu.print_str_count, 1);
    assert_eq!(cpu.dp, 0xD0);
    assert_eq!(cpu.pc, 0x506);
}

#[test]
fn bios_call_without_bios_stops() {
    let mut cpu = cpu_with(&[0xBD, 0xF1, 0x92], 0x600);
    assert!(!cpu.step());
    assert_eq!(cpu.pc, 0x603);
    assert_eq!(cpu.cycles, 0);
}

#[test]
fn branches_follow_the_flags() {
    // CLRA ; BEQ +2 ; LDA #1 ; BRA -2 (to itself)
    let mut cpu = cpu_with(&[0x4F, 0x27, 0x02, 0x86, 0x01, 0x20, 0xFE], 0x700);
    assert!(cpu.step());
    assert!(cpu.step());
    assert_eq!(cpu.pc, 0x705);
    assert!(cpu.step());
    assert_eq!(cpu.pc, 0x705);
}

#[test]
fn long_branch_prefix() {
    // CLRA ; LBEQ +$0100
    let mut cpu = cpu_with(&[0x4F, 0x10, 0x27, 0x01, 0x00], 0x800);
    cpu.run(2);
    assert_eq!(cpu.pc, 0x905);
}

#[test]
fn unknown_opcode_stops_the_run() {
    let mut cpu = cpu_with(&[0x12, 0x86, 0x01], 0x900);
    cpu.run(10);
    assert_eq!(cpu.pc, 0x901);
    assert_eq!(cpu.a, 0);
}
