//! A listing disassembler for 6809 ROM images of any size, multi-bank
//! images included: one line per instruction for the opcodes it knows,
//! `.db` for the others, and runs of `$FF` padding folded into one line.

use vstd::prelude::*;
use crate::text::{dec, hex, push_dec, push_hex, push_str};

verus! {

// ---------------------------------------------------------------------------
// Model
// ---------------------------------------------------------------------------

/// The number of hexadecimal digits of `n`.
pub open spec fn hex_len(n: nat) -> nat
    decreases n,
{
    if n < 16 {
        1
    } else {
        1 + hex_len(n / 16)
    }
}

/// `format!("{:0w$X}", n)`: the hexadecimal digits of `n`, padded with
/// zeros to at least `w` digits.
pub open spec fn hex_min(n: nat, w: nat) -> Seq<char> {
    hex(n, if hex_len(n) > w { hex_len(n) } else { w })
}

/// An address as the listing prints it (`{:04X}`).
pub open spec fn addr(n: nat) -> Seq<char> {
    hex_min(n, 4)
}

/// A byte in two hexadecimal digits (`{:02X}`).
pub open spec fn h2(b: u8) -> Seq<char> {
    hex(b as nat, 2)
}

/// The byte at `i`, or zero past the end of the image.
pub open spec fn byte_at(mem: Seq<u8>, i: int) -> u8 {
    if 0 <= i < mem.len() {
        mem[i]
    } else {
        0
    }
}

/// The target of a relative branch at `pc` with offset byte `off`: the
/// address after the two-byte instruction moved by the signed offset, on
/// 16 bits.
pub open spec fn branch_target(pc: nat, off: u8) -> nat {
    let d: int = if off >= 128 {
        off - 256
    } else {
        off as int
    };
    ((pc + 2 + d) % 65536) as nat
}

/// The mnemonic of a short conditional branch opcode.
pub open spec fn branch_name(op: u8) -> Seq<char> {
    if op == 0x20 {
        "BRA"@
    } else if op == 0x22 {
        "BHI"@
    } else if op == 0x23 {
        "BLS"@
    } else if op == 0x24 {
        "BCC"@
    } else if op == 0x25 {
        "BCS"@
    } else if op == 0x26 {
        "BNE"@
    } else if op == 0x27 {
        "BEQ"@
    } else if op == 0x28 {
        "BVC"@
    } else if op == 0x29 {
        "BVS"@
    } else if op == 0x2A {
        "BPL"@
    } else if op == 0x2B {
        "BMI"@
    } else if op == 0x2C {
        "BGE"@
    } else if op == 0x2F {
        "BLE"@
    } else {
        "BR?"@
    }
}

/// Whether `op` is one of the short conditional branches.
pub open spec fn is_branch(op: u8) -> bool {
    op == 0x20 || (0x22 <= op <= 0x2C) || op == 0x2F
}

/// The text after `{pc}: ` and the length of an instruction of the
/// `$10` prefix group.
pub open spec fn disasm_prefix10(mem: Seq<u8>, pc: nat) -> (Seq<char>, nat) {
    let sub = byte_at(mem, pc + 1int);
    let hi = byte_at(mem, pc + 2int);
    let lo = byte_at(mem, pc + 3int);
    if sub == 0x8E {
        ("10 8E     LDY #$"@ + h2(hi) + h2(lo), 4)
    } else if sub == 0xCE {
        ("10 CE     LDS #$"@ + h2(hi) + h2(lo), 4)
    } else if sub == 0x3F {
        ("10 3F     SWI2"@, 2)
    } else if sub == 0x26 {
        ("10 26 "@ + h2(hi) + h2(lo) + " LBNE <rel>"@, 4)
    } else if sub == 0x27 {
        ("10 27 "@ + h2(hi) + h2(lo) + " LBEQ <rel>"@, 4)
    } else if sub == 0x83 || sub == 0x93 || sub == 0xB3 {
        ("10 "@ + h2(sub) + "     CMPD <various>"@, 2)
    } else {
        ("10 "@ + h2(sub) + "     (unimpl prefix)"@, 2)
    }
}

/// The text after `{pc}: ` and the length of an instruction with a one- or
/// two-byte operand.
pub open spec fn disasm_operand(mem: Seq<u8>, pc: nat) -> (Seq<char>, nat) {
    let op = mem[pc as int];
    let b1 = byte_at(mem, pc + 1int);
    let b2 = byte_at(mem, pc + 2int);
    if op == 0x11 {
        (h2(op) + " "@ + h2(b1) + "     (prefix2)"@, 2)
    } else if op == 0xBD {
        (h2(op) + " "@ + h2(b1) + " "@ + h2(b2) + " JSR $"@ + h2(b1) + h2(b2), 3)
    } else if op == 0x9D {
        (h2(op) + " "@ + h2(b1) + "    JSR <$DP"@ + h2(b1) + ">"@, 2)
    } else if op == 0x8D {
        (h2(op) + " "@ + h2(b1) + "    BSR $"@ + hex(branch_target(pc, b1), 4), 2)
    } else if is_branch(op) {
        (h2(op) + " "@ + h2(b1) + "    "@ + branch_name(op) + " $"@ + hex(
            branch_target(pc, b1),
            4,
        ), 2)
    } else if op == 0xCC || op == 0xCE || op == 0x8E {
        let m = if op == 0xCC {
            "LDD"@
        } else if op == 0xCE {
            "LDU"@
        } else {
            "LDX"@
        };
        (h2(op) + " "@ + h2(b1) + " "@ + h2(b2) + " "@ + m + " #$"@ + h2(b1) + h2(b2), 3)
    } else if op == 0x86 || op == 0xC6 {
        let m = if op == 0x86 {
            "LDA"@
        } else {
            "LDB"@
        };
        (h2(op) + " "@ + h2(b1) + "    "@ + m + " #$"@ + h2(b1), 2)
    } else if op == 0x81 || op == 0xC1 {
        let m = if op == 0x81 {
            "CMPA"@
        } else {
            "CMPB"@
        };
        (h2(op) + " "@ + h2(b1) + "    "@ + m + " #$"@ + h2(b1), 2)
    } else if op == 0xB6 || op == 0xF6 {
        let m = if op == 0xB6 {
            "LDA"@
        } else {
            "LDB"@
        };
        (h2(op) + " "@ + h2(b1) + " "@ + h2(b2) + " "@ + m + " $"@ + h2(b1) + h2(b2), 3)
    } else if op == 0xFD || op == 0xDD {
        (h2(op) + " "@ + h2(b1) + "    STD <$DP"@ + h2(b1) + ">"@, 2)
    } else if op == 0x7C {
        (h2(op) + " "@ + h2(b1) + " "@ + h2(b2) + " INC $"@ + h2(b1) + h2(b2), 3)
    } else if op == 0x7A {
        (h2(op) + " "@ + h2(b1) + " "@ + h2(b2) + " DEC $"@ + h2(b1) + h2(b2), 3)
    } else if op == 0x85 {
        (h2(op) + " "@ + h2(b1) + "    BITA #$"@ + h2(b1), 2)
    } else if op == 0xC4 || op == 0xC8 || op == 0x8A {
        (h2(op) + " "@ + h2(b1) + "    IMM8"@, 2)
    } else if op == 0x17 {
        (h2(op) + " "@ + h2(b1) + " "@ + h2(b2) + " LBSR <rel>"@, 3)
    } else if op == 0x34 {
        (h2(op) + " "@ + h2(b1) + "    PSHS (regs)"@, 2)
    } else if op == 0x35 {
        (h2(op) + " "@ + h2(b1) + "    PULS (regs)"@, 2)
    } else {
        (h2(op) + " "@ + h2(b1) + "    LEAU (postbyte)"@, 2)
    }
}

/// Whether `op` is decoded by `disasm_operand`.
pub open spec fn has_operand(op: u8) -> bool {
    op == 0x11 || op == 0xBD || op == 0x9D || op == 0x8D || is_branch(op) || op == 0xCC || op
        == 0xCE || op == 0x8E || op == 0x86 || op == 0xC6 || op == 0x81 || op == 0xC1 || op == 0xB6
        || op == 0xF6 || op == 0xFD || op == 0xDD || op == 0x7C || op == 0x7A || op == 0x85 || op
        == 0xC4 || op == 0xC8 || op == 0x8A || op == 0x17 || op == 0x34 || op == 0x35 || op == 0x33
}

/// The text after `{pc}: ` and the length of a one-byte instruction or of
/// an unknown opcode.
pub open spec fn disasm_single(op: u8) -> Seq<char> {
    if op == 0x39 {
        "39        RTS"@
    } else if op == 0x3B {
        "3B        RTI"@
    } else if op == 0x3E {
        "3E        WAI"@
    } else if op == 0x4F {
        "4F        CLRA"@
    } else if op == 0x5F {
        "5F        CLRB"@
    } else if op == 0x3F {
        "3F        SWI"@
    } else {
        h2(op) + "        .db $"@ + h2(op)
    }
}

/// The listing line of the instruction at `pc` and its length in bytes;
/// past the end of the image, an empty line of length one.
pub open spec fn disasm(mem: Seq<u8>, pc: nat) -> (Seq<char>, nat) {
    if pc >= mem.len() {
        (Seq::empty(), 1)
    } else {
        let op = mem[pc as int];
        let (t, n) = if op == 0x10 {
            disasm_prefix10(mem, pc)
        } else if has_operand(op) {
            disasm_operand(mem, pc)
        } else {
            (disasm_single(op), 1)
        };
        (addr(pc) + ": "@ + t, n)
    }
}

/// The scan's state for runs of `$FF` padding: whether a run is open,
/// where it began and how many bytes of it were folded.
pub struct FfRun {
    pub active: bool,
    pub start: nat,
    pub count: nat,
}

/// The line that stands for a folded run of `$FF` padding.
pub open spec fn ff_line(start: nat, last: nat, count: nat) -> Seq<char> {
    addr(start) + "-"@ + addr(last) + ": [FF padding - "@ + dec(count) + " bytes]"@
}

/// Whether the bytes at `pc` and `pc + 1` are both `$FF` inside the range.
pub open spec fn at_padding(mem: Seq<u8>, pc: nat, end: nat) -> bool {
    byte_at(mem, pc as int) == 0xFF && pc + 1 < end && byte_at(mem, pc + 1int) == 0xFF
}

/// The listing of the range from `pc` to `end`, in the scan state `run`:
/// the lines in order and the address where the scan stops. A byte `$FF`
/// followed by another is folded into the open run; the run's line comes
/// before the next instruction, whose line and length `disasm` gives.
pub open spec fn listing(mem: Seq<u8>, pc: nat, end: nat, run: FfRun) -> (Seq<Seq<char>>, nat)
    decreases if pc <= end {
        end - pc
    } else {
        0
    },
{
    if pc >= end {
        (
            if run.active && run.count > 0 {
                seq![ff_line(run.start, (end - 1) as nat, run.count)]
            } else {
                Seq::empty()
            },
            pc,
        )
    } else if at_padding(mem, pc, end) {
        let next = if !run.active {
            FfRun { active: true, start: pc, count: 1 }
        } else {
            FfRun { active: true, start: run.start, count: run.count + 1 }
        };
        listing(mem, pc + 1, end, next)
    } else {
        let flush = run.active && run.count > 0;
        let pre: Seq<Seq<char>> = if flush {
            seq![ff_line(run.start, (pc - 1) as nat, run.count)]
        } else {
            Seq::empty()
        };
        let next = if flush {
            FfRun { active: false, start: run.start, count: 0 }
        } else {
            run
        };
        let d = disasm(mem, pc);
        let adv: nat = if d.1 >= 1 {
            d.1
        } else {
            1
        };
        let rest = listing(mem, pc + adv, end, next);
        (pre.push(d.0) + rest.0, rest.1)
    }
}

/// The listing of `count` bytes of the image from `start` on, as the
/// disassembler prints it, with the address where it stops.
pub open spec fn disasm_listing(mem: Seq<u8>, start: nat, count: nat) -> (Seq<Seq<char>>, nat) {
    let end = if start + count < mem.len() {
        start + count
    } else {
        mem.len()
    };
    listing(mem, start, end, FfRun { active: false, start: 0, count: 0 })
}

/// The characters of each string.
pub open spec fn string_views(s: Seq<String>) -> Seq<Seq<char>> {
    Seq::new(s.len(), |i: int| s[i]@)
}

// ---------------------------------------------------------------------------
// Formatting
// ---------------------------------------------------------------------------

proof fn lemma_hex_len_le(n: nat)
    ensures
        hex_len(n) <= if n == 0 {
            1
        } else {
            n
        },
    decreases n,
{
    if n >= 16 {
        lemma_hex_len_le(n / 16);
    }
}

/// The number of hexadecimal digits of `n`.
fn hex_len_exec(n: usize) -> (k: usize)
    ensures
        k == hex_len(n as nat),
    decreases n,
{
    if n < 16 {
        1
    } else {
        proof {
            lemma_hex_len_le(n as nat);
        }
        1 + hex_len_exec(n / 16)
    }
}

/// Appends an address as `addr` prints it.
fn push_addr(out: &mut String, n: usize)
    ensures
        final(out)@ == old(out)@ + addr(n as nat),
{
    let k = hex_len_exec(n);
    let w: usize = if k > 4 {
        k
    } else {
        4
    };
    push_hex(out, n as u64, w);
}

/// Appends a byte in two hexadecimal digits.
fn push_h2(out: &mut String, b: u8)
    ensures
        final(out)@ == old(out)@ + h2(b),
{
    push_hex(out, b as u64, 2);
}

/// The byte `o` places after `pc`, or zero past the end of the image.
fn byte_after(mem: &[u8], pc: usize, o: usize) -> (b: u8)
    requires
        pc < mem.len(),
    ensures
        b == byte_at(mem@, pc + o),
{
    if o < mem.len() - pc {
        mem[pc + o]
    } else {
        0
    }
}

/// The 16-bit target of a relative branch at `pc`.
fn branch_target_exec(pc: usize, off: u8) -> (t: u64)
    ensures
        t == branch_target(pc as nat, off),
{
    let base: u64 = (pc % 65536) as u64 + 2;
    let t: u64 = if off >= 128 {
        base + 65280 + off as u64
    } else {
        base + off as u64
    };
    proof {
        let d: int = if off >= 128 {
            off - 256
        } else {
            off as int
        };
        assert(t == (pc as int % 65536) + 2 + d + 65536 * (if off >= 128 { 1int } else { 0int }));
        assert((t as int) % 65536 == (pc as int + 2 + d) % 65536) by (nonlinear_arith)
            requires
                t == (pc as int % 65536) + 2 + d + 65536 * (if off >= 128 { 1int } else { 0int }),
        ;
    }
    t % 65536
}

// ---------------------------------------------------------------------------
// Decoding
// ---------------------------------------------------------------------------

#[verifier::spinoff_prover]
fn disasm_prefix10_exec(mem: &[u8], pc: usize, out: &mut String) -> (n: usize)
    requires
        pc < mem.len(),
    ensures
        final(out)@ == old(out)@ + disasm_prefix10(mem@, pc as nat).0,
        n == disasm_prefix10(mem@, pc as nat).1,
{
    let sub = byte_after(mem, pc, 1);
    let hi = byte_after(mem, pc, 2);
    let lo = byte_after(mem, pc, 3);
    let ghost o = out@;
    if sub == 0x8E {
        push_str(out, "10 8E     LDY #$");
        push_h2(out, hi);
        push_h2(out, lo);
        assert(out@ =~= o + ("10 8E     LDY #$"@ + h2(hi) + h2(lo)));
        4
    } else if sub == 0xCE {
        push_str(out, "10 CE     LDS #$");
        push_h2(out, hi);
        push_h2(out, lo);
        assert(out@ =~= o + ("10 CE     LDS #$"@ + h2(hi) + h2(lo)));
        4
    } else if sub == 0x3F {
        push_str(out, "10 3F     SWI2");
        2
    } else if sub == 0x26 || sub == 0x27 {
        push_str(out, if sub == 0x26 {
            "10 26 "
        } else {
            "10 27 "
        });
        push_h2(out, hi);
        push_h2(out, lo);
        push_str(out, if sub == 0x26 {
            " LBNE <rel>"
        } else {
            " LBEQ <rel>"
        });
        assert(out@ =~= o + disasm_prefix10(mem@, pc as nat).0);
        4
    } else {
        push_str(out, "10 ");
        push_h2(out, sub);
        push_str(out, if sub == 0x83 || sub == 0x93 || sub == 0xB3 {
            "     CMPD <various>"
        } else {
            "     (unimpl prefix)"
        });
        assert(out@ =~= o + disasm_prefix10(mem@, pc as nat).0);
        2
    }
}

/// Appends `{op} {b1}` in hexadecimal.
fn push_op_byte(out: &mut String, op: u8, b1: u8)
    ensures
        final(out)@ == old(out)@ + h2(op) + " "@ + h2(b1),
{
    push_h2(out, op);
    push_str(out, " ");
    push_h2(out, b1);
}

/// Appends `{op} {b1} {b2}` in hexadecimal.
fn push_op_word(out: &mut String, op: u8, b1: u8, b2: u8)
    ensures
        final(out)@ == old(out)@ + h2(op) + " "@ + h2(b1) + " "@ + h2(b2),
{
    push_op_byte(out, op, b1);
    push_str(out, " ");
    push_h2(out, b2);
}

/// Appends `{b1}{b2}` in hexadecimal.
fn push_word(out: &mut String, b1: u8, b2: u8)
    ensures
        final(out)@ == old(out)@ + h2(b1) + h2(b2),
{
    push_h2(out, b1);
    push_h2(out, b2);
}

#[verifier::spinoff_prover]
fn disasm_jumps_exec(mem: &[u8], pc: usize, out: &mut String) -> (n: usize)
    requires
        pc < mem.len(),
        mem@[pc as int] == 0x11 || mem@[pc as int] == 0xBD || mem@[pc as int] == 0x9D
            || mem@[pc as int] == 0x8D || is_branch(mem@[pc as int]),
    ensures
        final(out)@ == old(out)@ + disasm_operand(mem@, pc as nat).0,
        n == disasm_operand(mem@, pc as nat).1,
{
    let op = mem[pc];
    let b1 = byte_after(mem, pc, 1);
    let b2 = byte_after(mem, pc, 2);
    let ghost o = out@;
    if op == 0x11 {
        push_op_byte(out, op, b1);
        push_str(out, "     (prefix2)");
        assert(out@ =~= o + disasm_operand(mem@, pc as nat).0);
        2
    } else if op == 0xBD {
        push_op_word(out, op, b1, b2);
        push_str(out, " JSR $");
        push_word(out, b1, b2);
        assert(out@ =~= o + disasm_operand(mem@, pc as nat).0);
        3
    } else if op == 0x9D {
        push_op_byte(out, op, b1);
        push_str(out, "    JSR <$DP");
        push_h2(out, b1);
        push_str(out, ">");
        assert(out@ =~= o + disasm_operand(mem@, pc as nat).0);
        2
    } else if op == 0x8D {
        push_op_byte(out, op, b1);
        push_str(out, "    BSR $");
        let t = branch_target_exec(pc, b1);
        push_hex(out, t, 4);
        assert(out@ =~= o + disasm_operand(mem@, pc as nat).0);
        2
    } else {
        push_op_byte(out, op, b1);
        push_str(out, "    ");
        push_str(out, branch_name_exec(op));
        push_str(out, " $");
        let t = branch_target_exec(pc, b1);
        push_hex(out, t, 4);
        assert(out@ =~= o + disasm_operand(mem@, pc as nat).0);
        2
    }
}

/// The mnemonic of a short conditional branch opcode.
fn branch_name_exec(op: u8) -> (m: &'static str)
    ensures
        m@ == branch_name(op),
{
    if op == 0x20 {
        "BRA"
    } else if op == 0x22 {
        "BHI"
    } else if op == 0x23 {
        "BLS"
    } else if op == 0x24 {
        "BCC"
    } else if op == 0x25 {
        "BCS"
    } else if op == 0x26 {
        "BNE"
    } else if op == 0x27 {
        "BEQ"
    } else if op == 0x28 {
        "BVC"
    } else if op == 0x29 {
        "BVS"
    } else if op == 0x2A {
        "BPL"
    } else if op == 0x2B {
        "BMI"
    } else if op == 0x2C {
        "BGE"
    } else if op == 0x2F {
        "BLE"
    } else {
        "BR?"
    }
}

#[verifier::spinoff_prover]
fn disasm_loads_exec(mem: &[u8], pc: usize, out: &mut String) -> (n: usize)
    requires
        pc < mem.len(),
        has_operand(mem@[pc as int]),
        !(mem@[pc as int] == 0x11 || mem@[pc as int] == 0xBD || mem@[pc as int] == 0x9D
            || mem@[pc as int] == 0x8D || is_branch(mem@[pc as int])),
    ensures
        final(out)@ == old(out)@ + disasm_operand(mem@, pc as nat).0,
        n == disasm_operand(mem@, pc as nat).1,
{
    let op = mem[pc];
    let b1 = byte_after(mem, pc, 1);
    let b2 = byte_after(mem, pc, 2);
    let ghost o = out@;
    if op == 0xCC || op == 0xCE || op == 0x8E || op == 0xB6 || op == 0xF6 {
        push_op_word(out, op, b1, b2);
        push_str(out, " ");
        push_str(out, if op == 0xCC {
            "LDD"
        } else if op == 0xCE {
            "LDU"
        } else if op == 0x8E {
            "LDX"
        } else if op == 0xB6 {
            "LDA"
        } else {
            "LDB"
        });
        push_str(out, if op == 0xB6 || op == 0xF6 {
            " $"
        } else {
            " #$"
        });
        push_word(out, b1, b2);
        assert(out@ =~= o + disasm_operand(mem@, pc as nat).0);
        3
    } else if op == 0x85 {
        push_op_byte(out, op, b1);
        push_str(out, "    BITA #$");
        push_h2(out, b1);
        assert(out@ =~= o + disasm_operand(mem@, pc as nat).0);
        2
    } else if op == 0x86 || op == 0xC6 || op == 0x81 || op == 0xC1 {
        push_op_byte(out, op, b1);
        push_str(out, "    ");
        push_str(out, if op == 0x86 {
            "LDA"
        } else if op == 0xC6 {
            "LDB"
        } else if op == 0x81 {
            "CMPA"
        } else {
            "CMPB"
        });
        push_str(out, " #$");
        push_h2(out, b1);
        assert(out@ =~= o + disasm_operand(mem@, pc as nat).0);
        2
    } else if op == 0xFD || op == 0xDD {
        push_op_byte(out, op, b1);
        push_str(out, "    STD <$DP");
        push_h2(out, b1);
        push_str(out, ">");
        assert(out@ =~= o + disasm_operand(mem@, pc as nat).0);
        2
    } else if op == 0x7C || op == 0x7A {
        push_op_word(out, op, b1, b2);
        push_str(out, if op == 0x7C {
            " INC $"
        } else {
            " DEC $"
        });
        push_word(out, b1, b2);
        assert(out@ =~= o + disasm_operand(mem@, pc as nat).0);
        3
    } else if op == 0x17 {
        push_op_word(out, op, b1, b2);
        push_str(out, " LBSR <rel>");
        assert(out@ =~= o + disasm_operand(mem@, pc as nat).0);
        3
    } else {
        push_op_byte(out, op, b1);
        push_str(out, if op == 0xC4 || op == 0xC8 || op == 0x8A {
            "    IMM8"
        } else if op == 0x34 {
            "    PSHS (regs)"
        } else if op == 0x35 {
            "    PULS (regs)"
        } else {
            "    LEAU (postbyte)"
        });
        assert(out@ =~= o + disasm_operand(mem@, pc as nat).0);
        2
    }
}

/// Whether `op` is decoded by `disasm_operand`.
fn has_operand_exec(op: u8) -> (r: bool)
    ensures
        r == has_operand(op),
{
    op == 0x11 || op == 0xBD || op == 0x9D || op == 0x8D || op == 0x20 || (0x22 <= op && op
        <= 0x2C) || op == 0x2F || op == 0xCC || op == 0xCE || op == 0x8E || op == 0x86 || op
        == 0xC6 || op == 0x81 || op == 0xC1 || op == 0xB6 || op == 0xF6 || op == 0xFD || op == 0xDD
        || op == 0x7C || op == 0x7A || op == 0x85 || op == 0xC4 || op == 0xC8 || op == 0x8A || op
        == 0x17 || op == 0x34 || op == 0x35 || op == 0x33
}

fn disasm_single_exec(op: u8, out: &mut String)
    ensures
        final(out)@ == old(out)@ + disasm_single(op),
{
    if op == 0x39 {
        push_str(out, "39        RTS");
    } else if op == 0x3B {
        push_str(out, "3B        RTI");
    } else if op == 0x3E {
        push_str(out, "3E        WAI");
    } else if op == 0x4F {
        push_str(out, "4F        CLRA");
    } else if op == 0x5F {
        push_str(out, "5F        CLRB");
    } else if op == 0x3F {
        push_str(out, "3F        SWI");
    } else {
        let ghost o = out@;
        push_h2(out, op);
        push_str(out, "        .db $");
        push_h2(out, op);
        assert(out@ =~= o + disasm_single(op));
    }
}

/// Disassembles the instruction at `pc`: its listing line (address, bytes
/// and mnemonic) and its length in bytes. Past the end of the image the line
/// is empty and the length one.
pub fn disasm_one(mem: &[u8], pc: usize) -> (r: (String, usize))
    ensures
        r.0@ == disasm(mem@, pc as nat).0,
        r.1 == disasm(mem@, pc as nat).1,
{
    if pc >= mem.len() {
        return (String::new(), 1);
    }
    let op = mem[pc];
    let mut s = String::new();
    push_addr(&mut s, pc);
    push_str(&mut s, ": ");
    let ghost o = s@;
    let n = if op == 0x10 {
        disasm_prefix10_exec(mem, pc, &mut s)
    } else if op == 0x11 || op == 0xBD || op == 0x9D || op == 0x8D || op == 0x20 || (0x22 <= op
        && op <= 0x2C) || op == 0x2F {
        disasm_jumps_exec(mem, pc, &mut s)
    } else if has_operand_exec(op) {
        disasm_loads_exec(mem, pc, &mut s)
    } else {
        disasm_single_exec(op, &mut s);
        1
    };
    assert(s@ =~= disasm(mem@, pc as nat).0);
    (s, n)
}

// ---------------------------------------------------------------------------
// Listing
// ---------------------------------------------------------------------------

/// The line for a folded run of `$FF` padding.
fn ff_line_exec(start: usize, last: usize, count: usize) -> (s: String)
    ensures
        s@ == ff_line(start as nat, last as nat, count as nat),
{
    let mut s = String::new();
    push_addr(&mut s, start);
    push_str(&mut s, "-");
    push_addr(&mut s, last);
    push_str(&mut s, ": [FF padding - ");
    push_dec(&mut s, count as u64);
    push_str(&mut s, " bytes]");
    assert(s@ =~= ff_line(start as nat, last as nat, count as nat));
    s
}

/// Disassembles `count` bytes of the image from `start` on, folding runs of
/// `$FF` padding: the listing lines and the address where the listing stops
/// (past the range when its last instruction runs over the end).
pub fn disasm_range(data: &[u8], start: usize, count: usize) -> (r: (Vec<String>, usize))
    requires
        start + count <= usize::MAX,
        data.len() <= isize::MAX,
    ensures
        string_views(r.0@) == disasm_listing(data@, start as nat, count as nat).0,
        r.1 == disasm_listing(data@, start as nat, count as nat).1,
{
    let end: usize = if start + count < data.len() {
        start + count
    } else {
        data.len()
    };
    let ghost total = disasm_listing(data@, start as nat, count as nat);
    let mut lines: Vec<String> = Vec::new();
    let mut pc: usize = start;
    let mut last_was_ff = false;
    let mut ff_start: usize = 0;
    let mut ff_count: usize = 0;
    assert(string_views(lines@) =~= Seq::<Seq<char>>::empty());
    assert(total.0 =~= string_views(lines@) + total.0);
    while pc < end
        invariant
            end <= data.len(),
            data.len() <= isize::MAX,
            ff_start <= pc,
            ff_count <= pc,
            total == disasm_listing(data@, start as nat, count as nat),
            ({
                let rest = listing(
                    data@,
                    pc as nat,
                    end as nat,
                    FfRun { active: last_was_ff, start: ff_start as nat, count: ff_count as nat },
                );
                total.1 == rest.1 && total.0 == string_views(lines@) + rest.0
            }),
        decreases if pc <= end {
            end - pc
        } else {
            0
        },
    {
        let op = data[pc];
        if op == 0xFF && pc + 1 < end && data[pc + 1] == 0xFF {
            if !last_was_ff {
                ff_start = pc;
                ff_count = 0;
                last_was_ff = true;
            }
            ff_count += 1;
            pc += 1;
            continue;
        }
        let ghost before = string_views(lines@);
        let ghost run = FfRun { active: last_was_ff, start: ff_start as nat, count: ff_count as nat };
        if last_was_ff && ff_count > 0 {
            lines.push(ff_line_exec(ff_start, pc - 1, ff_count));
            last_was_ff = false;
            ff_count = 0;
        }
        let ghost mid = string_views(lines@);
        let (line, adv) = disasm_one(data, pc);
        lines.push(line);
        proof {
            let flush = run.active && run.count > 0;
            let pre: Seq<Seq<char>> = if flush {
                seq![ff_line(run.start, (pc - 1) as nat, run.count)]
            } else {
                Seq::empty()
            };
            assert(mid =~= before + pre);
            assert(string_views(lines@) =~= before + pre.push(line@));
            let rest = listing(
                data@,
                (pc + adv) as nat,
                end as nat,
                FfRun { active: last_was_ff, start: ff_start as nat, count: ff_count as nat },
            );
            assert(before + (pre.push(line@) + rest.0) =~= string_views(lines@) + rest.0);
        }
        pc += adv;
    }
    if last_was_ff && ff_count > 0 {
        let ghost before = string_views(lines@);
        lines.push(ff_line_exec(ff_start, end - 1, ff_count));
        assert(string_views(lines@) =~= before + seq![
            ff_line(ff_start as nat, (end - 1) as nat, ff_count as nat),
        ]);
    } else {
        assert(string_views(lines@) =~= string_views(lines@) + Seq::<Seq<char>>::empty());
    }
    (lines, pc)
}

} // verus!
