//! A small interpreter for the subset of M6809 instructions the generated
//! programs use, with the Vectrex BIOS routines intercepted and counted.

use vstd::prelude::*;
use crate::text::{hex, push_char, push_hex, push_str};

verus! {

/// The machine state.
pub struct CPU {
    pub a: u8,
    pub b: u8,
    pub dp: u8,
    pub x: u16,
    pub u: u16,
    pub pc: u16,
    pub call_stack: Vec<u16>,
    pub cc_z: bool,
    pub cc_n: bool,
    pub cc_c: bool,
    /// The 64 KiB address space.
    pub mem: Vec<u8>,
    pub trace: bool,
    pub bios_calls: Vec<String>,
    pub frame_count: u64,
    pub last_intensity: u8,
    pub draw_vl_count: u64,
    pub reset0ref_count: u64,
    pub print_str_count: u64,
    pub print_list_count: u64,
    pub moveto_count: u64,
    pub bios_present: bool,
    pub cycles: u64,
}

/// Model of the machine state.
pub struct CpuM {
    pub a: u8,
    pub b: u8,
    pub dp: u8,
    pub x: u16,
    pub u: u16,
    pub pc: u16,
    pub call_stack: Seq<u16>,
    pub cc_z: bool,
    pub cc_n: bool,
    pub cc_c: bool,
    pub mem: Seq<u8>,
    pub trace: bool,
    pub bios_calls: Seq<Seq<char>>,
    pub frame_count: u64,
    pub last_intensity: u8,
    pub draw_vl_count: u64,
    pub reset0ref_count: u64,
    pub print_str_count: u64,
    pub print_list_count: u64,
    pub moveto_count: u64,
    pub bios_present: bool,
    pub cycles: u64,
}

impl CPU {
    pub open spec fn view(&self) -> CpuM {
        CpuM {
            a: self.a,
            b: self.b,
            dp: self.dp,
            x: self.x,
            u: self.u,
            pc: self.pc,
            call_stack: self.call_stack@,
            cc_z: self.cc_z,
            cc_n: self.cc_n,
            cc_c: self.cc_c,
            mem: self.mem@,
            trace: self.trace,
            bios_calls: self.bios_calls@.map_values(|s: String| s@),
            frame_count: self.frame_count,
            last_intensity: self.last_intensity,
            draw_vl_count: self.draw_vl_count,
            reset0ref_count: self.reset0ref_count,
            print_str_count: self.print_str_count,
            print_list_count: self.print_list_count,
            moveto_count: self.moveto_count,
            bios_present: self.bios_present,
            cycles: self.cycles,
        }
    }

    /// The memory spans the whole 16-bit address space.
    pub open spec fn wf(&self) -> bool {
        self.mem@.len() == 0x10000
    }
}

impl Default for CPU {
    fn default() -> (r: Self)
        ensures
            r.wf(),
            r.a == 0 && r.b == 0 && r.dp == 0xD0 && r.x == 0 && r.u == 0 && r.pc == 0,
            r.call_stack@.len() == 0,
            !r.cc_z && !r.cc_n && !r.cc_c && !r.trace && !r.bios_present,
            forall|i: int| 0 <= i < 0x10000 ==> r.mem@[i] == 0,
            r.bios_calls@.len() == 0,
            r.frame_count == 0 && r.last_intensity == 0 && r.draw_vl_count == 0,
            r.reset0ref_count == 0 && r.print_str_count == 0 && r.print_list_count == 0,
            r.moveto_count == 0 && r.cycles == 0,
    {
        let mut mem: Vec<u8> = Vec::new();
        let mut i: usize = 0;
        while i < 0x10000
            invariant
                i <= 0x10000,
                mem@.len() == i,
                forall|k: int| 0 <= k < i ==> mem@[k] == 0,
            decreases 0x10000 - i,
        {
            mem.push(0);
            i += 1;
        }
        CPU {
            a: 0,
            b: 0,
            dp: 0xD0,
            x: 0,
            u: 0,
            pc: 0,
            call_stack: Vec::new(),
            cc_z: false,
            cc_n: false,
            cc_c: false,
            mem,
            trace: false,
            bios_calls: Vec::new(),
            frame_count: 0,
            last_intensity: 0,
            draw_vl_count: 0,
            reset0ref_count: 0,
            print_str_count: 0,
            print_list_count: 0,
            moveto_count: 0,
            bios_present: false,
            cycles: 0,
        }
    }
}

// ---------------------------------------------------------------------------
// Loading
// ---------------------------------------------------------------------------

/// Memory after copying `data` to `base`; bytes that would land past the
/// end of the address space are dropped.
pub open spec fn loaded(mem: Seq<u8>, data: Seq<u8>, base: u16) -> Seq<u8> {
    Seq::new(
        mem.len(),
        |i: int|
            if base <= i < base + data.len() {
                data[i - base]
            } else {
                mem[i]
            },
    )
}

impl CPU {
    /// Copies `data` into memory at `base`.
    pub fn load_bin(&mut self, data: &[u8], base: u16)
        requires
            old(self).wf(),
        ensures
            final(self).wf(),
            final(self).view() == (CpuM { mem: loaded(old(self).mem@, data@, base), ..old(self).view() }),
    {
        let mut i: usize = 0;
        let room: usize = 0x10000 - base as usize;
        while i < data.len() && i < room
            invariant
                i <= data.len(),
                room == 0x10000 - base,
                i <= room,
                self.mem@.len() == 0x10000,
                self.view() == (CpuM { mem: self.mem@, ..old(self).view() }),
                forall|k: int|
                    0 <= k < 0x10000 ==> self.mem@[k] == (if base <= k < base + i {
                        data@[k - base]
                    } else {
                        old(self).mem@[k]
                    }),
            decreases data.len() - i,
        {
            let addr = base as usize + i;
            self.mem.set(addr, data[i]);
            i += 1;
        }
        assert(self.mem@ =~= loaded(old(self).mem@, data@, base));
    }

    /// Loads an 8 KiB BIOS image at $F000; an image of another size is ignored.
    pub fn load_bios(&mut self, data: &[u8])
        requires
            old(self).wf(),
        ensures
            final(self).wf(),
            data@.len() == 8192 ==> final(self).view() == (CpuM {
                mem: loaded(old(self).mem@, data@, 0xF000),
                bios_present: true,
                ..old(self).view()
            }),
            data@.len() != 8192 ==> final(self).view() == old(self).view(),
    {
        if data.len() == 8192 {
            self.load_bin(data, 0xF000);
            self.bios_present = true;
        }
    }
}

// ---------------------------------------------------------------------------
// Registers and flags
// ---------------------------------------------------------------------------

/// The 16-bit word with high byte `hi` and low byte `lo`.
pub open spec fn word(hi: u8, lo: u8) -> u16 {
    (hi * 256 + lo) as u16
}

/// The D register: A high, B low.
pub open spec fn reg_d(c: CpuM) -> u16 {
    word(c.a, c.b)
}

pub open spec fn with_d(c: CpuM, v: u16) -> CpuM {
    CpuM { a: (v / 256) as u8, b: (v % 256) as u8, ..c }
}

pub open spec fn nz16(c: CpuM, v: u16) -> CpuM {
    CpuM { cc_z: v == 0, cc_n: v >= 0x8000, ..c }
}

pub open spec fn nz8(c: CpuM, v: u8) -> CpuM {
    CpuM { cc_z: v == 0, cc_n: v >= 0x80, ..c }
}

/// The byte at an address.
pub open spec fn rd(c: CpuM, addr: u16) -> u8 {
    c.mem[addr as int]
}

/// The big-endian word at an address (the second byte wraps around).
pub open spec fn rd16(c: CpuM, addr: u16) -> u16 {
    word(rd(c, addr), rd(c, vstd::wrapping::u16_specs::wrapping_add(addr, 1)))
}

/// Memory with a big-endian word stored at an address.
pub open spec fn wr16(c: CpuM, addr: u16, v: u16) -> CpuM {
    CpuM {
        mem: c.mem.update(addr as int, (v / 256) as u8).update(
            vstd::wrapping::u16_specs::wrapping_add(addr, 1) as int,
            (v % 256) as u8,
        ),
        ..c
    }
}

/// The direct-page address of an offset.
pub open spec fn direct(c: CpuM, off: u8) -> u16 {
    word(c.dp, off)
}

/// The target of a short relative branch from `pc` by the signed byte `off`.
pub open spec fn rel8(pc: u16, off: u8) -> u16 {
    if off < 128 {
        vstd::wrapping::u16_specs::wrapping_add(pc, off as u16)
    } else {
        vstd::wrapping::u16_specs::wrapping_sub(pc, (256 - off) as u16)
    }
}

// ---------------------------------------------------------------------------
// BIOS calls
// ---------------------------------------------------------------------------

/// The name under which a BIOS routine is recorded.
pub open spec fn bios_name(addr: u16) -> Seq<char> {
    if addr == 0xF192 {
        "WAIT_RECAL"@
    } else if addr == 0xF2A5 {
        "INTENSITY_5F"@
    } else if addr == 0xF2AB {
        "INTENSITY_A"@
    } else if addr == 0xF37A {
        "PRINT_STR_D"@
    } else if addr == 0xF38A {
        "PRINT_LIST"@
    } else if addr == 0xF38C {
        "PRINT_LIST_CHK"@
    } else if addr == 0xF312 {
        "MOVETO_D"@
    } else if addr == 0xF354 {
        "RESET0REF"@
    } else if addr == 0xF1AF {
        "DP_TO_C8"@
    } else if addr == 0xF3DD {
        "DRAW_VL"@
    } else if addr == 0xFD0D {
        "MUSIC1"@
    } else {
        "BIOS_UNKNOWN"@
    }
}

/// The effect of an intercepted BIOS routine on the machine, before the call
/// is recorded.
pub open spec fn bios_effect(c: CpuM, addr: u16) -> CpuM {
    if addr == 0xF192 {
        CpuM { dp: 0xD0, frame_count: (c.frame_count + 1) as u64, ..c }
    } else if addr == 0xF2A5 {
        CpuM { last_intensity: 0x5F, ..c }
    } else if addr == 0xF2AB {
        CpuM { last_intensity: c.a, ..c }
    } else if addr == 0xF37A {
        CpuM { print_str_count: (c.print_str_count + 1) as u64, ..c }
    } else if addr == 0xF38A {
        CpuM { print_list_count: (c.print_list_count + 1) as u64, ..c }
    } else if addr == 0xF312 {
        CpuM { moveto_count: (c.moveto_count + 1) as u64, ..c }
    } else if addr == 0xF354 {
        CpuM { reset0ref_count: (c.reset0ref_count + 1) as u64, ..c }
    } else if addr == 0xF1AF {
        CpuM { dp: 0xC8, ..c }
    } else if addr == 0xF3DD {
        CpuM { draw_vl_count: (c.draw_vl_count + 1) as u64, ..c }
    } else {
        c
    }
}

/// The counter that a BIOS routine increments is below its maximum.
pub open spec fn bios_counter_fits(c: CpuM, addr: u16) -> bool {
    &&& addr == 0xF192 ==> c.frame_count < u64::MAX
    &&& addr == 0xF37A ==> c.print_str_count < u64::MAX
    &&& addr == 0xF38A ==> c.print_list_count < u64::MAX
    &&& addr == 0xF312 ==> c.moveto_count < u64::MAX
    &&& addr == 0xF354 ==> c.reset0ref_count < u64::MAX
    &&& addr == 0xF3DD ==> c.draw_vl_count < u64::MAX
}

/// The machine after an intercepted BIOS call: its effect, and the call
/// recorded as `ADDR:NAME` (four upper-case hexadecimal digits).
pub open spec fn bios_call(c: CpuM, addr: u16) -> CpuM {
    let e = bios_effect(c, addr);
    CpuM { bios_calls: e.bios_calls.push(hex(addr as nat, 4) + seq![':'] + bios_name(addr)), ..e }
}

impl CPU {
    fn d(&self) -> (r: u16)
        ensures
            r == reg_d(self.view()),
    {
        (self.a as u16) * 256 + self.b as u16
    }

    fn set_d(&mut self, v: u16)
        ensures
            final(self).view() == with_d(old(self).view(), v),
    {
        self.a = (v / 256) as u8;
        self.b = (v % 256) as u8;
    }

    fn update_nz16(&mut self, v: u16)
        ensures
            final(self).view() == nz16(old(self).view(), v),
    {
        self.cc_z = v == 0;
        self.cc_n = v >= 0x8000;
    }

    fn update_nz8(&mut self, v: u8)
        ensures
            final(self).view() == nz8(old(self).view(), v),
    {
        self.cc_z = v == 0;
        self.cc_n = v >= 0x80;
    }

    fn record_bios_call(&mut self, addr: u16)
        requires
            bios_counter_fits(old(self).view(), addr),
        ensures
            final(self).view() == bios_call(old(self).view(), addr),
            final(self).mem@ == old(self).mem@,
    {
        let name = if addr == 0xF192 {
            self.dp = 0xD0;
            self.frame_count += 1;
            "WAIT_RECAL"
        } else if addr == 0xF2A5 {
            self.last_intensity = 0x5F;
            "INTENSITY_5F"
        } else if addr == 0xF2AB {
            self.last_intensity = self.a;
            "INTENSITY_A"
        } else if addr == 0xF37A {
            self.print_str_count += 1;
            "PRINT_STR_D"
        } else if addr == 0xF38A {
            self.print_list_count += 1;
            "PRINT_LIST"
        } else if addr == 0xF38C {
            "PRINT_LIST_CHK"
        } else if addr == 0xF312 {
            self.moveto_count += 1;
            "MOVETO_D"
        } else if addr == 0xF354 {
            self.reset0ref_count += 1;
            "RESET0REF"
        } else if addr == 0xF1AF {
            self.dp = 0xC8;
            "DP_TO_C8"
        } else if addr == 0xF3DD {
            self.draw_vl_count += 1;
            "DRAW_VL"
        } else if addr == 0xFD0D {
            "MUSIC1"
        } else {
            "BIOS_UNKNOWN"
        };
        assert(name@ == bios_name(addr));
        let mut entry = String::new();
        push_hex(&mut entry, addr as u64, 4);
        push_char(&mut entry, ':');
        push_str(&mut entry, name);
        assert(entry@ =~= hex(addr as nat, 4) + seq![':'] + bios_name(addr));
        let ghost before = self.bios_calls@;
        self.bios_calls.push(entry);
        assert(self.bios_calls@.map_values(|s: String| s@) =~= before.map_values(|s: String| s@).push(
            hex(addr as nat, 4) + seq![':'] + bios_name(addr),
        ));
    }
}

// ---------------------------------------------------------------------------
// Instructions
// ---------------------------------------------------------------------------

/// The address after the opcode byte.
pub open spec fn after_op(c: CpuM) -> int {
    vstd::wrapping::u16_specs::wrapping_add(c.pc, 1) as int
}

/// The byte `k` places after the opcode.
pub open spec fn operand(c: CpuM, k: int) -> u8 {
    c.mem[after_op(c) + k]
}

/// The 16-bit operand that follows the opcode.
pub open spec fn operand16(c: CpuM) -> u16 {
    word(operand(c, 0), operand(c, 1))
}

/// The machine with the program counter moved past the opcode and `k`
/// operand bytes.
pub open spec fn skip(c: CpuM, k: int) -> CpuM {
    CpuM { pc: (after_op(c) + k) as u16, ..c }
}

/// The opcode at the program counter.
pub open spec fn opcode(c: CpuM) -> u8 {
    c.mem[c.pc as int]
}

/// The number of operand bytes the interpreter reads after an opcode.
pub open spec fn operand_bytes(op: u8) -> int {
    if op == 0xCC || op == 0xFC || op == 0x83 || op == 0xB3 || op == 0xB4 || op == 0xF4 || op == 0xBE
        || op == 0xCE || op == 0xFE || op == 0xBD || op == 0xB0 || op == 0xB6 || op == 0xB7 || op
        == 0xF6 || op == 0xF7 || op == 0x8E || op == 0xFD || op == 0xFF || op == 0xBF || op == 0x16 {
        2
    } else if op == 0x93 || op == 0x94 || op == 0xD4 || op == 0x8A || op == 0x86 || op == 0xC6 || op
        == 0x9D || op == 0x96 || op == 0x97 || op == 0x9F || op == 0x80 || op == 0x90 || op == 0x81
        || op == 0xD6 || op == 0xD7 || op == 0xDF || op == 0xDD || op == 0xAF || op == 0x20 || op
        == 0x27 || op == 0x26 || op == 0x2F || op == 0x2C || op == 0x1A {
        1
    } else if op == 0x10 {
        3
    } else {
        0
    }
}

/// Loads and stores: the machine after the instruction.
pub open spec fn data_op(c: CpuM, op: u8) -> CpuM {
    let w = operand16(c);
    let b1 = operand(c, 0);
    let c1 = skip(c, 1);
    let c2 = skip(c, 2);
    let d = reg_d(c);
    if op == 0xCC {
        nz16(with_d(c2, w), w)
    } else if op == 0xFC {
        nz16(with_d(c2, rd16(c, w)), rd16(c, w))
    } else if op == 0x86 {
        nz8(CpuM { a: b1, ..c1 }, b1)
    } else if op == 0xC6 {
        nz8(CpuM { b: b1, ..c1 }, b1)
    } else if op == 0xBE {
        CpuM { x: rd16(c, w), ..c2 }
    } else if op == 0xCE {
        CpuM { u: w, ..c2 }
    } else if op == 0xFE {
        CpuM { u: rd16(c, w), ..c2 }
    } else if op == 0x4F {
        nz8(CpuM { a: 0, ..skip(c, 0) }, 0)
    } else if op == 0x5F {
        nz8(CpuM { b: 0, ..skip(c, 0) }, 0)
    } else if op == 0x96 {
        nz8(CpuM { a: rd(c, direct(c, b1)), ..c1 }, rd(c, direct(c, b1)))
    } else if op == 0x97 {
        nz8(CpuM { mem: c.mem.update(direct(c, b1) as int, c.a), ..c1 }, c.a)
    } else if op == 0x9F {
        wr16(c1, direct(c, b1), c.x)
    } else if op == 0xD6 {
        nz8(CpuM { b: rd(c, direct(c, b1)), ..c1 }, rd(c, direct(c, b1)))
    } else if op == 0xD7 {
        nz8(CpuM { mem: c.mem.update(direct(c, b1) as int, c.b), ..c1 }, c.b)
    } else if op == 0xDF {
        wr16(c1, direct(c, b1), c.u)
    } else if op == 0xB6 {
        nz8(CpuM { a: rd(c, w), ..c2 }, rd(c, w))
    } else if op == 0xB7 {
        nz8(CpuM { mem: c.mem.update(w as int, c.a), ..c2 }, c.a)
    } else if op == 0xF6 {
        nz8(CpuM { b: rd(c, w), ..c2 }, rd(c, w))
    } else if op == 0xF7 {
        nz8(CpuM { mem: c.mem.update(w as int, c.b), ..c2 }, c.b)
    } else if op == 0xDD {
        nz16(wr16(c1, direct(c, b1), d), d)
    } else if op == 0x8E {
        CpuM { x: w, ..c2 }
    } else if op == 0xFD {
        nz16(wr16(c2, w, d), d)
    } else if op == 0xFF {
        wr16(c2, w, c.u)
    } else if op == 0xBF {
        wr16(c2, w, c.x)
    } else {
        // STX indexed (postbyte only) and ORCC: the operand byte is skipped
        c1
    }
}

/// Whether an opcode is a load or store handled by `data_op`.
pub open spec fn is_data_op(op: u8) -> bool {
    op == 0xCC || op == 0xFC || op == 0x86 || op == 0xC6 || op == 0xBE || op == 0xCE || op == 0xFE
        || op == 0x4F || op == 0x5F || op == 0x96 || op == 0x97 || op == 0x9F || op == 0xD6 || op
        == 0xD7 || op == 0xDF || op == 0xB6 || op == 0xB7 || op == 0xF6 || op == 0xF7 || op == 0xDD
        || op == 0x8E || op == 0xFD || op == 0xFF || op == 0xBF || op == 0xAF || op == 0x1A
}

/// Arithmetic and logic: the machine after the instruction.
pub open spec fn alu_op(c: CpuM, op: u8) -> CpuM {
    let w = operand16(c);
    let b1 = operand(c, 0);
    let c1 = skip(c, 1);
    let c2 = skip(c, 2);
    if op == 0x83 || op == 0x93 || op == 0xB3 {
        let val = if op == 0x83 {
            w
        } else if op == 0x93 {
            rd16(c, direct(c, b1))
        } else {
            rd16(c, w)
        };
        let base = if op == 0x93 {
            c1
        } else {
            c2
        };
        let res = vstd::wrapping::u16_specs::wrapping_sub(reg_d(c), val);
        nz16(with_d(base, res), res)
    } else if op == 0x94 || op == 0xB4 {
        let v = if op == 0x94 {
            rd(c, direct(c, b1))
        } else {
            rd(c, w)
        };
        let base = if op == 0x94 {
            c1
        } else {
            c2
        };
        nz8(CpuM { a: c.a & v, ..base }, c.a & v)
    } else if op == 0xD4 || op == 0xF4 {
        let v = if op == 0xD4 {
            rd(c, direct(c, b1))
        } else {
            rd(c, w)
        };
        let base = if op == 0xD4 {
            c1
        } else {
            c2
        };
        nz8(CpuM { b: c.b & v, ..base }, c.b & v)
    } else if op == 0x8A {
        nz8(CpuM { a: c.a | b1, ..c1 }, c.a | b1)
    } else if op == 0x80 || op == 0x90 {
        let val = if op == 0x80 {
            b1
        } else {
            rd(c, direct(c, b1))
        };
        let res = vstd::wrapping::u8_specs::wrapping_sub(c.a, val);
        nz8(CpuM { a: res, ..c1 }, res)
    } else if op == 0xB0 {
        let res = vstd::wrapping::u8_specs::wrapping_sub(c.a, rd(c, w));
        nz8(CpuM { a: res, ..c2 }, res)
    } else {
        // CMPA immediate: only the flags change
        nz8(c1, vstd::wrapping::u8_specs::wrapping_sub(c.a, b1))
    }
}

/// Whether an opcode is an arithmetic or logic instruction handled by `alu_op`.
pub open spec fn is_alu_op(op: u8) -> bool {
    op == 0x83 || op == 0x93 || op == 0xB3 || op == 0x94 || op == 0xB4 || op == 0xD4 || op == 0xF4
        || op == 0x8A || op == 0x80 || op == 0x90 || op == 0xB0 || op == 0x81
}

/// The target of a `JSR` (extended or direct).
pub open spec fn jsr_target(c: CpuM, op: u8) -> u16 {
    if op == 0xBD {
        operand16(c)
    } else {
        direct(c, operand(c, 0))
    }
}

/// A subroutine call: BIOS routines (at $F000 and above) are intercepted
/// when a BIOS is loaded, and stop the machine when none is; other targets
/// push the return address.
pub open spec fn call(c: CpuM, base: CpuM, addr: u16) -> (CpuM, Option<u64>) {
    if addr >= 0xF000 {
        if !c.bios_present {
            (base, None)
        } else {
            (bios_call(base, addr), Some(7))
        }
    } else {
        (CpuM { call_stack: base.call_stack.push(base.pc), pc: addr, ..base }, Some(7))
    }
}

/// Calls, returns and branches: the machine after the instruction and the
/// cycles it takes, or no cycles when the machine stops.
pub open spec fn control_op(c: CpuM, op: u8) -> (CpuM, Option<u64>) {
    let b1 = operand(c, 0);
    let c1 = skip(c, 1);
    let c2 = skip(c, 2);
    if op == 0xBD {
        call(c, c2, jsr_target(c, op))
    } else if op == 0x9D {
        call(c, c1, jsr_target(c, op))
    } else if op == 0x39 {
        let c0 = skip(c, 0);
        if c.call_stack.len() > 0 {
            (CpuM { pc: c.call_stack.last(), call_stack: c.call_stack.drop_last(), ..c0 }, Some(5))
        } else {
            (c0, Some(5))
        }
    } else if op == 0x20 {
        (CpuM { pc: rel8(c1.pc, b1), ..c1 }, Some(1))
    } else if op == 0x27 || op == 0x26 || op == 0x2F || op == 0x2C {
        let taken = if op == 0x27 {
            c.cc_z
        } else if op == 0x26 {
            !c.cc_z
        } else if op == 0x2F {
            c.cc_n || c.cc_z
        } else {
            !c.cc_n
        };
        (if taken {
            CpuM { pc: rel8(c1.pc, b1), ..c1 }
        } else {
            c1
        }, Some(1))
    } else if op == 0x16 {
        (CpuM { pc: vstd::wrapping::u16_specs::wrapping_add(c2.pc, operand16(c)), ..c2 }, Some(1))
    } else if op == 0x10 {
        let c3 = skip(c, 3);
        let target = vstd::wrapping::u16_specs::wrapping_add(c3.pc, word(operand(c, 1), operand(c, 2)));
        if b1 == 0x26 {
            (if !c.cc_z {
                CpuM { pc: target, ..c3 }
            } else {
                c3
            }, Some(1))
        } else if b1 == 0x27 {
            (if c.cc_z {
                CpuM { pc: target, ..c3 }
            } else {
                c3
            }, Some(1))
        } else {
            (c3, None)
        }
    } else {
        (skip(c, 0), None)
    }
}

/// One instruction: the machine after it and its cycles, or no cycles when
/// the machine stops (an unknown opcode, or a BIOS call without a BIOS).
pub open spec fn step_core(c: CpuM) -> (CpuM, Option<u64>) {
    let op = opcode(c);
    if is_data_op(op) {
        (data_op(c, op), Some(
            if op == 0xCC {
                3
            } else if op == 0xFC {
                5
            } else {
                1
            },
        ))
    } else if is_alu_op(op) {
        (alu_op(c, op), Some(1))
    } else {
        control_op(c, op)
    }
}

/// One instruction: the machine after it, with the cycles counted, and
/// whether it may go on.
pub open spec fn step_spec(c: CpuM) -> (CpuM, bool) {
    match step_core(c) {
        (n, Some(cyc)) => (CpuM { cycles: (n.cycles + cyc) as u64, ..n }, true),
        (n, None) => (n, false),
    }
}

/// The instruction reads its operands within the address space, and the
/// counters it increments do not overflow.
pub open spec fn step_fits(c: CpuM) -> bool {
    let op = opcode(c);
    &&& after_op(c) + operand_bytes(op) <= 0xFFFF
    &&& (op == 0xBD || op == 0x9D) && jsr_target(c, op) >= 0xF000 && c.bios_present
        ==> bios_counter_fits(c, jsr_target(c, op))
    &&& step_core(c).1 matches Some(cyc) ==> step_core(c).0.cycles + cyc <= u64::MAX
}

impl CPU {
    fn byte(&self, addr: u16) -> (r: u8)
        requires
            self.wf(),
        ensures
            r == rd(self.view(), addr),
    {
        self.mem[addr as usize]
    }

    fn word_at(&self, addr: u16) -> (r: u16)
        requires
            self.wf(),
        ensures
            r == rd16(self.view(), addr),
    {
        let hi = self.byte(addr);
        let lo = self.byte(addr.wrapping_add(1));
        (hi as u16) * 256 + lo as u16
    }

    /// The 16-bit value in the two bytes at `p` and `p + 1`.
    fn imm16(&self, p: u16) -> (r: u16)
        requires
            self.wf(),
            p < 0xFFFF,
        ensures
            r == word(self.mem@[p as int], self.mem@[p + 1]),
    {
        let hi = self.mem[p as usize];
        let lo = self.mem[p as usize + 1];
        (hi as u16) * 256 + lo as u16
    }

    fn store(&mut self, addr: u16, v: u8)
        requires
            old(self).wf(),
        ensures
            final(self).wf(),
            final(self).view() == (CpuM { mem: old(self).mem@.update(addr as int, v), ..old(self).view() }),
    {
        self.mem.set(addr as usize, v);
    }

    fn store16(&mut self, addr: u16, v: u16)
        requires
            old(self).wf(),
        ensures
            final(self).wf(),
            final(self).view() == wr16(old(self).view(), addr, v),
    {
        self.mem.set(addr as usize, (v / 256) as u8);
        self.mem.set(addr.wrapping_add(1) as usize, (v % 256) as u8);
    }

    fn direct_addr(&self, off: u8) -> (r: u16)
        ensures
            r == direct(self.view(), off),
    {
        (self.dp as u16) * 256 + off as u16
    }

    /// Loads and stores.
    #[verifier::rlimit(50)]
    #[verifier::spinoff_prover]
    fn exec_data(&mut self, op: u8)
        requires
            old(self).wf(),
            is_data_op(op),
            after_op(old(self).view()) + operand_bytes(op) <= 0xFFFF,
        ensures
            final(self).wf(),
            final(self).view() == data_op(old(self).view(), op),
    {
        let ghost c = self.view();
        let p: u16 = self.pc.wrapping_add(1);
        let b1 = self.mem[p as usize];
        if op == 0xCC {
            let w = self.imm16(p);
            self.pc = p + 2;
            self.set_d(w);
            self.update_nz16(w);
        } else if op == 0xFC {
            let w = self.imm16(p);
            self.pc = p + 2;
            let v = self.word_at(w);
            self.set_d(v);
            self.update_nz16(v);
        } else if op == 0x86 {
            self.pc = p + 1;
            self.a = b1;
            self.update_nz8(b1);
        } else if op == 0xC6 {
            self.pc = p + 1;
            self.b = b1;
            self.update_nz8(b1);
        } else if op == 0xBE {
            let w = self.imm16(p);
            self.pc = p + 2;
            self.x = self.word_at(w);
        } else if op == 0xCE {
            let w = self.imm16(p);
            self.pc = p + 2;
            self.u = w;
        } else if op == 0xFE {
            let w = self.imm16(p);
            self.pc = p + 2;
            self.u = self.word_at(w);
        } else if op == 0x4F {
            self.pc = p;
            self.a = 0;
            self.update_nz8(0);
        } else if op == 0x5F {
            self.pc = p;
            self.b = 0;
            self.update_nz8(0);
        } else if op == 0x96 {
            let addr = self.direct_addr(b1);
            self.pc = p + 1;
            self.a = self.byte(addr);
            self.update_nz8(self.a);
        } else if op == 0x97 {
            let addr = self.direct_addr(b1);
            self.pc = p + 1;
            self.store(addr, self.a);
            self.update_nz8(self.a);
        } else if op == 0x9F {
            let addr = self.direct_addr(b1);
            self.pc = p + 1;
            self.store16(addr, self.x);
        } else if op == 0xD6 {
            let addr = self.direct_addr(b1);
            self.pc = p + 1;
            self.b = self.byte(addr);
            self.update_nz8(self.b);
        } else if op == 0xD7 {
            let addr = self.direct_addr(b1);
            self.pc = p + 1;
            self.store(addr, self.b);
            self.update_nz8(self.b);
        } else if op == 0xDF {
            let addr = self.direct_addr(b1);
            self.pc = p + 1;
            self.store16(addr, self.u);
        } else if op == 0xB6 {
            let w = self.imm16(p);
            self.pc = p + 2;
            self.a = self.byte(w);
            self.update_nz8(self.a);
        } else if op == 0xB7 {
            let w = self.imm16(p);
            self.pc = p + 2;
            self.store(w, self.a);
            self.update_nz8(self.a);
        } else if op == 0xF6 {
            let w = self.imm16(p);
            self.pc = p + 2;
            self.b = self.byte(w);
            self.update_nz8(self.b);
        } else if op == 0xF7 {
            let w = self.imm16(p);
            self.pc = p + 2;
            self.store(w, self.b);
            self.update_nz8(self.b);
        } else if op == 0xDD {
            let addr = self.direct_addr(b1);
            self.pc = p + 1;
            let d = self.d();
            self.store16(addr, d);
            self.update_nz16(d);
        } else if op == 0x8E {
            let w = self.imm16(p);
            self.pc = p + 2;
            self.x = w;
        } else if op == 0xFD {
            let w = self.imm16(p);
            self.pc = p + 2;
            let d = self.d();
            self.store16(w, d);
            self.update_nz16(d);
        } else if op == 0xFF {
            let w = self.imm16(p);
            self.pc = p + 2;
            self.store16(w, self.u);
        } else if op == 0xBF {
            let w = self.imm16(p);
            self.pc = p + 2;
            self.store16(w, self.x);
        } else {
            self.pc = p + 1;
        }
    }

    /// Arithmetic and logic.
    #[verifier::rlimit(50)]
    #[verifier::spinoff_prover]
    fn exec_alu(&mut self, op: u8)
        requires
            old(self).wf(),
            is_alu_op(op),
            after_op(old(self).view()) + operand_bytes(op) <= 0xFFFF,
        ensures
            final(self).wf(),
            final(self).view() == alu_op(old(self).view(), op),
    {
        let p: u16 = self.pc.wrapping_add(1);
        let b1 = self.mem[p as usize];
        if op == 0x83 || op == 0x93 || op == 0xB3 {
            let val = if op == 0x83 {
                let w = self.imm16(p);
                self.pc = p + 2;
                w
            } else if op == 0x93 {
                let addr = self.direct_addr(b1);
                self.pc = p + 1;
                self.word_at(addr)
            } else {
                let w = self.imm16(p);
                self.pc = p + 2;
                self.word_at(w)
            };
            let d = self.d();
            let res = d.wrapping_sub(val);
            self.set_d(res);
            self.update_nz16(res);
        } else if op == 0x94 || op == 0xB4 {
            let v = if op == 0x94 {
                let addr = self.direct_addr(b1);
                self.pc = p + 1;
                self.byte(addr)
            } else {
                let w = self.imm16(p);
                self.pc = p + 2;
                self.byte(w)
            };
            self.a = self.a & v;
            self.update_nz8(self.a);
        } else if op == 0xD4 || op == 0xF4 {
            let v = if op == 0xD4 {
                let addr = self.direct_addr(b1);
                self.pc = p + 1;
                self.byte(addr)
            } else {
                let w = self.imm16(p);
                self.pc = p + 2;
                self.byte(w)
            };
            self.b = self.b & v;
            self.update_nz8(self.b);
        } else if op == 0x8A {
            self.pc = p + 1;
            self.a = self.a | b1;
            self.update_nz8(self.a);
        } else if op == 0x80 || op == 0x90 {
            let val = if op == 0x80 {
                self.pc = p + 1;
                b1
            } else {
                let addr = self.direct_addr(b1);
                self.pc = p + 1;
                self.byte(addr)
            };
            let res = self.a.wrapping_sub(val);
            self.a = res;
            self.update_nz8(self.a);
        } else if op == 0xB0 {
            let w = self.imm16(p);
            self.pc = p + 2;
            let val = self.byte(w);
            let res = self.a.wrapping_sub(val);
            self.a = res;
            self.update_nz8(self.a);
        } else {
            self.pc = p + 1;
            let res = self.a.wrapping_sub(b1);
            self.update_nz8(res);
        }
    }

    /// A `JSR` to `addr` once the program counter is past the instruction.
    fn exec_call(&mut self, addr: u16) -> (r: bool)
        requires
            old(self).wf(),
            addr >= 0xF000 && old(self).bios_present ==> bios_counter_fits(old(self).view(), addr),
        ensures
            final(self).wf(),
            (final(self).view(), r) == (match call(old(self).view(), old(self).view(), addr) {
                (n, Some(_)) => (n, true),
                (n, None) => (n, false),
            }),
    {
        if addr >= 0xF000 {
            if !self.bios_present {
                return false;
            }
            self.record_bios_call(addr);
        } else {
            let ret = self.pc;
            self.call_stack.push(ret);
            self.pc = addr;
        }
        true
    }

    /// Calls, returns and branches; `false` when the machine stops.
    #[verifier::rlimit(50)]
    #[verifier::spinoff_prover]
    fn exec_control(&mut self, op: u8) -> (r: Option<u64>)
        requires
            old(self).wf(),
            !is_data_op(op),
            !is_alu_op(op),
            after_op(old(self).view()) + operand_bytes(op) <= 0xFFFF,
            (op == 0xBD || op == 0x9D) && jsr_target(old(self).view(), op) >= 0xF000
                && old(self).bios_present ==> bios_counter_fits(old(self).view(), jsr_target(old(self).view(), op)),
        ensures
            final(self).wf(),
            (final(self).view(), r) == control_op(old(self).view(), op),
    {
        let ghost c = self.view();
        let p: u16 = self.pc.wrapping_add(1);
        if op == 0xBD {
            let addr = self.imm16(p);
            self.pc = p + 2;
            let ok = self.exec_call(addr);
            if ok {
                Some(7)
            } else {
                None
            }
        } else if op == 0x9D {
            let off = self.mem[p as usize];
            let addr = self.direct_addr(off);
            self.pc = p + 1;
            let ok = self.exec_call(addr);
            if ok {
                Some(7)
            } else {
                None
            }
        } else if op == 0x39 {
            self.pc = p;
            if let Some(r) = self.call_stack.pop() {
                self.pc = r;
            }
            Some(5)
        } else if op == 0x20 || op == 0x27 || op == 0x26 || op == 0x2F || op == 0x2C {
            let off = self.mem[p as usize];
            self.pc = p + 1;
            let taken = if op == 0x20 {
                true
            } else if op == 0x27 {
                self.cc_z
            } else if op == 0x26 {
                !self.cc_z
            } else if op == 0x2F {
                self.cc_n || self.cc_z
            } else {
                !self.cc_n
            };
            if taken {
                self.pc = if off < 128 {
                    self.pc.wrapping_add(off as u16)
                } else {
                    self.pc.wrapping_sub(256 - off as u16)
                };
            }
            Some(1)
        } else if op == 0x16 {
            let w = self.imm16(p);
            self.pc = p + 2;
            self.pc = self.pc.wrapping_add(w);
            Some(1)
        } else if op == 0x10 {
            let bop = self.mem[p as usize];
            let q = p + 1;
            let off = self.imm16(q);
            self.pc = q + 2;
            let target = self.pc.wrapping_add(off);
            if bop == 0x26 {
                if !self.cc_z {
                    self.pc = target;
                }
                Some(1)
            } else if bop == 0x27 {
                if self.cc_z {
                    self.pc = target;
                }
                Some(1)
            } else {
                None
            }
        } else {
            self.pc = p;
            None
        }
    }

    /// Executes one instruction; `false` when the machine stops (an
    /// unimplemented opcode, or a BIOS call without a BIOS loaded).
    pub fn step(&mut self) -> (r: bool)
        requires
            old(self).wf(),
            step_fits(old(self).view()),
        ensures
            final(self).wf(),
            (final(self).view(), r) == step_spec(old(self).view()),
    {
        let op = self.mem[self.pc as usize];
        let ghost c = self.view();
        assert(op == opcode(c));
        let cyc: u64 = if is_data_op_exec(op) {
            self.exec_data(op);
            if op == 0xCC {
                3
            } else if op == 0xFC {
                5
            } else {
                1
            }
        } else if is_alu_op_exec(op) {
            self.exec_alu(op);
            1
        } else {
            match self.exec_control(op) {
                Some(n) => n,
                None => {
                    return false;
                },
            }
        };
        self.cycles += cyc;
        true
    }
}

fn is_data_op_exec(op: u8) -> (r: bool)
    ensures
        r == is_data_op(op),
{
    op == 0xCC || op == 0xFC || op == 0x86 || op == 0xC6 || op == 0xBE || op == 0xCE || op == 0xFE
        || op == 0x4F || op == 0x5F || op == 0x96 || op == 0x97 || op == 0x9F || op == 0xD6 || op
        == 0xD7 || op == 0xDF || op == 0xB6 || op == 0xB7 || op == 0xF6 || op == 0xF7 || op == 0xDD
        || op == 0x8E || op == 0xFD || op == 0xFF || op == 0xBF || op == 0xAF || op == 0x1A
}

fn is_alu_op_exec(op: u8) -> (r: bool)
    ensures
        r == is_alu_op(op),
{
    op == 0x83 || op == 0x93 || op == 0xB3 || op == 0x94 || op == 0xB4 || op == 0xD4 || op == 0xF4
        || op == 0x8A || op == 0x80 || op == 0x90 || op == 0xB0 || op == 0x81
}

/// The machine after at most `n` instructions, stopping early when one
/// stops it.
pub open spec fn run_spec(c: CpuM, n: nat) -> CpuM
    decreases n,
{
    if n == 0 {
        c
    } else {
        let (next, go_on) = step_spec(c);
        if go_on {
            run_spec(next, (n - 1) as nat)
        } else {
            next
        }
    }
}

/// Every instruction of such a run fits (see `step_fits`).
pub open spec fn run_fits(c: CpuM, n: nat) -> bool
    decreases n,
{
    n == 0 || (step_fits(c) && (step_spec(c).1 ==> run_fits(step_spec(c).0, (n - 1) as nat)))
}

impl CPU {
    /// Runs at most `max_steps` instructions, stopping at the first that
    /// stops the machine.
    pub fn run(&mut self, max_steps: usize)
        requires
            old(self).wf(),
            run_fits(old(self).view(), max_steps as nat),
        ensures
            final(self).wf(),
            final(self).view() == run_spec(old(self).view(), max_steps as nat),
    {
        let mut i: usize = 0;
        while i < max_steps
            invariant
                i <= max_steps,
                self.wf(),
                run_fits(self.view(), (max_steps - i) as nat),
                run_spec(old(self).view(), max_steps as nat) == run_spec(self.view(), (max_steps - i) as nat),
            decreases max_steps - i,
        {
            let ghost before = self.view();
            if !self.step() {
                assert(run_spec(before, (max_steps - i) as nat) == self.view());
                assert(run_spec(self.view(), 0) == self.view());
                return;
            }
            i += 1;
        }
    }
}

/// A `JSR` to a routine (below the BIOS area) that starts with `RTS` comes
/// back to the instruction after the `JSR`, with the call stack and memory
/// as they were.
pub proof fn lemma_call_then_return(c: CpuM)
    requires
        c.mem.len() == 0x10000,
        opcode(c) == 0xBD,
        after_op(c) + 2 <= 0xFFFF,
        jsr_target(c, 0xBD) < 0xF000,
        c.mem[jsr_target(c, 0xBD) as int] == 0x39,
    ensures
        step_spec(c).1,
        step_spec(step_spec(c).0).1,
        step_spec(step_spec(c).0).0.pc == after_op(c) + 2,
        step_spec(step_spec(c).0).0.call_stack == c.call_stack,
        step_spec(step_spec(c).0).0.mem == c.mem,
{
    let c1 = step_spec(c).0;
    assert(c1.call_stack == c.call_stack.push((after_op(c) + 2) as u16));
    assert(c1.pc == jsr_target(c, 0xBD));
    assert(opcode(c1) == 0x39);
    assert(c1.call_stack.drop_last() =~= c.call_stack);
}


/// Bit `i` (0 = least significant) of a byte.
pub open spec fn bit8(x: u8, i: u8) -> bool {
    (x >> i) & 1 == 1
}

/// The addressing mode of an accumulator instruction, from the high nibble
/// of its opcode as the 6809 encodes it: 0 immediate, 1 direct page,
/// 3 extended.
pub open spec fn addr_mode(op: u8) -> int {
    (op as int / 16) % 4
}

/// The byte an 8-bit accumulator instruction reads: the immediate operand,
/// the byte at the direct-page address `DP:operand`, or the byte at the
/// 16-bit operand address.
pub open spec fn alu_read8(c: CpuM) -> u8 {
    let op = opcode(c);
    if addr_mode(op) == 1 {
        rd(c, direct(c, operand(c, 0)))
    } else if addr_mode(op) == 3 {
        rd(c, operand16(c))
    } else {
        operand(c, 0)
    }
}

/// The word a 16-bit accumulator instruction reads, by the same modes.
pub open spec fn alu_read16(c: CpuM) -> u16 {
    let op = opcode(c);
    if addr_mode(op) == 1 {
        rd16(c, direct(c, operand(c, 0)))
    } else if addr_mode(op) == 3 {
        rd16(c, operand16(c))
    } else {
        operand16(c)
    }
}

proof fn lemma_bits_and_or(x: u8, y: u8, i: u8)
    by (bit_vector)
    requires
        i < 8,
    ensures
        (((x & y) >> i) & 1 == 1) == (((x >> i) & 1 == 1) && ((y >> i) & 1 == 1)),
        (((x | y) >> i) & 1 == 1) == (((x >> i) & 1 == 1) || ((y >> i) & 1 == 1)),
{
}

/// What an accumulator instruction does, from the machine `c` before it to
/// the machine `n` after it, with the operand `v` it reads (`alu_read8`, or
/// `alu_read16` for `SUBD`), by the low nibble of the opcode: `AND` (`$x4`)
/// leaves in A (opcodes below `$C0`) or B exactly the bits set both in the
/// register and in `v`, so the register never gains a bit; `ORA` (`$8A`)
/// leaves the bits set in either; `SUBA` (`$x0`) leaves the value that,
/// added to `v`, gives the old A modulo 256; `SUBD` (`$x3`) the same on D
/// modulo 65536; `CMPA` (`$81`) leaves A as it was and sets Z exactly when A
/// equals `v`. Z and N describe the result, the other accumulator and the
/// memory stay as they were, and the program counter moves past the operand
/// bytes.
pub open spec fn alu_law(c: CpuM, n: CpuM) -> bool {
    let op = opcode(c);
    let v = alu_read8(c);
    &&& n.mem == c.mem
    &&& n.call_stack == c.call_stack
    &&& n.x == c.x && n.u == c.u && n.dp == c.dp
    &&& n.pc == (after_op(c) + operand_bytes(op)) as u16
    &&& op % 16 == 4 && op < 0xC0 ==> n.b == c.b && n.cc_z == (n.a == 0) && n.cc_n == (n.a >= 0x80)
        && forall|i: u8| i < 8 ==> #[trigger] bit8(n.a, i) == (bit8(c.a, i) && bit8(v, i))
    &&& op % 16 == 4 && op >= 0xC0 ==> n.a == c.a && n.cc_z == (n.b == 0) && n.cc_n == (n.b >= 0x80)
        && forall|i: u8| i < 8 ==> #[trigger] bit8(n.b, i) == (bit8(c.b, i) && bit8(v, i))
    &&& op % 16 == 10 ==> n.b == c.b && n.cc_z == (n.a == 0) && n.cc_n == (n.a >= 0x80) && forall|
        i: u8,
    | i < 8 ==> #[trigger] bit8(n.a, i) == (bit8(c.a, i) || bit8(v, i))
    &&& op % 16 == 0 ==> n.b == c.b && n.cc_z == (n.a == 0) && n.cc_n == (n.a >= 0x80) && (n.a + v)
        % 256 == c.a
    &&& op % 16 == 3 ==> n.cc_z == (reg_d(n) == 0) && n.cc_n == (reg_d(n) >= 0x8000) && (reg_d(n)
        + alu_read16(c)) % 65536 == reg_d(c)
    &&& op % 16 == 1 ==> n.a == c.a && n.b == c.b && (n.cc_z <==> c.a == v)
}

proof fn lemma_alu_step(c: CpuM)
    requires
        is_alu_op(opcode(c)),
    ensures
        step_spec(c).1,
        step_spec(c).0 == (CpuM { cycles: (alu_op(c, opcode(c)).cycles + 1) as u64, ..alu_op(c, opcode(c)) }),
{
    assert(!is_data_op(opcode(c)));
}

proof fn lemma_alu_and(c: CpuM)
    requires
        opcode(c) == 0x94 || opcode(c) == 0xB4 || opcode(c) == 0xD4 || opcode(c) == 0xF4,
    ensures
        alu_law(c, alu_op(c, opcode(c))),
{
    let op = opcode(c);
    let v = alu_read8(c);
    let n = alu_op(c, op);
    if op < 0xC0 {
        assert(n.a == c.a & v);
        assert forall|i: u8| i < 8 implies #[trigger] bit8(n.a, i) == (bit8(c.a, i) && bit8(v, i)) by {
            lemma_bits_and_or(c.a, v, i);
        }
    } else {
        assert(n.b == c.b & v);
        assert forall|i: u8| i < 8 implies #[trigger] bit8(n.b, i) == (bit8(c.b, i) && bit8(v, i)) by {
            lemma_bits_and_or(c.b, v, i);
        }
    }
}

proof fn lemma_alu_or_sub_cmp(c: CpuM)
    requires
        opcode(c) == 0x8A || opcode(c) == 0x80 || opcode(c) == 0x90 || opcode(c) == 0xB0 || opcode(c)
            == 0x81,
    ensures
        alu_law(c, alu_op(c, opcode(c))),
{
    let op = opcode(c);
    let v = alu_read8(c);
    let n = alu_op(c, op);
    if op == 0x8A {
        assert(n.a == c.a | v);
        assert forall|i: u8| i < 8 implies #[trigger] bit8(n.a, i) == (bit8(c.a, i) || bit8(v, i)) by {
            lemma_bits_and_or(c.a, v, i);
        }
    }
}

proof fn lemma_alu_subd(c: CpuM)
    requires
        opcode(c) == 0x83 || opcode(c) == 0x93 || opcode(c) == 0xB3,
    ensures
        alu_law(c, alu_op(c, opcode(c))),
{
    let op = opcode(c);
    let n = alu_op(c, op);
    let res = vstd::wrapping::u16_specs::wrapping_sub(reg_d(c), alu_read16(c));
    assert(n.a == (res / 256) as u8 && n.b == (res % 256) as u8);
    assert(reg_d(n) == res) by (nonlinear_arith)
        requires
            n.a == (res / 256) as u8,
            n.b == (res % 256) as u8,
            reg_d(n) == (n.a * 256 + n.b) as u16,
    {
    }
}

/// One step of an accumulator instruction goes on, and does what `alu_law`
/// says.
pub proof fn lemma_alu_meaning(c: CpuM)
    requires
        is_alu_op(opcode(c)),
    ensures
        step_spec(c).1,
        alu_law(c, step_spec(c).0),
{
    let op = opcode(c);
    lemma_alu_step(c);
    if op == 0x94 || op == 0xB4 || op == 0xD4 || op == 0xF4 {
        lemma_alu_and(c);
    } else if op == 0x83 || op == 0x93 || op == 0xB3 {
        lemma_alu_subd(c);
    } else {
        lemma_alu_or_sub_cmp(c);
    }
    let m = alu_op(c, op);
    let n = step_spec(c).0;
    assert(n.a == m.a && n.b == m.b && n.cc_z == m.cc_z && n.cc_n == m.cc_n);
}

} // verus!
