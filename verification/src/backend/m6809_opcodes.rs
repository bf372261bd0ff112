//! M6809 opcode table for instruction size calculation
//! (Motorola M6809 Programming Reference Guide).

use vstd::prelude::*;

verus! {

/// Size of an instruction whose opcode follows the page-2 prefix `$10`.
pub open spec fn page2_size(op: u8) -> u16 {
    if op == 0x3F || op == 0x83 || op == 0x8C || op == 0x8E || op == 0x93 || op == 0xA3 || op
        == 0xAC || op == 0xAE || op == 0xB3 || op == 0xBC || op == 0xBE {
        3
    } else {
        2
    }
}

/// Size of an instruction whose opcode follows the page-3 prefix `$11`.
pub open spec fn page3_size(op: u8) -> u16 {
    if op == 0x3F || op == 0x83 || op == 0x8C || op == 0x93 || op == 0xA3 || op == 0xAC || op
        == 0xB3 || op == 0xBC {
        3
    } else {
        2
    }
}

/// One-byte opcodes of the table: inherent forms, and the entries listed
/// with them (immediate and direct rows whose operand is counted elsewhere).
pub open spec fn one_byte_op(op: u8) -> bool {
    ||| op == 0x12 || op == 0x13 || op == 0x19 || op == 0x1D
    ||| op == 0x39 || op == 0x3A || op == 0x3B || op == 0x3D || op == 0x3E || op == 0x3F
    ||| op == 0x40 || op == 0x43 || op == 0x44 || op == 0x46 || op == 0x47 || op == 0x48
        || op == 0x49 || op == 0x4A || op == 0x4C || op == 0x4D || op == 0x4F
    ||| op == 0x50 || op == 0x53 || op == 0x54 || op == 0x56 || op == 0x57 || op == 0x58
        || op == 0x59 || op == 0x5A || op == 0x5C || op == 0x5D || op == 0x5F
    ||| op == 0x80 || op == 0x81 || op == 0x82 || op == 0x83 || op == 0x84 || op == 0x85
        || op == 0x88 || op == 0x89 || op == 0x8A || op == 0x8B
    ||| (0x90 <= op <= 0x95) || (0x97 <= op <= 0x9C)
}

/// Two-byte opcodes of the table (8-bit immediate, short branches, register
/// transfers and stack operations, direct loads, and indexed forms).
pub open spec fn two_byte_op(op: u8) -> bool {
    ||| op == 0x86 || op == 0xC6
    ||| (0x20 <= op <= 0x2F)
    ||| op == 0x1F || (0x34 <= op <= 0x37)
    ||| op == 0x96 || op == 0xD6 || op == 0xDC
    ||| op == 0x0E || op == 0x0F || op == 0x7E
    ||| (0xA0 <= op <= 0xAF) || (0xE0 <= op <= 0xEF) || (0x60 <= op <= 0x6F)
}

/// Three-byte opcodes of the table (extended addressing, 16-bit immediate,
/// long branches).
pub open spec fn three_byte_op(op: u8) -> bool {
    ||| op == 0xB6 || op == 0xB7 || op == 0xBD || op == 0xBE || op == 0xBF || op == 0xD7
    ||| op == 0xF6 || op == 0xF7 || op == 0xFC || op == 0xFD || op == 0xFE || op == 0xFF
    ||| op == 0x7F || op == 0x9D || op == 0x9E || op == 0x9F
    ||| op == 0x8C || op == 0x8D || op == 0x8E || op == 0xCC || op == 0xCE
    ||| op == 0x16 || op == 0x17
}

/// The size the table gives to an instruction: prefixes add one byte to the
/// size of the next opcode (or count alone when nothing follows), then the
/// one-, two- and three-byte rows are tried in that order, and any other
/// opcode counts as one byte.
pub open spec fn instruction_size(opcode: u8, next_byte: Option<u8>) -> u16 {
    if opcode == 0x10 {
        match next_byte {
            Some(op2) => (1 + page2_size(op2)) as u16,
            None => 1,
        }
    } else if opcode == 0x11 {
        match next_byte {
            Some(op2) => (1 + page3_size(op2)) as u16,
            None => 1,
        }
    } else if one_byte_op(opcode) {
        1
    } else if two_byte_op(opcode) {
        2
    } else if three_byte_op(opcode) {
        3
    } else {
        1
    }
}

/// Get the size in bytes of an M6809 instruction starting with the given opcode
pub fn get_instruction_size(opcode: u8, next_byte: Option<u8>) -> (r: u16)
    ensures
        r == instruction_size(opcode, next_byte),
        1 <= r <= 4,
{
    match opcode {
        0x10 => {
            if let Some(op2) = next_byte {
                1 + get_page2_size(op2)
            } else {
                1
            }
        },
        0x11 => {
            if let Some(op2) = next_byte {
                1 + get_page3_size(op2)
            } else {
                1
            }
        },
        0x12 | 0x13 | 0x19 | 0x1D | 0x39 | 0x3A | 0x3B | 0x3D | 0x3E | 0x3F | 0x40 | 0x43 | 0x44
        | 0x46 | 0x47 | 0x48 | 0x49 | 0x4A | 0x4C | 0x4D | 0x4F | 0x50 | 0x53 | 0x54 | 0x56
        | 0x57 | 0x58 | 0x59 | 0x5A | 0x5C | 0x5D | 0x5F | 0x80 | 0x81 | 0x82 | 0x83 | 0x84
        | 0x85 | 0x88 | 0x89 | 0x8A | 0x8B | 0x90 | 0x91 | 0x92 | 0x93 | 0x94 | 0x95 | 0x97
        | 0x98 | 0x99 | 0x9A | 0x9B | 0x9C => 1,
        0x86 | 0xC6 | 0x20 | 0x21 | 0x22 | 0x23 | 0x24 | 0x25 | 0x26 | 0x27 | 0x28 | 0x29 | 0x2A
        | 0x2B | 0x2C | 0x2D | 0x2E | 0x2F | 0x1F | 0x34 | 0x35 | 0x36 | 0x37 => 2,
        0x96 | 0xD6 | 0xDC => 2,
        0x0E | 0x0F | 0x6E | 0x6F | 0x7E | 0xAD | 0xA0..=0xAF | 0xE0..=0xEF | 0x60..=0x6F => 2,
        0xB6 | 0xB7 | 0xBD | 0xBE | 0xBF | 0xD7 | 0xF6 | 0xF7 | 0xFC | 0xFD | 0xFE | 0xFF | 0x7F
        | 0x9D | 0x9E | 0x9F => 3,
        0x8C | 0x8D | 0x8E | 0xCC | 0xCE => 3,
        0x16 | 0x17 => 3,
        _ => 1,
    }
}

/// Size of a page-2 instruction (after the `$10` prefix).
pub fn get_page2_size(opcode: u8) -> (r: u16)
    ensures
        r == page2_size(opcode),
{
    match opcode {
        0x3F | 0x83 | 0x8C | 0x8E | 0x93 | 0xA3 | 0xAC | 0xAE | 0xB3 | 0xBC | 0xBE => 3,
        _ => 2,
    }
}

/// Size of a page-3 instruction (after the `$11` prefix).
pub fn get_page3_size(opcode: u8) -> (r: u16)
    ensures
        r == page3_size(opcode),
{
    match opcode {
        0x3F | 0x83 | 0x8C | 0x93 | 0xA3 | 0xAC | 0xB3 | 0xBC => 3,
        _ => 2,
    }
}

} // verus!
