//! Address tracking for generating an assembly listing with address comments,
//! so that the address mapper can build the debug symbols without guessing.
//!
//! The tracker in use during emission lives in a slot owned by the caller
//! (`Option<AddressTracker>`), set by `AddressTracker::init_global`.

use vstd::prelude::*;
use crate::text::{
    chars_of, contains, ends_with, find, hex, push_hex, push_str, split_on, split_char_vec,
    starts_with, starts_with_str, ends_with_str, string_of, strip_all, strip_all_vec, to_upper,
    trim, trim_vec, unicode_upper, vec_is, words, words_vec, find_str, contains_str, slice_of,
};

verus! {

#[derive(Debug, Clone)]
pub struct AddressTracker {
    current_address: u16,
    enabled: bool,
}

/// The first whitespace-separated word of `t`, or nothing.
pub open spec fn first_word(t: Seq<char>) -> Seq<char> {
    if words(t).len() > 0 {
        words(t)[0]
    } else {
        Seq::empty()
    }
}

/// Size an instruction line advances the address by, from its mnemonic and
/// the addressing-mode characters it contains (`#` immediate, `<`/`>`
/// forced direct/extended, `,` indexed); data directives count their values.
pub open spec fn tracked_size(instruction: Seq<char>) -> u16 {
    let t = trim(instruction);
    if t.len() == 0 || starts_with(t, ";"@) {
        0
    } else if ends_with(t, ":"@) {
        0
    } else if starts_with(t, "FCB"@) {
        (split_on(trim(strip_all(t, "FCB"@)), ',').len() % 0x10000) as u16
    } else if starts_with(t, "FDB"@) {
        ((split_on(trim(strip_all(t, "FDB"@)), ',').len() * 2) % 0x10000) as u16
    } else if starts_with(t, "FCC"@) {
        match find(t, "\""@) {
            Some(s) => match find(t.skip(s + 1), "\""@) {
                Some(e) => ((e + 1) % 0x10000) as u16,
                None => 1,
            },
            None => 1,
        }
    } else {
        let m = unicode_upper(first_word(t));
        let imm = contains(t, "#"@);
        let ext = contains(t, ">"@) || contains(t, "<"@);
        let idx = contains(t, ","@);
        if (m == "NOP"@ || m == "DAA"@ || m == "SEX"@ || m == "RTS"@ || m == "RTI"@ || m == "ABX"@ || m == "MUL"@ || m == "SWI"@ || m == "SYNC"@ || m == "NEGA"@ || m == "COMA"@ || m == "LSRA"@ || m == "RORA"@ || m == "ASRA"@ || m == "ASLA"@ || m == "ROLA"@ || m == "DECA"@ || m == "INCA"@ || m == "TSTA"@ || m == "CLRA"@ || m == "NEGB"@ || m == "COMB"@ || m == "LSRB"@ || m == "RORB"@ || m == "ASRB"@ || m == "ASLB"@ || m == "ROLB"@ || m == "DECB"@ || m == "INCB"@ || m == "TSTB"@ || m == "CLRB"@) {
            1
        } else if (m == "TFR"@ || m == "EXG"@ || m == "PSHS"@ || m == "PSHU"@ || m == "PULS"@ || m == "PULU"@) {
            2
        } else if (m == "BRA"@ || m == "BRN"@ || m == "BHI"@ || m == "BLS"@ || m == "BCC"@ || m == "BCS"@ || m == "BNE"@ || m == "BEQ"@ || m == "BVC"@ || m == "BVS"@ || m == "BPL"@ || m == "BMI"@ || m == "BGE"@ || m == "BLT"@ || m == "BGT"@ || m == "BLE"@ || m == "BSR"@) {
            2
        } else if (m == "LBRA"@ || m == "LBRN"@ || m == "LBHI"@ || m == "LBLS"@ || m == "LBCC"@ || m == "LBCS"@ || m == "LBNE"@ || m == "LBEQ"@ || m == "LBVC"@ || m == "LBVS"@ || m == "LBPL"@ || m == "LBMI"@ || m == "LBGE"@ || m == "LBLT"@ || m == "LBGT"@ || m == "LBLE"@ || m == "LBSR"@) {
            3
        } else if (m == "LDA"@ || m == "LDB"@ || m == "STA"@ || m == "STB"@ || m == "CMPA"@ || m == "CMPB"@ || m == "ADDA"@ || m == "ADDB"@ || m == "SUBA"@ || m == "SUBB"@ || m == "ANDA"@ || m == "ANDB"@ || m == "ORA"@ || m == "ORB"@ || m == "EORA"@ || m == "EORB"@) {
            if imm { 2 } else if ext { 3 } else { 2 }
        } else if (m == "LDD"@ || m == "LDX"@ || m == "LDY"@ || m == "LDU"@ || m == "LDS"@ || m == "STD"@ || m == "STX"@ || m == "STY"@ || m == "STU"@ || m == "STS"@ || m == "CMPD"@ || m == "CMPX"@ || m == "CMPY"@ || m == "CMPU"@ || m == "CMPS"@ || m == "ADDD"@ || m == "SUBD"@) {
            if imm { 3 } else if ext { 3 } else { 2 }
        } else if (m == "LEAX"@ || m == "LEAY"@ || m == "LEAU"@ || m == "LEAS"@) {
            2
        } else if m == "JSR"@ {
            if ext { 3 } else { 2 }
        } else if m == "JMP"@ {
            if ext { 3 } else { 2 }
        } else {
            2
        }
    }
}

/// The address comment for address `a`: `; 0x` and four hex digits.
pub open spec fn addr_comment(a: u16) -> Seq<char> {
    "; 0x"@ + hex(a as nat, 4) + "\n"@
}

/// The address a slot reports (0 when no tracker is in use).
pub open spec fn slot_address(slot: Option<AddressTracker>) -> u16 {
    match slot {
        Some(t) => t.addr(),
        None => 0,
    }
}

impl AddressTracker {
    pub closed spec fn addr(&self) -> u16 {
        self.current_address
    }

    pub closed spec fn is_enabled(&self) -> bool {
        self.enabled
    }

    pub fn new(start_address: u16) -> (r: Self)
        ensures
            r.addr() == start_address,
            r.is_enabled(),
    {
        Self { current_address: start_address, enabled: true }
    }

    /// Initialize the tracker in use
    pub fn init_global(slot: &mut Option<AddressTracker>, start_address: u16)
        ensures
            *final(slot) matches Some(t) && t.addr() == start_address && t.is_enabled(),
    {
        *slot = Some(AddressTracker::new(start_address));
    }

    /// Get current address (0 when no tracker is in use)
    pub fn current(slot: &Option<AddressTracker>) -> (r: u16)
        ensures
            r == slot_address(*slot),
    {
        match slot {
            Some(t) => t.current_address,
            None => 0,
        }
    }

    /// Advance address by N bytes (only while tracking is enabled)
    pub fn advance(slot: &mut Option<AddressTracker>, bytes: u16)
        ensures
            match *old(slot) {
                Some(t) => *final(slot) matches Some(u) && u.is_enabled() == t.is_enabled() && u.addr()
                    == (if t.is_enabled() {
                    ((t.addr() as int + bytes as int) % 0x10000) as u16
                } else {
                    t.addr()
                }),
                None => *final(slot) is None,
            },
    {
        if let Some(t) = slot {
            if t.enabled {
                t.current_address = t.current_address.wrapping_add(bytes);
            }
        }
    }

    /// Set address explicitly (for ORG directives)
    pub fn set(slot: &mut Option<AddressTracker>, address: u16)
        ensures
            match *old(slot) {
                Some(t) => *final(slot) matches Some(u) && u.is_enabled() == t.is_enabled() && u.addr()
                    == address,
                None => *final(slot) is None,
            },
    {
        if let Some(t) = slot {
            t.current_address = address;
        }
    }

    /// Disable tracking (for data sections)
    pub fn disable(slot: &mut Option<AddressTracker>)
        ensures
            match *old(slot) {
                Some(t) => *final(slot) matches Some(u) && !u.is_enabled() && u.addr() == t.addr(),
                None => *final(slot) is None,
            },
    {
        if let Some(t) = slot {
            t.enabled = false;
        }
    }

    /// Enable tracking
    pub fn enable(slot: &mut Option<AddressTracker>)
        ensures
            match *old(slot) {
                Some(t) => *final(slot) matches Some(u) && u.is_enabled() && u.addr() == t.addr(),
                None => *final(slot) is None,
            },
    {
        if let Some(t) = slot {
            t.enabled = true;
        }
    }

    /// Generate address comment for current line
    pub fn comment(slot: &Option<AddressTracker>) -> (r: String)
        ensures
            r@ == addr_comment(slot_address(*slot)),
    {
        let addr = Self::current(slot);
        let mut s = String::new();
        push_str(&mut s, "; 0x");
        push_hex(&mut s, addr as u64, 4);
        push_str(&mut s, "\n");
        assert(s@ =~= addr_comment(slot_address(*slot)));
        s
    }
}

/// Helper to emit instruction with address comment: the comment for the
/// current address, then the instruction; the address then advances by the
/// instruction's size.
pub fn emit_with_addr(slot: &mut Option<AddressTracker>, instruction: &str) -> (r: String)
    ensures
        r@ == addr_comment(slot_address(*old(slot))) + instruction@,
        match *old(slot) {
            Some(t) => *final(slot) matches Some(u) && u.is_enabled() == t.is_enabled() && u.addr()
                == (if t.is_enabled() {
                ((t.addr() as int + tracked_size(instruction@) as int) % 0x10000) as u16
            } else {
                t.addr()
            }),
            None => *final(slot) is None,
        },
{
    let comment = AddressTracker::comment(slot);
    let size = estimate_instruction_size(instruction);
    AddressTracker::advance(slot, size);
    let mut r = comment;
    push_str(&mut r, instruction);
    r
}

/// Estimate instruction size based on mnemonic (see `tracked_size`)
pub fn estimate_instruction_size(instruction: &str) -> (r: u16)
    ensures
        r == tracked_size(instruction@),
{
    let v = chars_of(instruction);
    let t = trim_vec(&v);
    if t.len() == 0 || starts_with_str(&t, ";") {
        return 0;
    }
    if ends_with_str(&t, ":") {
        return 0;
    }
    if starts_with_str(&t, "FCB") {
        let data = trim_vec(&strip_all_vec(&t, "FCB"));
        let values = split_char_vec(&data, ',').len();
        return (values % 0x10000) as u16;
    }
    if starts_with_str(&t, "FDB") {
        let data = trim_vec(&strip_all_vec(&t, "FDB"));
        let values = split_char_vec(&data, ',').len();
        let r = ((values % 0x8000) * 2) as u16;
        assert(r == ((values * 2) % 0x10000) as u16) by (nonlinear_arith)
            requires
                r == ((values % 0x8000) * 2) as u16;
        return r;
    }
    if starts_with_str(&t, "FCC") {
        proof {
            reveal_strlit("\"");
        }
        match find_str(&t, "\"") {
            Some(start) => {
                let rest = slice_of(&t, start + 1, t.len());
                assert(rest@ =~= t@.skip(start + 1));
                match find_str(&rest, "\"") {
                    Some(end) => return ((end + 1) % 0x10000) as u16,
                    None => return 1,
                }
            },
            None => return 1,
        }
    }
    let ws = words_vec(&t);
    let first: Vec<char> = if ws.len() > 0 {
        slice_of(&ws[0], 0, ws[0].len())
    } else {
        Vec::new()
    };
    assert(first@ =~= first_word(t@));
    let first_s = string_of(&first);
    let up = to_upper(first_s.as_str());
    let m = chars_of(up.as_str());
    let imm = contains_str(&t, "#");
    let ext = contains_str(&t, ">") || contains_str(&t, "<");
    let idx = contains_str(&t, ",");
    if (vec_is(&m, "NOP") || vec_is(&m, "DAA") || vec_is(&m, "SEX") || vec_is(&m, "RTS") || vec_is(&m, "RTI") || vec_is(&m, "ABX") || vec_is(&m, "MUL") || vec_is(&m, "SWI") || vec_is(&m, "SYNC") || vec_is(&m, "NEGA") || vec_is(&m, "COMA") || vec_is(&m, "LSRA") || vec_is(&m, "RORA") || vec_is(&m, "ASRA") || vec_is(&m, "ASLA") || vec_is(&m, "ROLA") || vec_is(&m, "DECA") || vec_is(&m, "INCA") || vec_is(&m, "TSTA") || vec_is(&m, "CLRA") || vec_is(&m, "NEGB") || vec_is(&m, "COMB") || vec_is(&m, "LSRB") || vec_is(&m, "RORB") || vec_is(&m, "ASRB") || vec_is(&m, "ASLB") || vec_is(&m, "ROLB") || vec_is(&m, "DECB") || vec_is(&m, "INCB") || vec_is(&m, "TSTB") || vec_is(&m, "CLRB")) {
        1
    } else if (vec_is(&m, "TFR") || vec_is(&m, "EXG") || vec_is(&m, "PSHS") || vec_is(&m, "PSHU") || vec_is(&m, "PULS") || vec_is(&m, "PULU")) {
        2
    } else if (vec_is(&m, "BRA") || vec_is(&m, "BRN") || vec_is(&m, "BHI") || vec_is(&m, "BLS") || vec_is(&m, "BCC") || vec_is(&m, "BCS") || vec_is(&m, "BNE") || vec_is(&m, "BEQ") || vec_is(&m, "BVC") || vec_is(&m, "BVS") || vec_is(&m, "BPL") || vec_is(&m, "BMI") || vec_is(&m, "BGE") || vec_is(&m, "BLT") || vec_is(&m, "BGT") || vec_is(&m, "BLE") || vec_is(&m, "BSR")) {
        2
    } else if (vec_is(&m, "LBRA") || vec_is(&m, "LBRN") || vec_is(&m, "LBHI") || vec_is(&m, "LBLS") || vec_is(&m, "LBCC") || vec_is(&m, "LBCS") || vec_is(&m, "LBNE") || vec_is(&m, "LBEQ") || vec_is(&m, "LBVC") || vec_is(&m, "LBVS") || vec_is(&m, "LBPL") || vec_is(&m, "LBMI") || vec_is(&m, "LBGE") || vec_is(&m, "LBLT") || vec_is(&m, "LBGT") || vec_is(&m, "LBLE") || vec_is(&m, "LBSR")) {
        3
    } else if (vec_is(&m, "LDA") || vec_is(&m, "LDB") || vec_is(&m, "STA") || vec_is(&m, "STB") || vec_is(&m, "CMPA") || vec_is(&m, "CMPB") || vec_is(&m, "ADDA") || vec_is(&m, "ADDB") || vec_is(&m, "SUBA") || vec_is(&m, "SUBB") || vec_is(&m, "ANDA") || vec_is(&m, "ANDB") || vec_is(&m, "ORA") || vec_is(&m, "ORB") || vec_is(&m, "EORA") || vec_is(&m, "EORB")) {
        if imm { 2 } else if ext { 3 } else { 2 }
    } else if (vec_is(&m, "LDD") || vec_is(&m, "LDX") || vec_is(&m, "LDY") || vec_is(&m, "LDU") || vec_is(&m, "LDS") || vec_is(&m, "STD") || vec_is(&m, "STX") || vec_is(&m, "STY") || vec_is(&m, "STU") || vec_is(&m, "STS") || vec_is(&m, "CMPD") || vec_is(&m, "CMPX") || vec_is(&m, "CMPY") || vec_is(&m, "CMPU") || vec_is(&m, "CMPS") || vec_is(&m, "ADDD") || vec_is(&m, "SUBD")) {
        if imm { 3 } else if ext { 3 } else { 2 }
    } else if (vec_is(&m, "LEAX") || vec_is(&m, "LEAY") || vec_is(&m, "LEAU") || vec_is(&m, "LEAS")) {
        2
    } else if vec_is(&m, "JSR") {
        if ext { 3 } else { 2 }
    } else if vec_is(&m, "JMP") {
        if ext { 3 } else { 2 }
    } else {
        2
    }
}

} // verus!
