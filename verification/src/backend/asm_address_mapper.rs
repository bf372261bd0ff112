//! Mapping of assembly lines to the addresses their code has in the binary:
//! a walk over the lines that follows the ORG directives and labels and
//! takes each instruction's size from the bytes of the binary itself.

use vstd::prelude::*;
use crate::backend::debug_info::{amap, smap, DebugInfo};
use crate::backend::m6809_opcodes::{get_instruction_size, instruction_size};
use crate::keyed::{keys_unique, kmap, kv_get};
use crate::text::{
    chars_of, contains, contains_str, dec, ends_with, ends_with_str, hex_addr, lines, lines_vec, parse_uint,
    parse_uint_vec, slice_of, starts_with, starts_with_str, string_from, string_of, to_upper,
    trim, trim_vec, unicode_upper, vec_is, vviews, words, words_vec,
};

verus! {

/// Represents the address mapping of one line of ASM code
#[derive(Debug, Clone)]
pub struct AsmLineAddress {
    /// Line number in ASM file (1-indexed)
    pub line_number: u32,
    /// Memory address in binary
    pub address: u16,
    /// The trimmed text of the line
    pub instruction: String,
}

/// Model of an `AsmLineAddress`: line number, address, text.
pub type AsmLineM = (u32, u16, Seq<char>);

impl AsmLineAddress {
    pub open spec fn view(&self) -> AsmLineM {
        (self.line_number, self.address, self.instruction@)
    }
}

/// The models of a sequence of line addresses.
pub open spec fn line_addresses_view(s: Seq<AsmLineAddress>) -> Seq<AsmLineM> {
    s.map_values(|a: AsmLineAddress| a.view())
}

/// The address of an `ORG` directive: the line, trimmed and upper-cased,
/// begins with `ORG` and its second word is `$` and hexadecimal digits or a
/// decimal number that fits in 16 bits.
pub open spec fn org_value(line: Seq<char>) -> Option<nat> {
    let t = unicode_upper(trim(line));
    let p = words(t);
    if !starts_with(t, "ORG"@) || p.len() < 2 {
        None
    } else if starts_with(p[1], "$"@) {
        parse_uint(p[1].skip("$"@.len() as int), 16, 0xFFFF)
    } else {
        parse_uint(p[1], 10, 0xFFFF)
    }
}

/// Parse ORG directive and return the address
fn parse_org_directive(line: &Vec<char>) -> (r: Option<u16>)
    ensures
        r matches Some(a) ==> org_value(line@) == Some(a as nat),
        r is None ==> org_value(line@) is None,
{
    let tv = trim_vec(line);
    let ts = string_of(&tv);
    let up = to_upper(ts.as_str());
    let trimmed = chars_of(up.as_str());
    if starts_with_str(&trimmed, "ORG") {
        let parts = words_vec(&trimmed);
        if parts.len() >= 2 {
            assert(vviews(parts@)[1] == parts@[1]@);
            let addr_str = &parts[1];
            if starts_with_str(addr_str, "$") {
                let pre = chars_of("$");
                let hex_str = slice_of(addr_str, pre.len(), addr_str.len());
                assert(hex_str@ =~= addr_str@.skip("$"@.len() as int));
                return match parse_uint_vec(&hex_str, 16, 0xFFFF) {
                    Some(n) => Some(n as u16),
                    None => None,
                };
            } else {
                return match parse_uint_vec(addr_str, 10, 0xFFFF) {
                    Some(n) => Some(n as u16),
                    None => None,
                };
            }
        }
    }
    None
}

/// The size the mapper assumes for an instruction it cannot read from the
/// binary, from the trimmed and upper-cased text of its line.
pub open spec fn fallback_size(instruction: Seq<char>) -> u16 {
    let t = unicode_upper(trim(instruction));
    if contains(t, "#"@) {
        if contains(t, "LD"@) && contains(t, "#"@) {
            if contains(t, "LDD"@) || contains(t, "LDX"@) || contains(t, "LDY"@) {
                3
            } else {
                2
            }
        } else {
            2
        }
    } else if starts_with(t, "JSR"@) || starts_with(t, "JMP"@) {
        3
    } else if starts_with(t, "BSR"@) || starts_with(t, "BR"@) {
        2
    } else if starts_with(t, "RTS"@) || starts_with(t, "RTI"@) {
        1
    } else {
        2
    }
}

/// Estimate instruction size based on mnemonic (simplified heuristic)
fn estimate_instruction_size(instruction: &Vec<char>) -> (r: u16)
    ensures
        r == fallback_size(instruction@),
        1 <= r <= 3,
{
    let tv = trim_vec(instruction);
    let ts = string_of(&tv);
    let up = to_upper(ts.as_str());
    let trimmed = chars_of(up.as_str());
    if contains_str(&trimmed, "#") {
        if contains_str(&trimmed, "LD") && contains_str(&trimmed, "#") {
            return if contains_str(&trimmed, "LDD") || contains_str(&trimmed, "LDX")
                || contains_str(&trimmed, "LDY") {
                3
            } else {
                2
            };
        }
        return 2;
    }
    if starts_with_str(&trimmed, "JSR") || starts_with_str(&trimmed, "JMP") {
        return 3;
    }
    if starts_with_str(&trimmed, "BSR") || starts_with_str(&trimmed, "BR") {
        return 2;
    }
    if starts_with_str(&trimmed, "RTS") || starts_with_str(&trimmed, "RTI") {
        return 1;
    }
    2
}

/// The size of the instruction at `offset` in the binary, by its opcode
/// (and the byte after it, for the prefixed pages); 1 past the end.
pub open spec fn binary_instruction_size(bin: Seq<u8>, offset: int) -> u16 {
    if offset < 0 || offset >= bin.len() {
        1
    } else {
        instruction_size(
            bin[offset],
            if offset + 1 < bin.len() {
                Some(bin[offset + 1])
            } else {
                None
            },
        )
    }
}

/// Disassemble one instruction from binary and return its size
fn disassemble_instruction_size(bin_data: &Vec<u8>, offset: usize) -> (r: u16)
    ensures
        r == binary_instruction_size(bin_data@, offset as int),
        1 <= r <= 4,
{
    if offset >= bin_data.len() {
        return 1;
    }
    let opcode = bin_data[offset];
    let next_byte = if offset + 1 < bin_data.len() {
        Some(bin_data[offset + 1])
    } else {
        None
    };
    get_instruction_size(opcode, next_byte)
}

/// What `char::is_uppercase` says of a character (the Unicode `Uppercase`
/// property).
pub uninterp spec fn unicode_is_upper(c: char) -> bool;

/// `char::is_uppercase`: whether the character has the Unicode `Uppercase`
/// property, which depends on the character alone; the property's tables are
/// not written out here beyond ASCII, where exactly `A` to `Z` have it.
#[verifier::external_body]
fn char_is_uppercase(c: char) -> (r: bool)
    ensures
        r == unicode_is_upper(c),
        (c as u32) < 128 ==> (r <==> ('A' <= c && c <= 'Z')),
{
    c.is_uppercase()
}

/// The state of the address walk: the lines mapped so far, the current
/// (logical) address, the offset into the binary, and whether the first
/// `ORG` has been seen.
pub struct AddressWalk {
    pub entries: Seq<AsmLineM>,
    pub current: u16,
    pub bin_offset: int,
    pub seen_org: bool,
}

/// The walk before the first line.
pub open spec fn walk_init() -> AddressWalk {
    AddressWalk { entries: Seq::empty(), current: 0, bin_offset: 0, seen_org: false }
}

/// A line that holds an instruction: it begins with an upper-case letter
/// (or a tab).
pub open spec fn is_instruction_line(t: Seq<char>) -> bool {
    (t.len() > 0 && unicode_is_upper(t[0])) || starts_with(t, "\t"@)
}

/// One line of the address walk; `number` is the line's 1-based number.
pub open spec fn walk_step(
    st: AddressWalk,
    number: u32,
    line: Seq<char>,
    bin: Seq<u8>,
    header_offset: u16,
    symbols: Map<Seq<char>, u16>,
) -> AddressWalk {
    let t = trim(line);
    match org_value(t) {
        Some(a) => AddressWalk {
            entries: st.entries.push((number, ((a + header_offset) % 0x10000) as u16, t)),
            current: a as u16,
            bin_offset: header_offset as int,
            seen_org: true,
        },
        None => if !st.seen_org {
            st
        } else if ends_with(t, ":"@) {
            let label = t.drop_last();
            if symbols.contains_key(label) {
                let sa = symbols[label];
                AddressWalk {
                    current: ((sa - header_offset + 0x10000) % 0x10000) as u16,
                    bin_offset: sa as int,
                    ..st
                }
            } else {
                st
            }
        } else if starts_with(t, ";"@) {
            st
        } else if is_instruction_line(t) {
            let runtime = ((st.current + header_offset) % 0x10000) as u16;
            let size: u16 = if st.bin_offset < bin.len() {
                binary_instruction_size(bin, st.bin_offset)
            } else {
                fallback_size(t)
            };
            AddressWalk {
                entries: st.entries.push((number, runtime, t)),
                current: ((st.current + size) % 0x10000) as u16,
                bin_offset: st.bin_offset + size,
                seen_org: true,
            }
        } else {
            st
        },
    }
}

/// The address walk over a sequence of lines.
pub open spec fn address_walk(
    ls: Seq<Seq<char>>,
    bin: Seq<u8>,
    header_offset: u16,
    symbols: Map<Seq<char>, u16>,
) -> AddressWalk
    decreases ls.len(),
{
    if ls.len() == 0 {
        walk_init()
    } else {
        walk_step(
            address_walk(ls.drop_last(), bin, header_offset, symbols),
            (ls.len() as u32),
            ls.last(),
            bin,
            header_offset,
            symbols,
        )
    }
}

proof fn lemma_walk_offset_bound(
    ls: Seq<Seq<char>>,
    bin: Seq<u8>,
    header_offset: u16,
    symbols: Map<Seq<char>, u16>,
)
    ensures
        0 <= address_walk(ls, bin, header_offset, symbols).bin_offset <= 0xFFFF + 4 * ls.len(),
    decreases ls.len(),
{
    if ls.len() > 0 {
        lemma_walk_offset_bound(ls.drop_last(), bin, header_offset, symbols);
    }
}

/// The executable state of the address walk.
struct Walker {
    map: Vec<AsmLineAddress>,
    current_address: u16,
    bin_offset: usize,
    seen_org: bool,
}

impl Walker {
    spec fn view(&self) -> AddressWalk {
        AddressWalk {
            entries: line_addresses_view(self.map@),
            current: self.current_address,
            bin_offset: self.bin_offset as int,
            seen_org: self.seen_org,
        }
    }

    /// Walks one line (its 1-based `line_number`).
    #[verifier::rlimit(40)]
    #[verifier::spinoff_prover]
    fn step(
        &mut self,
        line_number: u32,
        line: &Vec<char>,
        bin_data: &Vec<u8>,
        header_offset: u16,
        symbol_table: &Vec<(String, u16)>,
    )
        requires
            keys_unique(symbol_table@),
            old(self).bin_offset + 4 <= usize::MAX,
        ensures
            final(self).view() == walk_step(
                old(self).view(),
                line_number,
                line@,
                bin_data@,
                header_offset,
                kmap(symbol_table@),
            ),
    {
        let trimmed = trim_vec(line);
        let ghost before = self.map@;
        if let Some(org_addr) = parse_org_directive(&trimmed) {
            self.current_address = org_addr;
            self.seen_org = true;
            self.bin_offset = header_offset as usize;
            let last_valid_address = org_addr.wrapping_add(header_offset);
            self.map.push(AsmLineAddress {
                line_number,
                address: last_valid_address,
                instruction: string_of(&trimmed),
            });
            assert(line_addresses_view(self.map@) =~= line_addresses_view(before).push(
                (line_number, last_valid_address, trimmed@),
            ));
        } else if !self.seen_org {
        } else if ends_with_str(&trimmed, ":") {
            proof {
                reveal_strlit(":");
            }
            let label = slice_of(&trimmed, 0, trimmed.len() - 1);
            assert(label@ =~= trimmed@.drop_last());
            let label_s = string_of(&label);
            if let Some(symbol_addr) = kv_get(symbol_table, label_s.as_str()) {
                self.current_address = symbol_addr.wrapping_sub(header_offset);
                self.bin_offset = *symbol_addr as usize;
            }
        } else if starts_with_str(&trimmed, ";") {
        } else if (trimmed.len() > 0 && char_is_uppercase(trimmed[0])) || starts_with_str(
            &trimmed,
            "\t",
        ) {
            let runtime_address = self.current_address.wrapping_add(header_offset);
            let instruction_size = if self.bin_offset < bin_data.len() {
                disassemble_instruction_size(bin_data, self.bin_offset)
            } else {
                estimate_instruction_size(&trimmed)
            };
            self.map.push(AsmLineAddress {
                line_number,
                address: runtime_address,
                instruction: string_of(&trimmed),
            });
            assert(line_addresses_view(self.map@) =~= line_addresses_view(before).push(
                (line_number, runtime_address, trimmed@),
            ));
            self.current_address = self.current_address.wrapping_add(instruction_size);
            self.bin_offset = self.bin_offset + instruction_size as usize;
        }
    }
}

/// Map each assembly line to its address in the binary: `ORG` lines and
/// instruction lines after the first `ORG`, in line order, with runtime
/// addresses (the logical address plus `header_offset`).
pub fn map_asm_lines(
    asm_lines: &Vec<Vec<char>>,
    bin_data: &Vec<u8>,
    header_offset: u16,
    symbol_table: &Vec<(String, u16)>,
) -> (r: Vec<AsmLineAddress>)
    requires
        keys_unique(symbol_table@),
        asm_lines.len() <= (usize::MAX - 0x10000) / 4,
    ensures
        line_addresses_view(r@) == address_walk(
            vviews(asm_lines@),
            bin_data@,
            header_offset,
            kmap(symbol_table@),
        ).entries,
{
    let ghost ls = vviews(asm_lines@);
    let ghost syms = kmap(symbol_table@);
    let mut w = Walker { map: Vec::new(), current_address: 0, bin_offset: 0, seen_org: false };
    let mut i: usize = 0;
    assert(ls.take(0) =~= Seq::<Seq<char>>::empty());
    assert(line_addresses_view(w.map@) =~= Seq::<AsmLineM>::empty());
    assert(w.view() == walk_init());
    while i < asm_lines.len()
        invariant
            i <= asm_lines.len() <= (usize::MAX - 0x10000) / 4,
            ls == vviews(asm_lines@),
            keys_unique(symbol_table@),
            syms == kmap(symbol_table@),
            w.view() == address_walk(ls.take(i as int), bin_data@, header_offset, syms),
        decreases asm_lines.len() - i,
    {
        proof {
            lemma_walk_offset_bound(ls.take(i as int), bin_data@, header_offset, syms);
        }
        assert(ls.take(i + 1).drop_last() =~= ls.take(i as int));
        assert(ls.take(i + 1).last() == asm_lines@[i as int]@);
        let line_number = #[verifier::truncate] ((i + 1) as u32);
        w.step(line_number, &asm_lines[i], bin_data, header_offset, symbol_table);
        i += 1;
    }
    assert(ls.take(asm_lines.len() as int) =~= ls);
    w.map
}

proof fn lemma_walk_line_numbers(
    ls: Seq<Seq<char>>,
    bin: Seq<u8>,
    header_offset: u16,
    symbols: Map<Seq<char>, u16>,
)
    requires
        ls.len() <= u32::MAX,
    ensures
        forall|j: int|
            0 <= j < address_walk(ls, bin, header_offset, symbols).entries.len() ==> (#[trigger] address_walk(
                ls,
                bin,
                header_offset,
                symbols,
            ).entries[j]).0 <= ls.len(),
    decreases ls.len(),
{
    if ls.len() > 0 {
        lemma_walk_line_numbers(ls.drop_last(), bin, header_offset, symbols);
        let n = ls.len() as u32;
        assert(n == ls.len());
        let prev = address_walk(ls.drop_last(), bin, header_offset, symbols);
        let cur = address_walk(ls, bin, header_offset, symbols);
        lemma_step_entries(prev, n, ls.last(), bin, header_offset, symbols);
        assert forall|j: int| 0 <= j < cur.entries.len() implies (#[trigger] cur.entries[j]).0
            <= ls.len() by {
            if j < prev.entries.len() {
                assert(cur.entries[j] == prev.entries[j]);
            }
        }
    }
}

proof fn lemma_step_entries(
    st: AddressWalk,
    number: u32,
    line: Seq<char>,
    bin: Seq<u8>,
    header_offset: u16,
    symbols: Map<Seq<char>, u16>,
)
    ensures
        ({
            let r = walk_step(st, number, line, bin, header_offset, symbols);
            ||| r.entries == st.entries
            ||| (r.entries.len() == st.entries.len() + 1 && r.entries.drop_last() == st.entries
                && r.entries.last().0 == number)
        }),
{
    let r = walk_step(st, number, line, bin, header_offset, symbols);
    if r.entries != st.entries {
        assert(r.entries.drop_last() =~= st.entries);
    }
}

/// Labels of data rather than code.
pub open spec fn is_data_label(name: Seq<char>) -> bool {
    starts_with(name, "_"@) || starts_with(name, "CONST_"@) || starts_with(name, "ARRAY_"@)
        || starts_with(name, "STRING_"@) || name == "START"@ || name == "MAIN"@ || name
        == "LOOP_BODY"@
}

fn is_data_label_exec(name: &Vec<char>) -> (r: bool)
    ensures
        r == is_data_label(name@),
{
    starts_with_str(name, "_") || starts_with_str(name, "CONST_") || starts_with_str(name, "ARRAY_")
        || starts_with_str(name, "STRING_") || vec_is(name, "START") || vec_is(name, "MAIN")
        || vec_is(name, "LOOP_BODY")
}

/// The assembly functions table after recording the mapped lines: a line
/// whose text ends with `:` and does not name data becomes a native function
/// spanning ten lines.
pub open spec fn asm_functions_after(
    base: Map<Seq<char>, (Seq<char>, Seq<char>, usize, usize, Seq<char>)>,
    es: Seq<AsmLineM>,
    file: Seq<char>,
) -> Map<Seq<char>, (Seq<char>, Seq<char>, usize, usize, Seq<char>)>
    decreases es.len(),
{
    if es.len() == 0 {
        base
    } else {
        let m = asm_functions_after(base, es.drop_last(), file);
        let e = es.last();
        let name = e.2.drop_last();
        if ends_with(e.2, ":"@) && !is_data_label(name) {
            m.insert(name, (name, file, e.0 as usize, (e.0 + 10) as usize, "native"@))
        } else {
            m
        }
    }
}

/// The address table after recording the mapped lines.
pub open spec fn addresses_after(base: Map<Seq<char>, Seq<char>>, es: Seq<AsmLineM>) -> Map<
    Seq<char>,
    Seq<char>,
>
    decreases es.len(),
{
    if es.len() == 0 {
        base
    } else {
        addresses_after(base, es.drop_last()).insert(dec(es.last().0 as nat), hex_addr(es.last().1))
    }
}

/// Records the mapped lines in the debug information: each line's address,
/// and the functions that its labels name.
pub fn record_asm_addresses(
    debug_info: &mut DebugInfo,
    entries: &Vec<AsmLineAddress>,
    asm_filename: &str,
)
    requires
        old(debug_info).wf(),
        forall|j: int| 0 <= j < entries@.len() ==> #[trigger] entries@[j].line_number + 10 <= u32::MAX,
    ensures
        final(debug_info).wf(),
        amap(final(debug_info).asm_functions@) == asm_functions_after(
            amap(old(debug_info).asm_functions@),
            line_addresses_view(entries@),
            asm_filename@,
        ),
        smap(final(debug_info).asm_address_map@) == addresses_after(
            smap(old(debug_info).asm_address_map@),
            line_addresses_view(entries@),
        ),
        *final(debug_info) == (DebugInfo {
            asm_functions: final(debug_info).asm_functions,
            asm_address_map: final(debug_info).asm_address_map,
            ..*old(debug_info)
        }),
{
    let ghost es = line_addresses_view(entries@);
    let mut k: usize = 0;
    assert(es.take(0) =~= Seq::<AsmLineM>::empty());
    while k < entries.len()
        invariant
            k <= entries.len(),
            es == line_addresses_view(entries@),
            forall|j: int| 0 <= j < entries@.len() ==> #[trigger] entries@[j].line_number + 10 <= u32::MAX,
            debug_info.wf(),
            amap(debug_info.asm_functions@) == asm_functions_after(
                amap(old(debug_info).asm_functions@),
                es.take(k as int),
                asm_filename@,
            ),
            smap(debug_info.asm_address_map@) == addresses_after(
                smap(old(debug_info).asm_address_map@),
                es.take(k as int),
            ),
            *debug_info == (DebugInfo {
                asm_functions: debug_info.asm_functions,
                asm_address_map: debug_info.asm_address_map,
                ..*old(debug_info)
            }),
        decreases entries.len() - k,
    {
        assert(es.take(k + 1).drop_last() =~= es.take(k as int));
        assert(es.take(k + 1).last() == entries@[k as int].view());
        let line_addr = &entries[k];
        assert(line_addr.line_number + 10 <= u32::MAX);
        let instr = chars_of(line_addr.instruction.as_str());
        if ends_with_str(&instr, ":") {
            proof {
                reveal_strlit(":");
            }
            let function_name = slice_of(&instr, 0, instr.len() - 1);
            assert(function_name@ =~= instr@.drop_last());
            if !is_data_label_exec(&function_name) {
                debug_info.add_asm_function(
                    string_of(&function_name),
                    string_from(asm_filename),
                    line_addr.line_number as usize,
                    (line_addr.line_number + 10) as usize,
                    "native",
                );
            }
        }
        debug_info.add_asm_address(line_addr.line_number as usize, line_addr.address);
        k += 1;
    }
    assert(es.take(entries.len() as int) =~= es);
}

/// Generate address mapping by disassembling the binary and correlating with
/// ASM: maps the lines of `asm_content` to addresses read from `bin_data`
/// (see `map_asm_lines`) and records them in `debug_info`.
/// header_offset: START address from binary symbol table (single source of truth)
/// symbol_table: All labels from binary with their absolute addresses
pub fn generate_asm_address_map(
    asm_content: &str,
    bin_data: &Vec<u8>,
    header_offset: u16,
    symbol_table: &Vec<(String, u16)>,
    asm_filename: &str,
    debug_info: &mut DebugInfo,
)
    requires
        keys_unique(symbol_table@),
        old(debug_info).wf(),
        lines(asm_content@).len() + 10 <= u32::MAX,
        lines(asm_content@).len() <= (usize::MAX - 0x10000) / 4,
    ensures
        final(debug_info).wf(),
        ({
            let es = address_walk(
                lines(asm_content@),
                bin_data@,
                header_offset,
                kmap(symbol_table@),
            ).entries;
            &&& amap(final(debug_info).asm_functions@) == asm_functions_after(
                amap(old(debug_info).asm_functions@),
                es,
                asm_filename@,
            )
            &&& smap(final(debug_info).asm_address_map@) == addresses_after(
                smap(old(debug_info).asm_address_map@),
                es,
            )
        }),
        *final(debug_info) == (DebugInfo {
            asm_functions: final(debug_info).asm_functions,
            asm_address_map: final(debug_info).asm_address_map,
            ..*old(debug_info)
        }),
{
    let text = chars_of(asm_content);
    let asm_lines = lines_vec(&text);
    let entries = map_asm_lines(&asm_lines, bin_data, header_offset, symbol_table);
    proof {
        lemma_walk_line_numbers(vviews(asm_lines@), bin_data@, header_offset, kmap(symbol_table@));
        assert forall|j: int| 0 <= j < entries@.len() implies #[trigger] entries@[j].line_number + 10
            <= u32::MAX by {
            assert(line_addresses_view(entries@)[j] == entries@[j].view());
        }
    }
    record_asm_addresses(debug_info, &entries, asm_filename);
}

/// The mapped lines come in increasing line order, so each line is mapped
/// at most once.
pub proof fn lemma_walk_lines_increase(
    ls: Seq<Seq<char>>,
    bin: Seq<u8>,
    header_offset: u16,
    symbols: Map<Seq<char>, u16>,
)
    requires
        ls.len() <= u32::MAX,
    ensures
        forall|i: int, j: int|
            0 <= i < j < address_walk(ls, bin, header_offset, symbols).entries.len() ==> (
            #[trigger] address_walk(ls, bin, header_offset, symbols).entries[i]).0 < (
            #[trigger] address_walk(ls, bin, header_offset, symbols).entries[j]).0,
    decreases ls.len(),
{
    if ls.len() > 0 {
        let prev = address_walk(ls.drop_last(), bin, header_offset, symbols);
        let cur = address_walk(ls, bin, header_offset, symbols);
        lemma_walk_lines_increase(ls.drop_last(), bin, header_offset, symbols);
        lemma_walk_line_numbers(ls.drop_last(), bin, header_offset, symbols);
        let n = ls.len() as u32;
        assert(n == ls.len());
        lemma_step_entries(prev, n, ls.last(), bin, header_offset, symbols);
        assert forall|i: int, j: int| 0 <= i < j < cur.entries.len() implies (
        #[trigger] cur.entries[i]).0 < (#[trigger] cur.entries[j]).0 by {
            if j < prev.entries.len() {
                assert(cur.entries[i] == prev.entries[i]);
                assert(cur.entries[j] == prev.entries[j]);
            } else {
                assert(cur.entries[i] == prev.entries[i]);
                assert(prev.entries[i].0 <= ls.len() - 1);
            }
        }
    }
}

} // verus!
