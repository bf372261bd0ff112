//! Debug symbols collected during compilation (the `.pdb` file contents):
//! symbol and line tables mapping VPy source and assembly lines to binary
//! addresses.
//!
//! Every table is keyed by a string and holds each key at most once; the
//! model of a table is the map from keys to (models of) values.

use vstd::prelude::*;
use crate::text::{
    before_char, chars_of, contains, contains_str, dec, dec_string, ends_with, ends_with_str, find,
    find_from_vec, hex_addr, hex_addr_string, lemma_find_from, lemma_split_on_nonempty, lines,
    lines_vec, occurs_at, parse_uint, parse_uint_vec, parse_usize_vec, strip_end_all, strip_end_all_vec, find_from, replace_all, replace_all_vec, rfind_char, rfind_char_vec,
    slice_of, split_char_vec, split_on, starts_with, starts_with_str, string_from, string_of,
    strip_all, strip_all_vec, to_lower, to_upper, unicode_lower, trim, trim_vec, unicode_upper, utf8_len, utf8_len_vec,
    vec_is, vviews, words, words_vec,
};
use crate::keyed::{keys_unique, kmap, kv_insert};
use std::collections::HashMap;

verus! {

/// Function metadata for enhanced debugging
#[derive(Debug, Clone, PartialEq, Eq)]
pub struct FunctionInfo {
    /// Function name
    pub name: String,
    /// Start address in hex
    pub address: String,
    /// Start line in VPy source
    pub start_line: usize,
    /// End line in VPy source
    pub end_line: usize,
    /// Function type: "vpy" or "native"
    pub func_type: String,
}

/// ASM file function location for debugging
#[derive(Debug, Clone, PartialEq, Eq)]
pub struct AsmFunctionLocation {
    /// Function name
    pub name: String,
    /// File name (e.g., "main.asm")
    pub file: String,
    /// Start line in ASM file
    pub start_line: usize,
    /// End line in ASM file
    pub end_line: usize,
    /// Function type: "vpy", "native", or "bios"
    pub func_type: String,
}

/// Line map entry with file source information
#[derive(Debug, Clone, PartialEq, Eq)]
pub struct LineMapEntry {
    /// Source file name (e.g., "main.vpy" or "main.asm")
    pub file: String,
    /// Memory address in hex (e.g., "0x01A1")
    pub address: String,
    /// Line number in source file (1-based)
    pub line: usize,
}

/// Variable metadata for memory visualization
#[derive(Debug, Clone, PartialEq, Eq)]
pub struct VariableInfo {
    /// Variable name (e.g., "player_x")
    pub name: String,
    /// Memory address in hex (e.g., "0xCF10")
    pub address: String,
    /// Size in bytes (2 for 16-bit variables, 4 for arrays, etc.)
    pub size: usize,
    /// Variable type: "int", "array", "struct", "const"
    pub var_type: String,
    /// Line where variable is declared in VPy source
    pub decl_line: Option<usize>,
}

/// Model of a `FunctionInfo`: name, address, start line, end line, type.
pub type FunctionInfoM = (Seq<char>, Seq<char>, usize, usize, Seq<char>);

/// Model of an `AsmFunctionLocation`: name, file, start line, end line, type.
pub type AsmFunctionM = (Seq<char>, Seq<char>, usize, usize, Seq<char>);

/// Model of a `LineMapEntry`: file, address, line.
pub type LineMapEntryM = (Seq<char>, Seq<char>, usize);

/// Model of a `VariableInfo`: name, address, size, type, declaration line.
pub type VariableInfoM = (Seq<char>, Seq<char>, usize, Seq<char>, Option<usize>);

impl FunctionInfo {
    pub open spec fn view(&self) -> FunctionInfoM {
        (self.name@, self.address@, self.start_line, self.end_line, self.func_type@)
    }
}

impl AsmFunctionLocation {
    pub open spec fn view(&self) -> AsmFunctionM {
        (self.name@, self.file@, self.start_line, self.end_line, self.func_type@)
    }
}

impl LineMapEntry {
    pub open spec fn view(&self) -> LineMapEntryM {
        (self.file@, self.address@, self.line)
    }
}

impl VariableInfo {
    pub open spec fn view(&self) -> VariableInfoM {
        (self.name@, self.address@, self.size, self.var_type@, self.decl_line)
    }
}

/// Model of a table of strings.
pub open spec fn smap(s: Seq<(String, String)>) -> Map<Seq<char>, Seq<char>> {
    kmap(s).map_values(|v: String| v@)
}

/// Model of a table of function metadata.
pub open spec fn fmap(s: Seq<(String, FunctionInfo)>) -> Map<Seq<char>, FunctionInfoM> {
    kmap(s).map_values(|v: FunctionInfo| v.view())
}

/// Model of a table of assembly function locations.
pub open spec fn amap(s: Seq<(String, AsmFunctionLocation)>) -> Map<Seq<char>, AsmFunctionM> {
    kmap(s).map_values(|v: AsmFunctionLocation| v.view())
}

/// Model of a table of line map entries.
pub open spec fn lmap(s: Seq<(String, LineMapEntry)>) -> Map<Seq<char>, LineMapEntryM> {
    kmap(s).map_values(|v: LineMapEntry| v.view())
}

/// Model of a table of variables.
pub open spec fn vmap(s: Seq<(String, VariableInfo)>) -> Map<Seq<char>, VariableInfoM> {
    kmap(s).map_values(|v: VariableInfo| v.view())
}

/// Debug information collected during compilation for mapping VPy source to binary
#[derive(Debug, Clone)]
pub struct DebugInfo {
    /// Version of the debug format
    pub version: String,
    /// Source file name (e.g., "main.vpy")
    pub source: String,
    /// ASM file name (e.g., "main.asm")
    pub asm_name: String,
    /// Binary file name (e.g., "main.bin")
    pub binary: String,
    /// Entry point address in hex (e.g., "0x0000")
    pub entry_point: String,
    /// Symbol table: symbol name -> address in hex
    pub symbols: Vec<(String, String)>,
    /// Line mapping: VPy line number (as string) -> address in hex
    pub line_map: Vec<(String, String)>,
    /// VPy line mapping with file info: address in hex -> LineMapEntry
    pub vpy_line_map: Vec<(String, LineMapEntry)>,
    /// ASM line mapping with file info: address in hex -> LineMapEntry
    pub asm_line_map: Vec<(String, LineMapEntry)>,
    /// Functions metadata for enhanced debugging
    pub functions: Vec<(String, FunctionInfo)>,
    /// Native function calls mapping: VPy line (as string) -> native function name
    pub native_calls: Vec<(String, String)>,
    /// ASM file function locations: function name -> location info
    pub asm_functions: Vec<(String, AsmFunctionLocation)>,
    /// ASM address mapping: ASM line number (as string) -> binary address in hex
    pub asm_address_map: Vec<(String, String)>,
    /// Variables metadata for memory visualization
    pub variables: Vec<(String, VariableInfo)>,
}

impl DebugInfo {
    /// Every table holds each key at most once.
    pub open spec fn wf(&self) -> bool {
        &&& keys_unique(self.symbols@)
        &&& keys_unique(self.line_map@)
        &&& keys_unique(self.vpy_line_map@)
        &&& keys_unique(self.asm_line_map@)
        &&& keys_unique(self.functions@)
        &&& keys_unique(self.native_calls@)
        &&& keys_unique(self.asm_functions@)
        &&& keys_unique(self.asm_address_map@)
        &&& keys_unique(self.variables@)
    }

    /// The state `new(source, binary)` builds: format version `1.0`, the
    /// assembly name taken from the binary name (`.bin` becomes `.asm`),
    /// entry point `0x0000`, and every table empty.
    pub open spec fn is_fresh(&self, source: Seq<char>, binary: Seq<char>) -> bool {
        &&& self.version@ == "1.0"@
        &&& self.source@ == source
        &&& self.asm_name@ == replace_all(binary, ".bin"@, ".asm"@)
        &&& self.binary@ == binary
        &&& self.entry_point@ == "0x0000"@
        &&& self.symbols@.len() == 0
        &&& self.line_map@.len() == 0
        &&& self.vpy_line_map@.len() == 0
        &&& self.asm_line_map@.len() == 0
        &&& self.functions@.len() == 0
        &&& self.native_calls@.len() == 0
        &&& self.asm_functions@.len() == 0
        &&& self.asm_address_map@.len() == 0
        &&& self.variables@.len() == 0
    }

    pub fn new(source: String, binary: String) -> (r: Self)
        ensures
            r.wf(),
            r.is_fresh(source@, binary@),
    {
        // Derive ASM name from binary name (not source) to match project naming
        let bv = chars_of(binary.as_str());
        proof {
            reveal_strlit(".bin");
        }
        let asm_chars = replace_all_vec(&bv, ".bin", ".asm");
        let asm_name = string_of(&asm_chars);
        Self {
            version: string_from("1.0"),
            source,
            asm_name,
            binary,
            entry_point: string_from("0x0000"),
            symbols: Vec::new(),
            line_map: Vec::new(),
            vpy_line_map: Vec::new(),
            asm_line_map: Vec::new(),
            functions: Vec::new(),
            native_calls: Vec::new(),
            asm_functions: Vec::new(),
            asm_address_map: Vec::new(),
            variables: Vec::new(),
        }
    }

    /// Add a variable with metadata
    pub fn add_variable(
        &mut self,
        name: String,
        address: u16,
        size: usize,
        var_type: &str,
        decl_line: Option<usize>,
    )
        requires
            old(self).wf(),
        ensures
            final(self).wf(),
            vmap(final(self).variables@) == vmap(old(self).variables@).insert(
                name@,
                (name@, hex_addr(address), size, var_type@, decl_line),
            ),
            *final(self) == (DebugInfo { variables: final(self).variables, ..*old(self) }),
    {
        let info = VariableInfo {
            name: name.clone(),
            address: hex_addr_string(address),
            size,
            var_type: string_from(var_type),
            decl_line,
        };
        let ghost iv = info.view();
        kv_insert(&mut self.variables, name, info);
        assert(vmap(self.variables@) =~= vmap(old(self).variables@).insert(name@, iv));
    }

    /// Add a symbol (function name, label, etc.) with its address
    pub fn add_symbol(&mut self, name: String, address: u16)
        requires
            old(self).wf(),
        ensures
            final(self).wf(),
            smap(final(self).symbols@) == smap(old(self).symbols@).insert(
                name@,
                hex_addr(address),
            ),
            *final(self) == (DebugInfo { symbols: final(self).symbols, ..*old(self) }),
    {
        let a = hex_addr_string(address);
        let ghost av = a@;
        kv_insert(&mut self.symbols, name, a);
        assert(smap(self.symbols@) =~= smap(old(self).symbols@).insert(name@, av));
    }

    /// Add a line mapping from VPy source line to binary address
    pub fn add_line_mapping(&mut self, line: usize, address: u16)
        requires
            old(self).wf(),
        ensures
            final(self).wf(),
            smap(final(self).line_map@) == smap(old(self).line_map@).insert(
                dec(line as nat),
                hex_addr(address),
            ),
            *final(self) == (DebugInfo { line_map: final(self).line_map, ..*old(self) }),
    {
        let k = dec_string(line as u64);
        let a = hex_addr_string(address);
        let ghost kv = k@;
        let ghost av = a@;
        kv_insert(&mut self.line_map, k, a);
        assert(smap(self.line_map@) =~= smap(old(self).line_map@).insert(kv, av));
    }

    /// Set the entry point address
    pub fn set_entry_point(&mut self, address: u16)
        requires
            old(self).wf(),
        ensures
            final(self).wf(),
            final(self).entry_point@ == hex_addr(address),
            *final(self) == (DebugInfo { entry_point: final(self).entry_point, ..*old(self) }),
    {
        self.entry_point = hex_addr_string(address);
    }

    /// Add a function with metadata
    pub fn add_function(
        &mut self,
        name: String,
        address: u16,
        start_line: usize,
        end_line: usize,
        func_type: &str,
    )
        requires
            old(self).wf(),
        ensures
            final(self).wf(),
            fmap(final(self).functions@) == fmap(old(self).functions@).insert(
                name@,
                (name@, hex_addr(address), start_line, end_line, func_type@),
            ),
            *final(self) == (DebugInfo { functions: final(self).functions, ..*old(self) }),
    {
        let info = FunctionInfo {
            name: name.clone(),
            address: hex_addr_string(address),
            start_line,
            end_line,
            func_type: string_from(func_type),
        };
        let ghost iv = info.view();
        kv_insert(&mut self.functions, name, info);
        assert(fmap(self.functions@) =~= fmap(old(self).functions@).insert(name@, iv));
    }

    /// Add a native function call at specific VPy line
    pub fn add_native_call(&mut self, line: usize, function_name: String)
        requires
            old(self).wf(),
        ensures
            final(self).wf(),
            smap(final(self).native_calls@) == smap(old(self).native_calls@).insert(
                dec(line as nat),
                function_name@,
            ),
            *final(self) == (DebugInfo { native_calls: final(self).native_calls, ..*old(self) }),
    {
        let k = dec_string(line as u64);
        let ghost kv = k@;
        let ghost fv = function_name@;
        kv_insert(&mut self.native_calls, k, function_name);
        assert(smap(self.native_calls@) =~= smap(old(self).native_calls@).insert(kv, fv));
    }

    /// Add ASM function location information
    pub fn add_asm_function(
        &mut self,
        name: String,
        file: String,
        start_line: usize,
        end_line: usize,
        func_type: &str,
    )
        requires
            old(self).wf(),
        ensures
            final(self).wf(),
            amap(final(self).asm_functions@) == amap(old(self).asm_functions@).insert(
                name@,
                (name@, file@, start_line, end_line, func_type@),
            ),
            *final(self) == (DebugInfo { asm_functions: final(self).asm_functions, ..*old(self) }),
    {
        let location = AsmFunctionLocation {
            name: name.clone(),
            file,
            start_line,
            end_line,
            func_type: string_from(func_type),
        };
        let ghost lv = location.view();
        kv_insert(&mut self.asm_functions, name, location);
        assert(amap(self.asm_functions@) =~= amap(old(self).asm_functions@).insert(name@, lv));
    }

    /// Add ASM line address mapping
    pub fn add_asm_address(&mut self, line_number: usize, address: u16)
        requires
            old(self).wf(),
        ensures
            final(self).wf(),
            smap(final(self).asm_address_map@) == smap(old(self).asm_address_map@).insert(
                dec(line_number as nat),
                hex_addr(address),
            ),
            *final(self) == (DebugInfo {
                asm_address_map: final(self).asm_address_map,
                ..*old(self)
            }),
    {
        let k = dec_string(line_number as u64);
        let a = hex_addr_string(address);
        let ghost kv = k@;
        let ghost av = a@;
        kv_insert(&mut self.asm_address_map, k, a);
        assert(smap(self.asm_address_map@) =~= smap(old(self).asm_address_map@).insert(kv, av));
    }

    /// Add VPy line to new line map with file info
    pub fn add_vpy_line(&mut self, line: usize, address: u16, file: &str)
        requires
            old(self).wf(),
        ensures
            final(self).wf(),
            lmap(final(self).vpy_line_map@) == lmap(old(self).vpy_line_map@).insert(
                hex_addr(address),
                (file@, hex_addr(address), line),
            ),
            *final(self) == (DebugInfo { vpy_line_map: final(self).vpy_line_map, ..*old(self) }),
    {
        let addr_str = hex_addr_string(address);
        let entry = LineMapEntry { file: string_from(file), address: addr_str.clone(), line };
        let ghost ev = entry.view();
        let ghost kv = addr_str@;
        kv_insert(&mut self.vpy_line_map, addr_str, entry);
        assert(lmap(self.vpy_line_map@) =~= lmap(old(self).vpy_line_map@).insert(kv, ev));
    }

    /// Add ASM line to new line map with file info
    pub fn add_asm_line(&mut self, line: usize, address: u16, file: &str)
        requires
            old(self).wf(),
        ensures
            final(self).wf(),
            lmap(final(self).asm_line_map@) == lmap(old(self).asm_line_map@).insert(
                hex_addr(address),
                (file@, hex_addr(address), line),
            ),
            *final(self) == (DebugInfo { asm_line_map: final(self).asm_line_map, ..*old(self) }),
    {
        let addr_str = hex_addr_string(address);
        let entry = LineMapEntry { file: string_from(file), address: addr_str.clone(), line };
        let ghost ev = entry.view();
        let ghost kv = addr_str@;
        kv_insert(&mut self.asm_line_map, addr_str, entry);
        assert(lmap(self.asm_line_map@) =~= lmap(old(self).asm_line_map@).insert(kv, ev));
    }
}

/// Context for tracking line information during code generation
#[derive(Debug, Clone)]
pub struct LineTracker {
    /// Current address being generated (relative to ORG)
    pub current_address: u16,
    /// Current VPy source line (if known)
    pub current_line: Option<usize>,
    /// Accumulated debug info
    pub debug_info: DebugInfo,
}

impl LineTracker {
    pub fn new(source: String, binary: String, org: u16) -> (r: Self)
        ensures
            r.current_address == org,
            r.current_line is None,
            r.debug_info.wf(),
            r.debug_info.is_fresh(source@, binary@),
    {
        Self { current_address: org, current_line: None, debug_info: DebugInfo::new(source, binary) }
    }

    /// Update current source line
    pub fn set_line(&mut self, line: usize)
        requires
            old(self).debug_info.wf(),
        ensures
            final(self).debug_info.wf(),
            final(self).current_line == Some(line),
            final(self).current_address == old(self).current_address,
            smap(final(self).debug_info.line_map@) == smap(old(self).debug_info.line_map@).insert(
                dec(line as nat),
                hex_addr(old(self).current_address),
            ),
            final(self).debug_info == (DebugInfo {
                line_map: final(self).debug_info.line_map,
                ..old(self).debug_info
            }),
    {
        self.current_line = Some(line);
        // Record mapping when we first encounter this line
        self.debug_info.add_line_mapping(line, self.current_address);
    }

    /// Add bytes to current address (track code generation progress)
    pub fn advance(&mut self, bytes: u16)
        ensures
            final(self).current_address as int == (old(self).current_address as int + bytes as int)
                % 0x10000,
            final(self).current_line == old(self).current_line,
            final(self).debug_info == old(self).debug_info,
    {
        self.current_address = self.current_address.wrapping_add(bytes);
    }

    /// Add a symbol at current address
    pub fn add_symbol(&mut self, name: String)
        requires
            old(self).debug_info.wf(),
        ensures
            final(self).debug_info.wf(),
            final(self).current_address == old(self).current_address,
            final(self).current_line == old(self).current_line,
            smap(final(self).debug_info.symbols@) == smap(old(self).debug_info.symbols@).insert(
                name@,
                hex_addr(old(self).current_address),
            ),
            final(self).debug_info == (DebugInfo {
                symbols: final(self).debug_info.symbols,
                ..old(self).debug_info
            }),
    {
        self.debug_info.add_symbol(name, self.current_address);
    }

    /// Add a function at current address
    pub fn add_function(&mut self, name: String, start_line: usize, end_line: usize, func_type: &str)
        requires
            old(self).debug_info.wf(),
        ensures
            final(self).debug_info.wf(),
            final(self).current_address == old(self).current_address,
            final(self).current_line == old(self).current_line,
            fmap(final(self).debug_info.functions@) == fmap(
                old(self).debug_info.functions@,
            ).insert(
                name@,
                (name@, hex_addr(old(self).current_address), start_line, end_line, func_type@),
            ),
            final(self).debug_info == (DebugInfo {
                functions: final(self).debug_info.functions,
                ..old(self).debug_info
            }),
    {
        self.debug_info.add_function(name, self.current_address, start_line, end_line, func_type);
    }

    /// Add a native function call at current line
    pub fn add_native_call(&mut self, function_name: String)
        requires
            old(self).debug_info.wf(),
        ensures
            final(self).debug_info.wf(),
            final(self).current_address == old(self).current_address,
            final(self).current_line == old(self).current_line,
            match old(self).current_line {
                Some(line) => {
                    &&& smap(final(self).debug_info.native_calls@) == smap(
                        old(self).debug_info.native_calls@,
                    ).insert(dec(line as nat), function_name@)
                    &&& final(self).debug_info == (DebugInfo {
                        native_calls: final(self).debug_info.native_calls,
                        ..old(self).debug_info
                    })
                },
                None => final(self).debug_info == old(self).debug_info,
            },
    {
        if let Some(line) = self.current_line {
            self.debug_info.add_native_call(line, function_name);
        }
    }

    /// Get current address
    pub fn address(&self) -> (r: u16)
        ensures
            r == self.current_address,
    {
        self.current_address
    }

    /// Consume tracker and return debug info
    pub fn finish(self) -> (r: DebugInfo)
        ensures
            r == self.debug_info,
    {
        self.debug_info
    }
}

// ---------------------------------------------------------------------------
// Reading the generated assembly text
// ---------------------------------------------------------------------------

/// The value of a number written `$FFFF`, `0xFFFF` (or `0XFFFF`) or in
/// decimal, surrounded by any whitespace, if it fits in 16 bits.
pub open spec fn hex_or_dec(s: Seq<char>) -> Option<nat> {
    let t = trim(s);
    if starts_with(t, "$"@) {
        parse_uint(strip_all(t, "$"@), 16, 0xFFFF)
    } else if starts_with(t, "0x"@) || starts_with(t, "0X"@) {
        parse_uint(strip_all(strip_all(t, "0x"@), "0X"@), 16, 0xFFFF)
    } else {
        parse_uint(t, 10, 0xFFFF)
    }
}

/// Parse hex or decimal number (supports $FFFF, 0xFFFF, and decimal)
fn parse_hex_or_decimal(s: &Vec<char>) -> (r: Result<u16, ()>)
    ensures
        r matches Ok(n) ==> hex_or_dec(s@) == Some(n as nat),
        r is Err ==> hex_or_dec(s@) is None,
{
    let t = trim_vec(s);
    let digits = if starts_with_str(&t, "$") {
        let h = strip_all_vec(&t, "$");
        parse_uint_vec(&h, 16, 0xFFFF)
    } else if starts_with_str(&t, "0x") || starts_with_str(&t, "0X") {
        let h1 = strip_all_vec(&t, "0x");
        let h = strip_all_vec(&h1, "0X");
        parse_uint_vec(&h, 16, 0xFFFF)
    } else {
        parse_uint_vec(&t, 10, 0xFFFF)
    };
    match digits {
        Some(n) => Ok(n as u16),
        None => Err(()),
    }
}

/// Mnemonics of the one-byte (inherent) instructions.
pub open spec fn is_one_byte_op(m: Seq<char>) -> bool {
    m == "NOP"@ || m == "INCA"@ || m == "INCB"@ || m == "DECA"@ || m == "DECB"@ ||
    m == "CLRA"@ || m == "CLRB"@ || m == "COMA"@ || m == "COMB"@ || m == "NEGA"@ ||
    m == "NEGB"@ || m == "RTS"@ || m == "RTI"@ || m == "PULS"@ || m == "PSHS"@ ||
    m == "PULU"@ || m == "PSHU"@ || m == "ABX"@ || m == "DAA"@ || m == "SEX"@ || m == "MUL"@ ||
    m == "SWI"@ || m == "SWI2"@ || m == "SWI3"@ || m == "SYNC"@ || m == "CWAI"@
}

fn is_one_byte_op_exec(m: &Vec<char>) -> (r: bool)
    ensures
        r == is_one_byte_op(m@),
{
    vec_is(m, "NOP") || vec_is(m, "INCA") || vec_is(m, "INCB") || vec_is(m, "DECA") ||
    vec_is(m, "DECB") || vec_is(m, "CLRA") || vec_is(m, "CLRB") || vec_is(m, "COMA") ||
    vec_is(m, "COMB") || vec_is(m, "NEGA") || vec_is(m, "NEGB") || vec_is(m, "RTS") ||
    vec_is(m, "RTI") || vec_is(m, "PULS") || vec_is(m, "PSHS") || vec_is(m, "PULU") ||
    vec_is(m, "PSHU") || vec_is(m, "ABX") || vec_is(m, "DAA") || vec_is(m, "SEX") ||
    vec_is(m, "MUL") || vec_is(m, "SWI") || vec_is(m, "SWI2") || vec_is(m, "SWI3") ||
    vec_is(m, "SYNC") || vec_is(m, "CWAI")
}

/// Mnemonics of the register transfers and short branches (two bytes).
pub open spec fn is_two_byte_op(m: Seq<char>) -> bool {
    m == "TFR"@ || m == "EXG"@ || m == "BRA"@ || m == "BEQ"@ || m == "BNE"@ || m == "BCC"@ ||
    m == "BCS"@ || m == "BPL"@ || m == "BMI"@ || m == "BVC"@ || m == "BVS"@ || m == "BHI"@ ||
    m == "BLS"@ || m == "BGE"@ || m == "BLT"@ || m == "BGT"@ || m == "BLE"@ || m == "BSR"@
}

fn is_two_byte_op_exec(m: &Vec<char>) -> (r: bool)
    ensures
        r == is_two_byte_op(m@),
{
    vec_is(m, "TFR") || vec_is(m, "EXG") || vec_is(m, "BRA") || vec_is(m, "BEQ") ||
    vec_is(m, "BNE") || vec_is(m, "BCC") || vec_is(m, "BCS") || vec_is(m, "BPL") ||
    vec_is(m, "BMI") || vec_is(m, "BVC") || vec_is(m, "BVS") || vec_is(m, "BHI") ||
    vec_is(m, "BLS") || vec_is(m, "BGE") || vec_is(m, "BLT") || vec_is(m, "BGT") ||
    vec_is(m, "BLE") || vec_is(m, "BSR")
}

/// Mnemonics of the long branches (four bytes).
pub open spec fn is_long_branch_op(m: Seq<char>) -> bool {
    m == "LBRA"@ || m == "LBEQ"@ || m == "LBNE"@ || m == "LBCC"@ || m == "LBHS"@ ||
    m == "LBCS"@ || m == "LBLO"@ || m == "LBPL"@ || m == "LBMI"@ || m == "LBVC"@ ||
    m == "LBVS"@ || m == "LBHI"@ || m == "LBLS"@ || m == "LBGE"@ || m == "LBLT"@ ||
    m == "LBGT"@ || m == "LBLE"@ || m == "LBSR"@
}

fn is_long_branch_op_exec(m: &Vec<char>) -> (r: bool)
    ensures
        r == is_long_branch_op(m@),
{
    vec_is(m, "LBRA") || vec_is(m, "LBEQ") || vec_is(m, "LBNE") || vec_is(m, "LBCC") ||
    vec_is(m, "LBHS") || vec_is(m, "LBCS") || vec_is(m, "LBLO") || vec_is(m, "LBPL") ||
    vec_is(m, "LBMI") || vec_is(m, "LBVC") || vec_is(m, "LBVS") || vec_is(m, "LBHI") ||
    vec_is(m, "LBLS") || vec_is(m, "LBGE") || vec_is(m, "LBLT") || vec_is(m, "LBGT") ||
    vec_is(m, "LBLE") || vec_is(m, "LBSR")
}

/// Mnemonics of the extended jumps (three bytes).
pub open spec fn is_jump_op(m: Seq<char>) -> bool {
    m == "JSR"@ || m == "JMP"@
}

fn is_jump_op_exec(m: &Vec<char>) -> (r: bool)
    ensures
        r == is_jump_op(m@),
{
    vec_is(m, "JSR") || vec_is(m, "JMP")
}

/// Mnemonics of the 8-bit accumulator instructions.
pub open spec fn is_acc8_op(m: Seq<char>) -> bool {
    m == "LDA"@ || m == "LDB"@ || m == "STA"@ || m == "STB"@ || m == "ADDA"@ || m == "ADDB"@ ||
    m == "SUBA"@ || m == "SUBB"@ || m == "SBCA"@ || m == "SBCB"@ || m == "CMPA"@ ||
    m == "CMPB"@ || m == "ANDA"@ || m == "ANDB"@ || m == "ORA"@ || m == "ORB"@ ||
    m == "EORA"@ || m == "EORB"@ || m == "BITA"@ || m == "BITB"@
}

fn is_acc8_op_exec(m: &Vec<char>) -> (r: bool)
    ensures
        r == is_acc8_op(m@),
{
    vec_is(m, "LDA") || vec_is(m, "LDB") || vec_is(m, "STA") || vec_is(m, "STB") ||
    vec_is(m, "ADDA") || vec_is(m, "ADDB") || vec_is(m, "SUBA") || vec_is(m, "SUBB") ||
    vec_is(m, "SBCA") || vec_is(m, "SBCB") || vec_is(m, "CMPA") || vec_is(m, "CMPB") ||
    vec_is(m, "ANDA") || vec_is(m, "ANDB") || vec_is(m, "ORA") || vec_is(m, "ORB") ||
    vec_is(m, "EORA") || vec_is(m, "EORB") || vec_is(m, "BITA") || vec_is(m, "BITB")
}

/// Mnemonics of the 16-bit register instructions.
pub open spec fn is_reg16_op(m: Seq<char>) -> bool {
    m == "LDD"@ || m == "STD"@ || m == "ADDD"@ || m == "SUBD"@ || m == "CMPD"@ || m == "LDX"@ ||
    m == "LDY"@ || m == "LDU"@ || m == "LDS"@ || m == "STX"@ || m == "STY"@ || m == "STU"@ ||
    m == "STS"@ || m == "CMPX"@ || m == "CMPY"@ || m == "CMPU"@ || m == "CMPS"@
}

fn is_reg16_op_exec(m: &Vec<char>) -> (r: bool)
    ensures
        r == is_reg16_op(m@),
{
    vec_is(m, "LDD") || vec_is(m, "STD") || vec_is(m, "ADDD") || vec_is(m, "SUBD") ||
    vec_is(m, "CMPD") || vec_is(m, "LDX") || vec_is(m, "LDY") || vec_is(m, "LDU") ||
    vec_is(m, "LDS") || vec_is(m, "STX") || vec_is(m, "STY") || vec_is(m, "STU") ||
    vec_is(m, "STS") || vec_is(m, "CMPX") || vec_is(m, "CMPY") || vec_is(m, "CMPU") ||
    vec_is(m, "CMPS")
}

/// Mnemonics of the load-effective-address instructions.
pub open spec fn is_lea_op(m: Seq<char>) -> bool {
    m == "LEAX"@ || m == "LEAY"@ || m == "LEAU"@ || m == "LEAS"@
}

fn is_lea_op_exec(m: &Vec<char>) -> (r: bool)
    ensures
        r == is_lea_op(m@),
{
    vec_is(m, "LEAX") || vec_is(m, "LEAY") || vec_is(m, "LEAU") || vec_is(m, "LEAS")
}

/// The size in bytes that the address walk gives an instruction with
/// mnemonic `m`, by its addressing mode (immediate `#`, indexed `,`).
pub open spec fn size_by_mnemonic(m: Seq<char>, immediate: bool, indexed: bool) -> u16 {
    if is_one_byte_op(m) {
        1
    } else if is_two_byte_op(m) {
        2
    } else if is_long_branch_op(m) {
        4
    } else if is_jump_op(m) {
        3
    } else if is_acc8_op(m) {
        if immediate || indexed {
            2
        } else {
            3
        }
    } else if is_reg16_op(m) {
        if immediate {
            3
        } else if indexed {
            2
        } else {
            3
        }
    } else if is_lea_op(m) {
        if indexed {
            2
        } else {
            3
        }
    } else {
        3
    }
}

fn size_by_mnemonic_exec(m: &Vec<char>, immediate: bool, indexed: bool) -> (r: u16)
    ensures
        r == size_by_mnemonic(m@, immediate, indexed),
{
    if is_one_byte_op_exec(m) {
        1
    } else if is_two_byte_op_exec(m) {
        2
    } else if is_long_branch_op_exec(m) {
        4
    } else if is_jump_op_exec(m) {
        3
    } else if is_acc8_op_exec(m) {
        if immediate || indexed {
            2
        } else {
            3
        }
    } else if is_reg16_op_exec(m) {
        if immediate {
            3
        } else if indexed {
            2
        } else {
            3
        }
    } else if is_lea_op_exec(m) {
        if indexed {
            2
        } else {
            3
        }
    } else {
        3
    }
}

/// The operand of an instruction line `t` whose first word is `w`: what
/// follows the word, without an inline comment and surrounding whitespace.
pub open spec fn operand_of(t: Seq<char>, w: Seq<char>) -> Seq<char> {
    match find(t, w) {
        Some(k) => trim(before_char(trim(t.skip(k + w.len())), ';')),
        None => Seq::<char>::empty(),
    }
}

/// The estimated size of an instruction line: by its upper-cased mnemonic
/// (the first word) and the addressing mode its operand shows.
pub open spec fn instruction_size(line: Seq<char>) -> u16 {
    let t = trim(line);
    let parts = words(t);
    if parts.len() == 0 {
        0
    } else {
        let operand = if parts.len() > 1 {
            operand_of(t, parts[0])
        } else {
            Seq::<char>::empty()
        };
        size_by_mnemonic(unicode_upper(parts[0]), starts_with(operand, "#"@), contains(operand, ","@))
    }
}

/// DEPRECATED: Instruction size estimation is unreliable and causes confusion
/// DO NOT USE - All address calculations must come from BinaryEmitter (single source of truth)
fn estimate_instruction_size_deprecated(line: &Vec<char>) -> (r: u16)
    ensures
        r == instruction_size(line@),
{
    let trimmed = trim_vec(line);
    let parts = words_vec(&trimmed);
    if parts.len() == 0 {
        return 0;
    }
    let first = string_of(&parts[0]);
    let instr = chars_of(to_upper(first.as_str()).as_str());
    let operand: Vec<char> = if parts.len() > 1 {
        match find_from_vec(&trimmed, &parts[0], 0) {
            Some(k) => {
                proof {
                    lemma_find_from(trimmed@, parts@[0]@, 0);
                }
                let rest = slice_of(&trimmed, k + parts[0].len(), trimmed.len());
                let rest_t = trim_vec(&rest);
                let pieces = split_char_vec(&rest_t, ';');
                assert(pieces@.len() > 0) by {
                    lemma_split_on_nonempty(rest_t@, ';');
                }
                assert(trimmed@.skip(k + parts@[0]@.len()) =~= rest@);
                trim_vec(&pieces[0])
            },
            None => Vec::new(),
        }
    } else {
        Vec::new()
    };
    let is_immediate = starts_with_str(&operand, "#");
    let is_indexed = contains_str(&operand, ",");
    assert(vviews(parts@)[0] == parts@[0]@);
    size_by_mnemonic_exec(&instr, is_immediate, is_indexed)
}

/// The number of bytes between the first and the last double quote of an
/// `FCC` line (in UTF-8, truncated to 16 bits), 0 without two quotes.
pub open spec fn fcc_len(t: Seq<char>) -> u16 {
    match (find(t, seq!['"']), rfind_char(t, '"')) {
        (Some(i), Some(j)) => if j > i {
            utf8_len(t.subrange(i + 1, j)) as u16
        } else {
            0
        },
        _ => 0,
    }
}

fn fcc_len_exec(t: &Vec<char>) -> (r: u16)
    ensures
        r == fcc_len(t@),
{
    let mut quote: Vec<char> = Vec::new();
    quote.push('"');
    assert(quote@ =~= seq!['"']);
    match (find_from_vec(t, &quote, 0), rfind_char_vec(t, '"')) {
        (Some(i), Some(j)) => if j > i {
            let inner = slice_of(t, i + 1, j);
            let n = utf8_len_vec(&inner);
            n as u16
        } else {
            0
        },
        _ => 0,
    }
}

/// A blank line or a comment (`;` or `*`), after trimming.
pub open spec fn is_blank_or_comment(t: Seq<char>) -> bool {
    t.len() == 0 || starts_with(t, ";"@) || starts_with(t, "*"@)
}

fn is_blank_or_comment_exec(t: &Vec<char>) -> (r: bool)
    ensures
        r == is_blank_or_comment(t@),
{
    t.len() == 0 || starts_with_str(t, ";") || starts_with_str(t, "*")
}

/// The bytes a line adds to the code size estimate.
pub open spec fn line_code_size(line: Seq<char>) -> int {
    let t = trim(line);
    if is_blank_or_comment(t) || ends_with(t, ":"@) {
        0
    } else if starts_with(t, "ORG "@) || starts_with(t, "INCLUDE "@) || starts_with(t, "EQU "@) {
        0
    } else if starts_with(t, "FDB "@) {
        2
    } else if starts_with(t, "FCB "@) {
        1
    } else if starts_with(t, "FCC "@) {
        fcc_len(t) as int
    } else {
        instruction_size(line) as int
    }
}

/// The code size estimate of a sequence of lines.
pub open spec fn code_size(ls: Seq<Seq<char>>) -> int
    decreases ls.len(),
{
    if ls.len() == 0 {
        0
    } else {
        code_size(ls.drop_last()) + line_code_size(ls.last())
    }
}

/// The estimate only grows line by line.
pub proof fn lemma_code_size_prefix(ls: Seq<Seq<char>>, i: int)
    requires
        0 <= i <= ls.len(),
    ensures
        0 <= code_size(ls.take(i)) <= code_size(ls),
    decreases ls.len() - i,
{
    if i < ls.len() {
        lemma_code_size_prefix(ls, i + 1);
        assert(ls.take(i + 1).drop_last() =~= ls.take(i));
    } else {
        assert(ls.take(i) =~= ls);
    }
    if i > 0 {
        lemma_code_size_nonneg(ls.take(i));
    }
}

proof fn lemma_code_size_nonneg(ls: Seq<Seq<char>>)
    ensures
        code_size(ls) >= 0,
    decreases ls.len(),
{
    if ls.len() > 0 {
        lemma_code_size_nonneg(ls.drop_last());
    }
}

/// DEPRECATED: ASM size estimation is unreliable
/// DO NOT USE - Get size from real binary instead
pub fn estimate_asm_size_deprecated(asm_text: &str) -> (r: u16)
    requires
        code_size(lines(asm_text@)) <= 0xFFFF,
    ensures
        r == code_size(lines(asm_text@)),
{
    let text = chars_of(asm_text);
    let ls = lines_vec(&text);
    let ghost all = lines(asm_text@);
    let mut size: u16 = 0;
    let mut i: usize = 0;
    assert(vviews(ls@).take(0) =~= Seq::<Seq<char>>::empty());
    while i < ls.len()
        invariant
            i <= ls.len(),
            vviews(ls@) == all,
            code_size(all) <= 0xFFFF,
            size as int == code_size(all.take(i as int)),
        decreases ls.len() - i,
    {
        proof {
            lemma_code_size_prefix(all, i + 1);
            assert(all.take(i + 1).drop_last() =~= all.take(i as int));
            assert(all[i as int] == ls@[i as int]@);
        }
        let line = &ls[i];
        let trimmed = trim_vec(line);
        let add: u16 = if is_blank_or_comment_exec(&trimmed) || ends_with_str(&trimmed, ":") {
            0
        } else if starts_with_str(&trimmed, "ORG ") || starts_with_str(&trimmed, "INCLUDE ")
            || starts_with_str(&trimmed, "EQU ") {
            0
        } else if starts_with_str(&trimmed, "FDB ") {
            2
        } else if starts_with_str(&trimmed, "FCB ") {
            1
        } else if starts_with_str(&trimmed, "FCC ") {
            fcc_len_exec(&trimmed)
        } else {
            estimate_instruction_size_deprecated(line)
        };
        size = size + add;
        i += 1;
    }
    assert(all.take(ls.len() as int) =~= all);
    size
}

/// The second whitespace-separated word of `t`, read as a number.
pub open spec fn second_word_value(t: Seq<char>) -> Option<nat> {
    let w = words(t);
    if w.len() > 1 {
        hex_or_dec(w[1])
    } else {
        None
    }
}

fn second_word_value_exec(t: &Vec<char>) -> (r: Option<u16>)
    ensures
        r matches Some(n) ==> second_word_value(t@) == Some(n as nat),
        r is None ==> second_word_value(t@) is None,
{
    let w = words_vec(t);
    if w.len() > 1 {
        assert(vviews(w@)[1] == w@[1]@);
        match parse_hex_or_decimal(&w[1]) {
            Ok(n) => Some(n),
            Err(_) => None,
        }
    } else {
        None
    }
}

/// The bytes a data or instruction line moves the address walks forward.
pub open spec fn line_advance(line: Seq<char>) -> int {
    let t = trim(line);
    if starts_with(t, "FDB "@) {
        2
    } else if starts_with(t, "FCB "@) {
        1
    } else if starts_with(t, "FCC "@) {
        fcc_len(t) as int
    } else if starts_with(t, "RMB "@) {
        match second_word_value(t) {
            Some(n) => n as int,
            None => 0,
        }
    } else {
        instruction_size(line) as int
    }
}

fn line_advance_exec(line: &Vec<char>) -> (r: u16)
    ensures
        r as int == line_advance(line@),
{
    let t = trim_vec(line);
    if starts_with_str(&t, "FDB ") {
        2
    } else if starts_with_str(&t, "FCB ") {
        1
    } else if starts_with_str(&t, "FCC ") {
        fcc_len_exec(&t)
    } else if starts_with_str(&t, "RMB ") {
        match second_word_value_exec(&t) {
            Some(n) => n,
            None => 0,
        }
    } else {
        estimate_instruction_size_deprecated(line)
    }
}

/// The state of the label walk: the labels found with their addresses, and
/// the current address.
pub type LabelWalk = (Map<Seq<char>, u16>, int);

/// One line of the label walk.
pub open spec fn label_step(st: LabelWalk, line: Seq<char>) -> LabelWalk {
    let t = trim(line);
    if is_blank_or_comment(t) {
        st
    } else if ends_with(t, ":"@) {
        (st.0.insert(trim(strip_end_all(t, ':')), st.1 as u16), st.1)
    } else if starts_with(t, "ORG "@) {
        match second_word_value(t) {
            Some(a) => (st.0, a as int),
            None => st,
        }
    } else if starts_with(t, "INCLUDE "@) || starts_with(t, "EQU "@) {
        st
    } else {
        (st.0, st.1 + line_advance(line))
    }
}

/// The label walk over a sequence of lines, starting at `org`.
pub open spec fn label_walk(ls: Seq<Seq<char>>, org: u16) -> LabelWalk
    decreases ls.len(),
{
    if ls.len() == 0 {
        (Map::empty(), org as int)
    } else {
        label_step(label_walk(ls.drop_last(), org), ls.last())
    }
}

/// The walk's address stays within 16 bits at every line.
pub open spec fn label_walk_fits(ls: Seq<Seq<char>>, org: u16) -> bool {
    forall|i: int| 0 <= i <= ls.len() ==> #[trigger] label_walk(ls.take(i), org).1 <= 0xFFFF
}

/// The lines the label walk reads: at most the first 100 000.
pub open spec fn walked_lines(s: Seq<char>) -> Seq<Seq<char>> {
    let ls = lines(s);
    if ls.len() > 100_000 {
        ls.take(100_000)
    } else {
        ls
    }
}

/// DEPRECATED: ASM address estimation is unreliable and causes confusion
/// DO NOT USE - All symbols must come from binary_symbol_table (Phase 6)
/// Use BinaryEmitter as single source of truth
pub fn parse_asm_addresses_deprecated(asm_text: &str, org: u16) -> (r: Vec<(String, u16)>)
    requires
        label_walk_fits(walked_lines(asm_text@), org),
    ensures
        keys_unique(r@),
        kmap(r@) == label_walk(walked_lines(asm_text@), org).0,
{
    let text = chars_of(asm_text);
    let ls = lines_vec(&text);
    let ghost all = walked_lines(asm_text@);
    let n: usize = if ls.len() > 100_000 {
        100_000
    } else {
        ls.len()
    };
    assert(all =~= vviews(ls@).take(n as int));
    let mut addresses: Vec<(String, u16)> = Vec::new();
    let mut current_address: u16 = org;
    let mut i: usize = 0;
    assert(all.take(0) =~= Seq::<Seq<char>>::empty());
    assert(kmap(addresses@) =~= Map::<Seq<char>, u16>::empty());
    while i < n
        invariant
            i <= n <= ls.len(),
            all == vviews(ls@).take(n as int),
            label_walk_fits(all, org),
            keys_unique(addresses@),
            kmap(addresses@) == label_walk(all.take(i as int), org).0,
            current_address as int == label_walk(all.take(i as int), org).1,
        decreases n - i,
    {
        let ghost st = label_walk(all.take(i as int), org);
        assert(all.take(i + 1).drop_last() =~= all.take(i as int));
        assert(all.take(i + 1).last() == ls@[i as int]@);
        assert(label_walk(all.take(i + 1), org).1 <= 0xFFFF);
        let line = &ls[i];
        let trimmed = trim_vec(line);
        if is_blank_or_comment_exec(&trimmed) {
        } else if ends_with_str(&trimmed, ":") {
            let stripped = strip_end_all_vec(&trimmed, ':');
            let label = trim_vec(&stripped);
            let ghost lv = label@;
            kv_insert(&mut addresses, string_of(&label), current_address);
            assert(kmap(addresses@) =~= st.0.insert(lv, current_address));
        } else if starts_with_str(&trimmed, "ORG ") {
            if let Some(a) = second_word_value_exec(&trimmed) {
                current_address = a;
            }
        } else if starts_with_str(&trimmed, "INCLUDE ") || starts_with_str(&trimmed, "EQU ") {
        } else {
            let add = line_advance_exec(line);
            current_address = current_address + add;
        }
        i += 1;
    }
    assert(all.take(n as int) =~= all);
    addresses
}

/// The line number and function name of a
/// `; NATIVE_CALL: NAME at line N` comment.
pub open spec fn native_call_of(line: Seq<char>) -> Option<(usize, Seq<char>)> {
    let t = trim(line);
    let sep = " at line "@;
    if !starts_with(t, "; NATIVE_CALL:"@) {
        None
    } else {
        let a = trim(t.skip("; NATIVE_CALL:"@.len() as int));
        match find(a, sep) {
            None => None,
            Some(k) => if find_from(a, sep, k + sep.len()) is Some {
                None
            } else {
                match parse_uint(trim(a.skip(k + sep.len())), 10, usize::MAX as nat) {
                    Some(n) => Some((n as usize, trim(a.take(k)))),
                    None => None,
                }
            },
        }
    }
}

fn native_call_exec(line: &Vec<char>) -> (r: Option<(usize, String)>)
    ensures
        r matches Some(p) ==> native_call_of(line@) == Some((p.0, p.1@)),
        r is None ==> native_call_of(line@) is None,
{
    let t = trim_vec(line);
    if !starts_with_str(&t, "; NATIVE_CALL:") {
        return None;
    }
    let pre = chars_of("; NATIVE_CALL:");
    let rest = slice_of(&t, pre.len(), t.len());
    assert(rest@ =~= t@.skip("; NATIVE_CALL:"@.len() as int));
    let a = trim_vec(&rest);
    let sep = chars_of(" at line ");
    match find_from_vec(&a, &sep, 0) {
        None => None,
        Some(k) => {
            proof {
                lemma_find_from(a@, sep@, 0);
            }
            assert(occurs_at(a@, sep@, k as int));
            let alen = a.len();
            assert(k + sep@.len() <= alen);
            let after: usize = k + sep.len();
            if find_from_vec(&a, &sep, after).is_some() {
                None
            } else {
                let tail = slice_of(&a, after, a.len());
                assert(tail@ =~= a@.skip(k + sep@.len()));
                let num = trim_vec(&tail);
                match parse_usize_vec(&num) {
                    Some(n) => {
                        let head = slice_of(&a, 0, k);
                        assert(head@ =~= a@.take(k as int));
                        let name = trim_vec(&head);
                        Some((n, string_of(&name)))
                    },
                    None => None,
                }
            }
        },
    }
}

/// The native calls recorded by the comments of a sequence of lines, a
/// later comment for the same line replacing an earlier one.
pub open spec fn native_calls_of(ls: Seq<Seq<char>>) -> Map<usize, Seq<char>>
    decreases ls.len(),
{
    if ls.len() == 0 {
        Map::empty()
    } else {
        let m = native_calls_of(ls.drop_last());
        match native_call_of(ls.last()) {
            Some(p) => m.insert(p.0, p.1),
            None => m,
        }
    }
}

/// Parse native call comments from generated ASM
/// Format: "; NATIVE_CALL: FUNCTION_NAME at line N"
/// Returns: HashMap<line_number, function_name>
pub fn parse_native_call_comments(asm_text: &str) -> (r: HashMap<usize, String>)
    ensures
        r@.map_values(|f: String| f@) == native_calls_of(lines(asm_text@)),
{
    let text = chars_of(asm_text);
    let ls = lines_vec(&text);
    let ghost all = lines(asm_text@);
    let mut native_calls: HashMap<usize, String> = HashMap::new();
    let mut i: usize = 0;
    assert(all.take(0) =~= Seq::<Seq<char>>::empty());
    assert(native_calls@.map_values(|f: String| f@) =~= Map::<usize, Seq<char>>::empty());
    while i < ls.len()
        invariant
            i <= ls.len(),
            all == vviews(ls@),
            native_calls@.map_values(|f: String| f@) == native_calls_of(all.take(i as int)),
        decreases ls.len() - i,
    {
        assert(all.take(i + 1).drop_last() =~= all.take(i as int));
        assert(all.take(i + 1).last() == ls@[i as int]@);
        if let Some((line_num, function_name)) = native_call_exec(&ls[i]) {
            let ghost before = native_calls@;
            let ghost fv = function_name@;
            native_calls.insert(line_num, function_name);
            assert(native_calls@.map_values(|f: String| f@) =~= before.map_values(
                |f: String| f@,
            ).insert(line_num, fv));
        }
        i += 1;
    }
    assert(all.take(ls.len() as int) =~= all);
    native_calls
}

/// The state of the line-marker walk: the source lines mapped to addresses,
/// the current address, and the marker waiting for the next code line.
pub type MarkerWalk = (Map<Seq<char>, Seq<char>>, int, Option<Seq<char>>);

/// Records the waiting marker, if any, at the current address.
pub open spec fn marker_record(st: MarkerWalk) -> MarkerWalk {
    match st.2 {
        Some(n) => (st.0.insert(n, hex_addr(st.1 as u16)), st.1, None),
        None => st,
    }
}

/// One line of the line-marker walk.
pub open spec fn marker_step(st: MarkerWalk, line: Seq<char>) -> MarkerWalk {
    let t = trim(line);
    if starts_with(t, "; VPy_LINE:"@) {
        (st.0, st.1, Some(trim(t.skip("; VPy_LINE:"@.len() as int))))
    } else if t.len() == 0 || (starts_with(t, ";"@) && !starts_with(t, "; VPy_LINE:"@)
        && !starts_with(t, "; _"@)) || starts_with(t, "*"@) {
        st
    } else if starts_with(t, "; _"@) && ends_with(t, ":"@) {
        marker_record(st)
    } else if ends_with(t, ":"@) {
        marker_record(st)
    } else if starts_with(t, "ORG "@) {
        match second_word_value(t) {
            Some(a) => (st.0, a as int, st.2),
            None => st,
        }
    } else if starts_with(t, "INCLUDE "@) || starts_with(t, "EQU "@) {
        st
    } else {
        let r = marker_record(st);
        (r.0, r.1 + line_advance(line), r.2)
    }
}

/// The line-marker walk over a sequence of lines, starting at `org`.
pub open spec fn marker_walk(ls: Seq<Seq<char>>, org: u16) -> MarkerWalk
    decreases ls.len(),
{
    if ls.len() == 0 {
        (Map::empty(), org as int, None)
    } else {
        marker_step(marker_walk(ls.drop_last(), org), ls.last())
    }
}

/// The walk's address stays within 16 bits at every line.
pub open spec fn marker_walk_fits(ls: Seq<Seq<char>>, org: u16) -> bool {
    forall|i: int| 0 <= i <= ls.len() ==> #[trigger] marker_walk(ls.take(i), org).1 <= 0xFFFF
}

/// The source lines mapped to addresses, a marker left waiting at the end
/// recorded at the final address.
pub open spec fn line_markers_of(ls: Seq<Seq<char>>, org: u16) -> Map<Seq<char>, Seq<char>> {
    marker_record(marker_walk(ls, org)).0
}

fn record_marker(
    line_map: &mut Vec<(String, String)>,
    pending: &mut Option<String>,
    current_address: u16,
    Ghost(st): Ghost<MarkerWalk>,
)
    requires
        keys_unique(old(line_map)@),
        smap(old(line_map)@) == st.0,
        st.1 == current_address,
        match *old(pending) {
            Some(n) => st.2 == Some(n@),
            None => st.2 is None,
        },
    ensures
        keys_unique(final(line_map)@),
        smap(final(line_map)@) == marker_record(st).0,
        marker_record(st).1 == current_address,
        (*final(pending)) is None,
        marker_record(st).2 is None,
{
    if let Some(line_num) = pending.take() {
        let a = hex_addr_string(current_address);
        let ghost nv = line_num@;
        let ghost av = a@;
        kv_insert(line_map, line_num, a);
        assert(smap(line_map@) =~= st.0.insert(nv, av));
    }
}

/// DEPRECATED: VPy line marker parsing with estimation is unreliable
/// DO NOT USE - Use generate_asm_address_map (Phase 6.5) + asmAddressMap instead
/// Real addresses come from binary disassembly, not estimation
pub fn parse_vpy_line_markers_deprecated(asm_text: &str, org: u16) -> (r: Vec<(String, String)>)
    requires
        marker_walk_fits(lines(asm_text@), org),
    ensures
        keys_unique(r@),
        smap(r@) == line_markers_of(lines(asm_text@), org),
{
    let text = chars_of(asm_text);
    let ls = lines_vec(&text);
    let ghost all = lines(asm_text@);
    let mut line_map: Vec<(String, String)> = Vec::new();
    let mut current_address: u16 = org;
    let mut pending_marker: Option<String> = None;
    let mut i: usize = 0;
    assert(all.take(0) =~= Seq::<Seq<char>>::empty());
    assert(smap(line_map@) =~= Map::<Seq<char>, Seq<char>>::empty());
    while i < ls.len()
        invariant
            i <= ls.len(),
            all == vviews(ls@),
            marker_walk_fits(all, org),
            keys_unique(line_map@),
            smap(line_map@) == marker_walk(all.take(i as int), org).0,
            current_address as int == marker_walk(all.take(i as int), org).1,
            match pending_marker {
                Some(n) => marker_walk(all.take(i as int), org).2 == Some(n@),
                None => marker_walk(all.take(i as int), org).2 is None,
            },
        decreases ls.len() - i,
    {
        let ghost st = marker_walk(all.take(i as int), org);
        assert(all.take(i + 1).drop_last() =~= all.take(i as int));
        assert(all.take(i + 1).last() == ls@[i as int]@);
        assert(marker_walk(all.take(i + 1), org).1 <= 0xFFFF);
        let line = &ls[i];
        let trimmed = trim_vec(line);
        if starts_with_str(&trimmed, "; VPy_LINE:") {
            let pre = chars_of("; VPy_LINE:");
            let rest = slice_of(&trimmed, pre.len(), trimmed.len());
            assert(rest@ =~= trimmed@.skip("; VPy_LINE:"@.len() as int));
            let num = trim_vec(&rest);
            pending_marker = Some(string_of(&num));
        } else if trimmed.len() == 0 || (starts_with_str(&trimmed, ";") && !starts_with_str(
            &trimmed,
            "; VPy_LINE:",
        ) && !starts_with_str(&trimmed, "; _")) || starts_with_str(&trimmed, "*") {
        } else if starts_with_str(&trimmed, "; _") && ends_with_str(&trimmed, ":") {
            record_marker(&mut line_map, &mut pending_marker, current_address, Ghost(st));
        } else if ends_with_str(&trimmed, ":") {
            record_marker(&mut line_map, &mut pending_marker, current_address, Ghost(st));
        } else if starts_with_str(&trimmed, "ORG ") {
            if let Some(a) = second_word_value_exec(&trimmed) {
                current_address = a;
            }
        } else if starts_with_str(&trimmed, "INCLUDE ") || starts_with_str(&trimmed, "EQU ") {
        } else {
            record_marker(&mut line_map, &mut pending_marker, current_address, Ghost(st));
            let add = line_advance_exec(line);
            current_address = current_address + add;
        }
        i += 1;
    }
    assert(all.take(ls.len() as int) =~= all);
    record_marker(
        &mut line_map,
        &mut pending_marker,
        current_address,
        Ghost(marker_walk(all, org)),
    );
    line_map
}

/// A number read, or 0 when there is none.
pub open spec fn or_zero(o: Option<nat>) -> nat {
    match o {
        Some(n) => n,
        None => 0,
    }
}

/// The address an `EQU` expression gives: a number, or the 16-bit sum of two
/// numbers joined by `+`; what cannot be read counts as 0.
pub open spec fn equ_value(e: Seq<char>) -> u16 {
    let ps = split_on(e, '+');
    if contains(e, "+"@) && ps.len() == 2 {
        ((or_zero(hex_or_dec(ps[0])) + or_zero(hex_or_dec(ps[1]))) % 0x10000) as u16
    } else {
        or_zero(hex_or_dec(e)) as u16
    }
}

fn value_or_zero(v: &Vec<char>) -> (r: u16)
    ensures
        r as nat == or_zero(hex_or_dec(v@)),
{
    match parse_hex_or_decimal(v) {
        Ok(n) => n,
        Err(_) => 0,
    }
}

fn equ_value_exec(e: &Vec<char>) -> (r: u16)
    ensures
        r == equ_value(e@),
{
    if contains_str(e, "+") {
        let ps = split_char_vec(e, '+');
        if ps.len() == 2 {
            assert(vviews(ps@)[0] == ps@[0]@ && vviews(ps@)[1] == ps@[1]@);
            let base = value_or_zero(&ps[0]);
            let offset = value_or_zero(&ps[1]);
            return base.wrapping_add(offset);
        }
    }
    value_or_zero(e)
}

/// The comment of an `EQU` line: what follows its first `;` up to a second
/// one, trimmed (empty without a comment).
pub open spec fn comment_of(t: Seq<char>) -> Seq<char> {
    let ps = split_on(t, ';');
    if ps.len() > 1 {
        trim(ps[1])
    } else {
        Seq::<char>::empty()
    }
}

fn comment_of_exec(t: &Vec<char>) -> (r: Vec<char>)
    ensures
        r@ == comment_of(t@),
{
    let ps = split_char_vec(t, ';');
    if ps.len() > 1 {
        assert(vviews(ps@)[1] == ps@[1]@);
        trim_vec(&ps[1])
    } else {
        Vec::new()
    }
}

/// A size written in the last parentheses of a comment, as in `(320 bytes)`.
pub open spec fn explicit_size(c: Seq<char>) -> Option<nat> {
    match (rfind_char(c, '('), rfind_char(c, ')')) {
        (Some(a), Some(b)) => if b > a {
            let w = words(c.subrange(a + 1, b));
            if w.len() > 0 {
                parse_uint(w[0], 10, usize::MAX as nat)
            } else {
                None
            }
        } else {
            None
        },
        _ => None,
    }
}

fn explicit_size_exec(c: &Vec<char>) -> (r: Option<usize>)
    ensures
        r matches Some(n) ==> explicit_size(c@) == Some(n as nat),
        r is None ==> explicit_size(c@) is None,
{
    match (rfind_char_vec(c, '('), rfind_char_vec(c, ')')) {
        (Some(a), Some(b)) => if b > a {
            let inside = slice_of(c, a + 1, b);
            let w = words_vec(&inside);
            if w.len() > 0 {
                assert(vviews(w@)[0] == w@[0]@);
                parse_usize_vec(&w[0])
            } else {
                None
            }
        } else {
            None
        },
        _ => None,
    }
}

/// The element count of an array comment such as `Array data (5 elements)`;
/// 1 when it shows none.
pub open spec fn element_count(c: Seq<char>) -> nat {
    if contains(c, "elements"@) {
        let ps = split_on(c, '(');
        if ps.len() > 1 {
            match parse_uint(before_char(ps[1], ' '), 10, usize::MAX as nat) {
                Some(n) => n,
                None => 1,
            }
        } else {
            1
        }
    } else {
        1
    }
}

fn element_count_exec(c: &Vec<char>) -> (r: usize)
    ensures
        r as nat == element_count(c@),
{
    if contains_str(c, "elements") {
        let ps = split_char_vec(c, '(');
        if ps.len() > 1 {
            assert(vviews(ps@)[1] == ps@[1]@);
            let qs = split_char_vec(&ps[1], ' ');
            proof {
                lemma_split_on_nonempty(ps@[1]@, ' ');
            }
            assert(vviews(qs@)[0] == qs@[0]@);
            match parse_usize_vec(&qs[0]) {
                Some(n) => n,
                None => 1,
            }
        } else {
            1
        }
    } else {
        1
    }
}

/// Audio variables that take one byte.
pub open spec fn audio_is_byte(name: Seq<char>, c: Seq<char>) -> bool {
    contains(c, "(1 byte)"@) || ends_with(name, "_ACTIVE"@) || ends_with(name, "_PLAYING"@)
        || ends_with(name, "_COUNT"@) || ends_with(name, "_FRAMES"@) || ends_with(name, "_PHASE"@)
        || ends_with(name, "_VOL"@)
}

fn audio_is_byte_exec(name: &Vec<char>, c: &Vec<char>) -> (r: bool)
    ensures
        r == audio_is_byte(name@, c@),
{
    contains_str(c, "(1 byte)") || ends_with_str(name, "_ACTIVE") || ends_with_str(name, "_PLAYING")
        || ends_with_str(name, "_COUNT") || ends_with_str(name, "_FRAMES") || ends_with_str(
        name,
        "_PHASE",
    ) || ends_with_str(name, "_VOL")
}

/// Audio variables, by name.
pub open spec fn is_audio_name(name: Seq<char>) -> bool {
    contains(name, "PSG_"@) || contains(name, "SFX_"@) || contains(name, "MUSIC_"@)
}

/// System scratch variables, by name.
pub open spec fn is_system_name(name: Seq<char>) -> bool {
    starts_with(name, "RESULT"@) || starts_with(name, "TMP"@) || starts_with(name, "MUL_"@)
        || starts_with(name, "DIV_"@)
}

/// The type of a variable, from its name and comment.
pub open spec fn var_kind(name: Seq<char>, c: Seq<char>) -> Seq<char> {
    if explicit_size(c) is Some {
        if contains(name, "BUFFER"@) || contains(name, "LEVEL_"@) {
            "system"@
        } else if contains(name, "_DATA"@) {
            "array"@
        } else {
            "unknown"@
        }
    } else if contains(name, "_DATA"@) {
        "array"@
    } else if starts_with(name, "VAR_ARG"@) {
        "arg"@
    } else if starts_with(name, "VAR_"@) {
        "int"@
    } else if is_audio_name(name) {
        "audio"@
    } else if is_system_name(name) {
        "system"@
    } else {
        "unknown"@
    }
}

/// The size in bytes of a variable, from its name and comment.
pub open spec fn var_size(name: Seq<char>, c: Seq<char>) -> int {
    match explicit_size(c) {
        Some(n) => n as int,
        None => if contains(name, "_DATA"@) {
            (element_count(c) * 2) as int
        } else if starts_with(name, "VAR_ARG"@) || starts_with(name, "VAR_"@) {
            2
        } else if is_audio_name(name) {
            if audio_is_byte(name, c) {
                1
            } else {
                2
            }
        } else {
            2
        },
    }
}

fn var_kind_and_size(name: &Vec<char>, c: &Vec<char>) -> (r: (String, usize))
    requires
        var_size(name@, c@) <= usize::MAX,
    ensures
        r.0@ == var_kind(name@, c@),
        r.1 as int == var_size(name@, c@),
{
    if let Some(explicit_bytes) = explicit_size_exec(c) {
        if contains_str(name, "BUFFER") || contains_str(name, "LEVEL_") {
            (string_from("system"), explicit_bytes)
        } else if contains_str(name, "_DATA") {
            (string_from("array"), explicit_bytes)
        } else {
            (string_from("unknown"), explicit_bytes)
        }
    } else if contains_str(name, "_DATA") {
        let n = element_count_exec(c);
        (string_from("array"), n * 2)
    } else if starts_with_str(name, "VAR_ARG") {
        (string_from("arg"), 2)
    } else if starts_with_str(name, "VAR_") {
        (string_from("int"), 2)
    } else if contains_str(name, "PSG_") || contains_str(name, "SFX_") || contains_str(
        name,
        "MUSIC_",
    ) {
        let is_byte = audio_is_byte_exec(name, c);
        (string_from("audio"), if is_byte {
            1
        } else {
            2
        })
    } else if starts_with_str(name, "RESULT") || starts_with_str(name, "TMP") || starts_with_str(
        name,
        "MUL_",
    ) || starts_with_str(name, "DIV_") {
        (string_from("system"), 2)
    } else {
        (string_from("unknown"), 2)
    }
}

/// The name a variable is listed under: user variables lose their `VAR_`
/// prefix and `_DATA` suffix and are lower-cased; others keep their name.
pub open spec fn clean_name(name: Seq<char>) -> Seq<char> {
    if starts_with(name, "VAR_"@) {
        let s = name.skip("VAR_"@.len() as int);
        unicode_lower(
            if ends_with(s, "_DATA"@) {
                s.take(s.len() - "_DATA"@.len())
            } else {
                s
            },
        )
    } else {
        name
    }
}

fn clean_name_exec(name: &Vec<char>) -> (r: String)
    ensures
        r@ == clean_name(name@),
{
    if starts_with_str(name, "VAR_") {
        let pre = chars_of("VAR_");
        let s = slice_of(name, pre.len(), name.len());
        assert(s@ =~= name@.skip("VAR_"@.len() as int));
        let base = if ends_with_str(&s, "_DATA") {
            let suf = chars_of("_DATA");
            slice_of(&s, 0, s.len() - suf.len())
        } else {
            s
        };
        let b = string_of(&base);
        to_lower(b.as_str())
    } else {
        string_of(name)
    }
}

/// An `EQU` line that names a variable (a line with ` EQU ` and at least
/// three words that is neither blank nor a comment).
pub open spec fn is_var_line(t: Seq<char>) -> bool {
    t.len() > 0 && !starts_with(t, ";"@) && contains(t, " EQU "@) && words(t).len() >= 3
}

/// The size computed for a variable line fits in a `usize`.
pub open spec fn var_line_fits(line: Seq<char>) -> bool {
    let t = trim(line);
    is_var_line(t) ==> var_size(words(t)[0], comment_of(t)) <= usize::MAX
}

/// The variable a line declares, under the name it is listed by.
pub open spec fn var_entry(line: Seq<char>) -> Option<(Seq<char>, VariableInfoM)> {
    let t = trim(line);
    if !is_var_line(t) {
        None
    } else {
        let p = words(t);
        let c = comment_of(t);
        let cn = clean_name(p[0]);
        Some((cn, (cn, hex_addr(equ_value(p[2])), var_size(p[0], c) as usize, var_kind(p[0], c), None)))
    }
}

/// The variables declared by a sequence of lines, a later declaration under
/// the same name replacing an earlier one.
pub open spec fn vars_of(ls: Seq<Seq<char>>) -> Map<Seq<char>, VariableInfoM>
    decreases ls.len(),
{
    if ls.len() == 0 {
        Map::empty()
    } else {
        let m = vars_of(ls.drop_last());
        match var_entry(ls.last()) {
            Some(e) => m.insert(e.0, e.1),
            None => m,
        }
    }
}

/// Every variable the table lists is listed under its own name.
pub proof fn lemma_vars_listed_by_name(ls: Seq<Seq<char>>, k: Seq<char>)
    requires
        vars_of(ls).contains_key(k),
    ensures
        vars_of(ls)[k].0 == k,
        vars_of(ls)[k].4 is None,
    decreases ls.len(),
{
    if ls.len() > 0 {
        match var_entry(ls.last()) {
            Some(e) => {
                if e.0 != k {
                    lemma_vars_listed_by_name(ls.drop_last(), k);
                }
            },
            None => {
                lemma_vars_listed_by_name(ls.drop_last(), k);
            },
        }
    }
}

/// Parse variable definitions from ASM EQU directives
/// Format: "VAR_NAME EQU $CF10+0" or "RESULT EQU $C880+$00"
/// Returns: the table that goes into debug_info.variables
pub fn parse_asm_variables(asm_text: &str) -> (r: Vec<(String, VariableInfo)>)
    requires
        forall|i: int| 0 <= i < lines(asm_text@).len() ==> var_line_fits(#[trigger] lines(asm_text@)[i]),
    ensures
        keys_unique(r@),
        vmap(r@) == vars_of(lines(asm_text@)),
{
    let text = chars_of(asm_text);
    let ls = lines_vec(&text);
    let ghost all = lines(asm_text@);
    let mut variables: Vec<(String, VariableInfo)> = Vec::new();
    let mut i: usize = 0;
    assert(all.take(0) =~= Seq::<Seq<char>>::empty());
    assert(vmap(variables@) =~= Map::<Seq<char>, VariableInfoM>::empty());
    while i < ls.len()
        invariant
            i <= ls.len(),
            all == vviews(ls@),
            forall|j: int| 0 <= j < all.len() ==> var_line_fits(#[trigger] all[j]),
            keys_unique(variables@),
            vmap(variables@) == vars_of(all.take(i as int)),
        decreases ls.len() - i,
    {
        assert(all.take(i + 1).drop_last() =~= all.take(i as int));
        assert(all.take(i + 1).last() == ls@[i as int]@);
        assert(var_line_fits(all[i as int]));
        let trimmed = trim_vec(&ls[i]);
        if trimmed.len() > 0 && !starts_with_str(&trimmed, ";") && contains_str(&trimmed, " EQU ") {
            let parts = words_vec(&trimmed);
            if parts.len() >= 3 {
                assert(vviews(parts@)[0] == parts@[0]@ && vviews(parts@)[2] == parts@[2]@);
                let var_name = &parts[0];
                let address = equ_value_exec(&parts[2]);
                let comment = comment_of_exec(&trimmed);
                let (var_type, size) = var_kind_and_size(var_name, &comment);
                let clean = clean_name_exec(var_name);
                let name_copy = clean.clone();
                let info = VariableInfo {
                    name: name_copy,
                    address: hex_addr_string(address),
                    size,
                    var_type,
                    decl_line: None,
                };
                let ghost before = variables@;
                let ghost key = clean@;
                let ghost iv = info.view();
                kv_insert(&mut variables, clean, info);
                assert(vmap(variables@) =~= vmap(before).insert(key, iv));
            }
        }
        i += 1;
    }
    assert(all.take(ls.len() as int) =~= all);
    variables
}

} // verus!
