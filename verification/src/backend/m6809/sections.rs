//! Section markers for linker object file generation, emitted when
//! `CodegenOptions::emit_sections` is set.

use vstd::prelude::*;
use crate::codegen::CodegenOptions;
use crate::text::{push_str, to_lower, unicode_lower};

verus! {

/// The marker line `.section NAME, "FLAGS", TYPE`.
pub open spec fn section_line(name: Seq<char>, flags: Seq<char>, section_type: Seq<char>) -> Seq<
    char,
> {
    ".section "@ + name + ", \""@ + flags + "\", "@ + section_type + "\n"@
}

/// What a section marker adds to the output under the given options.
pub open spec fn section_text(
    opts: CodegenOptions,
    name: Seq<char>,
    flags: Seq<char>,
    section_type: Seq<char>,
) -> Seq<char> {
    if opts.emit_sections {
        section_line(name, flags, section_type)
    } else {
        Seq::empty()
    }
}

/// Emit a section marker if emit_sections is enabled
///
/// * `name` - Section name (e.g., ".text.main", ".rodata", ".bss")
/// * `flags` - "a" = allocatable, "w" = writable, "x" = executable
/// * `section_type` - "@progbits" (initialized) or "@nobits" (BSS)
pub fn emit_section(
    out: &mut String,
    opts: &CodegenOptions,
    name: &str,
    flags: &str,
    section_type: &str,
)
    ensures
        final(out)@ == old(out)@ + section_text(*opts, name@, flags@, section_type@),
{
    if opts.emit_sections {
        push_str(out, ".section ");
        push_str(out, name);
        push_str(out, ", \"");
        push_str(out, flags);
        push_str(out, "\", ");
        push_str(out, section_type);
        push_str(out, "\n");
        assert(final(out)@ =~= old(out)@ + section_text(*opts, name@, flags@, section_type@));
    } else {
        assert(final(out)@ =~= old(out)@ + section_text(*opts, name@, flags@, section_type@));
    }
}

/// Emit header section marker
pub fn emit_header_section(out: &mut String, opts: &CodegenOptions)
    ensures
        final(out)@ == old(out)@ + section_text(*opts, ".text.header"@, "ax"@, "@progbits"@),
{
    emit_section(out, opts, ".text.header", "ax", "@progbits");
}

/// Emit main function section marker
pub fn emit_main_section(out: &mut String, opts: &CodegenOptions)
    ensures
        final(out)@ == old(out)@ + section_text(*opts, ".text.main"@, "ax"@, "@progbits"@),
{
    emit_section(out, opts, ".text.main", "ax", "@progbits");
}

/// Emit loop function section marker
pub fn emit_loop_section(out: &mut String, opts: &CodegenOptions)
    ensures
        final(out)@ == old(out)@ + section_text(*opts, ".text.loop"@, "ax"@, "@progbits"@),
{
    emit_section(out, opts, ".text.loop", "ax", "@progbits");
}

/// Emit generic function section marker (`.text.` and the lower-cased name)
pub fn emit_function_section(out: &mut String, opts: &CodegenOptions, func_name: &str)
    ensures
        final(out)@ == old(out)@ + section_text(
            *opts,
            ".text."@ + unicode_lower(func_name@),
            "ax"@,
            "@progbits"@,
        ),
{
    let mut section_name = String::new();
    push_str(&mut section_name, ".text.");
    let lower = to_lower(func_name);
    push_str(&mut section_name, lower.as_str());
    assert(section_name@ =~= ".text."@ + unicode_lower(func_name@));
    emit_section(out, opts, section_name.as_str(), "ax", "@progbits");
}

/// Emit helper functions section marker (builtins, wrappers, etc.)
pub fn emit_helpers_section(out: &mut String, opts: &CodegenOptions)
    ensures
        final(out)@ == old(out)@ + section_text(*opts, ".text.fixed"@, "ax"@, "@progbits"@),
{
    emit_section(out, opts, ".text.fixed", "ax", "@progbits");
}

/// Emit read-only data section marker (strings, const arrays)
pub fn emit_rodata_section(out: &mut String, opts: &CodegenOptions)
    ensures
        final(out)@ == old(out)@ + section_text(*opts, ".rodata"@, "a"@, "@progbits"@),
{
    emit_section(out, opts, ".rodata", "a", "@progbits");
}

/// Emit BSS section marker (uninitialized variables)
pub fn emit_bss_section(out: &mut String, opts: &CodegenOptions)
    ensures
        final(out)@ == old(out)@ + section_text(*opts, ".bss"@, "aw"@, "@nobits"@),
{
    emit_section(out, opts, ".bss", "aw", "@nobits");
}

/// Emit data section marker (initialized variables)
pub fn emit_data_section(out: &mut String, opts: &CodegenOptions)
    ensures
        final(out)@ == old(out)@ + section_text(*opts, ".data"@, "aw"@, "@progbits"@),
{
    emit_section(out, opts, ".data", "aw", "@progbits");
}

} // verus!
