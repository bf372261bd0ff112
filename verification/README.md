# vpy_core

A compiler core for VPy, a small Python-like language for the Vectrex
console: the optimiser passes, code generators for the Motorola 6809 and for
ARM (PiTrex) and Cortex-M targets, debug-symbol tables, a 6809 emulator core
and disassembler, multibank ROM layout, and asset and library registries.
The library in `src/` is written in Verus; every function there carries a
contract that Verus proves.

## Layout

- `src/ast.rs`: the syntax tree and its mathematical model (`ExprM`,
  `StmtM`, ...).
- `src/codegen/`: constant folding, propagation, dead-store elimination,
  the optimisation fixed point and the semantic checks.
- `src/backend/arm.rs`, `src/backend/cortexm.rs`: the ARM and Cortex-M code
  generators, each specified by a model of the text it emits.
- `src/backend/m6809/`: the 6809 back end.
  - `lowering.rs` and `expr_code.rs`: expressions and builtin calls. The
    model `m6_expr` / `m6_builtin` says what text an expression becomes;
    `emit_expr_depth` and `emit_builtin_call` produce exactly that text.
  - `stmt_lowering.rs` and `stmt_code.rs`: statements and functions
    (`emit_stmt`, `emit_function`), including `switch` jump tables and the
    source-line markers and line map of the debug tables.
  - `builtin_texts.rs`, `builtin_helpers.rs`, `vector_lists.rs`,
    `header.rs`, `sections.rs`: fixed routines, runtime helpers, vector
    data, the cartridge header and linker sections.
  - `analysis.rs`, `collectors.rs`, `utils.rs`: what a module uses
    (assets, runtime routines, symbols, locals) and label helpers.
  - `bank_*.rs`, `multi_bank_linker.rs`, `address_tracker.rs`: multibank
    layout and linking.
- `src/backend/debug_info.rs`, `asm_address_mapper.rs`: debug-symbol tables
  and address maps.
- `src/emulator.rs`, `src/disasm.rs`: the 6809 CPU core and disassembler.
- `src/animres.rs`, `src/library.rs`: animation resources and the library
  registry.
- `app/`: file and JSON I/O, serde copies of library types, and the
  floating-point vertex computation of circles, arcs and spirals.

## What the 6809 lowering takes from its caller

The label counter is an explicit argument rather than process-wide state,
so two labels drawn in turn are distinct and the numbering is reproducible.
The vertices of constant `DRAW_CIRCLE`, `DRAW_CIRCLE_SEG`, `DRAW_ARC` and
`DRAW_SPIRAL` calls are computed with floating point and come in through
`AssetData::shapes`; the number of paths of each vector asset, read from the
asset files, comes in through `AssetData::vector_paths`.

## Not included

The whole-module 6809 driver that assembles a complete program (defines,
header, RAM layout, runtime helpers, `main`/`loop` wiring, vector lists,
assets and the debug tables around them) is not part of this library: it
depends on the target description, trigonometry tables, the vector and music
resource loaders and the assembler, none of which are available here. The
pieces it is built from (expressions, builtins, statements, functions,
header, helpers, vector lists, sections, bank layout) are in `src/`.
