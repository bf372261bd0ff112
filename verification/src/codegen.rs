//! Code generation driver types: diagnostics, asset descriptions and the
//! options that steer the backends.

pub mod fold;
pub mod optimize;
pub mod propagate;
pub mod dse;
pub mod semantics;

use vstd::prelude::*;
use crate::ast::Module;
use crate::codegen::optimize::{optimize_m, optimize_module};

verus! {

#[derive(Debug, Clone, Copy, PartialEq, Eq)]
pub enum DiagnosticSeverity {
    Warning,
    Error,
}

#[derive(Debug, Clone, Copy, PartialEq, Eq)]
pub enum DiagnosticCode {
    UnusedVar,
    UndeclaredVar,
    UndeclaredAssign,
    ArityMismatch,
    UndefinedStruct,
    StructRegistryError,
}

#[derive(Debug, Clone, PartialEq, Eq)]
pub struct Diagnostic {
    pub severity: DiagnosticSeverity,
    pub code: DiagnosticCode,
    pub message: String,
    pub line: Option<usize>,
    pub col: Option<usize>,
}

/// Asset information for compilation
#[derive(Clone, Debug)]
pub struct AssetInfo {
    /// Asset name without extension (e.g., "player", "theme")
    pub name: String,
    /// Full path to asset file
    pub path: String,
    pub asset_type: AssetType,
}

#[derive(Clone, Copy, Debug, PartialEq, Eq)]
pub enum AssetType {
    /// .vec file
    Vector,
    /// .vmus file (background music, loops)
    Music,
    /// .vsfx file (sound effect, parametric SFXR-style)
    Sfx,
}

/// Options affecting generation (title, etc.).
#[derive(Clone)]
pub struct CodegenOptions {
    pub title: String,
    /// if false, backend must not emit implicit frame loop
    pub auto_loop: bool,
    /// instrument init steps with DIAG_COUNTER
    pub diag_freeze: bool,
    /// avoid direct-page JSR generation for safety
    pub force_extended_jsr: bool,
    /// (unused) if >0, ALIGN to this power-of-two (e.g. 4096 or 8192)
    pub _bank_size: u32,
    /// insert JSR VECTREX_SILENCE in frame loop
    pub per_frame_silence: bool,
    /// draw a small debug vector in INIT to confirm execution
    pub debug_init_draw: bool,
    /// replace fixed INTENSITY_5F with blinking pattern
    pub blink_intensity: bool,
    /// emit RAM variables as EQU instead of ORG-ing into RAM
    pub exclude_ram_org: bool,
    /// replace BIOS Wait_Recal with simulated wrapper
    pub fast_wait: bool,
    /// emit linker section markers
    pub emit_sections: bool,
    /// path of the source file, used to compute relative includes
    pub source_path: Option<String>,
    /// Assets to embed in ROM (.vec, .vmus files)
    pub assets: Vec<AssetInfo>,
    /// Constant values for inlining (upper-case name -> value), in name order
    pub const_values: Vec<(String, i32)>,
    /// Maps variable names to struct types (e.g., "p" -> "Point")
    pub type_context: Vec<(String, String)>,
}

/// The optimisation pipeline as the code generators run it, exposed for
/// tests.
pub fn debug_optimize_module_for_tests(m: &Module) -> (r: Module)
    ensures
        r.view() == optimize_m(m.view(), 5),
{
    optimize_module(m)
}

} // verus!
