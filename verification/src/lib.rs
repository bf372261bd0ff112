pub mod text;
pub mod ast;
pub mod strset;
pub mod keyed;
pub mod codegen;
pub mod backend;
pub mod animres;
pub mod library;
pub mod emulator;
pub mod disasm;
