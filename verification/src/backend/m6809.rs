pub mod sections;
pub mod helpers;
pub mod bank_wrappers;
pub mod address_tracker;
pub mod utils;
pub mod collectors;
pub mod multi_bank_linker;
pub mod analysis;
pub mod builtin_helpers;
pub mod bank_optimizer;
pub mod vector_lists;
pub mod header;
pub mod builtin_texts;
pub mod lowering;
pub mod expr_code;
pub mod stmt_lowering;
pub mod stmt_code;
