pub mod m6809_opcodes;
pub mod debug_info;
pub mod asm_address_mapper;
pub mod string_literals;
pub mod m6809;
pub mod arm;
pub mod cortexm;
