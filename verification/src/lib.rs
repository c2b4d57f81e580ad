//! Artifacts of a RISC-V to x86-64 just-in-time compiler.

pub mod assembler;
pub mod bytes;
pub mod cache;
pub mod debug_line;
pub mod dump;
pub mod elf;
pub mod elf_export;
pub mod function;
pub mod leb128;
pub mod linux_perf;
pub mod memory_image;
pub mod payload;
pub mod runner;
pub mod text;
pub mod transpiler;
pub mod vtune;
