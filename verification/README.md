# sp1_jit

Artifacts of a just-in-time compiler from RISC-V to x86-64, with their behaviour stated in
contracts and proved by Verus.

- `src/transpiler.rs` lays out the code of a program and records which code belongs to which
  RISC-V instruction; `src/dump.rs` also hands out the code of each instruction.
- `src/function.rs` holds compiled functions, `src/cache.rs` their artifacts and the cache file
  format, `src/payload.rs` the serialized form.
- `src/elf_export.rs` exports an artifact as an ELF object, with the DWARF line table of
  `src/debug_line.rs` and the variable-length numbers of `src/leb128.rs`.
- `src/linux_perf.rs` and `src/vtune.rs` make what the two profilers are told.
- `src/runner.rs` holds what a runner process is given and hands back, and when it is done.
- `src/assembler.rs`, `src/elf.rs`, `src/memory_image.rs` and `src/payload.rs` call outside
  crates; what is believed of the calls stands in the contracts there.

`app/` is ordinary Rust around the library: files, executable memory and the profilers.
