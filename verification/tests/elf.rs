use sp1_jit::cache::{InstrMapEntry, JitArtifact};
use sp1_jit::debug_line::build_debug_line_section;

struct Section {
    name: String,
    kind: u32,
    flags: u64,
    align: u64,
    link: usize,
    data: Vec<u8>,
}

struct Symbol {
    name: String,
    info: u8,
    section: u16,
    value: u64,
    size: u64,
}

fn u16_at(data: &[u8], at: usize) -> u16 {
    u16::from_le_bytes(data[at..at + 2].try_into().unwrap())
}

fn u32_at(data: &[u8], at: usize) -> u32 {
    u32::from_le_bytes(data[at..at + 4].try_into().unwrap())
}

fn u64_at(data: &[u8], at: usize) -> u64 {
    u64::from_le_bytes(data[at..at + 8].try_into().unwrap())
}

fn text_at(data: &[u8], at: usize) -> String {
    let end = at + data[at..].iter().position(|b| *b == 0).unwrap();
    String::from_utf8(data[at..end].to_vec()).unwrap()
}

fn sections(file: &[u8]) -> Vec<Section> {
    let table = u64_at(file, 0x28) as usize;
    let count = u16_at(file, 0x3c) as usize;
    let names = u16_at(file, 0x3e) as usize;
    let names_at = u64_at(file, table + names * 64 + 0x18) as usize;
    (0..count)
        .map(|i| {
            let header = table + i * 64;
            let kind = u32_at(file, header + 4);
            let at = u64_at(file, header + 0x18) as usize;
            let len = if kind == 0 { 0 } else { u64_at(file, header + 0x20) as usize };
            Section {
                name: text_at(file, names_at + u32_at(file, header) as usize),
                kind,
                flags: u64_at(file, header + 8),
                align: u64_at(file, header + 0x30),
                link: u32_at(file, header + 0x28) as usize,
                data: file[at..at + len].to_vec(),
            }
        })
        .collect()
}

fn symbols(sections: &[Section]) -> Vec<Symbol> {
    let table = sections.iter().find(|s| s.kind == 2).expect("symbol table");
    let names = &sections[table.link].data;
    table
        .data
        .chunks(24)
        .map(|s| Symbol {
            name: text_at(names, u32_at(s, 0) as usize),
            info: s[4],
            section: u16_at(s, 6),
            value: u64_at(s, 8),
            size: u64_at(s, 16),
        })
        .collect()
}

fn entry(instr_index: u32, riscv_pc: u64, start_offset: u32, end_offset: u32) -> InstrMapEntry {
    InstrMapEntry { instr_index, riscv_pc, start_offset, end_offset }
}

fn artifact(code: Vec<u8>, instr_map: Vec<InstrMapEntry>) -> JitArtifact {
    JitArtifact {
        format_version: 1,
        code,
        jump_table_offsets: Vec::new(),
        instr_map,
        memory_size: 0,
        pc_start: 0,
        pc_base: 0,
        max_trace_size: 0,
        clk_bump: 0,
        has_host_call_relocations: false,
    }
}

#[test]
fn elf_is_a_little_endian_x86_64_object() {
    let file = artifact(vec![0xc3], Vec::new()).to_elf().unwrap();
    assert_eq!(&file[..7], &[0x7f, b'E', b'L', b'F', 2, 1, 1]);
    assert_eq!(u16_at(&file, 0x10), 1); // relocatable
    assert_eq!(u16_at(&file, 0x12), 62); // x86-64
}

#[test]
fn elf_holds_the_code_and_the_line_table() {
    let map = vec![entry(0, 0x1000, 2, 5), entry(1, 0x1004, 5, 6)];
    let artifact = artifact(vec![9, 8, 7, 6, 5, 4], map);
    assert!(artifact.can_export());
    let file = artifact.to_elf().unwrap();
    let sections = sections(&file);

    let text = sections.iter().find(|s| s.name == ".text").unwrap();
    assert_eq!(text.data, [9, 8, 7, 6, 5, 4]);
    assert_eq!(text.kind, 1);
    assert_eq!(text.flags, 0x6); // allocated, executable
    assert_eq!(text.align, 16);

    let lines = sections.iter().find(|s| s.name == ".debug_line").unwrap();
    assert_eq!(lines.data, build_debug_line_section(&artifact.instr_map));
    assert_eq!(lines.kind, 1);
    assert_eq!(lines.flags, 0);
    assert_eq!(lines.align, 1);
}

#[test]
fn elf_names_the_entry_and_each_instruction() {
    let map = vec![entry(0, 0, 0, 4), entry(1, 0xdead_beef_0123, 4, 4), entry(2, 0x10, 4, 6)];
    let file = artifact(vec![0; 6], map).to_elf().unwrap();
    let sections = sections(&file);
    let text = sections.iter().position(|s| s.name == ".text").unwrap() as u16;
    let symbols = symbols(&sections);
    let named: Vec<&Symbol> = symbols.iter().filter(|s| !s.name.is_empty()).collect();
    assert_eq!(named.len(), 4);

    let find = |name: &str| named.iter().find(|s| s.name == name).expect("symbol");
    let start = find("sp1_jit_entry");
    assert_eq!((start.value, start.size, start.section), (0, 6, text));
    assert_eq!(start.info, 0x12); // global function
    for (name, value, size) in
        [("riscv_pc_0x0", 0, 4), ("riscv_pc_0xdeadbeef0123", 4, 0), ("riscv_pc_0x10", 4, 2)]
    {
        let symbol = find(name);
        assert_eq!((symbol.value, symbol.size, symbol.section), (value, size, text));
        assert_eq!(symbol.info, 0x02); // local function
    }
}

#[test]
fn elf_of_equal_artifacts_is_equal() {
    let make = || artifact(vec![1, 2, 3], vec![entry(0, 4, 0, 3)]).to_elf().unwrap();
    assert_eq!(make(), make());
}

#[test]
fn range_that_ends_before_it_starts_cannot_be_exported() {
    assert!(!artifact(vec![0; 8], vec![entry(0, 0, 5, 4)]).can_export());
}

#[test]
fn line_that_does_not_fit_cannot_be_exported() {
    assert!(!artifact(vec![0; 8], vec![entry(0, i64::MAX as u64, 0, 4)]).can_export());
}
