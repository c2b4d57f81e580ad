//! Artifacts as ELF objects, for inspection with a disassembler or a debugger.

use crate::bytes;
use crate::cache::{ArtifactModel, ElfError, InstrMapEntry, JitArtifact};
use crate::debug_line;
use crate::elf;
use crate::elf::{ElfSection, ElfSymbol, SectionKind, SymbolKind, SymbolScope};
use crate::text;
use vstd::prelude::*;

verus! {

/// `sp1_jit_entry`.
pub open spec fn entry_name() -> Seq<u8> {
    seq![0x73u8, 0x70, 0x31, 0x5f, 0x6a, 0x69, 0x74, 0x5f, 0x65, 0x6e, 0x74, 0x72, 0x79]
}

/// `.debug_line`.
pub open spec fn debug_line_name() -> Seq<u8> {
    seq![0x2eu8, 0x64, 0x65, 0x62, 0x75, 0x67, 0x5f, 0x6c, 0x69, 0x6e, 0x65]
}

/// `riscv_pc_0x` and the program counter in hexadecimal.
pub open spec fn pc_name(riscv_pc: u64) -> Seq<u8> {
    seq![0x72u8, 0x69, 0x73, 0x63, 0x76, 0x5f, 0x70, 0x63, 0x5f, 0x30, 0x78] + text::hex(
        riscv_pc as nat,
    )
}

/// The symbol of the whole code: global, at offset 0.
pub open spec fn entry_symbol(code_len: nat) -> ElfSymbol {
    ElfSymbol {
        name: entry_name(),
        value: 0,
        size: code_len as u64,
        kind: SymbolKind::Text,
        scope: SymbolScope::Dynamic,
        weak: false,
        section: 0,
    }
}

/// The symbol of an instruction: local, over its byte range.
pub open spec fn instr_symbol(entry: InstrMapEntry) -> ElfSymbol {
    ElfSymbol {
        name: pc_name(entry.riscv_pc),
        value: entry.start_offset as u64,
        size: (entry.end_offset - entry.start_offset) as u64,
        kind: SymbolKind::Text,
        scope: SymbolScope::Compilation,
        weak: false,
        section: 0,
    }
}

/// The symbols of an artifact: that of the code, then one for each instruction.
pub open spec fn artifact_symbols(artifact: ArtifactModel) -> Seq<ElfSymbol> {
    seq![entry_symbol(artifact.code.len())] + artifact.instr_map.map_values(
        |entry: InstrMapEntry| instr_symbol(entry),
    )
}

/// The sections of an artifact: the code, aligned to 16 bytes, and the line table.
pub open spec fn artifact_sections(artifact: ArtifactModel) -> Seq<ElfSection> {
    seq![
        ElfSection {
            segment: Seq::empty(),
            name: elf::text_name(),
            kind: SectionKind::Text,
            align: 16,
            data: artifact.code,
        },
        ElfSection {
            segment: Seq::empty(),
            name: debug_line_name(),
            kind: SectionKind::Debug,
            align: 1,
            data: debug_line::debug_line_section(artifact.instr_map),
        },
    ]
}

/// Whether the instructions of an artifact can be named and tabled: each range ends where it
/// starts or later, the lines fit in 64 bits, and the symbols fit in a symbol table.
pub open spec fn is_exportable(artifact: ArtifactModel) -> bool {
    &&& artifact.instr_map.len() + 1 < u32::MAX
    &&& debug_line::lines_fit(artifact.instr_map)
    &&& forall|i: int|
        0 <= i < artifact.instr_map.len() ==> (#[trigger] artifact.instr_map[i]).start_offset
            <= artifact.instr_map[i].end_offset
}

/// Instructions at different program counters have different symbols.
pub proof fn law_pc_names_differ(a: u64, b: u64)
    requires
        a != b,
    ensures
        pc_name(a) != pc_name(b),
{
    if pc_name(a) == pc_name(b) {
        assert(text::hex(a as nat) =~= pc_name(a).skip(11));
        assert(text::hex(b as nat) =~= pc_name(b).skip(11));
        text::law_hex_injective(a as nat, b as nat);
    }
}

/// The object has two sections: `.text`, aligned to 16 bytes, which holds the code, and
/// `.debug_line`, which holds a line table. Where its length fits in 32 bits, the table has one row
/// for each instruction, at its first byte and with the line after its program counter, and ends
/// where the last instruction ends.
pub proof fn law_sections_hold_code_and_lines(artifact: ArtifactModel)
    ensures
        ({
            let sections: Seq<ElfSection> = artifact_sections(artifact);
            let (text, lines): (ElfSection, ElfSection) = (sections[0], sections[1]);
            &&& sections.len() == 2
            &&& text.name == seq!['.' as u8, 't' as u8, 'e' as u8, 'x' as u8, 't' as u8]
            &&& text.segment.len() == 0
            &&& text.kind is Text
            &&& text.align == 16
            &&& text.data == artifact.code
            &&& lines.name == seq![
                '.' as u8,
                'd' as u8,
                'e' as u8,
                'b' as u8,
                'u' as u8,
                'g' as u8,
                '_' as u8,
                'l' as u8,
                'i' as u8,
                'n' as u8,
                'e' as u8,
            ]
            &&& lines.segment.len() == 0
            &&& lines.kind is Debug
            &&& lines.align == 1
            &&& lines.data.len() < 0x1_0000_0000 ==> {
                let table: Option<debug_line::LineTable> = debug_line::line_table(lines.data);
                &&& table is Some
                &&& table->Some_0.rows.len() == artifact.instr_map.len()
                &&& forall|i: int|
                    0 <= i < artifact.instr_map.len() ==> (
                    #[trigger] table->Some_0.rows[i]).address
                        == artifact.instr_map[i].start_offset
                &&& forall|i: int|
                    0 <= i < artifact.instr_map.len() && artifact.instr_map[i].riscv_pc
                        <= i64::MAX ==> (#[trigger] table->Some_0.rows[i]).line
                        == artifact.instr_map[i].riscv_pc + 1
                &&& artifact.instr_map.len() > 0 ==> table->Some_0.end
                    == artifact.instr_map.last().end_offset
            }
        }),
{
    let sections: Seq<ElfSection> = artifact_sections(artifact);
    let lines: ElfSection = sections[1];
    assert(sections[0].name =~= seq!['.' as u8, 't' as u8, 'e' as u8, 'x' as u8, 't' as u8]);
    assert(lines.name =~= seq![
        '.' as u8,
        'd' as u8,
        'e' as u8,
        'b' as u8,
        'u' as u8,
        'g' as u8,
        '_' as u8,
        'l' as u8,
        'i' as u8,
        'n' as u8,
        'e' as u8,
    ]);
    debug_line::law_section_header(artifact.instr_map);
    if lines.data.len() < 0x1_0000_0000 {
        debug_line::law_section_line_table(artifact.instr_map);
    }
}

/// The object has one symbol for the whole code, `sp1_jit_entry`: global, at offset 0 of the
/// section that holds the code, and as long as the code, whatever the instructions are.
pub proof fn law_entry_symbol_spans_the_code(artifact: ArtifactModel)
    requires
        artifact.code.len() <= u64::MAX,
    ensures
        ({
            let symbols: Seq<ElfSymbol> = artifact_symbols(artifact);
            let entry: ElfSymbol = symbols[0];
            &&& symbols.len() == 1 + artifact.instr_map.len()
            &&& entry.name == seq![
                's' as u8,
                'p' as u8,
                '1' as u8,
                '_' as u8,
                'j' as u8,
                'i' as u8,
                't' as u8,
                '_' as u8,
                'e' as u8,
                'n' as u8,
                't' as u8,
                'r' as u8,
                'y' as u8,
            ]
            &&& entry.value == 0
            &&& entry.size == artifact.code.len()
            &&& entry.kind is Text
            &&& entry.scope is Dynamic
            &&& !entry.weak
            &&& 0 <= entry.section < artifact_sections(artifact).len()
            &&& artifact_sections(artifact)[entry.section].data == artifact.code
        }),
{
    assert(artifact_symbols(artifact)[0].name =~= seq![
        's' as u8,
        'p' as u8,
        '1' as u8,
        '_' as u8,
        'j' as u8,
        'i' as u8,
        't' as u8,
        '_' as u8,
        'e' as u8,
        'n' as u8,
        't' as u8,
        'r' as u8,
        'y' as u8,
    ]);
}

/// The object has a symbol for each instruction, in order: local, over the instruction's byte range
/// in the section that holds the code. Its name is `riscv_pc_0x` and digits that are read back as
/// the program counter.
pub proof fn law_instr_symbol_spans_its_range(artifact: ArtifactModel, i: int)
    requires
        0 <= i < artifact.instr_map.len(),
        artifact.instr_map[i].start_offset <= artifact.instr_map[i].end_offset,
    ensures
        ({
            let entry: InstrMapEntry = artifact.instr_map[i];
            let symbol: ElfSymbol = artifact_symbols(artifact)[i + 1];
            &&& symbol.value == entry.start_offset
            &&& symbol.value + symbol.size == entry.end_offset
            &&& symbol.kind is Text
            &&& symbol.scope is Compilation
            &&& !symbol.weak
            &&& 0 <= symbol.section < artifact_sections(artifact).len()
            &&& artifact_sections(artifact)[symbol.section].data == artifact.code
            &&& symbol.name.len() > 11
            &&& symbol.name.take(11) == seq![
                'r' as u8,
                'i' as u8,
                's' as u8,
                'c' as u8,
                'v' as u8,
                '_' as u8,
                'p' as u8,
                'c' as u8,
                '_' as u8,
                '0' as u8,
                'x' as u8,
            ]
            &&& text::read_hex(symbol.name.skip(11)) == Some(entry.riscv_pc as nat)
            &&& symbol.name[11] == '0' as u8 <==> entry.riscv_pc == 0
        }),
{
    let entry: InstrMapEntry = artifact.instr_map[i];
    let symbol: ElfSymbol = artifact_symbols(artifact)[i + 1];
    assert(symbol == instr_symbol(entry));
    text::law_hex_reads_back(entry.riscv_pc as nat);
    assert(symbol.name.skip(11) =~= text::hex(entry.riscv_pc as nat));
    assert(symbol.name[11] == text::hex(entry.riscv_pc as nat)[0]);
    assert(symbol.name.take(11) =~= seq![
        'r' as u8,
        'i' as u8,
        's' as u8,
        'c' as u8,
        'v' as u8,
        '_' as u8,
        'p' as u8,
        'c' as u8,
        '_' as u8,
        '0' as u8,
        'x' as u8,
    ]);
}

/// An artifact can be exported if and only if its symbols can be counted in 32 bits, its ranges end
/// where they start or later, and its lines fit.
pub proof fn law_exportable_exactly(artifact: ArtifactModel)
    ensures
        is_exportable(artifact) <==> {
            &&& artifact.instr_map.len() <= 0xffff_fffd
            &&& debug_line::lines_fit(artifact.instr_map)
            &&& !exists|i: int|
                0 <= i < artifact.instr_map.len() && (#[trigger] artifact.instr_map[i]).end_offset
                    < artifact.instr_map[i].start_offset
        },
{
}

/// The names of an artifact's sections and symbols hold no zero byte.
proof fn lemma_writable(artifact: ArtifactModel)
    requires
        is_exportable(artifact),
    ensures
        elf::is_writable(artifact_sections(artifact), artifact_symbols(artifact)),
{
    let symbols: Seq<ElfSymbol> = artifact_symbols(artifact);
    assert forall|i: int| 0 <= i < symbols.len() implies elf::is_table_string(
        #[trigger] symbols[i].name,
    ) by {
        if i > 0 {
            let pc: u64 = artifact.instr_map[i - 1].riscv_pc;
            assert(symbols[i] == instr_symbol(artifact.instr_map[i - 1]));
            text::lemma_hex_nonzero(pc as nat);
        }
    }
    assert forall|i: int| 0 <= i < symbols.len() implies 0 <= (
    #[trigger] symbols[i]).section < 2 by {
        if i > 0 {
            assert(symbols[i] == instr_symbol(artifact.instr_map[i - 1]));
        }
    }
}

/// The symbol name of an instruction.
fn pc_symbol_name(riscv_pc: u64) -> (name: Vec<u8>)
    ensures
        name@ == pc_name(riscv_pc),
{
    let mut name: Vec<u8> = Vec::new();
    bytes::push_bytes(
        &mut name,
        &[0x72u8, 0x69, 0x73, 0x63, 0x76, 0x5f, 0x70, 0x63, 0x5f, 0x30, 0x78],
    );
    text::push_hex(&mut name, riscv_pc);
    assert(name@ =~= pc_name(riscv_pc));
    name
}

impl JitArtifact {
    /// Whether the instructions of this artifact can be named and tabled.
    pub fn can_export(&self) -> (can: bool)
        ensures
            can == is_exportable(self@),
    {
        let count: u64 = self.instr_map.len() as u64;
        if count >= 0xffff_fffe || !debug_line::has_fitting_lines(self.instr_map.as_slice()) {
            return false;
        }
        let mut i: usize = 0;
        while i < self.instr_map.len()
            invariant
                i <= self.instr_map@.len(),
                forall|k: int|
                    0 <= k < i ==> (#[trigger] self.instr_map@[k]).start_offset
                        <= self.instr_map@[k].end_offset,
            decreases self.instr_map@.len() - i,
        {
            let entry: InstrMapEntry = self.instr_map[i];
            if entry.start_offset > entry.end_offset {
                assert(self@.instr_map[i as int].start_offset
                    > self@.instr_map[i as int].end_offset);
                return false;
            }
            i = i + 1;
        }
        true
    }

    /// The artifact as an ELF object file with DWARF debug line info.
    ///
    /// The ELF contains:
    /// - `.text` section with the JIT code
    /// - A `sp1_jit_entry` symbol at offset 0
    /// - A local symbol for each instruction
    /// - `.debug_line` section mapping x86-64 offsets to RISC-V PCs
    ///
    /// This is a debug/inspection object, not a standalone executable.
    pub fn to_elf(&self) -> (file: Result<Vec<u8>, ElfError>)
        requires
            is_exportable(self@),
        ensures
            file is Ok,
            file->Ok_0@ == elf::elf_image(artifact_sections(self@), artifact_symbols(self@)),
    {
        let mut object = elf::new_object();

        // The code.
        let text_section = elf::add_text_section(&mut object);
        let _ = elf::append_section_data(&mut object, text_section, self.code.as_slice(), 16);
        let ghost text: ElfSection = artifact_sections(self@)[0];
        assert(Seq::<u8>::empty() + Seq::new(0, |i: int| 0u8) + self.code@ =~= self.code@);
        assert(elf::object_sections(object) =~= seq![text]);

        // The symbol of the entry point.
        let mut name: Vec<u8> = Vec::new();
        bytes::push_bytes(
            &mut name,
            &[0x73u8, 0x70, 0x31, 0x5f, 0x6a, 0x69, 0x74, 0x5f, 0x65, 0x6e, 0x74, 0x72, 0x79],
        );
        assert(name@ =~= entry_name());
        elf::add_symbol(
            &mut object,
            name,
            0,
            self.code.len() as u64,
            SymbolKind::Text,
            SymbolScope::Dynamic,
            false,
            text_section,
        );

        // A symbol for each instruction.
        let ghost symbols: Seq<ElfSymbol> = artifact_symbols(self@);
        assert(elf::object_symbols(object) =~= symbols.take(1));
        let mut i: usize = 0;
        while i < self.instr_map.len()
            invariant
                i <= self.instr_map@.len(),
                is_exportable(self@),
                symbols == artifact_symbols(self@),
                elf::section_position(text_section) == 0,
                elf::object_sections(object) == seq![text],
                elf::object_symbols(object) == symbols.take(i + 1),
            decreases self.instr_map@.len() - i,
        {
            let entry: InstrMapEntry = self.instr_map[i];
            assert(self@.instr_map[i as int].start_offset <= self@.instr_map[i as int].end_offset);
            let size: u32 = entry.end_offset - entry.start_offset;
            elf::add_symbol(
                &mut object,
                pc_symbol_name(entry.riscv_pc),
                entry.start_offset as u64,
                size as u64,
                SymbolKind::Text,
                SymbolScope::Compilation,
                false,
                text_section,
            );
            assert(symbols[i + 1] == instr_symbol(entry));
            assert(elf::object_symbols(object) =~= symbols.take(i + 2));
            i = i + 1;
        }
        assert(elf::object_symbols(object) =~= symbols);

        // The line table.
        let line_table: Vec<u8> = debug_line::build_debug_line_section(self.instr_map.as_slice());
        let mut section_name: Vec<u8> = Vec::new();
        bytes::push_bytes(
            &mut section_name,
            &[0x2eu8, 0x64, 0x65, 0x62, 0x75, 0x67, 0x5f, 0x6c, 0x69, 0x6e, 0x65],
        );
        assert(section_name@ =~= debug_line_name());
        let segment: Vec<u8> = Vec::new();
        let line_section = elf::add_section(&mut object, segment, section_name, SectionKind::Debug);
        let _ = elf::append_section_data(&mut object, line_section, line_table.as_slice(), 1);
        assert(Seq::<u8>::empty() + Seq::new(0, |i: int| 0u8) + line_table@ =~= line_table@);
        assert(elf::object_sections(object) =~= artifact_sections(self@));

        proof {
            lemma_writable(self@);
        }
        match elf::write_object(&object) {
            Ok(file) => Ok(file),
            Err(error) => Err(ElfError(error)),
        }
    }
}

} // verus!
