//! The DWARF line table that maps x86-64 code offsets to RISC-V program counters.
//!
//! The table is a version 4 `.debug_line` unit over one synthetic source file,
//! `riscv_pc.map`. Each instruction contributes one row: the address is the offset of its
//! first byte, the line is its program counter plus one, since line 0 means "no line". A row
//! reaches to the next one, and the last row to the end of the last instruction.

use crate::bytes;
use crate::cache::InstrMapEntry;
use crate::leb128;
use vstd::prelude::*;

verus! {

/// A 64-bit word read as a two's complement number.
pub open spec fn signed(word: u64) -> int {
    if word < 0x8000_0000_0000_0000 {
        word as int
    } else {
        word - 0x1_0000_0000_0000_0000
    }
}

/// The line that stands for an instruction.
pub open spec fn line_of(entry: InstrMapEntry) -> int {
    signed(entry.riscv_pc) + 1
}

/// The line register after the rows of `map`: a line program starts at line 1.
pub open spec fn line_after(map: Seq<InstrMapEntry>) -> int {
    if map.len() == 0 {
        1
    } else {
        line_of(map.last())
    }
}

/// Whether a number fits in 64 bits, two's complement.
pub open spec fn fits_i64(value: int) -> bool {
    i64::MIN <= value <= i64::MAX
}

/// Whether every line, and every step from one line to the next, fits in 64 bits.
pub open spec fn lines_fit(map: Seq<InstrMapEntry>) -> bool {
    &&& forall|i: int| 0 <= i < map.len() ==> fits_i64(#[trigger] line_of(map[i]))
    &&& forall|i: int|
        0 <= i < map.len() ==> fits_i64(#[trigger] line_of(map[i]) - line_after(map.take(i)))
}

/// The opcodes that bring the address and line registers to `entry` and emit its row.
pub open spec fn row_ops(line: int, entry: InstrMapEntry) -> Seq<u8> {
    let set_address: Seq<u8> = seq![0u8, 9u8, 2u8] + bytes::le_bytes(entry.start_offset as nat, 8);
    let advance_line: Seq<u8> = if line_of(entry) == line {
        Seq::empty()
    } else {
        seq![3u8] + leb128::sleb128(line_of(entry) - line)
    };
    set_address + advance_line + seq![1u8]
}

/// The opcodes for the rows of `map`.
pub open spec fn rows_ops(map: Seq<InstrMapEntry>) -> Seq<u8>
    decreases map.len(),
{
    if map.len() == 0 {
        Seq::empty()
    } else {
        rows_ops(map.drop_last()) + row_ops(line_after(map.drop_last()), map.last())
    }
}

/// The opcodes that bring the address register to the end of the last instruction.
pub open spec fn end_ops(map: Seq<InstrMapEntry>) -> Seq<u8> {
    if map.len() == 0 {
        Seq::empty()
    } else {
        seq![0u8, 9u8, 2u8] + bytes::le_bytes(map.last().end_offset as nat, 8)
    }
}

/// The whole line program: file 1, the rows, the end of the last instruction, the end of the
/// sequence.
pub open spec fn line_program(map: Seq<InstrMapEntry>) -> Seq<u8> {
    seq![4u8, 1u8] + rows_ops(map) + end_ops(map) + seq![0u8, 1u8, 1u8]
}

/// The part of the header that follows its own length field: the machine parameters (minimum
/// instruction length 1, one operation per instruction, statements by default, line base 0,
/// line range 1, opcode base 13), the operand counts of the twelve standard opcodes, no
/// directories, and the file `riscv_pc.map` with no directory, time or size.
pub open spec fn header_tail() -> Seq<u8> {
    seq![1u8, 1, 1, 0, 1, 13] + seq![0u8, 1, 1, 1, 1, 0, 0, 0, 1, 0, 0, 1] + seq![0u8]
        + file_entry() + seq![0u8]
}

/// `riscv_pc.map`, its terminator, and three zero fields.
pub open spec fn file_entry() -> Seq<u8> {
    seq![0x72u8, 0x69, 0x73, 0x63, 0x76, 0x5f, 0x70, 0x63, 0x2e, 0x6d, 0x61, 0x70, 0, 0, 0, 0]
}

/// What follows the unit's length field: version 4, the header's length, the rest of the
/// header, the line program.
pub open spec fn unit_body(map: Seq<InstrMapEntry>) -> Seq<u8> {
    bytes::le_bytes(4, 2) + bytes::le_bytes(header_tail().len(), 4) + header_tail() + line_program(map)
}

/// The whole section. Its length field holds the low 32 bits of the length of the rest.
pub open spec fn debug_line_section(map: Seq<InstrMapEntry>) -> Seq<u8> {
    bytes::le_bytes(unit_body(map).len() % 0x1_0000_0000, 4) + unit_body(map)
}

/// A row of a line table.
pub struct Row {
    /// The code offset that the row is about.
    pub address: nat,
    /// The number of the source file.
    pub file: nat,
    /// The line of that offset.
    pub line: int,
}

/// A line table.
#[verifier::ext_equal]
pub struct LineTable {
    /// The rows, in order.
    pub rows: Seq<Row>,
    /// The first code offset behind the table.
    pub end: nat,
}

impl LineTable {
    /// Where the code that a row is about ends: at the next row, or at the end of the table.
    pub open spec fn row_end(self, i: int) -> nat {
        if i + 1 < self.rows.len() {
            self.rows[i + 1].address
        } else {
            self.end
        }
    }

    /// Whether a lookup of a code offset finds the i-th row.
    pub open spec fn finds(self, offset: nat, i: int) -> bool {
        0 <= i < self.rows.len() && self.rows[i].address <= offset < self.row_end(i)
    }
}

/// The row that stands for an instruction.
pub open spec fn row_of(entry: InstrMapEntry) -> Row {
    Row { address: entry.start_offset as nat, file: 1, line: line_of(entry) }
}

/// The rows that stand for the instructions of `map`, in order.
pub open spec fn rows_of(map: Seq<InstrMapEntry>) -> Seq<Row> {
    map.map_values(|entry: InstrMapEntry| row_of(entry))
}

/// Where the last instruction of `map` ends.
pub open spec fn end_of(map: Seq<InstrMapEntry>) -> nat {
    if map.len() == 0 {
        0
    } else {
        map.last().end_offset as nat
    }
}

/// The table of the instructions of `map`.
pub open spec fn table_of(map: Seq<InstrMapEntry>) -> LineTable {
    LineTable { rows: rows_of(map), end: end_of(map) }
}

/// Whether the byte ranges of the instructions are in order: each ends where it starts or later,
/// and before the next one starts or right there.
pub open spec fn ranges_ascend(map: Seq<InstrMapEntry>) -> bool {
    &&& forall|i: int|
        0 <= i < map.len() ==> (#[trigger] map[i]).start_offset <= map[i].end_offset
    &&& forall|i: int, j: int|
        0 <= i && j == i + 1 && j < map.len() ==> (#[trigger] map[i]).end_offset <= (
        #[trigger] map[j]).start_offset
}

/// The table of a line program, as a DWARF consumer computes it: `ops` is run with the given
/// address, file and line registers up to the end of the sequence. The opcodes are copy (1), advance
/// line (3), set file (4), and the extended opcodes end of sequence (1) and set address (2);
/// nothing is computed of a program with any other opcode, or one that stops short.
pub open spec fn run_program(
    ops: Seq<u8>,
    address: nat,
    file: nat,
    line: int,
) -> Option<LineTable>
    decreases ops.len(),
{
    let rest: Seq<u8> = ops.skip(1);
    if ops.len() == 0 {
        None
    } else if ops[0] == 0 {
        match leb128::read_uleb128(rest) {
            Some((length, taken)) => {
                let operand: Seq<u8> = rest.skip(taken);
                if taken < 1 || rest.len() < taken || length < 1 || operand.len() < length {
                    None
                } else if operand[0] == 1 && length == 1 {
                    Some(LineTable { rows: Seq::empty(), end: address })
                } else if operand[0] == 2 && length == 9 {
                    run_program(
                        operand.skip(9),
                        bytes::le_value(operand.subrange(1, 9)),
                        file,
                        line,
                    )
                } else {
                    None
                }
            },
            None => None,
        }
    } else if ops[0] == 1 {
        match run_program(rest, address, file, line) {
            Some(table) => Some(
                LineTable { rows: seq![Row { address, file, line }] + table.rows, ..table },
            ),
            None => None,
        }
    } else if ops[0] == 3 {
        match leb128::read_sleb128(rest) {
            Some((delta, taken)) => if taken < 1 || rest.len() < taken {
                None
            } else {
                run_program(rest.skip(taken), address, file, line + delta)
            },
            None => None,
        }
    } else if ops[0] == 4 {
        match leb128::read_uleb128(rest) {
            Some((selected, taken)) => if taken < 1 || rest.len() < taken {
                None
            } else {
                run_program(rest.skip(taken), address, selected, line)
            },
            None => None,
        }
    } else {
        None
    }
}

/// The line table of a `.debug_line` section that holds one 32-bit version 4 unit: the unit's
/// length spans the rest of the section, and the header's length leads to the line program,
/// which starts at address 0, file 1, line 1.
pub open spec fn line_table(section: Seq<u8>) -> Option<LineTable> {
    let unit_length: nat = bytes::le_value(section.take(4));
    let version: nat = bytes::le_value(section.subrange(4, 6));
    let header_length: nat = bytes::le_value(section.subrange(6, 10));
    if section.len() < 10 || section.len() != 4 + unit_length || version != 4 || section.len() < 10
        + header_length {
        None
    } else {
        run_program(section.skip((10 + header_length) as int), 0, 1, 1)
    }
}

/// The address register after the rows of `map`.
spec fn address_after(map: Seq<InstrMapEntry>) -> nat {
    if map.len() == 0 {
        0
    } else {
        map.last().start_offset as nat
    }
}

/// Running an opcode that sets the address sets it, then runs what follows.
proof fn lemma_run_set_address(
    address: nat,
    file: nat,
    line: int,
    target: u32,
    tail: Seq<u8>,
)
    ensures
        run_program(
            seq![0u8, 9u8, 2u8] + bytes::le_bytes(target as nat, 8) + tail,
            address,
            file,
            line,
        ) == run_program(tail, target as nat, file, line),
{
    let ops: Seq<u8> = seq![0u8, 9u8, 2u8] + bytes::le_bytes(target as nat, 8) + tail;
    bytes::lemma_le_bytes_len(target as nat, 8);
    bytes::lemma_field_bounds();
    bytes::lemma_le_round_trip(target as nat, 8);
    let rest: Seq<u8> = ops.skip(1);
    assert(rest[0] == 9);
    let operand: Seq<u8> = rest.skip(1);
    assert(operand.subrange(1, 9) =~= bytes::le_bytes(target as nat, 8));
    assert(operand.skip(9) =~= tail);
}

/// Running the opcodes of one row emits that row, then runs what follows.
proof fn lemma_run_row(address: nat, line: int, entry: InstrMapEntry, tail: Seq<u8>)
    ensures
        run_program(row_ops(line, entry) + tail, address, 1, line) == match run_program(
            tail,
            entry.start_offset as nat,
            1,
            line_of(entry),
        ) {
            Some(table) => Some(
                LineTable { rows: seq![row_of(entry)] + table.rows, ..table },
            ),
            None => None,
        },
{
    let start: nat = entry.start_offset as nat;
    let ops: Seq<u8> = row_ops(line, entry) + tail;
    let copied: Seq<u8> = seq![1u8] + tail;
    let advanced: Seq<u8> = if line_of(entry) == line {
        copied
    } else {
        seq![3u8] + leb128::sleb128(line_of(entry) - line) + copied
    };
    assert(copied.skip(1) =~= tail);

    // Set the address.
    lemma_run_set_address(address, 1, line, entry.start_offset, advanced);
    assert(ops =~= seq![0u8, 9u8, 2u8] + bytes::le_bytes(start, 8) + advanced);
    assert(run_program(ops, address, 1, line) == run_program(advanced, start, 1, line));

    // Advance the line.
    if line_of(entry) != line {
        let delta: int = line_of(entry) - line;
        leb128::law_sleb128_round_trip(delta, copied);
        assert(advanced.skip(1) =~= leb128::sleb128(delta) + copied);
        assert(advanced.skip(1).skip(leb128::sleb128(delta).len() as int) =~= copied);
        assert(leb128::sleb128(delta).len() >= 1);
        assert(run_program(advanced, start, 1, line) == run_program(
            copied,
            start,
            1,
            line + delta,
        ));
    }
}

/// Running the opcodes of the rows of `map` emits those rows, then runs what follows.
proof fn lemma_run_rows(map: Seq<InstrMapEntry>, tail: Seq<u8>)
    ensures
        run_program(rows_ops(map) + tail, 0, 1, 1) == match run_program(
            tail,
            address_after(map),
            1,
            line_after(map),
        ) {
            Some(table) => Some(LineTable { rows: rows_of(map) + table.rows, ..table }),
            None => None,
        },
    decreases map.len(),
{
    if map.len() == 0 {
        assert(rows_ops(map) + tail =~= tail);
        assert(rows_of(map) =~= Seq::empty());
        if let Some(table) = run_program(tail, 0, 1, 1) {
            assert(rows_of(map) + table.rows =~= table.rows);
        }
    } else {
        let init: Seq<InstrMapEntry> = map.drop_last();
        let ops: Seq<u8> = row_ops(line_after(init), map.last());
        lemma_run_rows(init, ops + tail);
        lemma_run_row(address_after(init), line_after(init), map.last(), tail);
        assert(rows_ops(map) + tail =~= rows_ops(init) + (ops + tail));
        if let Some(table) = run_program(tail, address_after(map), 1, line_after(map)) {
            assert(rows_of(init) + (seq![row_of(map.last())] + table.rows) =~= rows_of(map)
                + table.rows);
        }
    }
}

/// A DWARF consumer that runs the line program reads back one row for each instruction, in
/// order: the offset of its first byte, and the line that stands for its program counter. The
/// table ends where the last instruction ends.
pub proof fn law_line_program_rows(map: Seq<InstrMapEntry>)
    ensures
        run_program(line_program(map), 0, 1, 1) == Some(table_of(map)),
{
    let end: Seq<u8> = seq![0u8, 1u8, 1u8];
    let ops: Seq<u8> = line_program(map);
    assert(ops.skip(1)[0] == 1);
    assert(ops.skip(1).skip(1) =~= rows_ops(map) + (end_ops(map) + end));
    lemma_run_rows(map, end_ops(map) + end);
    if map.len() == 0 {
        assert(end_ops(map) + end =~= end);
    } else {
        lemma_run_set_address(
            address_after(map),
            1,
            line_after(map),
            map.last().end_offset,
            end,
        );
    }
    assert(end.skip(1)[0] == 1);
    assert(end.skip(1).skip(1)[0] == 1);
    assert(run_program(end, end_of(map), 1, line_after(map)) == Some(
        LineTable { rows: Seq::empty(), end: end_of(map) },
    ));
    assert(rows_of(map) + Seq::<Row>::empty() =~= rows_of(map));
}

/// Every row of the table is about the one source file.
pub proof fn law_rows_are_of_one_file(map: Seq<InstrMapEntry>, i: int)
    requires
        0 <= i < map.len(),
    ensures
        run_program(line_program(map), 0, 1, 1) matches Some(table) && table.rows[i].file == 1,
{
    law_line_program_rows(map);
}

/// The row of an instruction is at the offset of its first byte, and its line is its program
/// counter plus one, the counter read as a signed number. The table ends where the last
/// instruction ends.
pub proof fn law_rows_show_pcs(map: Seq<InstrMapEntry>, i: int)
    requires
        0 <= i < map.len(),
    ensures
        run_program(line_program(map), 0, 1, 1) matches Some(table) && {
            &&& table.rows.len() == map.len()
            &&& table.rows[i].address == map[i].start_offset
            &&& map[i].riscv_pc <= i64::MAX ==> table.rows[i].line == map[i].riscv_pc + 1
            &&& map[i].riscv_pc > i64::MAX ==> table.rows[i].line == map[i].riscv_pc + 1
                - 0x1_0000_0000_0000_0000
            &&& table.end == map[map.len() - 1].end_offset
        },
{
    law_line_program_rows(map);
}

/// The lines of a map fit in 64 bits if and only if no program counter is `i64::MAX`, and no step
/// from one to the next, read as signed numbers, leaves 64 bits.
pub proof fn law_lines_fit_exactly(map: Seq<InstrMapEntry>)
    ensures
        lines_fit(map) <==> {
            &&& forall|i: int|
                0 <= i < map.len() ==> (#[trigger] map[i]).riscv_pc != i64::MAX as u64
            &&& forall|i: int, j: int|
                0 <= i && j == i + 1 && j < map.len() ==> i64::MIN <= as_signed(
                    (#[trigger] map[j]).riscv_pc,
                ) - as_signed((#[trigger] map[i]).riscv_pc) <= i64::MAX
        },
{
    if lines_fit(map) {
        assert forall|i: int| 0 <= i < map.len() implies (#[trigger] map[i]).riscv_pc
            != i64::MAX as u64 by {
            assert(fits_i64(line_of(map[i])));
        }
        assert forall|i: int, j: int| 0 <= i && j == i + 1 && j < map.len() implies i64::MIN
            <= as_signed((#[trigger] map[j]).riscv_pc) - as_signed((#[trigger] map[i]).riscv_pc)
            <= i64::MAX by {
            assert(map.take(j).last() == map[i]);
            assert(fits_i64(line_of(map[j]) - line_after(map.take(j))));
        }
    }
    if (forall|i: int| 0 <= i < map.len() ==> (#[trigger] map[i]).riscv_pc != i64::MAX as u64) && (
    forall|i: int, j: int|
        0 <= i && j == i + 1 && j < map.len() ==> i64::MIN <= as_signed(
            (#[trigger] map[j]).riscv_pc,
        ) - as_signed((#[trigger] map[i]).riscv_pc) <= i64::MAX) {
        assert forall|i: int| 0 <= i < map.len() implies fits_i64(
            #[trigger] line_of(map[i]) - line_after(map.take(i)),
        ) by {
            if i > 0 {
                assert(map.take(i).last() == map[i - 1]);
                assert(i64::MIN <= as_signed(map[i].riscv_pc) - as_signed(map[i - 1].riscv_pc)
                    <= i64::MAX);
            }
        }
    }
}

/// A 64-bit word as a signed number: its upper half stands for the negative numbers.
pub open spec fn as_signed(word: u64) -> int {
    if word > i64::MAX {
        word - u64::MAX - 1
    } else {
        word as int
    }
}

/// The section of any map starts with the same header: its length, version 4, a header length
/// that leads to the line program, addresses in bytes, lines and addresses advanced by the
/// standard opcodes alone, and the one file `riscv_pc.map` in no directory.
pub proof fn law_section_header(map: Seq<InstrMapEntry>)
    ensures
        ({
            let section: Seq<u8> = debug_line_section(map);
            &&& section.len() == 46 + line_program(map).len()
            &&& bytes::le_value(section.subrange(0, 4)) == (section.len() - 4) % 0x1_0000_0000
            &&& section[4] == 4
            &&& section[5] == 0
            &&& bytes::le_value(section.subrange(6, 10)) == 36
            &&& section.subrange(10, 16) == seq![1u8, 1, 1, 0, 1, 13]
            &&& section.subrange(16, 28) == seq![0u8, 1, 1, 1, 1, 0, 0, 0, 1, 0, 0, 1]
            &&& section[28] == 0
            &&& section.subrange(29, 41) == seq![
                'r' as u8,
                'i' as u8,
                's' as u8,
                'c' as u8,
                'v' as u8,
                '_' as u8,
                'p' as u8,
                'c' as u8,
                '.' as u8,
                'm' as u8,
                'a' as u8,
                'p' as u8,
            ]
            &&& section.subrange(41, 46) == seq![0u8, 0, 0, 0, 0]
            &&& section.skip(46) == line_program(map)
        }),
{
    let section: Seq<u8> = debug_line_section(map);
    let low: nat = unit_body(map).len() % 0x1_0000_0000;
    bytes::lemma_field_bounds();
    bytes::lemma_le_bytes_len(low, 4);
    bytes::lemma_le_bytes_len(4, 2);
    bytes::lemma_le_bytes_len(36, 4);
    bytes::lemma_le_round_trip(low, 4);
    bytes::lemma_le_round_trip(36, 4);
    assert(header_tail().len() == 36);
    assert(section.subrange(0, 4) =~= bytes::le_bytes(low, 4));
    bytes::law_le_bytes_digits(4, 2, 0);
    bytes::law_le_bytes_digits(4, 2, 1);
    assert(bytes::le_bytes(4, 2) =~= seq![4u8, 0u8]) by {
        reveal_with_fuel(bytes::le_bytes, 3);
    }
    assert(section[4] == bytes::le_bytes(4, 2)[0]);
    assert(section[5] == bytes::le_bytes(4, 2)[1]);
    assert(section.subrange(6, 10) =~= bytes::le_bytes(36, 4));
    assert(section.subrange(10, 46) =~= header_tail());
    assert(section.subrange(10, 16) =~= header_tail().subrange(0, 6));
    assert(header_tail().subrange(0, 6) =~= seq![1u8, 1, 1, 0, 1, 13]);
    assert(section.subrange(16, 28) =~= seq![0u8, 1, 1, 1, 1, 0, 0, 0, 1, 0, 0, 1]);
    assert(section.subrange(29, 41) =~= seq![
        'r' as u8,
        'i' as u8,
        's' as u8,
        'c' as u8,
        'v' as u8,
        '_' as u8,
        'p' as u8,
        'c' as u8,
        '.' as u8,
        'm' as u8,
        'a' as u8,
        'p' as u8,
    ]);
    assert(section.subrange(41, 46) =~= seq![0u8, 0, 0, 0, 0]);
    assert(section.skip(46) =~= line_program(map));
}

/// Each instruction's byte range is mapped to its line: a lookup of any offset in the range finds
/// the instruction's row, and no other. This holds of instructions whose ranges are in order.
pub proof fn law_ranges_are_mapped(map: Seq<InstrMapEntry>, i: int, offset: nat)
    requires
        ranges_ascend(map),
        0 <= i < map.len(),
        map[i].start_offset <= offset < map[i].end_offset,
    ensures
        run_program(line_program(map), 0, 1, 1) matches Some(table) && {
            &&& table.rows[i].line == line_of(map[i])
            &&& forall|j: int| table.finds(offset, j) <==> j == i
        },
{
    law_line_program_rows(map);
    let table: LineTable = table_of(map);
    if i + 1 < map.len() {
        assert(map[i].end_offset <= map[i + 1].start_offset);
    }
    assert forall|j: int| table.finds(offset, j) <==> j == i by {
        if 0 <= j < i {
            lemma_ranges_ascend(map, j, i);
        } else if i < j < map.len() {
            lemma_ranges_ascend(map, i, j);
        }
    }
}

/// Ranges that are in order are so over any distance.
proof fn lemma_ranges_ascend(map: Seq<InstrMapEntry>, i: int, j: int)
    requires
        ranges_ascend(map),
        0 <= i < j < map.len(),
    ensures
        map[i].end_offset <= map[i + 1].start_offset <= map[j].start_offset,
    decreases j - i,
{
    assert(map[i].end_offset <= map[i + 1].start_offset);
    if i + 1 < j {
        lemma_ranges_ascend(map, i + 1, j);
        assert(map[i + 1].start_offset <= map[i + 1].end_offset);
    }
}

/// The section is read back as the table of the instructions, wherever its length field can hold
/// its length.
pub proof fn law_section_line_table(map: Seq<InstrMapEntry>)
    requires
        unit_body(map).len() < 0x1_0000_0000,
    ensures
        line_table(debug_line_section(map)) == Some(table_of(map)),
{
    let section: Seq<u8> = debug_line_section(map);
    let body: nat = unit_body(map).len();
    let header: nat = header_tail().len();
    bytes::lemma_field_bounds();
    bytes::lemma_le_bytes_len(body, 4);
    bytes::lemma_le_bytes_len(4, 2);
    bytes::lemma_le_bytes_len(header, 4);
    bytes::lemma_le_round_trip(body, 4);
    bytes::lemma_le_round_trip(4, 2);
    bytes::lemma_le_round_trip(header, 4);
    assert(section.take(4) =~= bytes::le_bytes(body, 4));
    assert(section.subrange(4, 6) =~= bytes::le_bytes(4, 2));
    assert(section.subrange(6, 10) =~= bytes::le_bytes(header, 4));
    assert(section.skip((10 + header) as int) =~= line_program(map));
    law_line_program_rows(map);
}

/// Whether every line, and every step from one line to the next, fits in 64 bits.
pub fn has_fitting_lines(instr_map: &[InstrMapEntry]) -> (fit: bool)
    ensures
        fit == lines_fit(instr_map@),
{
    let mut current_line: i128 = 1;
    let mut i: usize = 0;
    while i < instr_map.len()
        invariant
            i <= instr_map@.len(),
            current_line == line_after(instr_map@.take(i as int)),
            i64::MIN <= current_line <= i64::MAX,
            forall|k: int| 0 <= k < i ==> fits_i64(#[trigger] line_of(instr_map@[k])),
            forall|k: int|
                0 <= k < i ==> fits_i64(
                    #[trigger] line_of(instr_map@[k]) - line_after(instr_map@.take(k)),
                ),
        decreases instr_map@.len() - i,
    {
        let pc: u64 = instr_map[i].riscv_pc;
        assert(pc as i64 == (if pc < 0x8000_0000_0000_0000u64 {
            pc as int
        } else {
            pc - 0x1_0000_0000_0000_0000
        })) by (bit_vector);
        let target_line: i128 = (pc as i64) as i128 + 1;
        let delta: i128 = target_line - current_line;
        assert(target_line == line_of(instr_map@[i as int]));
        if target_line > i64::MAX as i128 || delta < i64::MIN as i128 || delta > i64::MAX as i128 {
            return false;
        }
        assert(instr_map@.take(i + 1).last() == instr_map@[i as int]);
        current_line = target_line;
        i = i + 1;
    }
    true
}

/// Build a minimal DWARF v4 `.debug_line` section.
///
/// Maps each instruction's x86-64 byte range to the line that stands for its RISC-V PC, the last
/// one's up to its end.
/// Uses the synthetic file name `riscv_pc.map`.
#[verifier::spinoff_prover]
#[verifier::rlimit(40)]
pub fn build_debug_line_section(instr_map: &[InstrMapEntry]) -> (section: Vec<u8>)
    requires
        lines_fit(instr_map@),
    ensures
        section@ == debug_line_section(instr_map@),
{
    let mut buf: Vec<u8> = Vec::new();

    // The length of the unit is patched in at the end.
    bytes::push_le(&mut buf, 0, 4);
    bytes::push_le(&mut buf, 4, 2);
    let header_length_pos: usize = buf.len();
    // So is the length of the header, once the header is complete.
    bytes::push_le(&mut buf, 0, 4);
    let header_start: usize = buf.len();
    proof {
        bytes::lemma_le_bytes_len(0, 4);
        bytes::lemma_le_bytes_len(4, 2);
    }

    // Minimum instruction length, operations per instruction, default statement flag, line
    // base, line range, opcode base.
    bytes::push_bytes(&mut buf, &[1u8, 1, 1, 0, 1, 13]);
    // Operand counts of opcodes 1 to 12.
    bytes::push_bytes(&mut buf, &[0u8, 1, 1, 1, 1, 0, 0, 0, 1, 0, 0, 1]);
    // No directories.
    buf.push(0);
    // One file, with no directory, time or size.
    bytes::push_bytes(
        &mut buf,
        &[0x72u8, 0x69, 0x73, 0x63, 0x76, 0x5f, 0x70, 0x63, 0x2e, 0x6d, 0x61, 0x70, 0, 0, 0, 0],
    );
    // No further file.
    buf.push(0);

    let ghost prefix: Seq<u8> = bytes::le_bytes(0, 4) + bytes::le_bytes(4, 2) + bytes::le_bytes(0, 4);
    assert(buf@ =~= prefix + header_tail());
    let header_length: u32 = (buf.len() - header_start) as u32;
    bytes::patch_u32(&mut buf, header_length_pos, header_length);
    let ghost header: Seq<u8> = bytes::le_bytes(0, 4) + bytes::le_bytes(4, 2) + bytes::le_bytes(
        header_tail().len(),
        4,
    ) + header_tail();
    proof {
        bytes::lemma_le_bytes_len(header_tail().len(), 4);
    }
    assert(buf@ =~= header);

    // Select file 1.
    buf.push(4);
    leb128::encode_uleb128(&mut buf, 1);
    assert(leb128::uleb128(1) =~= seq![1u8]);
    assert(buf@ =~= header + seq![4u8, 1u8] + rows_ops(instr_map@.take(0)));

    let mut current_line: i64 = 1;
    let mut i: usize = 0;
    while i < instr_map.len()
        invariant
            i <= instr_map@.len(),
            lines_fit(instr_map@),
            current_line == line_after(instr_map@.take(i as int)),
            buf@ == header + seq![4u8, 1u8] + rows_ops(instr_map@.take(i as int)),
        decreases instr_map@.len() - i,
    {
        let entry: InstrMapEntry = instr_map[i];
        let ghost before: Seq<u8> = buf@;
        let ghost line: int = current_line as int;
        let pc: u64 = entry.riscv_pc;
        assert(fits_i64(line_of(instr_map@[i as int])));
        assert(fits_i64(line_of(instr_map@[i as int]) - line_after(instr_map@.take(i as int))));

        // Set the address: an extended opcode of one opcode byte and eight address bytes.
        buf.push(0);
        leb128::encode_uleb128(&mut buf, 9);
        assert(leb128::uleb128(9) =~= seq![9u8]);
        buf.push(2);
        bytes::push_le(&mut buf, entry.start_offset as u64, 8);
        let ghost set_address: Seq<u8> = seq![0u8, 9u8, 2u8] + bytes::le_bytes(
            entry.start_offset as nat,
            8,
        );
        assert(buf@ =~= before + set_address);

        // Advance the line to the program counter plus one.
        assert(pc as i64 == (if pc < 0x8000_0000_0000_0000u64 {
            pc as int
        } else {
            pc - 0x1_0000_0000_0000_0000
        })) by (bit_vector);
        let target_line: i64 = pc as i64 + 1;
        let delta: i64 = target_line - current_line;
        if delta != 0 {
            buf.push(3);
            leb128::encode_sleb128(&mut buf, delta);
        }
        current_line = target_line;

        // Emit the row.
        buf.push(1);
        assert(buf@ =~= before + row_ops(line, entry));
        proof {
            let done: Seq<InstrMapEntry> = instr_map@.take(i + 1);
            assert(done.drop_last() =~= instr_map@.take(i as int));
            assert(done.last() == entry);
            assert(buf@ =~= header + seq![4u8, 1u8] + rows_ops(done));
        }
        i = i + 1;
    }
    assert(instr_map@.take(i as int) =~= instr_map@);

    // The last row reaches to the end of the last instruction.
    let count: usize = instr_map.len();
    if count > 0 {
        let last: InstrMapEntry = instr_map[count - 1];
        buf.push(0);
        leb128::encode_uleb128(&mut buf, 9);
        assert(leb128::uleb128(9) =~= seq![9u8]);
        buf.push(2);
        bytes::push_le(&mut buf, last.end_offset as u64, 8);
    }
    assert(buf@ =~= header + seq![4u8, 1u8] + rows_ops(instr_map@) + end_ops(instr_map@));

    // End the sequence.
    buf.push(0);
    leb128::encode_uleb128(&mut buf, 1);
    buf.push(1);
    assert(buf@ =~= bytes::le_bytes(0, 4) + unit_body(instr_map@));

    let rest: u64 = (buf.len() - 4) as u64;
    let unit_length: u32 = rest as u32;
    assert(rest as u32 == rest % 0x1_0000_0000) by (bit_vector);
    bytes::patch_u32(&mut buf, 0, unit_length);
    assert(buf@ =~= debug_line_section(instr_map@));
    buf
}

} // verus!
