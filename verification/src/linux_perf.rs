//! The JITDUMP format, by which Linux `perf` learns of compiled functions.

use crate::bytes;
use crate::text;
use vstd::prelude::*;

verus! {

/// The environment variable that turns the profiler on when it is `1`.
pub const ENABLE_VARIABLE: &'static str = "ENABLE_PERF_JITDUMP";

/// `JiTD`
pub const JITHEADER_MAGIC: u32 = 0x4A695444;

/// The version of the format.
pub const JITHEADER_VERSION: u32 = 1;

/// The record that tells of newly compiled code.
pub const JIT_CODE_LOAD: u32 = 0;

/// The length of a file header in bytes.
pub const JITHEADER_SIZE: u32 = 40;

/// The length of a code load record in bytes, without the name and the code.
pub const JR_CODE_LOAD_SIZE: u32 = 56;

/// The machine that code is compiled for.
#[derive(Debug, Clone, Copy)]
pub enum Machine {
    /// 64-bit x86.
    X86_64,
    /// 64-bit ARM.
    Aarch64,
}

impl Machine {
    /// The number that ELF has for the machine.
    pub open spec fn number(self) -> u32 {
        match self {
            Machine::X86_64 => 62,
            Machine::Aarch64 => 183,
        }
    }

    /// The number that ELF has for the machine.
    pub fn elf_mach(self) -> (number: u32)
        ensures
            number == self.number(),
    {
        match self {
            Machine::X86_64 => 62,
            Machine::Aarch64 => 183,
        }
    }
}

/// The header of a dump file.
#[derive(Debug, Clone, Copy)]
pub struct JitHeader {
    /// Tells the format apart.
    pub magic: u32,
    /// The version of the format.
    pub version: u32,
    /// The length of the header.
    pub total_size: u32,
    /// The machine, by its number in ELF.
    pub elf_mach: u32,
    /// Padding.
    pub pad1: u32,
    /// The process.
    pub pid: u32,
    /// When the file was made, in nanoseconds.
    pub timestamp: u64,
    /// Flags.
    pub flags: u64,
}

/// What every record starts with.
#[derive(Debug, Clone, Copy)]
pub struct JrPrefix {
    /// What the record tells of.
    pub id: u32,
    /// The length of the record.
    pub total_size: u32,
    /// When the record was made, in nanoseconds.
    pub timestamp: u64,
}

/// A record of newly compiled code, without the name and the code.
#[derive(Debug, Clone, Copy)]
pub struct JrCodeLoad {
    /// What every record starts with.
    pub p: JrPrefix,
    /// The process.
    pub pid: u32,
    /// The thread.
    pub tid: u32,
    /// The virtual address of the code.
    pub vma: u64,
    /// The address that the code starts at.
    pub code_addr: u64,
    /// The length of the code.
    pub code_size: u64,
    /// The number of the function.
    pub code_index: u64,
}

/// The header of the dump file of a process.
pub open spec fn header_of(machine: Machine, pid: u32, timestamp: u64) -> JitHeader {
    JitHeader {
        magic: JITHEADER_MAGIC,
        version: JITHEADER_VERSION,
        total_size: JITHEADER_SIZE,
        elf_mach: machine.number(),
        pad1: 0,
        pid,
        timestamp,
        flags: 0,
    }
}

/// A header as it stands in the file: every field with its least significant byte first.
pub open spec fn header_bytes(header: JitHeader) -> Seq<u8> {
    bytes::le_bytes(header.magic as nat, 4) + bytes::le_bytes(header.version as nat, 4)
        + bytes::le_bytes(header.total_size as nat, 4) + bytes::le_bytes(header.elf_mach as nat, 4)
        + bytes::le_bytes(header.pad1 as nat, 4) + bytes::le_bytes(header.pid as nat, 4)
        + bytes::le_bytes(header.timestamp as nat, 8) + bytes::le_bytes(header.flags as nat, 8)
}

/// A code load record as it stands in the file, without the name and the code.
pub open spec fn load_bytes(load: JrCodeLoad) -> Seq<u8> {
    bytes::le_bytes(load.p.id as nat, 4) + bytes::le_bytes(load.p.total_size as nat, 4)
        + bytes::le_bytes(load.p.timestamp as nat, 8) + bytes::le_bytes(load.pid as nat, 4)
        + bytes::le_bytes(load.tid as nat, 4) + bytes::le_bytes(load.vma as nat, 8)
        + bytes::le_bytes(load.code_addr as nat, 8) + bytes::le_bytes(load.code_size as nat, 8)
        + bytes::le_bytes(load.code_index as nat, 8)
}

/// The length that a record states: that of the record, its name with a terminating 0, and the
/// code, the last two in 32 bits.
pub open spec fn stated_size(name: Seq<u8>, code: Seq<u8>) -> int {
    JR_CODE_LOAD_SIZE + ((name.len() + 1) as u32) + (code.len() as u32)
}

/// A function to register, as the proofs see it.
#[verifier::ext_equal]
pub struct Registration {
    /// The name of the function.
    pub name: Seq<u8>,
    /// The address that the code starts at.
    pub start_address: u64,
    /// The code.
    pub code: Seq<u8>,
    /// The process.
    pub pid: u32,
    /// The thread.
    pub tid: u32,
    /// When the function is registered, in nanoseconds.
    pub timestamp: u64,
}

/// The fixed part of the record of a function.
pub open spec fn load_of(function: Registration, code_index: u64) -> JrCodeLoad {
    JrCodeLoad {
        p: JrPrefix {
            id: JIT_CODE_LOAD,
            total_size: stated_size(function.name, function.code) as u32,
            timestamp: function.timestamp,
        },
        pid: function.pid,
        tid: function.tid,
        vma: function.start_address,
        code_addr: function.start_address,
        code_size: function.code.len() as u64,
        code_index,
    }
}

/// The record of a function: the name follows the fixed part, a 0 the name, and the code the 0.
pub open spec fn record_of(function: Registration, code_index: u64) -> Seq<u8> {
    load_bytes(load_of(function, code_index)) + function.name + seq![0u8] + function.code
}

/// A dump file and the number of functions that were registered in it.
#[verifier::ext_equal]
pub struct PerfDumpModel {
    /// The number of functions.
    pub count: u64,
    /// The contents of the file.
    pub data: Seq<u8>,
}

/// The number of the function that is registered after `count` others.
pub open spec fn next_index(count: u64) -> u64 {
    (count + 1) as u64
}

/// A dump file that starts with `start`, after some functions were registered one after another:
/// each is counted, and its record, with the count, is appended.
pub open spec fn dump_of(start: Seq<u8>, functions: Seq<Registration>) -> PerfDumpModel
    decreases functions.len(),
{
    if functions.len() == 0 {
        PerfDumpModel { count: 0, data: start }
    } else {
        let before: PerfDumpModel = dump_of(start, functions.drop_last());
        let count: u64 = next_index(before.count);
        PerfDumpModel { count, data: before.data + record_of(functions.last(), count) }
    }
}

/// The count is that of the functions.
proof fn lemma_dump_count(start: Seq<u8>, functions: Seq<Registration>)
    requires
        functions.len() <= u64::MAX,
    ensures
        dump_of(start, functions).count == functions.len(),
    decreases functions.len(),
{
    if functions.len() > 0 {
        lemma_dump_count(start, functions.drop_last());
    }
}

/// What later registrations append leaves the file before them as it is.
proof fn lemma_dump_grows(start: Seq<u8>, functions: Seq<Registration>, k: int)
    requires
        0 <= k <= functions.len(),
    ensures
        dump_of(start, functions.take(k)).data.len() <= dump_of(start, functions).data.len(),
        dump_of(start, functions).data.take(
            dump_of(start, functions.take(k)).data.len() as int,
        ) == dump_of(start, functions.take(k)).data,
    decreases functions.len(),
{
    let all: Seq<u8> = dump_of(start, functions).data;
    if k == functions.len() {
        assert(functions.take(k) =~= functions);
        assert(all.take(all.len() as int) =~= all);
    } else {
        let init: Seq<Registration> = functions.drop_last();
        lemma_dump_grows(start, init, k);
        assert(init.take(k) =~= functions.take(k));
        let part: Seq<u8> = dump_of(start, functions.take(k)).data;
        assert(all.take(part.len() as int) =~= dump_of(start, init).data.take(part.len() as int));
    }
}

/// Over successive registrations the records stand in the dump file one after another, whole, and
/// the k-th one, counted from 1, has the number k: numbers start at 1, differ, and rise in file
/// order.
pub proof fn law_records_are_numbered(start: Seq<u8>, functions: Seq<Registration>, k: int)
    requires
        functions.len() <= u64::MAX,
        1 <= k <= functions.len(),
    ensures
        dump_of(start, functions).count == functions.len(),
        ({
            let data: Seq<u8> = dump_of(start, functions).data;
            let from: int = dump_of(start, functions.take(k - 1)).data.len() as int;
            let to: int = dump_of(start, functions.take(k)).data.len() as int;
            &&& from + 56 <= to <= data.len()
            &&& data.subrange(from, to) == record_of(functions[k - 1], k as u64)
            &&& bytes::le_value(data.subrange(from + 48, from + 56)) == k
        }),
{
    let data: Seq<u8> = dump_of(start, functions).data;
    let before: Seq<u8> = dump_of(start, functions.take(k - 1)).data;
    let part: Seq<u8> = dump_of(start, functions.take(k)).data;
    let (from, to): (int, int) = (before.len() as int, part.len() as int);
    let record: Seq<u8> = record_of(functions[k - 1], k as u64);
    lemma_dump_count(start, functions);
    lemma_dump_count(start, functions.take(k - 1));
    lemma_dump_grows(start, functions, k);
    assert(functions.take(k).drop_last() =~= functions.take(k - 1));
    assert(part =~= before + record);
    assert(data.subrange(from, to) =~= data.take(to).subrange(from, to));
    assert(data.subrange(from, to) =~= record);
    lemma_le_lens();
    bytes::lemma_field_bounds();
    assert(data.subrange(from + 48, from + 56) =~= data.subrange(from, to).subrange(48, 56));
    assert(record.subrange(48, 56) =~= bytes::le_bytes(k as nat, 8));
    bytes::lemma_le_round_trip(k as nat, 8);
}

/// The number in the `width` bytes of `data` at `at`, least significant byte first.
pub open spec fn field(data: Seq<u8>, at: int, width: int) -> nat {
    bytes::le_value(data.subrange(at, at + width))
}

/// A record, read field by field, gives back what was registered, in full width: the time, the
/// process, the thread, the address twice, the length of the code and the number. The name, a 0
/// and the code follow, whole.
pub proof fn law_record_reads_back(function: Registration, code_index: u64)
    requires
        function.code.len() <= u64::MAX,
    ensures
        ({
            let record: Seq<u8> = record_of(function, code_index);
            let name_end: int = 56 + function.name.len() as int;
            &&& record.len() == name_end + 1 + function.code.len()
            &&& field(record, 0, 4) == 0
            &&& field(record, 8, 8) == function.timestamp
            &&& field(record, 16, 4) == function.pid
            &&& field(record, 20, 4) == function.tid
            &&& field(record, 24, 8) == function.start_address
            &&& field(record, 32, 8) == function.start_address
            &&& field(record, 40, 8) == function.code.len()
            &&& field(record, 48, 8) == code_index
            &&& record.subrange(56, name_end) == function.name
            &&& record[name_end] == 0
            &&& record.skip(name_end + 1) == function.code
        }),
{
    let record: Seq<u8> = record_of(function, code_index);
    let load: JrCodeLoad = load_of(function, code_index);
    let name_end: int = 56 + function.name.len() as int;
    lemma_le_lens();
    bytes::lemma_field_bounds();
    assert(record.subrange(0, 4) =~= bytes::le_bytes(0, 4));
    bytes::lemma_le_round_trip(0, 4);
    assert(record.subrange(8, 16) =~= bytes::le_bytes(function.timestamp as nat, 8));
    bytes::lemma_le_round_trip(function.timestamp as nat, 8);
    assert(record.subrange(16, 20) =~= bytes::le_bytes(function.pid as nat, 4));
    bytes::lemma_le_round_trip(function.pid as nat, 4);
    assert(record.subrange(20, 24) =~= bytes::le_bytes(function.tid as nat, 4));
    bytes::lemma_le_round_trip(function.tid as nat, 4);
    assert(record.subrange(24, 32) =~= bytes::le_bytes(function.start_address as nat, 8));
    assert(record.subrange(32, 40) =~= bytes::le_bytes(function.start_address as nat, 8));
    bytes::lemma_le_round_trip(function.start_address as nat, 8);
    assert(record.subrange(40, 48) =~= bytes::le_bytes(function.code.len(), 8));
    bytes::lemma_le_round_trip(function.code.len(), 8);
    assert(record.subrange(48, 56) =~= bytes::le_bytes(code_index as nat, 8));
    bytes::lemma_le_round_trip(code_index as nat, 8);
    assert(load_bytes(load).len() == 56);
    assert(record.subrange(56, name_end) =~= function.name);
    assert(record.skip(name_end + 1) =~= function.code);
}

/// A header, read field by field: the magic number, version 1, its length, the number of the
/// machine in ELF, no padding, the process, the time, and no flags.
pub proof fn law_header_reads_back(machine: Machine, pid: u32, timestamp: u64)
    ensures
        ({
            let data: Seq<u8> = header_bytes(header_of(machine, pid, timestamp));
            &&& data.len() == 40
            &&& field(data, 0, 4) == 0x4A69_5444
            &&& field(data, 4, 4) == 1
            &&& field(data, 8, 4) == 40
            &&& machine is X86_64 ==> field(data, 12, 4) == 62
            &&& machine is Aarch64 ==> field(data, 12, 4) == 183
            &&& field(data, 16, 4) == 0
            &&& field(data, 20, 4) == pid
            &&& field(data, 24, 8) == timestamp
            &&& field(data, 32, 8) == 0
        }),
{
    let data: Seq<u8> = header_bytes(header_of(machine, pid, timestamp));
    lemma_le_lens();
    bytes::lemma_field_bounds();
    assert(data.subrange(0, 4) =~= bytes::le_bytes(0x4A69_5444, 4));
    bytes::lemma_le_round_trip(0x4A69_5444, 4);
    assert(data.subrange(4, 8) =~= bytes::le_bytes(1, 4));
    bytes::lemma_le_round_trip(1, 4);
    assert(data.subrange(8, 12) =~= bytes::le_bytes(40, 4));
    bytes::lemma_le_round_trip(40, 4);
    assert(data.subrange(12, 16) =~= bytes::le_bytes(machine.number() as nat, 4));
    bytes::lemma_le_round_trip(machine.number() as nat, 4);
    assert(data.subrange(16, 20) =~= bytes::le_bytes(0, 4));
    bytes::lemma_le_round_trip(0, 4);
    assert(data.subrange(20, 24) =~= bytes::le_bytes(pid as nat, 4));
    bytes::lemma_le_round_trip(pid as nat, 4);
    assert(data.subrange(24, 32) =~= bytes::le_bytes(timestamp as nat, 8));
    bytes::lemma_le_round_trip(timestamp as nat, 8);
    assert(data.subrange(32, 40) =~= bytes::le_bytes(0, 8));
    bytes::lemma_le_round_trip(0, 8);
}

/// The fields of any header stand in the order of its declaration.
pub proof fn law_header_fields_in_order(header: JitHeader)
    ensures
        ({
            let data: Seq<u8> = header_bytes(header);
            &&& data.len() == 40
            &&& field(data, 0, 4) == header.magic
            &&& field(data, 4, 4) == header.version
            &&& field(data, 8, 4) == header.total_size
            &&& field(data, 12, 4) == header.elf_mach
            &&& field(data, 16, 4) == header.pad1
            &&& field(data, 20, 4) == header.pid
            &&& field(data, 24, 8) == header.timestamp
            &&& field(data, 32, 8) == header.flags
        }),
{
    let data: Seq<u8> = header_bytes(header);
    lemma_le_lens();
    bytes::lemma_field_bounds();
    assert(data.subrange(0, 4) =~= bytes::le_bytes(header.magic as nat, 4));
    bytes::lemma_le_round_trip(header.magic as nat, 4);
    assert(data.subrange(4, 8) =~= bytes::le_bytes(header.version as nat, 4));
    bytes::lemma_le_round_trip(header.version as nat, 4);
    assert(data.subrange(8, 12) =~= bytes::le_bytes(header.total_size as nat, 4));
    bytes::lemma_le_round_trip(header.total_size as nat, 4);
    assert(data.subrange(12, 16) =~= bytes::le_bytes(header.elf_mach as nat, 4));
    bytes::lemma_le_round_trip(header.elf_mach as nat, 4);
    assert(data.subrange(16, 20) =~= bytes::le_bytes(header.pad1 as nat, 4));
    bytes::lemma_le_round_trip(header.pad1 as nat, 4);
    assert(data.subrange(20, 24) =~= bytes::le_bytes(header.pid as nat, 4));
    bytes::lemma_le_round_trip(header.pid as nat, 4);
    assert(data.subrange(24, 32) =~= bytes::le_bytes(header.timestamp as nat, 8));
    bytes::lemma_le_round_trip(header.timestamp as nat, 8);
    assert(data.subrange(32, 40) =~= bytes::le_bytes(header.flags as nat, 8));
    bytes::lemma_le_round_trip(header.flags as nat, 8);
}

/// The fields of the fixed part of any record stand in the order of its declaration.
pub proof fn law_load_fields_in_order(load: JrCodeLoad)
    ensures
        ({
            let data: Seq<u8> = load_bytes(load);
            &&& data.len() == 56
            &&& field(data, 0, 4) == load.p.id
            &&& field(data, 4, 4) == load.p.total_size
            &&& field(data, 8, 8) == load.p.timestamp
            &&& field(data, 16, 4) == load.pid
            &&& field(data, 20, 4) == load.tid
            &&& field(data, 24, 8) == load.vma
            &&& field(data, 32, 8) == load.code_addr
            &&& field(data, 40, 8) == load.code_size
            &&& field(data, 48, 8) == load.code_index
        }),
{
    let data: Seq<u8> = load_bytes(load);
    lemma_le_lens();
    bytes::lemma_field_bounds();
    assert(data.subrange(0, 4) =~= bytes::le_bytes(load.p.id as nat, 4));
    bytes::lemma_le_round_trip(load.p.id as nat, 4);
    assert(data.subrange(4, 8) =~= bytes::le_bytes(load.p.total_size as nat, 4));
    bytes::lemma_le_round_trip(load.p.total_size as nat, 4);
    assert(data.subrange(8, 16) =~= bytes::le_bytes(load.p.timestamp as nat, 8));
    bytes::lemma_le_round_trip(load.p.timestamp as nat, 8);
    assert(data.subrange(16, 20) =~= bytes::le_bytes(load.pid as nat, 4));
    bytes::lemma_le_round_trip(load.pid as nat, 4);
    assert(data.subrange(20, 24) =~= bytes::le_bytes(load.tid as nat, 4));
    bytes::lemma_le_round_trip(load.tid as nat, 4);
    assert(data.subrange(24, 32) =~= bytes::le_bytes(load.vma as nat, 8));
    bytes::lemma_le_round_trip(load.vma as nat, 8);
    assert(data.subrange(32, 40) =~= bytes::le_bytes(load.code_addr as nat, 8));
    bytes::lemma_le_round_trip(load.code_addr as nat, 8);
    assert(data.subrange(40, 48) =~= bytes::le_bytes(load.code_size as nat, 8));
    bytes::lemma_le_round_trip(load.code_size as nat, 8);
    assert(data.subrange(48, 56) =~= bytes::le_bytes(load.code_index as nat, 8));
    bytes::lemma_le_round_trip(load.code_index as nat, 8);
}

/// The dump file of a process is `/tmp/jit-`, digits that are read back as the process, and
/// `.dump`.
pub proof fn law_dump_path_names_the_process(pid: u32)
    ensures
        ({
            let path: Seq<char> = dump_path(pid);
            &&& path.len() > 14
            &&& path.take(9) == seq!['/', 't', 'm', 'p', '/', 'j', 'i', 't', '-']
            &&& path.skip(path.len() - 5) == seq!['.', 'd', 'u', 'm', 'p']
            &&& text::read_decimal(path.subrange(9, path.len() - 5)) == Some(pid as nat)
            &&& path[9] == '0' <==> pid == 0
        }),
{
    let path: Seq<char> = dump_path(pid);
    reveal_strlit("/tmp/jit-");
    reveal_strlit(".dump");
    text::law_decimal_reads_back(pid as nat);
    assert(path.take(9) =~= seq!['/', 't', 'm', 'p', '/', 'j', 'i', 't', '-']);
    assert(path.skip(path.len() - 5) =~= seq!['.', 'd', 'u', 'm', 'p']);
    assert(path.subrange(9, path.len() - 5) =~= text::decimal(pid as nat));
    assert(path[9] == text::decimal(pid as nat)[0]);
}

/// A clock time in nanoseconds holds its seconds and its nanoseconds.
pub proof fn law_nanoseconds_hold_seconds(tv_sec: i64, tv_nsec: i64)
    requires
        0 <= tv_sec,
        0 <= tv_nsec < 1_000_000_000,
    ensures
        nanoseconds(tv_sec, tv_nsec) / 1_000_000_000 == tv_sec,
        nanoseconds(tv_sec, tv_nsec) % 1_000_000_000 == tv_nsec,
{
}

/// The profiler is turned on by the one character `1`, and by nothing else.
pub proof fn law_enabled_by_one_alone(setting: Seq<char>)
    ensures
        enables(setting) <==> setting.len() == 1 && setting[0] == '1',
{
    reveal_strlit("1");
    if setting.len() == 1 && setting[0] == '1' {
        assert(setting =~= "1"@);
    }
}

/// A clock time in nanoseconds.
pub open spec fn nanoseconds(tv_sec: i64, tv_nsec: i64) -> int {
    (tv_sec as u64) * 1_000_000_000 + (tv_nsec as u64)
}

/// Whether the value of the environment variable turns the profiler on.
pub open spec fn enables(setting: Seq<char>) -> bool {
    setting == "1"@
}

/// Whether a function can be registered after `count` others: it can be numbered, and the length
/// that its record states fits in 32 bits.
pub open spec fn record_fits(count: u64, name: Seq<u8>, code: Seq<u8>) -> bool {
    count < u64::MAX && name.len() < usize::MAX && stated_size(name, code) <= u32::MAX
}

/// A function whose record is no longer than 32 bits can say can be registered, as long as there
/// are numbers.
pub proof fn law_short_records_fit(count: u64, name: Seq<u8>, code: Seq<u8>)
    requires
        56 + name.len() + 1 + code.len() <= u32::MAX,
    ensures
        record_fits(count, name, code) <==> count != u64::MAX,
{
}

/// The length that a record states is that of the record, where its parts fit in 32 bits.
pub proof fn law_stated_size_is_the_length(name: Seq<u8>, code: Seq<u8>)
    requires
        name.len() < u32::MAX,
        code.len() <= u32::MAX,
    ensures
        stated_size(name, code) == 56 + name.len() + 1 + code.len(),
{
}

/// A header states its own length.
pub proof fn law_header_states_length(machine: Machine, pid: u32, timestamp: u64)
    ensures
        ({
            let data: Seq<u8> = header_bytes(header_of(machine, pid, timestamp));
            data.len() == JITHEADER_SIZE && bytes::le_value(data.subrange(8, 12)) == data.len()
        }),
{
    let header: JitHeader = header_of(machine, pid, timestamp);
    let data: Seq<u8> = header_bytes(header);
    lemma_le_lens();
    bytes::lemma_field_bounds();
    assert(data.subrange(8, 12) =~= bytes::le_bytes(header.total_size as nat, 4));
    bytes::lemma_le_round_trip(header.total_size as nat, 4);
}

/// A record states its own length, so a reader finds the record after it. This holds of records
/// whose length fits in 32 bits.
pub proof fn law_record_states_length(function: Registration, code_index: u64, rest: Seq<u8>)
    requires
        JR_CODE_LOAD_SIZE + function.name.len() + 1 + function.code.len() <= u32::MAX,
    ensures
        ({
            let record: Seq<u8> = record_of(function, code_index);
            bytes::le_value((record + rest).subrange(4, 8)) == record.len()
        }),
{
    let load: JrCodeLoad = load_of(function, code_index);
    let record: Seq<u8> = record_of(function, code_index);
    lemma_le_lens();
    bytes::lemma_field_bounds();
    assert((record + rest).subrange(4, 8) =~= bytes::le_bytes(load.p.total_size as nat, 4));
    bytes::lemma_le_round_trip(load.p.total_size as nat, 4);
}

/// The lengths of the fields.
proof fn lemma_le_lens()
    ensures
        forall|value: nat, width: nat| (#[trigger] bytes::le_bytes(value, width)).len() == width,
{
    assert forall|value: nat, width: nat| (#[trigger] bytes::le_bytes(value, width)).len()
        == width by {
        bytes::lemma_le_bytes_len(value, width);
    }
}

/// The path of the dump file of a process.
pub open spec fn dump_path(pid: u32) -> Seq<char> {
    "/tmp/jit-"@ + text::decimal(pid as nat) + ".dump"@
}

impl JitHeader {
    /// The header as it stands in the file.
    pub fn to_bytes(&self) -> (data: Vec<u8>)
        ensures
            data@ == header_bytes(*self),
    {
        let mut data: Vec<u8> = Vec::new();
        bytes::push_le(&mut data, self.magic as u64, 4);
        bytes::push_le(&mut data, self.version as u64, 4);
        bytes::push_le(&mut data, self.total_size as u64, 4);
        bytes::push_le(&mut data, self.elf_mach as u64, 4);
        bytes::push_le(&mut data, self.pad1 as u64, 4);
        bytes::push_le(&mut data, self.pid as u64, 4);
        bytes::push_le(&mut data, self.timestamp, 8);
        bytes::push_le(&mut data, self.flags, 8);
        assert(data@ =~= header_bytes(*self));
        data
    }
}

impl JrCodeLoad {
    /// The fixed part of the record as it stands in the file.
    pub fn to_bytes(&self) -> (data: Vec<u8>)
        ensures
            data@ == load_bytes(*self),
    {
        let mut data: Vec<u8> = Vec::new();
        bytes::push_le(&mut data, self.p.id as u64, 4);
        bytes::push_le(&mut data, self.p.total_size as u64, 4);
        bytes::push_le(&mut data, self.p.timestamp, 8);
        bytes::push_le(&mut data, self.pid as u64, 4);
        bytes::push_le(&mut data, self.tid as u64, 4);
        bytes::push_le(&mut data, self.vma, 8);
        bytes::push_le(&mut data, self.code_addr, 8);
        bytes::push_le(&mut data, self.code_size, 8);
        bytes::push_le(&mut data, self.code_index, 8);
        assert(data@ =~= load_bytes(*self));
        data
    }
}

/// A clock time in nanoseconds.
pub fn timestamp_nanos(tv_sec: i64, tv_nsec: i64) -> (time: u64)
    requires
        nanoseconds(tv_sec, tv_nsec) <= u64::MAX,
    ensures
        time == nanoseconds(tv_sec, tv_nsec),
{
    (tv_sec as u64) * 1_000_000_000 + (tv_nsec as u64)
}

/// Whether the value of the environment variable turns the profiler on.
pub fn is_enabled(setting: &str) -> (enabled: bool)
    ensures
        enabled == enables(setting@),
{
    proof {
        reveal_strlit("1");
    }
    if setting.unicode_len() != 1 || setting.get_char(0) != '1' {
        return false;
    }
    assert(setting@ =~= "1"@);
    true
}

/// A dump file that has just been made.
#[derive(Debug)]
pub struct DumpStart {
    /// Where the file goes.
    pub path: String,
    /// What the file starts with.
    pub header: Vec<u8>,
}

/// The functions that `perf` was told of.
#[derive(Debug)]
pub struct PerfJitProfiler {
    code_index: u64,
}

impl PerfJitProfiler {
    /// The number of functions that `perf` was told of.
    pub closed spec fn count(&self) -> u64 {
        self.code_index
    }

    /// Attempts to initialize the profiler, by the value of its environment variable: there is a
    /// profiler, and a dump file for the process, if and only if it is `1`.
    pub fn new(setting: &str, machine: Machine, pid: u32, timestamp: u64) -> (profiler: Option<
        (PerfJitProfiler, DumpStart),
    >)
        ensures
            profiler is Some <==> enables(setting@),
            profiler matches Some((state, dump)) ==> {
                &&& state.count() == 0
                &&& dump.path@ == dump_path(pid)
                &&& dump.header@ == header_bytes(header_of(machine, pid, timestamp))
            },
    {
        if !is_enabled(setting) {
            return None;
        }

        let mut path: String = String::from_str("/tmp/jit-");
        text::append_decimal(&mut path, pid as u64);
        path.append(".dump");
        let header: JitHeader = JitHeader {
            magic: JITHEADER_MAGIC,
            version: JITHEADER_VERSION,
            total_size: JITHEADER_SIZE,
            elf_mach: machine.elf_mach(),
            pad1: 0,
            pid,
            timestamp,
            flags: 0,
        };
        Some((PerfJitProfiler { code_index: 0 }, DumpStart { path, header: header.to_bytes() }))
    }

    /// The number of functions that `perf` was told of.
    pub fn registered(&self) -> (count: u64)
        ensures
            count == self.count(),
    {
        self.code_index
    }

    /// Whether a function of the given name and code can be registered: it can be numbered, and
    /// the length that its record states fits in 32 bits.
    pub fn can_register(&self, name: &str, code: &[u8]) -> (can: bool)
        ensures
            can == record_fits(self.count(), vstd::utf8::encode_utf8(name@), code@),
    {
        let name_bytes: &[u8] = name.as_bytes();
        if self.code_index == u64::MAX || name_bytes.len() == usize::MAX {
            return false;
        }
        let name_len: u32 = (name_bytes.len() + 1) as u32;
        let code_len: u32 = code.len() as u32;
        (JR_CODE_LOAD_SIZE as u64) + (name_len as u64) + (code_len as u64) <= 0xffff_ffff
    }

    /// Registers a newly compiled function: the record to append to the dump file. Functions are
    /// numbered from 1.
    pub fn register_function(
        &mut self,
        name: &str,
        start_address: u64,
        code: &[u8],
        pid: u32,
        tid: u32,
        timestamp: u64,
    ) -> (record: Vec<u8>)
        requires
            record_fits(old(self).count(), vstd::utf8::encode_utf8(name@), code@),
        ensures
            final(self).count() == next_index(old(self).count()),
            final(self).count() == old(self).count() + 1,
            record@ == record_of(
                (Registration {
                    name: vstd::utf8::encode_utf8(name@),
                    start_address,
                    code: code@,
                    pid,
                    tid,
                    timestamp,
                }),
                final(self).count(),
            ),
    {
        self.code_index = self.code_index + 1;

        // The size of the record counts the struct, the string with its null terminator, and the
        // code bytes.
        let name_bytes: &[u8] = name.as_bytes();
        let name_len: usize = name_bytes.len() + 1;
        let total_size: u32 = JR_CODE_LOAD_SIZE + name_len as u32 + code.len() as u32;

        let load: JrCodeLoad = JrCodeLoad {
            p: JrPrefix { id: JIT_CODE_LOAD, total_size, timestamp },
            pid,
            tid,
            vma: start_address,
            code_addr: start_address,
            code_size: code.len() as u64,
            code_index: self.code_index,
        };

        let mut record: Vec<u8> = load.to_bytes();
        bytes::push_bytes(&mut record, name_bytes);
        record.push(0);
        bytes::push_bytes(&mut record, code);
        let ghost function: Registration = Registration {
            name: name_bytes@,
            start_address,
            code: code@,
            pid,
            tid,
            timestamp,
        };
        assert(record@ =~= record_of(function, self.code_index));
        record
    }
}

} // verus!
