//! Saved compilations: what a finished compilation holds, and the forms it is kept in.

use crate::bytes;
use crate::function;
use crate::function::{FunctionModel, JitFunction};
use crate::payload;
use crate::payload::{ArtifactFields, EntryFields};
use vstd::prelude::*;
use vstd::slice::slice_subrange;

verus! {

/// A single entry mapping a RISC-V instruction to its x86-64 byte range.
#[derive(Debug, Clone, Copy)]
pub struct InstrMapEntry {
    /// Index of the instruction in the program.
    pub instr_index: u32,
    /// The RISC-V PC of this instruction.
    pub riscv_pc: u64,
    /// Start byte offset in the code buffer (inclusive).
    pub start_offset: u32,
    /// End byte offset in the code buffer (exclusive).
    pub end_offset: u32,
}

/// An artifact capturing a finalized JIT compilation.
#[derive(Debug, Clone)]
pub struct JitArtifact {
    /// Format version for forward compatibility.
    pub format_version: u32,
    /// The raw x86-64 machine code bytes.
    pub code: Vec<u8>,
    /// Jump table as offsets into `code`.
    pub jump_table_offsets: Vec<u32>,
    /// Mapping from RISC-V instructions to x86-64 byte ranges.
    pub instr_map: Vec<InstrMapEntry>,
    /// VM memory buffer size in bytes.
    pub memory_size: u64,
    /// Starting PC of the program.
    pub pc_start: u64,
    /// Base PC for address calculations.
    pub pc_base: u64,
    /// Maximum trace size used during compilation.
    pub max_trace_size: u64,
    /// Clock bump per instruction.
    pub clk_bump: u64,
    /// Whether the code contains embedded absolute host function pointers.
    ///
    /// When true, the artifact is **not portable** across process restarts because
    /// ASLR may relocate the host functions. The ecall handler is always loaded
    /// indirectly from the JitContext and is therefore safe.
    pub has_host_call_relocations: bool,
}

/// An artifact, as the proofs see it.
#[verifier::ext_equal]
pub struct ArtifactModel {
    /// Format version.
    pub format_version: u32,
    /// The raw x86-64 machine code bytes.
    pub code: Seq<u8>,
    /// Jump table as offsets into `code`.
    pub jump_table_offsets: Seq<u32>,
    /// Mapping from RISC-V instructions to x86-64 byte ranges.
    pub instr_map: Seq<InstrMapEntry>,
    /// VM memory buffer size in bytes.
    pub memory_size: u64,
    /// Starting PC of the program.
    pub pc_start: u64,
    /// Base PC for address calculations.
    pub pc_base: u64,
    /// Maximum trace size used during compilation.
    pub max_trace_size: u64,
    /// Clock bump per instruction.
    pub clk_bump: u64,
    /// Whether the code contains embedded absolute host function pointers.
    pub has_host_call_relocations: bool,
}

impl View for JitArtifact {
    type V = ArtifactModel;

    open spec fn view(&self) -> ArtifactModel {
        ArtifactModel {
            format_version: self.format_version,
            code: self.code@,
            jump_table_offsets: self.jump_table_offsets@,
            instr_map: self.instr_map@,
            memory_size: self.memory_size,
            pc_start: self.pc_start,
            pc_base: self.pc_base,
            max_trace_size: self.max_trace_size,
            clk_bump: self.clk_bump,
            has_host_call_relocations: self.has_host_call_relocations,
        }
    }
}

/// Why bytes could not be turned into an artifact, or an artifact into bytes.
#[derive(Debug)]
pub enum CacheError {
    /// The bytes do not start with the magic bytes of the cache.
    InvalidMagic,
    /// The serialized artifact could not be written or read.
    Payload(bincode::Error),
}

/// Why an artifact could not be written as an ELF object.
#[derive(Debug)]
pub struct ElfError(pub object::write::Error);

/// Magic bytes for the cache file header: `SP1JIT`, 0, 1.
pub open spec fn magic() -> Seq<u8> {
    seq![0x53u8, 0x50, 0x31, 0x4a, 0x49, 0x54, 0x00, 0x01]
}

/// Whether bytes start with the magic bytes of the cache.
pub open spec fn has_magic(data: Seq<u8>) -> bool {
    magic().is_prefix_of(data)
}

/// The contents of the cache file of an artifact.
pub open spec fn cache_bytes(artifact: ArtifactModel) -> Seq<u8> {
    magic() + payload::payload(artifact)
}

/// Whether the serialized form of an artifact follows the magic bytes.
pub open spec fn holds_artifact(data: Seq<u8>, artifact: ArtifactModel) -> bool {
    has_magic(data) && payload::payload(artifact).is_prefix_of(data.skip(8))
}

/// The cache file of an artifact holds that artifact, and no other.
pub proof fn law_cache_round_trip(artifact: ArtifactModel, other: ArtifactModel)
    requires
        payload::lengths_fit(artifact),
        payload::lengths_fit(other),
    ensures
        holds_artifact(cache_bytes(artifact), other) <==> other == artifact,
{
    let data: Seq<u8> = cache_bytes(artifact);
    assert(data.skip(8) =~= payload::payload(artifact));
    assert(data.subrange(0, 8) =~= magic());
    assert(data.skip(8).subrange(0, data.skip(8).len() as int) =~= data.skip(8));
    if holds_artifact(data, other) {
        payload::law_payload_unique(artifact, other, data.skip(8));
    }
}

/// A cache file is eight magic bytes, `SP1JIT`, 0 and 1, and then the serialized artifact.
pub proof fn law_cache_file_layout(artifact: ArtifactModel)
    ensures
        ({
            let data: Seq<u8> = cache_bytes(artifact);
            &&& data.len() == 8 + payload::payload(artifact).len()
            &&& data[0] == 'S' as u8
            &&& data[1] == 'P' as u8
            &&& data[2] == '1' as u8
            &&& data[3] == 'J' as u8
            &&& data[4] == 'I' as u8
            &&& data[5] == 'T' as u8
            &&& data[6] == 0
            &&& data[7] == 1
            &&& data.skip(8) == payload::payload(artifact)
            &&& has_magic(data)
        }),
{
    let data: Seq<u8> = cache_bytes(artifact);
    assert(data.skip(8) =~= payload::payload(artifact));
    assert(data.subrange(0, 8) =~= magic());
}

/// Bytes are taken for a cache file if and only if they start with the magic bytes, and hold an
/// artifact if and only if they start with its cache file.
pub proof fn law_cache_file_is_a_prefix(data: Seq<u8>, artifact: ArtifactModel)
    ensures
        has_magic(data) <==> data.len() >= 8 && data[0] == 'S' as u8 && data[1] == 'P' as u8
            && data[2] == '1' as u8 && data[3] == 'J' as u8 && data[4] == 'I' as u8 && data[5]
            == 'T' as u8 && data[6] == 0 && data[7] == 1,
        holds_artifact(data, artifact) <==> cache_bytes(artifact).is_prefix_of(data),
{
    let file: Seq<u8> = cache_bytes(artifact);
    let encoded: Seq<u8> = payload::payload(artifact);
    if data.len() >= 8 {
        if magic() =~= data.subrange(0, 8) {
            assert(data[0] == magic()[0] && data[1] == magic()[1] && data[2] == magic()[2]
                && data[3] == magic()[3] && data[4] == magic()[4] && data[5] == magic()[5]
                && data[6] == magic()[6] && data[7] == magic()[7]);
        } else {
            assert(exists|k: int| 0 <= k < 8 && data.subrange(0, 8)[k] != magic()[k]);
            let k: int = choose|k: int| 0 <= k < 8 && data.subrange(0, 8)[k] != magic()[k];
            assert(data[k] != magic()[k]);
        }
    }
    if holds_artifact(data, artifact) {
        assert forall|i: int| 0 <= i < file.len() implies file[i] == data[i] by {
            if i < 8 {
                assert(data.subrange(0, 8)[i] == magic()[i]);
            } else {
                assert(data.skip(8).subrange(0, encoded.len() as int)[i - 8] == encoded[i - 8]);
            }
        }
        assert(file =~= data.subrange(0, file.len() as int));
    }
    if file.is_prefix_of(data) {
        assert forall|i: int| 0 <= i < file.len() implies file[i] == data[i] by {
            assert(data.subrange(0, file.len() as int)[i] == file[i]);
        }
        assert(magic() =~= data.subrange(0, 8)) by {
            assert forall|i: int| 0 <= i < 8 implies magic()[i] == data[i] by {
                assert(file[i] == data[i]);
            }
        }
        assert forall|i: int| 0 <= i < encoded.len() implies encoded[i] == data.skip(8)[i] by {
            assert(file[i + 8] == data[i + 8]);
        }
        assert(encoded =~= data.skip(8).subrange(0, encoded.len() as int));
    }
}

/// The view of an artifact shows every field as it is.
pub proof fn law_artifact_view(artifact: JitArtifact)
    ensures
        artifact@.format_version == artifact.format_version,
        artifact@.code == artifact.code@,
        artifact@.jump_table_offsets == artifact.jump_table_offsets@,
        artifact@.instr_map == artifact.instr_map@,
        artifact@.memory_size == artifact.memory_size,
        artifact@.pc_start == artifact.pc_start,
        artifact@.pc_base == artifact.pc_base,
        artifact@.max_trace_size == artifact.max_trace_size,
        artifact@.clk_bump == artifact.clk_bump,
        artifact@.has_host_call_relocations == artifact.has_host_call_relocations,
{
}

/// The function that is made of an artifact has the artifact's code, destinations, memory size and
/// starting PC, and has never been run.
pub proof fn law_captured_function(artifact: ArtifactModel)
    ensures
        ({
            let function: FunctionModel = captured_function(artifact);
            &&& function.code == artifact.code
            &&& function.jump_table.len() == artifact.jump_table_offsets.len()
            &&& forall|i: int|
                0 <= i < artifact.jump_table_offsets.len() ==> #[trigger] function.jump_table[i]
                    == artifact.jump_table_offsets[i]
            &&& artifact.memory_size <= usize::MAX ==> function.memory_size == artifact.memory_size
            &&& function.pc == artifact.pc_start
            &&& function.pc_start == artifact.pc_start
            &&& function.clk == 1
            &&& function.global_clk == 0
            &&& function.registers.len() == 32
            &&& forall|i: int| 0 <= i < 32 ==> #[trigger] function.registers[i] == 0
            &&& function.initial_memory == Map::<u64, u64>::empty()
            &&& function.input_buffer.len() == 0
            &&& function.hints.len() == 0
            &&& function.public_values_stream.len() == 0
            &&& function.exit_code == 0
        }),
{
}

/// Appends the magic bytes of the cache.
fn push_magic(buf: &mut Vec<u8>)
    ensures
        final(buf)@ == old(buf)@ + magic(),
{
    bytes::push_bytes(buf, &[0x53u8, 0x50, 0x31, 0x4a, 0x49, 0x54, 0x00, 0x01]);
    assert(buf@ =~= old(buf)@ + magic());
}

/// Whether `data` starts with the magic bytes of the cache.
fn starts_with_magic(data: &[u8]) -> (found: bool)
    ensures
        found == has_magic(data@),
{
    let mut expected: Vec<u8> = Vec::new();
    push_magic(&mut expected);
    assert(expected@ =~= magic());
    if data.len() < 8 {
        return false;
    }
    let mut i: usize = 0;
    while i < 8
        invariant
            i <= 8,
            data@.len() >= 8,
            expected@ == magic(),
            forall|k: int| 0 <= k < i ==> data@[k] == magic()[k],
        decreases 8 - i,
    {
        if data[i] != expected[i] {
            assert(data@.subrange(0, 8)[i as int] != magic()[i as int]);
            return false;
        }
        i = i + 1;
    }
    assert(magic() =~= data@.subrange(0, 8));
    true
}

/// The entries of an instruction map as tuples of their fields.
fn entries_to_fields(entries: &Vec<InstrMapEntry>) -> (fields: Vec<EntryFields>)
    ensures
        fields@.map_values(|entry: EntryFields| payload::entry_of(entry)) == entries@,
{
    let mut fields: Vec<EntryFields> = Vec::new();
    let mut i: usize = 0;
    while i < entries.len()
        invariant
            i <= entries@.len(),
            fields@.len() == i,
            forall|k: int| 0 <= k < i ==> payload::entry_of(#[trigger] fields@[k]) == entries@[k],
        decreases entries@.len() - i,
    {
        let entry: InstrMapEntry = entries[i];
        fields.push((entry.instr_index, entry.riscv_pc, entry.start_offset, entry.end_offset));
        i = i + 1;
    }
    assert(fields@.map_values(|entry: EntryFields| payload::entry_of(entry)) =~= entries@);
    fields
}

/// The entries of an instruction map from tuples of their fields.
fn entries_from_fields(fields: &Vec<EntryFields>) -> (entries: Vec<InstrMapEntry>)
    ensures
        entries@ == fields@.map_values(|entry: EntryFields| payload::entry_of(entry)),
{
    let mut entries: Vec<InstrMapEntry> = Vec::new();
    let mut i: usize = 0;
    while i < fields.len()
        invariant
            i <= fields@.len(),
            entries@.len() == i,
            forall|k: int| 0 <= k < i ==> #[trigger] entries@[k] == payload::entry_of(fields@[k]),
        decreases fields@.len() - i,
    {
        let entry: EntryFields = fields[i];
        entries.push(
            InstrMapEntry {
                instr_index: entry.0,
                riscv_pc: entry.1,
                start_offset: entry.2,
                end_offset: entry.3,
            },
        );
        i = i + 1;
    }
    assert(entries@ =~= fields@.map_values(|entry: EntryFields| payload::entry_of(entry)));
    entries
}

/// The function that an artifact captures, before its first run.
pub open spec fn captured_function(artifact: ArtifactModel) -> FunctionModel {
    function::unstarted(
        artifact.code,
        artifact.jump_table_offsets.map_values(|offset: u32| offset as usize),
        artifact.memory_size as usize,
        artifact.pc_start,
    )
}

impl JitArtifact {
    /// The contents of this artifact's cache file: the magic bytes, then the serialized artifact.
    pub fn to_cache_bytes(&self) -> (data: Result<Vec<u8>, CacheError>)
        ensures
            data is Ok,
            data->Ok_0@ == cache_bytes(self@),
    {
        let mut code: Vec<u8> = Vec::new();
        bytes::push_bytes(&mut code, self.code.as_slice());
        assert(code@ =~= self.code@);
        let offsets: Vec<u32> = self.jump_table_offsets.clone();
        assert(offsets@ =~= self.jump_table_offsets@);
        let fields: ArtifactFields = (
            self.format_version,
            code,
            offsets,
            entries_to_fields(&self.instr_map),
            self.memory_size,
            self.pc_start,
            self.pc_base,
            self.max_trace_size,
            self.clk_bump,
            self.has_host_call_relocations,
        );
        assert(payload::artifact_from(fields) =~= self@);
        let mut data: Vec<u8> = Vec::new();
        push_magic(&mut data);
        match payload::serialize(&fields) {
            Ok(encoded) => {
                bytes::push_bytes(&mut data, encoded.as_slice());
                assert(data@ =~= cache_bytes(self@));
                Ok(data)
            },
            Err(error) => Err(CacheError::Payload(error)),
        }
    }

    /// Reads an artifact from the contents of its cache file. Bytes that follow the serialized
    /// artifact are not looked at.
    pub fn from_cache_bytes(data: &[u8]) -> (artifact: Result<JitArtifact, CacheError>)
        ensures
            artifact matches Ok(read) ==> holds_artifact(data@, read@),
            artifact is Err && artifact->Err_0 is InvalidMagic <==> !has_magic(data@),
            artifact is Err && artifact->Err_0 is Payload <==> has_magic(data@) && forall|
                other: ArtifactModel,
            | !holds_artifact(data@, other),
            forall|written: ArtifactModel|
                payload::lengths_fit(written) && data@ == #[trigger] cache_bytes(written)
                    ==> artifact is Ok && artifact->Ok_0@ == written,
    {
        if !starts_with_magic(data) {
            proof {
                assert forall|written: ArtifactModel| data@ == #[trigger] cache_bytes(
                    written,
                ) implies false by {
                    assert(magic() =~= data@.subrange(0, 8));
                }
            }
            return Err(CacheError::InvalidMagic);
        }
        let encoded: &[u8] = slice_subrange(data, 8, data.len());
        assert(encoded@ =~= data@.skip(8));
        match payload::deserialize(encoded) {
            Ok(fields) => {
                let ghost read: ArtifactModel = payload::artifact_from(fields);
                assert(read.code.len() == fields.1.len());
                assert(read.jump_table_offsets.len() == fields.2.len());
                assert(read.instr_map.len() == fields.3.len());
                let artifact: JitArtifact = JitArtifact {
                    format_version: fields.0,
                    instr_map: entries_from_fields(&fields.3),
                    code: fields.1,
                    jump_table_offsets: fields.2,
                    memory_size: fields.4,
                    pc_start: fields.5,
                    pc_base: fields.6,
                    max_trace_size: fields.7,
                    clk_bump: fields.8,
                    has_host_call_relocations: fields.9,
                };
                assert(artifact@ =~= read);
                proof {
                    assert(holds_artifact(data@, read));
                    assert(payload::lengths_fit(read));
                    assert forall|written: ArtifactModel|
                        payload::lengths_fit(written) && data@ == #[trigger] cache_bytes(
                            written,
                        ) implies read == written by {
                        law_cache_round_trip(written, read);
                    }
                }
                Ok(artifact)
            },
            Err(error) => {
                proof {
                    assert forall|other: ArtifactModel| !holds_artifact(data@, other) by {}
                    assert forall|written: ArtifactModel|
                        payload::lengths_fit(written) && data@ == #[trigger] cache_bytes(
                            written,
                        ) implies false by {
                        law_cache_round_trip(written, written);
                    }
                }
                Err(CacheError::Payload(error))
            },
        }
    }

    /// Create a `JitFunction` from this cached artifact: its jump table is reconstructed, and it
    /// is in the state of a function that was never run.
    pub fn into_jit_function(self) -> (function: JitFunction)
        ensures
            function@ == captured_function(self@),
    {
        let mut jump_table: Vec<usize> = Vec::new();
        let mut i: usize = 0;
        while i < self.jump_table_offsets.len()
            invariant
                i <= self.jump_table_offsets@.len(),
                jump_table@.len() == i,
                forall|k: int|
                    0 <= k < i ==> #[trigger] jump_table@[k] == self.jump_table_offsets@[k],
            decreases self.jump_table_offsets@.len() - i,
        {
            jump_table.push(self.jump_table_offsets[i] as usize);
            i = i + 1;
        }
        assert(jump_table@ =~= self@.jump_table_offsets.map_values(
            |offset: u32| offset as usize,
        ));
        JitFunction::from_bytes(self.code, jump_table, self.memory_size as usize, self.pc_start)
    }
}

/// An artifact captures everything needed to execute a function again: the function that is made
/// of the artifact of a function that was never run is that function. This holds of code that
/// 32-bit offsets can point into.
pub proof fn law_artifact_captures_function(
    code: Seq<u8>,
    jump_table: Seq<usize>,
    memory_size: usize,
    pc_start: u64,
    instr_map: Seq<InstrMapEntry>,
    pc_base: u64,
    max_trace_size: u64,
    clk_bump: u64,
    has_host_call_relocations: bool,
)
    requires
        function::offsets_in_code(jump_table, code),
        code.len() <= u32::MAX,
    ensures
        ({
            let function: FunctionModel = function::unstarted(
                code,
                jump_table,
                memory_size,
                pc_start,
            );
            captured_function(
                function::artifact_of(
                    function,
                    instr_map,
                    pc_base,
                    max_trace_size,
                    clk_bump,
                    has_host_call_relocations,
                ),
            ) == function
        }),
{
    let offsets: Seq<u32> = jump_table.map_values(|offset: usize| offset as u32);
    assert(offsets.map_values(|offset: u32| offset as usize) =~= jump_table) by {
        assert forall|i: int| 0 <= i < jump_table.len() implies offsets[i] as usize
            == jump_table[i] by {
            assert(jump_table[i] <= code.len());
        }
    }
}

} // verus!
