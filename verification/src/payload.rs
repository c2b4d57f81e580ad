//! The serialized form of an artifact, made and read by the `bincode` crate.
//!
//! `bincode` writes the fields one after another: integers as fixed-width little-endian bytes, a
//! flag as one byte, a vector as its length in eight bytes and then its items.

use crate::bytes;
use crate::cache::{ArtifactModel, InstrMapEntry};
use vstd::prelude::*;

verus! {

/// An entry of the instruction map, as a tuple of its fields.
pub type EntryFields = (u32, u64, u32, u32);

/// An artifact, as a tuple of its fields.
pub type ArtifactFields = (
    u32,
    Vec<u8>,
    Vec<u32>,
    Vec<EntryFields>,
    u64,
    u64,
    u64,
    u64,
    u64,
    bool,
);

/// Why bytes are not a serialized value.
#[verifier::external_type_specification]
#[verifier::external_body]
pub struct ExErrorKind(bincode::ErrorKind);

/// An entry, from the tuple of its fields.
pub open spec fn entry_of(fields: EntryFields) -> InstrMapEntry {
    InstrMapEntry {
        instr_index: fields.0,
        riscv_pc: fields.1,
        start_offset: fields.2,
        end_offset: fields.3,
    }
}

/// An artifact, from the tuple of its fields.
pub open spec fn artifact_from(fields: ArtifactFields) -> ArtifactModel {
    ArtifactModel {
        format_version: fields.0,
        code: fields.1@,
        jump_table_offsets: fields.2@,
        instr_map: fields.3@.map_values(|entry: EntryFields| entry_of(entry)),
        memory_size: fields.4,
        pc_start: fields.5,
        pc_base: fields.6,
        max_trace_size: fields.7,
        clk_bump: fields.8,
        has_host_call_relocations: fields.9,
    }
}

/// Offsets, one after another.
pub open spec fn offset_bytes(offsets: Seq<u32>) -> Seq<u8>
    decreases offsets.len(),
{
    if offsets.len() == 0 {
        Seq::empty()
    } else {
        offset_bytes(offsets.drop_last()) + bytes::le_bytes(offsets.last() as nat, 4)
    }
}

/// The fields of an entry, one after another.
pub open spec fn entry_bytes(entry: InstrMapEntry) -> Seq<u8> {
    bytes::le_bytes(entry.instr_index as nat, 4) + bytes::le_bytes(entry.riscv_pc as nat, 8)
        + bytes::le_bytes(entry.start_offset as nat, 4) + bytes::le_bytes(
        entry.end_offset as nat,
        4,
    )
}

/// Entries, one after another.
pub open spec fn map_bytes(entries: Seq<InstrMapEntry>) -> Seq<u8>
    decreases entries.len(),
{
    if entries.len() == 0 {
        Seq::empty()
    } else {
        map_bytes(entries.drop_last()) + entry_bytes(entries.last())
    }
}

/// The fields of an artifact that come after its vectors.
pub open spec fn scalar_bytes(artifact: ArtifactModel) -> Seq<u8> {
    bytes::le_bytes(artifact.memory_size as nat, 8) + bytes::le_bytes(artifact.pc_start as nat, 8)
        + bytes::le_bytes(artifact.pc_base as nat, 8) + bytes::le_bytes(
        artifact.max_trace_size as nat,
        8,
    ) + bytes::le_bytes(artifact.clk_bump as nat, 8) + seq![
        if artifact.has_host_call_relocations {
            1u8
        } else {
            0u8
        },
    ]
}

/// The instruction map of an artifact, and what follows it.
pub open spec fn from_map_on(artifact: ArtifactModel) -> Seq<u8> {
    bytes::le_bytes(artifact.instr_map.len(), 8) + (map_bytes(artifact.instr_map) + scalar_bytes(
        artifact,
    ))
}

/// The jump table of an artifact, and what follows it.
pub open spec fn from_table_on(artifact: ArtifactModel) -> Seq<u8> {
    bytes::le_bytes(artifact.jump_table_offsets.len(), 8) + (offset_bytes(
        artifact.jump_table_offsets,
    ) + from_map_on(artifact))
}

/// The code of an artifact, and what follows it.
pub open spec fn from_code_on(artifact: ArtifactModel) -> Seq<u8> {
    bytes::le_bytes(artifact.code.len(), 8) + (artifact.code + from_table_on(artifact))
}

/// The serialized form of an artifact.
pub open spec fn payload(artifact: ArtifactModel) -> Seq<u8> {
    bytes::le_bytes(artifact.format_version as nat, 4) + from_code_on(artifact)
}

/// Calls `bincode::serialize`: the fields are written one after another.
#[verifier::external_body]
pub(crate) fn serialize(fields: &ArtifactFields) -> (data: Result<Vec<u8>, bincode::Error>)
    ensures
        data is Ok,
        data->Ok_0@ == payload(artifact_from(*fields)),
{
    bincode::serialize(fields)
}

/// Calls `bincode::deserialize`: the artifact is read whose serialized form `data` starts with,
/// and there is an error where `data` starts with no serialized artifact. Bytes that follow the
/// serialized form are not looked at.
#[verifier::external_body]
pub(crate) fn deserialize(data: &[u8]) -> (fields: Result<ArtifactFields, bincode::Error>)
    ensures
        fields matches Ok(read) ==> payload(artifact_from(read)).is_prefix_of(data@),
        fields is Err ==> forall|artifact: ArtifactModel|
            !(#[trigger] payload(artifact)).is_prefix_of(data@),
{
    bincode::deserialize(data)
}

/// Whether the vectors of an artifact are no longer than a length field can say.
pub open spec fn lengths_fit(artifact: ArtifactModel) -> bool {
    &&& artifact.code.len() <= u64::MAX
    &&& artifact.jump_table_offsets.len() <= u64::MAX
    &&& artifact.instr_map.len() <= u64::MAX
}

/// Two fields of the same width at the front of the same bytes are equal, and what follows them
/// starts at the same place.
proof fn lemma_same_field(a: Seq<u8>, b: Seq<u8>, x: Seq<u8>, y: Seq<u8>, data: Seq<u8>)
    requires
        a.len() == b.len(),
        (a + x).is_prefix_of(data),
        (b + y).is_prefix_of(data),
    ensures
        a == b,
        x.is_prefix_of(data.skip(a.len() as int)),
        y.is_prefix_of(data.skip(a.len() as int)),
{
    assert forall|i: int| 0 <= i < a.len() implies a[i] == b[i] by {
        assert((a + x)[i] == data[i]);
        assert((b + y)[i] == data[i]);
    }
    assert(a =~= b);
    assert forall|i: int| 0 <= i < x.len() implies x[i] == data.skip(a.len() as int)[i] by {
        assert((a + x)[a.len() + i] == data[a.len() + i]);
    }
    assert(x =~= data.skip(a.len() as int).subrange(0, x.len() as int));
    assert forall|i: int| 0 <= i < y.len() implies y[i] == data.skip(a.len() as int)[i] by {
        assert((b + y)[b.len() + i] == data[b.len() + i]);
    }
    assert(y =~= data.skip(a.len() as int).subrange(0, y.len() as int));
}

/// Serialized offsets take four bytes each, and determine the offsets.
proof fn lemma_offset_bytes(a: Seq<u32>, b: Seq<u32>)
    requires
        a.len() == b.len(),
    ensures
        offset_bytes(a).len() == 4 * a.len(),
        offset_bytes(a).len() == offset_bytes(b).len(),
        offset_bytes(a) == offset_bytes(b) ==> a == b,
    decreases a.len(),
{
    if a.len() == 0 {
        assert(a =~= b);
    } else {
        let (x, y): (Seq<u8>, Seq<u8>) = (
            bytes::le_bytes(a.last() as nat, 4),
            bytes::le_bytes(b.last() as nat, 4),
        );
        lemma_offset_bytes(a.drop_last(), b.drop_last());
        bytes::lemma_le_bytes_len(a.last() as nat, 4);
        bytes::lemma_le_bytes_len(b.last() as nat, 4);
        if offset_bytes(a) == offset_bytes(b) {
            lemma_same_field(
                offset_bytes(a.drop_last()),
                offset_bytes(b.drop_last()),
                x,
                y,
                offset_bytes(a),
            );
            let rest: Seq<u8> = offset_bytes(a).skip(4 * (a.len() - 1));
            assert(x =~= rest && y =~= rest);
            bytes::lemma_field_bounds();
            bytes::lemma_le_injective(a.last() as nat, b.last() as nat, 4);
            assert(a =~= a.drop_last().push(a.last()));
            assert(b =~= b.drop_last().push(b.last()));
        }
    }
}

/// A serialized entry takes twenty bytes, and determines the entry.
proof fn lemma_entry_bytes(a: InstrMapEntry, b: InstrMapEntry)
    ensures
        entry_bytes(a).len() == 20,
        entry_bytes(b).len() == 20,
        entry_bytes(a) == entry_bytes(b) ==> a == b,
{
    bytes::lemma_field_bounds();
    bytes::lemma_le_bytes_len(a.instr_index as nat, 4);
    bytes::lemma_le_bytes_len(a.riscv_pc as nat, 8);
    bytes::lemma_le_bytes_len(a.start_offset as nat, 4);
    bytes::lemma_le_bytes_len(a.end_offset as nat, 4);
    bytes::lemma_le_bytes_len(b.instr_index as nat, 4);
    bytes::lemma_le_bytes_len(b.riscv_pc as nat, 8);
    bytes::lemma_le_bytes_len(b.start_offset as nat, 4);
    bytes::lemma_le_bytes_len(b.end_offset as nat, 4);
    if entry_bytes(a) == entry_bytes(b) {
        let data: Seq<u8> = entry_bytes(a);
        assert(bytes::le_bytes(a.instr_index as nat, 4) =~= data.subrange(0, 4));
        assert(bytes::le_bytes(b.instr_index as nat, 4) =~= data.subrange(0, 4));
        assert(bytes::le_bytes(a.riscv_pc as nat, 8) =~= data.subrange(4, 12));
        assert(bytes::le_bytes(b.riscv_pc as nat, 8) =~= data.subrange(4, 12));
        assert(bytes::le_bytes(a.start_offset as nat, 4) =~= data.subrange(12, 16));
        assert(bytes::le_bytes(b.start_offset as nat, 4) =~= data.subrange(12, 16));
        assert(bytes::le_bytes(a.end_offset as nat, 4) =~= data.subrange(16, 20));
        assert(bytes::le_bytes(b.end_offset as nat, 4) =~= data.subrange(16, 20));
        bytes::lemma_le_injective(a.instr_index as nat, b.instr_index as nat, 4);
        bytes::lemma_le_injective(a.riscv_pc as nat, b.riscv_pc as nat, 8);
        bytes::lemma_le_injective(a.start_offset as nat, b.start_offset as nat, 4);
        bytes::lemma_le_injective(a.end_offset as nat, b.end_offset as nat, 4);
    }
}

/// Serialized entries take twenty bytes each, and determine the entries.
proof fn lemma_map_bytes(a: Seq<InstrMapEntry>, b: Seq<InstrMapEntry>)
    requires
        a.len() == b.len(),
    ensures
        map_bytes(a).len() == 20 * a.len(),
        map_bytes(a).len() == map_bytes(b).len(),
        map_bytes(a) == map_bytes(b) ==> a == b,
    decreases a.len(),
{
    if a.len() == 0 {
        assert(a =~= b);
    } else {
        let (x, y): (Seq<u8>, Seq<u8>) = (entry_bytes(a.last()), entry_bytes(b.last()));
        lemma_map_bytes(a.drop_last(), b.drop_last());
        lemma_entry_bytes(a.last(), b.last());
        if map_bytes(a) == map_bytes(b) {
            lemma_same_field(
                map_bytes(a.drop_last()),
                map_bytes(b.drop_last()),
                x,
                y,
                map_bytes(a),
            );
            let rest: Seq<u8> = map_bytes(a).skip(20 * (a.len() - 1));
            assert(x =~= rest && y =~= rest);
            assert(a =~= a.drop_last().push(a.last()));
            assert(b =~= b.drop_last().push(b.last()));
        }
    }
}

/// The fields after the vectors take 41 bytes, and those at the front of the same bytes agree.
proof fn lemma_scalar_bytes(a: ArtifactModel, b: ArtifactModel, data: Seq<u8>)
    requires
        scalar_bytes(a).is_prefix_of(data),
        scalar_bytes(b).is_prefix_of(data),
    ensures
        a.memory_size == b.memory_size,
        a.pc_start == b.pc_start,
        a.pc_base == b.pc_base,
        a.max_trace_size == b.max_trace_size,
        a.clk_bump == b.clk_bump,
        a.has_host_call_relocations == b.has_host_call_relocations,
{
    bytes::lemma_field_bounds();
    bytes::lemma_le_bytes_len(a.memory_size as nat, 8);
    bytes::lemma_le_bytes_len(a.pc_start as nat, 8);
    bytes::lemma_le_bytes_len(a.pc_base as nat, 8);
    bytes::lemma_le_bytes_len(a.max_trace_size as nat, 8);
    bytes::lemma_le_bytes_len(a.clk_bump as nat, 8);
    bytes::lemma_le_bytes_len(b.memory_size as nat, 8);
    bytes::lemma_le_bytes_len(b.pc_start as nat, 8);
    bytes::lemma_le_bytes_len(b.pc_base as nat, 8);
    bytes::lemma_le_bytes_len(b.max_trace_size as nat, 8);
    bytes::lemma_le_bytes_len(b.clk_bump as nat, 8);
    let (x, y): (Seq<u8>, Seq<u8>) = (scalar_bytes(a), scalar_bytes(b));
    assert(x =~= data.take(41) && y =~= data.take(41));
    assert(bytes::le_bytes(a.memory_size as nat, 8) =~= x.subrange(0, 8));
    assert(bytes::le_bytes(b.memory_size as nat, 8) =~= x.subrange(0, 8));
    assert(bytes::le_bytes(a.pc_start as nat, 8) =~= x.subrange(8, 16));
    assert(bytes::le_bytes(b.pc_start as nat, 8) =~= x.subrange(8, 16));
    assert(bytes::le_bytes(a.pc_base as nat, 8) =~= x.subrange(16, 24));
    assert(bytes::le_bytes(b.pc_base as nat, 8) =~= x.subrange(16, 24));
    assert(bytes::le_bytes(a.max_trace_size as nat, 8) =~= x.subrange(24, 32));
    assert(bytes::le_bytes(b.max_trace_size as nat, 8) =~= x.subrange(24, 32));
    assert(bytes::le_bytes(a.clk_bump as nat, 8) =~= x.subrange(32, 40));
    assert(bytes::le_bytes(b.clk_bump as nat, 8) =~= x.subrange(32, 40));
    assert(x[40] == y[40]);
    bytes::lemma_le_injective(a.memory_size as nat, b.memory_size as nat, 8);
    bytes::lemma_le_injective(a.pc_start as nat, b.pc_start as nat, 8);
    bytes::lemma_le_injective(a.pc_base as nat, b.pc_base as nat, 8);
    bytes::lemma_le_injective(a.max_trace_size as nat, b.max_trace_size as nat, 8);
    bytes::lemma_le_injective(a.clk_bump as nat, b.clk_bump as nat, 8);
}

/// Vectors of the same length field at the front of the same bytes are equally long, and start at
/// the same place.
proof fn lemma_same_length(a: nat, b: nat, x: Seq<u8>, y: Seq<u8>, data: Seq<u8>)
    requires
        a <= u64::MAX,
        b <= u64::MAX,
        (bytes::le_bytes(a, 8) + x).is_prefix_of(data),
        (bytes::le_bytes(b, 8) + y).is_prefix_of(data),
    ensures
        a == b,
        x.is_prefix_of(data.skip(8)),
        y.is_prefix_of(data.skip(8)),
{
    bytes::lemma_field_bounds();
    bytes::lemma_le_bytes_len(a, 8);
    bytes::lemma_le_bytes_len(b, 8);
    lemma_same_field(bytes::le_bytes(a, 8), bytes::le_bytes(b, 8), x, y, data);
    bytes::lemma_le_injective(a, b, 8);
}

/// Artifacts whose instruction maps, and what follows, are at the front of the same bytes agree
/// from there on.
proof fn lemma_same_from_map_on(a: ArtifactModel, b: ArtifactModel, data: Seq<u8>)
    requires
        lengths_fit(a),
        lengths_fit(b),
        from_map_on(a).is_prefix_of(data),
        from_map_on(b).is_prefix_of(data),
    ensures
        a.instr_map == b.instr_map,
        a.memory_size == b.memory_size,
        a.pc_start == b.pc_start,
        a.pc_base == b.pc_base,
        a.max_trace_size == b.max_trace_size,
        a.clk_bump == b.clk_bump,
        a.has_host_call_relocations == b.has_host_call_relocations,
{
    let (x, y): (Seq<u8>, Seq<u8>) = (map_bytes(a.instr_map), map_bytes(b.instr_map));
    lemma_same_length(
        a.instr_map.len(),
        b.instr_map.len(),
        x + scalar_bytes(a),
        y + scalar_bytes(b),
        data,
    );
    lemma_map_bytes(a.instr_map, b.instr_map);
    lemma_same_field(x, y, scalar_bytes(a), scalar_bytes(b), data.skip(8));
    lemma_scalar_bytes(a, b, data.skip(8).skip(x.len() as int));
}

/// Bytes start with the serialized form of one artifact at most.
pub proof fn law_payload_unique(a: ArtifactModel, b: ArtifactModel, data: Seq<u8>)
    requires
        lengths_fit(a),
        lengths_fit(b),
        payload(a).is_prefix_of(data),
        payload(b).is_prefix_of(data),
    ensures
        a == b,
{
    let (va, vb): (nat, nat) = (a.format_version as nat, b.format_version as nat);
    bytes::lemma_field_bounds();
    bytes::lemma_le_bytes_len(va, 4);
    bytes::lemma_le_bytes_len(vb, 4);
    lemma_same_field(
        bytes::le_bytes(va, 4),
        bytes::le_bytes(vb, 4),
        from_code_on(a),
        from_code_on(b),
        data,
    );
    bytes::lemma_le_injective(va, vb, 4);

    let code: Seq<u8> = data.skip(4);
    lemma_same_length(
        a.code.len(),
        b.code.len(),
        a.code + from_table_on(a),
        b.code + from_table_on(b),
        code,
    );
    lemma_same_field(a.code, b.code, from_table_on(a), from_table_on(b), code.skip(8));

    let table: Seq<u8> = code.skip(8).skip(a.code.len() as int);
    let (x, y): (Seq<u8>, Seq<u8>) = (
        offset_bytes(a.jump_table_offsets),
        offset_bytes(b.jump_table_offsets),
    );
    lemma_same_length(
        a.jump_table_offsets.len(),
        b.jump_table_offsets.len(),
        x + from_map_on(a),
        y + from_map_on(b),
        table,
    );
    lemma_offset_bytes(a.jump_table_offsets, b.jump_table_offsets);
    lemma_same_field(x, y, from_map_on(a), from_map_on(b), table.skip(8));

    lemma_same_from_map_on(a, b, table.skip(8).skip(x.len() as int));
}

/// The number in the `width` bytes of `data` at `at`, least significant byte first.
pub open spec fn field(data: Seq<u8>, at: int, width: int) -> nat {
    bytes::le_value(data.subrange(at, at + width))
}

/// A field that was written is read back where it was written.
proof fn lemma_field(before: Seq<u8>, value: nat, width: nat, after: Seq<u8>, at: int)
    requires
        at == before.len(),
        width == 4 || width == 8,
        width == 4 ==> value <= u32::MAX,
        width == 8 ==> value <= u64::MAX,
    ensures
        field(before + (bytes::le_bytes(value, width) + after), at, width as int) == value,
{
    let data: Seq<u8> = before + (bytes::le_bytes(value, width) + after);
    bytes::lemma_le_bytes_len(value, width);
    bytes::lemma_field_bounds();
    bytes::lemma_le_round_trip(value, width);
    assert(data.subrange(at, at + width) =~= bytes::le_bytes(value, width));
}

/// Where a serialized offset stands.
proof fn lemma_offset_at(offsets: Seq<u32>, i: int)
    requires
        0 <= i < offsets.len(),
    ensures
        offset_bytes(offsets).len() == 4 * offsets.len(),
        field(offset_bytes(offsets), 4 * i, 4) == offsets[i],
    decreases offsets.len(),
{
    let init: Seq<u32> = offsets.drop_last();
    let data: Seq<u8> = offset_bytes(offsets);
    lemma_offset_bytes(offsets, offsets);
    lemma_offset_bytes(init, init);
    if i == offsets.len() - 1 {
        lemma_field(offset_bytes(init), offsets.last() as nat, 4, Seq::empty(), 4 * i);
        assert(data =~= offset_bytes(init) + (bytes::le_bytes(offsets.last() as nat, 4)
            + Seq::empty()));
    } else {
        lemma_offset_at(init, i);
        assert(data.subrange(4 * i, 4 * i + 4) =~= offset_bytes(init).subrange(4 * i, 4 * i + 4));
    }
}

/// The fields of a serialized entry.
proof fn lemma_entry_fields(entry: InstrMapEntry)
    ensures
        entry_bytes(entry).len() == 20,
        field(entry_bytes(entry), 0, 4) == entry.instr_index,
        field(entry_bytes(entry), 4, 8) == entry.riscv_pc,
        field(entry_bytes(entry), 12, 4) == entry.start_offset,
        field(entry_bytes(entry), 16, 4) == entry.end_offset,
{
    let data: Seq<u8> = entry_bytes(entry);
    lemma_entry_bytes(entry, entry);
    bytes::lemma_field_bounds();
    bytes::lemma_le_bytes_len(entry.instr_index as nat, 4);
    bytes::lemma_le_bytes_len(entry.riscv_pc as nat, 8);
    bytes::lemma_le_bytes_len(entry.start_offset as nat, 4);
    bytes::lemma_le_bytes_len(entry.end_offset as nat, 4);
    bytes::lemma_le_round_trip(entry.instr_index as nat, 4);
    bytes::lemma_le_round_trip(entry.riscv_pc as nat, 8);
    bytes::lemma_le_round_trip(entry.start_offset as nat, 4);
    bytes::lemma_le_round_trip(entry.end_offset as nat, 4);
    assert(data.subrange(0, 4) =~= bytes::le_bytes(entry.instr_index as nat, 4));
    assert(data.subrange(4, 12) =~= bytes::le_bytes(entry.riscv_pc as nat, 8));
    assert(data.subrange(12, 16) =~= bytes::le_bytes(entry.start_offset as nat, 4));
    assert(data.subrange(16, 20) =~= bytes::le_bytes(entry.end_offset as nat, 4));
}

/// Where a serialized entry stands.
proof fn lemma_entry_at(entries: Seq<InstrMapEntry>, i: int)
    requires
        0 <= i < entries.len(),
    ensures
        map_bytes(entries).len() == 20 * entries.len(),
        map_bytes(entries).subrange(20 * i, 20 * i + 20) == entry_bytes(entries[i]),
    decreases entries.len(),
{
    let init: Seq<InstrMapEntry> = entries.drop_last();
    let data: Seq<u8> = map_bytes(entries);
    lemma_map_bytes(entries, entries);
    lemma_map_bytes(init, init);
    lemma_entry_bytes(entries.last(), entries.last());
    if i == entries.len() - 1 {
        assert(data.subrange(20 * i, 20 * i + 20) =~= entry_bytes(entries.last()));
    } else {
        lemma_entry_at(init, i);
        assert(data.subrange(20 * i, 20 * i + 20) =~= map_bytes(init).subrange(
            20 * i,
            20 * i + 20,
        ));
    }
}

/// Reading within a part of the bytes is reading at that part's place.
proof fn lemma_field_within(data: Seq<u8>, part: Seq<u8>, from: int, at: int, width: int)
    requires
        0 <= from,
        from + part.len() <= data.len(),
        data.subrange(from, from + part.len()) == part,
        0 <= at,
        0 <= width,
        at + width <= part.len(),
    ensures
        field(data, from + at, width) == field(part, at, width),
{
    assert(data.subrange(from + at, from + at + width) =~= part.subrange(at, at + width));
}

/// Where the parts of a serialized artifact stand.
proof fn lemma_payload_parts(artifact: ArtifactModel)
    requires
        lengths_fit(artifact),
    ensures
        ({
            let data: Seq<u8> = payload(artifact);
            let table: int = 12 + artifact.code.len() as int;
            let map: int = table + 8 + 4 * artifact.jump_table_offsets.len();
            let rest: int = map + 8 + 20 * artifact.instr_map.len();
            &&& data.len() == rest + 41
            &&& field(data, 0, 4) == artifact.format_version
            &&& field(data, 4, 8) == artifact.code.len()
            &&& data.subrange(12, table) == artifact.code
            &&& field(data, table, 8) == artifact.jump_table_offsets.len()
            &&& data.subrange(table + 8, map) == offset_bytes(artifact.jump_table_offsets)
            &&& field(data, map, 8) == artifact.instr_map.len()
            &&& data.subrange(map + 8, rest) == map_bytes(artifact.instr_map)
            &&& data.subrange(rest, rest + 41) == scalar_bytes(artifact)
        }),
{
    let data: Seq<u8> = payload(artifact);
    let offsets: Seq<u8> = offset_bytes(artifact.jump_table_offsets);
    let entries: Seq<u8> = map_bytes(artifact.instr_map);
    let scalars: Seq<u8> = scalar_bytes(artifact);
    let table: int = 12 + artifact.code.len() as int;
    let map: int = table + 8 + 4 * artifact.jump_table_offsets.len();
    let rest: int = map + 8 + 20 * artifact.instr_map.len();
    lemma_offset_bytes(artifact.jump_table_offsets, artifact.jump_table_offsets);
    lemma_map_bytes(artifact.instr_map, artifact.instr_map);
    bytes::lemma_le_bytes_len(artifact.format_version as nat, 4);
    bytes::lemma_le_bytes_len(artifact.code.len(), 8);
    bytes::lemma_le_bytes_len(artifact.jump_table_offsets.len(), 8);
    bytes::lemma_le_bytes_len(artifact.instr_map.len(), 8);
    bytes::lemma_le_bytes_len(artifact.memory_size as nat, 8);
    bytes::lemma_le_bytes_len(artifact.pc_start as nat, 8);
    bytes::lemma_le_bytes_len(artifact.pc_base as nat, 8);
    bytes::lemma_le_bytes_len(artifact.max_trace_size as nat, 8);
    bytes::lemma_le_bytes_len(artifact.clk_bump as nat, 8);
    assert(scalars.len() == 41);

    lemma_field(Seq::empty(), artifact.format_version as nat, 4, from_code_on(artifact), 0);
    assert(data =~= Seq::empty() + (bytes::le_bytes(artifact.format_version as nat, 4)
        + from_code_on(artifact)));
    let head: Seq<u8> = bytes::le_bytes(artifact.format_version as nat, 4);
    lemma_field(head, artifact.code.len(), 8, artifact.code + from_table_on(artifact), 4);
    assert(data.subrange(12, table) =~= artifact.code);
    let head: Seq<u8> = head + bytes::le_bytes(artifact.code.len(), 8) + artifact.code;
    lemma_field(
        head,
        artifact.jump_table_offsets.len(),
        8,
        offsets + from_map_on(artifact),
        table,
    );
    assert(data =~= head + (bytes::le_bytes(artifact.jump_table_offsets.len(), 8) + (offsets
        + from_map_on(artifact))));
    assert(data.subrange(table + 8, map) =~= offsets);
    let head: Seq<u8> = head + bytes::le_bytes(artifact.jump_table_offsets.len(), 8) + offsets;
    lemma_field(head, artifact.instr_map.len(), 8, entries + scalars, map);
    assert(data =~= head + (bytes::le_bytes(artifact.instr_map.len(), 8) + (entries + scalars)));
    assert(data.subrange(map + 8, rest) =~= entries);
    assert(data.subrange(rest, rest + 41) =~= scalars);
}

/// The fields after the vectors, where they stand.
proof fn lemma_scalar_fields(artifact: ArtifactModel)
    ensures
        ({
            let data: Seq<u8> = scalar_bytes(artifact);
            &&& data.len() == 41
            &&& field(data, 0, 8) == artifact.memory_size
            &&& field(data, 8, 8) == artifact.pc_start
            &&& field(data, 16, 8) == artifact.pc_base
            &&& field(data, 24, 8) == artifact.max_trace_size
            &&& field(data, 32, 8) == artifact.clk_bump
            &&& data[40] == (if artifact.has_host_call_relocations {
                1u8
            } else {
                0u8
            })
        }),
{
    let data: Seq<u8> = scalar_bytes(artifact);
    bytes::lemma_field_bounds();
    bytes::lemma_le_bytes_len(artifact.memory_size as nat, 8);
    bytes::lemma_le_bytes_len(artifact.pc_start as nat, 8);
    bytes::lemma_le_bytes_len(artifact.pc_base as nat, 8);
    bytes::lemma_le_bytes_len(artifact.max_trace_size as nat, 8);
    bytes::lemma_le_bytes_len(artifact.clk_bump as nat, 8);
    bytes::lemma_le_round_trip(artifact.memory_size as nat, 8);
    bytes::lemma_le_round_trip(artifact.pc_start as nat, 8);
    bytes::lemma_le_round_trip(artifact.pc_base as nat, 8);
    bytes::lemma_le_round_trip(artifact.max_trace_size as nat, 8);
    bytes::lemma_le_round_trip(artifact.clk_bump as nat, 8);
    assert(data.subrange(0, 8) =~= bytes::le_bytes(artifact.memory_size as nat, 8));
    assert(data.subrange(8, 16) =~= bytes::le_bytes(artifact.pc_start as nat, 8));
    assert(data.subrange(16, 24) =~= bytes::le_bytes(artifact.pc_base as nat, 8));
    assert(data.subrange(24, 32) =~= bytes::le_bytes(artifact.max_trace_size as nat, 8));
    assert(data.subrange(32, 40) =~= bytes::le_bytes(artifact.clk_bump as nat, 8));
}

/// A serialized artifact, read field by field, gives back the artifact: the version, the vectors
/// with their lengths before them, and then the numbers and the flag.
pub proof fn law_payload_fields(artifact: ArtifactModel)
    requires
        lengths_fit(artifact),
    ensures
        ({
            let data: Seq<u8> = payload(artifact);
            let table: int = 12 + artifact.code.len() as int;
            let map: int = table + 8 + 4 * artifact.jump_table_offsets.len();
            let rest: int = map + 8 + 20 * artifact.instr_map.len();
            &&& data.len() == rest + 41
            &&& field(data, 0, 4) == artifact.format_version
            &&& field(data, 4, 8) == artifact.code.len()
            &&& data.subrange(12, table) == artifact.code
            &&& field(data, table, 8) == artifact.jump_table_offsets.len()
            &&& forall|i: int|
                0 <= i < artifact.jump_table_offsets.len() ==> field(data, table + 8 + 4 * i, 4)
                    == #[trigger] artifact.jump_table_offsets[i]
            &&& field(data, map, 8) == artifact.instr_map.len()
            &&& forall|i: int|
                0 <= i < artifact.instr_map.len() ==> {
                    let entry: InstrMapEntry = #[trigger] artifact.instr_map[i];
                    let at: int = map + 8 + 20 * i;
                    &&& field(data, at, 4) == entry.instr_index
                    &&& field(data, at + 4, 8) == entry.riscv_pc
                    &&& field(data, at + 12, 4) == entry.start_offset
                    &&& field(data, at + 16, 4) == entry.end_offset
                }
            &&& field(data, rest, 8) == artifact.memory_size
            &&& field(data, rest + 8, 8) == artifact.pc_start
            &&& field(data, rest + 16, 8) == artifact.pc_base
            &&& field(data, rest + 24, 8) == artifact.max_trace_size
            &&& field(data, rest + 32, 8) == artifact.clk_bump
            &&& data[rest + 40] == (if artifact.has_host_call_relocations {
                1u8
            } else {
                0u8
            })
        }),
{
    let data: Seq<u8> = payload(artifact);
    let offsets: Seq<u8> = offset_bytes(artifact.jump_table_offsets);
    let entries: Seq<u8> = map_bytes(artifact.instr_map);
    let scalars: Seq<u8> = scalar_bytes(artifact);
    let table: int = 12 + artifact.code.len() as int;
    let map: int = table + 8 + 4 * artifact.jump_table_offsets.len();
    let rest: int = map + 8 + 20 * artifact.instr_map.len();
    lemma_payload_parts(artifact);
    lemma_offset_bytes(artifact.jump_table_offsets, artifact.jump_table_offsets);
    lemma_map_bytes(artifact.instr_map, artifact.instr_map);
    assert forall|i: int| 0 <= i < artifact.jump_table_offsets.len() implies field(
        data,
        table + 8 + 4 * i,
        4,
    ) == #[trigger] artifact.jump_table_offsets[i] by {
        lemma_offset_at(artifact.jump_table_offsets, i);
        lemma_field_within(data, offsets, table + 8, 4 * i, 4);
    }
    assert forall|i: int| 0 <= i < artifact.instr_map.len() implies ({
        let entry: InstrMapEntry = #[trigger] artifact.instr_map[i];
        let at: int = map + 8 + 20 * i;
        &&& field(data, at, 4) == entry.instr_index
        &&& field(data, at + 4, 8) == entry.riscv_pc
        &&& field(data, at + 12, 4) == entry.start_offset
        &&& field(data, at + 16, 4) == entry.end_offset
    }) by {
        let entry: InstrMapEntry = artifact.instr_map[i];
        let at: int = map + 8 + 20 * i;
        lemma_entry_at(artifact.instr_map, i);
        lemma_entry_fields(entry);
        assert(data.subrange(at, at + 20) =~= entries.subrange(20 * i, 20 * i + 20));
        lemma_field_within(data, entry_bytes(entry), at, 0, 4);
        lemma_field_within(data, entry_bytes(entry), at, 4, 8);
        lemma_field_within(data, entry_bytes(entry), at, 12, 4);
        lemma_field_within(data, entry_bytes(entry), at, 16, 4);
    }
    lemma_scalar_fields(artifact);
    lemma_field_within(data, scalars, rest, 0, 8);
    lemma_field_within(data, scalars, rest, 8, 8);
    lemma_field_within(data, scalars, rest, 16, 8);
    lemma_field_within(data, scalars, rest, 24, 8);
    lemma_field_within(data, scalars, rest, 32, 8);
    assert(data[rest + 40] == data.subrange(rest, rest + 41)[40]);
}

} // verus!
