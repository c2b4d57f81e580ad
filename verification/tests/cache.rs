use sp1_jit::cache::{CacheError, InstrMapEntry, JitArtifact};
use sp1_jit::function::JitFunction;

fn artifact() -> JitArtifact {
    JitArtifact {
        format_version: 1,
        code: vec![0x90, 0x90, 0xc3],
        jump_table_offsets: vec![0, 2],
        instr_map: vec![
            InstrMapEntry { instr_index: 0, riscv_pc: 100, start_offset: 0, end_offset: 2 },
            InstrMapEntry { instr_index: 1, riscv_pc: 104, start_offset: 2, end_offset: 3 },
        ],
        memory_size: 2048,
        pc_start: 104,
        pc_base: 100,
        max_trace_size: 1000,
        clk_bump: 8,
        has_host_call_relocations: true,
    }
}

fn artifact_bytes() -> Vec<u8> {
    let mut data = b"SP1JIT\x00\x01".to_vec();
    data.extend_from_slice(&[1, 0, 0, 0]);
    data.extend_from_slice(&[3, 0, 0, 0, 0, 0, 0, 0, 0x90, 0x90, 0xc3]);
    data.extend_from_slice(&[2, 0, 0, 0, 0, 0, 0, 0, 0, 0, 0, 0, 2, 0, 0, 0]);
    data.extend_from_slice(&[2, 0, 0, 0, 0, 0, 0, 0]);
    data.extend_from_slice(&[0, 0, 0, 0, 100, 0, 0, 0, 0, 0, 0, 0, 0, 0, 0, 0, 2, 0, 0, 0]);
    data.extend_from_slice(&[1, 0, 0, 0, 104, 0, 0, 0, 0, 0, 0, 0, 2, 0, 0, 0, 3, 0, 0, 0]);
    data.extend_from_slice(&2048u64.to_le_bytes());
    data.extend_from_slice(&104u64.to_le_bytes());
    data.extend_from_slice(&100u64.to_le_bytes());
    data.extend_from_slice(&1000u64.to_le_bytes());
    data.extend_from_slice(&8u64.to_le_bytes());
    data.push(1);
    data
}

fn assert_same(a: &JitArtifact, b: &JitArtifact) {
    assert_eq!(format!("{a:?}"), format!("{b:?}"));
}

#[test]
fn cache_file_has_known_bytes() {
    assert_eq!(artifact().to_cache_bytes().unwrap(), artifact_bytes());
}

#[test]
fn cache_file_is_the_magic_and_what_bincode_makes() {
    let artifact = artifact();
    let entries: Vec<(u32, u64, u32, u32)> = artifact
        .instr_map
        .iter()
        .map(|e| (e.instr_index, e.riscv_pc, e.start_offset, e.end_offset))
        .collect();
    let encoded = bincode::serialize(&(
        artifact.format_version,
        &artifact.code,
        &artifact.jump_table_offsets,
        &entries,
        artifact.memory_size,
        artifact.pc_start,
        artifact.pc_base,
        artifact.max_trace_size,
        artifact.clk_bump,
        artifact.has_host_call_relocations,
    ))
    .unwrap();
    let data = artifact.to_cache_bytes().unwrap();
    assert_eq!(&data[..8], b"SP1JIT\x00\x01");
    assert_eq!(&data[8..], &encoded[..]);
}

#[test]
fn artifact_is_read_back() {
    let written = artifact();
    let read = JitArtifact::from_cache_bytes(&written.to_cache_bytes().unwrap()).unwrap();
    assert_same(&read, &written);
}

#[test]
fn empty_artifact_is_read_back() {
    let written = JitArtifact {
        format_version: u32::MAX,
        code: Vec::new(),
        jump_table_offsets: Vec::new(),
        instr_map: Vec::new(),
        memory_size: 0,
        pc_start: u64::MAX,
        pc_base: 0,
        max_trace_size: 0,
        clk_bump: 0,
        has_host_call_relocations: false,
    };
    let data = written.to_cache_bytes().unwrap();
    assert_eq!(data.len(), 8 + 4 + 3 * 8 + 5 * 8 + 1);
    assert_same(&JitArtifact::from_cache_bytes(&data).unwrap(), &written);
}

#[test]
fn different_artifacts_have_different_files() {
    let mut other = artifact();
    other.jump_table_offsets = vec![0, 1];
    assert_ne!(other.to_cache_bytes().unwrap(), artifact().to_cache_bytes().unwrap());
}

#[test]
fn bytes_after_the_artifact_are_ignored() {
    let mut data = artifact_bytes();
    data.extend_from_slice(&[1, 2, 3]);
    assert_same(&JitArtifact::from_cache_bytes(&data).unwrap(), &artifact());
}

#[test]
fn other_magic_is_refused() {
    let mut data = artifact_bytes();
    data[7] = 2;
    assert!(matches!(JitArtifact::from_cache_bytes(&data), Err(CacheError::InvalidMagic)));
}

#[test]
fn short_data_is_refused() {
    assert!(matches!(JitArtifact::from_cache_bytes(&[]), Err(CacheError::InvalidMagic)));
    let data = &artifact_bytes()[..7];
    assert!(matches!(JitArtifact::from_cache_bytes(data), Err(CacheError::InvalidMagic)));
}

#[test]
fn truncated_artifact_is_refused() {
    let data = artifact_bytes();
    for len in 8..data.len() {
        let read = JitArtifact::from_cache_bytes(&data[..len]);
        assert!(matches!(read, Err(CacheError::Payload(_))), "{len}");
    }
}

#[test]
fn flag_other_than_zero_or_one_is_refused() {
    let mut data = artifact_bytes();
    *data.last_mut().unwrap() = 2;
    assert!(matches!(JitArtifact::from_cache_bytes(&data), Err(CacheError::Payload(_))));
}

fn assert_unstarted(function: &JitFunction, pc_start: u64) {
    assert_eq!(function.pc, pc_start);
    assert_eq!(function.pc_start, pc_start);
    assert_eq!(function.clk, 1);
    assert_eq!(function.global_clk, 0);
    assert_eq!(function.registers, [0; 32]);
    assert_eq!(format!("{:?}", function.initial_memory_image), "MemoryImage { words: {} }");
    assert!(function.input_buffer.is_empty());
    assert!(function.hints.is_empty());
    assert!(function.public_values_stream.is_empty());
    assert_eq!(function.exit_code, 0);
}

#[test]
fn artifact_becomes_a_function() {
    let function = artifact().into_jit_function();
    assert_eq!(function.code, [0x90, 0x90, 0xc3]);
    assert_eq!(function.jump_table, [0, 2]);
    assert_eq!(function.memory_size, 2048);
    assert_unstarted(&function, 104);
}

#[test]
fn function_becomes_an_artifact_and_a_function_again() {
    let function = JitFunction::from_bytes(vec![1, 2, 3, 4], vec![1, 3, 4], 512, 77);
    assert_unstarted(&function, 77);
    let entry = InstrMapEntry { instr_index: 5, riscv_pc: 6, start_offset: 7, end_offset: 8 };
    let artifact = function.to_artifact(vec![entry], 70, 10, 9, false);
    assert_eq!(artifact.format_version, 1);
    assert_eq!(artifact.code, [1, 2, 3, 4]);
    assert_eq!(artifact.jump_table_offsets, [1, 3, 4]);
    assert_eq!(artifact.instr_map.len(), 1);
    assert_eq!(artifact.instr_map[0].riscv_pc, 6);
    assert_eq!(artifact.memory_size, 512);
    assert_eq!(artifact.pc_start, 77);
    assert_eq!(artifact.pc_base, 70);
    assert_eq!(artifact.max_trace_size, 10);
    assert_eq!(artifact.clk_bump, 9);
    assert!(!artifact.has_host_call_relocations);
    assert_eq!(format!("{:?}", artifact.into_jit_function()), format!("{function:?}"));
}

#[test]
fn jump_addresses_count_from_the_base() {
    let function = JitFunction::from_bytes(vec![0; 4], vec![0, 2, 4, 9], 0, 0);
    assert!(function.has_addresses_at(0x7000));
    assert_eq!(function.jump_addresses(0x7000), [0x7000, 0x7002, 0x7004, 0x7009]);
}

#[test]
fn offsets_that_leave_the_address_space_are_found() {
    let function = JitFunction::from_bytes(vec![0; 4], vec![0, 4], 0, 0);
    assert!(function.has_addresses_at(usize::MAX - 4));
    assert!(!function.has_addresses_at(usize::MAX - 3));
}
