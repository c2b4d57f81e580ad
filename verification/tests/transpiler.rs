use sp1_jit::cache::{InstrMapEntry, JitArtifact};
use sp1_jit::transpiler::{BackendError, EcallHandler, Fragments, TranspilerBackend};

fn fragments() -> Fragments {
    Fragments {
        prologue: vec![0x10, 0x11],
        epilogue: vec![0xe0, 0xe1, 0xe2],
        bump_clk: vec![0xc0],
        bump_pc: vec![0xb0, 0xb1],
        exit_if_trace_exceeds: vec![0xf0],
        jump_to_pc: vec![0xa0, 0xa1],
    }
}

fn new_backend() -> TranspilerBackend {
    TranspilerBackend::new(0, 1024 * 2, 1000, 100, 100, 8, fragments()).unwrap()
}

fn fields(entry: &InstrMapEntry) -> (u32, u64, u32, u32) {
    (entry.instr_index, entry.riscv_pc, entry.start_offset, entry.end_offset)
}

#[test]
fn starting_pc_below_base_is_refused() {
    let backend = TranspilerBackend::new(0, 0, 0, 99, 100, 8, fragments());
    assert!(matches!(backend, Err(BackendError::PcStartBelowBase)));
}

#[test]
fn starting_pc_at_or_above_base_is_accepted() {
    assert!(TranspilerBackend::new(0, 0, 0, 100, 100, 8, fragments()).is_ok());
    assert!(TranspilerBackend::new(12, 0, 0, u64::MAX, 0, 8, fragments()).is_ok());
}

#[test]
fn new_backend_has_the_prologue_and_no_instruction() {
    let backend = new_backend();
    assert_eq!(backend.offset(), 2);
    assert!(backend.instr_map().is_empty());
    assert!(!backend.has_embedded_host_calls());
    assert!(!backend.is_instruction_started());
    assert!(matches!(backend.ecall_handler(), EcallHandler::Dummy));
    let function = backend.finalize();
    assert_eq!(function.code, [0x10, 0x11, 0xe0, 0xe1, 0xe2]);
    assert!(function.jump_table.is_empty());
}

#[test]
fn registered_handler_is_kept() {
    let mut backend = new_backend();
    backend.register_ecall_handler(EcallHandler::Host(0xabc));
    assert!(matches!(backend.ecall_handler(), EcallHandler::Host(0xabc)));
    assert_eq!(backend.finalize().code, [0x10, 0x11, 0xe0, 0xe1, 0xe2]);
}

#[test]
fn instruction_bumps_clock_and_pc() {
    let mut backend = new_backend();
    backend.start_instr();
    assert!(backend.is_instruction_started());
    assert_eq!(fields(&backend.instr_map()[0]), (0, 100, 2, 2));
    backend.emit(&[1, 2, 3]);
    backend.end_instr();
    assert!(!backend.is_instruction_started());
    assert_eq!(fields(&backend.instr_map()[0]), (0, 100, 2, 8));
    let code = backend.finalize().code;
    assert_eq!(code, [0x10, 0x11, 1, 2, 3, 0xc0, 0xb0, 0xb1, 0xe0, 0xe1, 0xe2]);
}

#[test]
fn instruction_that_may_exit_bumps_the_pc_first() {
    let mut backend = new_backend();
    backend.start_instr();
    backend.mark_may_early_exit();
    backend.end_instr();
    let code = backend.finalize().code;
    assert_eq!(code, [0x10, 0x11, 0xc0, 0xb0, 0xb1, 0xf0, 0xe0, 0xe1, 0xe2]);
}

#[test]
fn control_flow_instruction_jumps() {
    let mut backend = new_backend();
    backend.start_instr();
    backend.mark_control_flow();
    backend.end_instr();
    let code = backend.finalize().code;
    assert_eq!(code, [0x10, 0x11, 0xc0, 0xa0, 0xa1, 0xe0, 0xe1, 0xe2]);
}

#[test]
fn control_flow_instruction_that_may_exit_checks_before_it_jumps() {
    let mut backend = new_backend();
    backend.start_instr();
    backend.mark_control_flow();
    backend.mark_may_early_exit();
    backend.end_instr();
    let code = backend.finalize().code;
    assert_eq!(code, [0x10, 0x11, 0xc0, 0xf0, 0xa0, 0xa1, 0xe0, 0xe1, 0xe2]);
}

#[test]
fn marks_hold_for_one_instruction() {
    let mut backend = new_backend();
    backend.start_instr();
    backend.mark_control_flow();
    backend.mark_may_early_exit();
    backend.end_instr();
    let first_end = backend.offset();
    backend.start_instr();
    backend.end_instr();
    assert_eq!(backend.finalize().code[first_end..], [0xc0, 0xb0, 0xb1, 0xe0, 0xe1, 0xe2]);
}

#[test]
fn ranges_hold_the_code_of_their_instructions() {
    let mut backend = new_backend();
    for body in [&[1u8, 2][..], &[][..], &[3, 4, 5][..]] {
        backend.start_instr();
        backend.emit(body);
        backend.end_instr();
    }
    let map: Vec<InstrMapEntry> = backend.instr_map().to_vec();
    assert_eq!(
        map.iter().map(fields).collect::<Vec<_>>(),
        [(0, 100, 2, 7), (1, 104, 7, 10), (2, 108, 10, 16)]
    );
    let function = backend.finalize();
    assert_eq!(function.jump_table, [2, 7, 10]);
    let code = |i: usize| &function.code[map[i].start_offset as usize..map[i].end_offset as usize];
    assert_eq!(code(0), [1, 2, 0xc0, 0xb0, 0xb1]);
    assert_eq!(code(1), [0xc0, 0xb0, 0xb1]);
    assert_eq!(code(2), [3, 4, 5, 0xc0, 0xb0, 0xb1]);
}

#[test]
fn end_without_an_instruction_appends_code() {
    let mut backend = new_backend();
    backend.end_instr();
    assert!(backend.instr_map().is_empty());
    assert_eq!(backend.offset(), 5);
}

#[test]
fn second_end_moves_the_last_range() {
    let mut backend = new_backend();
    backend.start_instr();
    backend.end_instr();
    backend.end_instr();
    assert_eq!(fields(&backend.instr_map()[0]), (0, 100, 2, 8));
}

#[test]
fn extern_call_is_embedded() {
    let mut backend = new_backend();
    backend.call_extern_fn(&[0x21], &[0x31, 0x32]);
    assert!(backend.has_embedded_host_calls());
    assert_eq!(backend.finalize().code, [0x10, 0x11, 0x21, 0x31, 0x32, 0xe0, 0xe1, 0xe2]);
}

#[test]
fn register_inspection_is_embedded() {
    let mut backend = new_backend();
    backend.inspect_register(&[0x22, 0x23], &[0x33]);
    assert!(backend.has_embedded_host_calls());
    assert_eq!(backend.finalize().code, [0x10, 0x11, 0x22, 0x23, 0x33, 0xe0, 0xe1, 0xe2]);
}

#[test]
fn immediate_inspection_loads_the_low_bits() {
    let mut backend = new_backend();
    backend.inspect_immediate(0xffff_ffff_89ab_cdef, &[0x34]);
    assert!(backend.has_embedded_host_calls());
    assert_eq!(
        backend.finalize().code[2..10],
        [0x48, 0xc7, 0xc7, 0xef, 0xcd, 0xab, 0x89, 0x34]
    );
}

#[test]
fn function_is_at_its_start() {
    let backend = TranspilerBackend::new(0, 4096, 1000, 108, 100, 8, fragments()).unwrap();
    let function = backend.finalize();
    assert_eq!(function.memory_size, 4096);
    assert_eq!(function.pc, 108);
    assert_eq!(function.pc_start, 108);
    assert_eq!(function.clk, 1);
    assert_eq!(function.global_clk, 0);
    assert_eq!(function.registers, [0; 32]);
}

fn two_instructions() -> TranspilerBackend {
    let mut backend = new_backend();
    backend.start_instr();
    backend.emit(&[0x0f, 0x0b]);
    backend.end_instr();
    backend.start_instr();
    backend.call_extern_fn(&[0x55], &[0x66]);
    backend.mark_control_flow();
    backend.end_instr();
    backend
}

#[test]
fn finalize_with_artifact_is_finalize_and_to_artifact() {
    let map = two_instructions().instr_map().to_vec();
    let function = two_instructions().finalize();
    let artifact = function.to_artifact(map, 100, 1000, 8, true);
    let (other_function, other_artifact) = two_instructions().finalize_with_artifact();
    assert_eq!(format!("{other_function:?}"), format!("{function:?}"));
    assert_eq!(format!("{other_artifact:?}"), format!("{artifact:?}"));
    assert!(other_artifact.has_host_call_relocations);
    assert_eq!(other_artifact.pc_base, 100);
    assert_eq!(other_artifact.max_trace_size, 1000);
    assert_eq!(other_artifact.clk_bump, 8);
}

#[test]
fn artifact_recreates_the_function() {
    let (function, artifact) = two_instructions().finalize_with_artifact();
    assert_eq!(format!("{:?}", artifact.into_jit_function()), format!("{function:?}"));
}

#[test]
fn artifact_of_a_backend_can_be_exported() {
    let (_, artifact) = two_instructions().finalize_with_artifact();
    assert!(artifact.can_export());
    assert!(artifact.to_elf().is_ok());
}

#[test]
fn instruction_cannot_be_started_within_another() {
    let mut backend = new_backend();
    assert!(backend.can_start_instr());
    backend.start_instr();
    assert!(!backend.can_start_instr());
    backend.end_instr();
    assert!(backend.can_start_instr());
}

#[test]
fn instruction_cannot_be_started_without_a_pc() {
    let top = u64::MAX;
    let mut backend = TranspilerBackend::new(0, 0, 0, top, top, 8, fragments()).unwrap();
    assert!(backend.can_start_instr());
    backend.start_instr();
    backend.end_instr();
    assert!(!backend.can_start_instr());
}

#[test]
fn code_without_any_bytes_is_found() {
    let empty = || Fragments {
        prologue: Vec::new(),
        epilogue: Vec::new(),
        bump_clk: Vec::new(),
        bump_pc: Vec::new(),
        exit_if_trace_exceeds: Vec::new(),
        jump_to_pc: Vec::new(),
    };
    let mut backend = TranspilerBackend::new(0, 0, 0, 0, 0, 8, empty()).unwrap();
    assert!(!backend.has_code());
    backend.emit(&[0xc3]);
    assert!(backend.has_code());
    assert!(new_backend().has_code());
}

#[test]
fn cache_file_recreates_the_function() {
    let (function, artifact) = two_instructions().finalize_with_artifact();
    let data = artifact.to_cache_bytes().unwrap();
    let read = JitArtifact::from_cache_bytes(&data).unwrap();
    assert_eq!(format!("{:?}", read.into_jit_function()), format!("{function:?}"));
}

#[test]
fn every_start_has_its_entry() {
    let mut backend = new_backend();
    for i in 0..100u8 {
        backend.emit(&[i]);
        backend.start_instr();
        backend.emit(&vec![i; usize::from(i % 5)]);
        backend.end_instr();
    }
    let map = backend.instr_map();
    assert_eq!(map.len(), 100);
    for (i, entry) in map.iter().enumerate() {
        assert_eq!(entry.instr_index as usize, i);
        assert_eq!(entry.riscv_pc, 100 + 4 * i as u64);
        assert!(entry.start_offset <= entry.end_offset);
        assert!(i == 0 || map[i - 1].end_offset <= entry.start_offset);
    }
    assert!(map.len() <= backend.offset());
}

#[test]
fn host_call_is_remembered() {
    let mut backend = new_backend();
    backend.start_instr();
    backend.emit(&[1]);
    backend.mark_control_flow();
    backend.mark_may_early_exit();
    backend.register_ecall_handler(EcallHandler::Host(1));
    backend.end_instr();
    assert!(!backend.has_embedded_host_calls());
    backend.start_instr();
    backend.inspect_register(&[2], &[3]);
    assert!(backend.has_embedded_host_calls());
    backend.emit(&[4]);
    backend.end_instr();
    backend.start_instr();
    backend.end_instr();
    backend.register_ecall_handler(EcallHandler::Dummy);
    assert!(backend.has_embedded_host_calls());
}

#[test]
fn instructions_without_code_are_numbered() {
    let empty = Fragments {
        prologue: Vec::new(),
        epilogue: Vec::new(),
        bump_clk: Vec::new(),
        bump_pc: Vec::new(),
        exit_if_trace_exceeds: Vec::new(),
        jump_to_pc: Vec::new(),
    };
    let mut backend = TranspilerBackend::new(0, 0, 0, 8, 8, 8, empty).unwrap();
    for _ in 0..3 {
        backend.start_instr();
        backend.end_instr();
    }
    let map: Vec<_> = backend.instr_map().iter().map(fields).collect();
    assert_eq!(map, [(0, 8, 0, 0), (1, 12, 0, 0), (2, 16, 0, 0)]);
}
