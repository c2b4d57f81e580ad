use sp1_jit::dump::DumpTransipler;
use sp1_jit::transpiler::{BackendError, EcallHandler, Fragments};

fn fragments() -> Fragments {
    Fragments {
        prologue: vec![0x10],
        epilogue: vec![0xe0],
        bump_clk: vec![0xc0],
        bump_pc: vec![0xb0],
        exit_if_trace_exceeds: vec![0xf0],
        jump_to_pc: vec![0xa0],
    }
}

fn new_dump() -> DumpTransipler {
    DumpTransipler::new(12, 1024 * 2, 10, 100, 100, 8, fragments()).unwrap()
}

#[test]
fn dump_refuses_a_starting_pc_below_base() {
    let dump = DumpTransipler::new(0, 0, 0, 0, 1, 8, fragments());
    assert!(matches!(dump, Err(BackendError::PcStartBelowBase)));
}

#[test]
fn each_instruction_is_dumped() {
    let mut dump = new_dump();
    dump.register_ecall_handler(EcallHandler::Host(1));
    dump.start_instr();
    dump.emit(&[1, 2]);
    dump.end_instr();
    dump.start_instr();
    dump.mark_control_flow();
    dump.mark_may_early_exit();
    dump.end_instr();
    dump.start_instr();
    dump.call_extern_fn(&[3], &[4]);
    dump.inspect_register(&[5], &[6]);
    dump.inspect_immediate(7, &[8]);
    dump.end_instr();
    assert!(dump.has_ranges());

    let (function, files) = dump.finalize();
    assert_eq!(files.len(), 4);
    assert_eq!(files[0].path, "/tmp/sp1_minimal_code_full.bin");
    assert_eq!(files[0].contents, function.code);
    assert_eq!(files[1].path, "/tmp/sp1_minimal_code_inst0.bin");
    assert_eq!(files[1].contents, [1, 2, 0xc0, 0xb0]);
    assert_eq!(files[2].path, "/tmp/sp1_minimal_code_inst1.bin");
    assert_eq!(files[2].contents, [0xc0, 0xf0, 0xa0]);
    assert_eq!(files[3].path, "/tmp/sp1_minimal_code_inst2.bin");
    assert_eq!(
        files[3].contents,
        [3, 4, 5, 6, 0x48, 0xc7, 0xc7, 7, 0, 0, 0, 8, 0xc0, 0xb0]
    );
    assert_eq!(function.jump_table, [1, 5, 8]);
}

#[test]
fn paths_are_numbered_in_decimal() {
    let mut dump = new_dump();
    for _ in 0..12 {
        dump.start_instr();
        dump.end_instr();
    }
    let (_, files) = dump.finalize();
    assert_eq!(files.len(), 13);
    assert_eq!(files[10].path, "/tmp/sp1_minimal_code_inst9.bin");
    assert_eq!(files[11].path, "/tmp/sp1_minimal_code_inst10.bin");
    assert_eq!(files[12].path, "/tmp/sp1_minimal_code_inst11.bin");
}

#[test]
fn started_instruction_without_end_is_not_dumped() {
    let mut dump = new_dump();
    dump.start_instr();
    dump.end_instr();
    assert!(!dump.is_instruction_started());
    dump.start_instr();
    assert!(dump.is_instruction_started());
    dump.emit(&[9]);
    assert!(dump.has_ranges());
    let (function, files) = dump.finalize();
    assert_eq!(files.len(), 2);
    assert_eq!(function.code, [0x10, 0xc0, 0xb0, 9, 0xe0]);
}

#[test]
fn end_before_a_start_spoils_the_ranges() {
    let mut dump = new_dump();
    dump.end_instr();
    dump.emit(&[1]);
    dump.start_instr();
    assert!(!dump.has_ranges());
}

#[test]
fn test_decode_jit_dump() {
    let max_trace_size = 10;
    let raw_instructions: Vec<u32> = vec![
        0x00e48513, // addi a0, s1, 14
        0x01273423, // sd s2, 8(a4)
        0x01273023, // sd s2, 0(a4)
        0x234010ef, // jal ra, 0x1234
        0x010600e7, // jalr ra, 0x10(a2)
        0x01049533, // sll a0, s1, a6
        0x0124e433, // or s0, s1, s2
        0x00a5f533, // and a0, a1, a0
        0x02a58533, // mul a0, a1, a0
        0x01148603, // lb a2, 17(s1)
        0x0044a603, // lw a2, 4(s1)
        0x0064e603, // lwu a2, 6(s1)
    ];
    let mut dump = DumpTransipler::new(
        raw_instructions.len(),
        1024 * 2, // max memory size
        max_trace_size,
        100, // PC start
        100, // PC base
        8,   // clk bump
        fragments(),
    )
    .unwrap();

    // The instruction words stand for the code of the instructions.
    for word in &raw_instructions {
        assert!(dump.can_start_instr());
        dump.start_instr();
        dump.emit(&word.to_le_bytes());
        if matches!(word & 0x7f, 0x6f | 0x67) {
            dump.mark_control_flow();
        }
        dump.end_instr();
    }
    assert!(dump.has_code());
    assert!(dump.has_ranges());
    let (function, files) = dump.finalize();

    assert_eq!(function.jump_table.len(), raw_instructions.len());
    assert_eq!(function.memory_size, 2048);
    assert_eq!(function.pc_start, 100);
    assert_eq!(files.len(), 1 + raw_instructions.len());
    assert_eq!(files[0].contents, function.code);
    for (i, word) in raw_instructions.iter().enumerate() {
        let mut expected = word.to_le_bytes().to_vec();
        expected.push(0xc0);
        expected.push(if i == 3 || i == 4 { 0xa0 } else { 0xb0 });
        assert_eq!(files[i + 1].path, format!("/tmp/sp1_minimal_code_inst{i}.bin"));
        assert_eq!(files[i + 1].contents, expected);
    }
}
