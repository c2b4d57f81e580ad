use sp1_jit::linux_perf::{
    is_enabled, timestamp_nanos, JitHeader, Machine, PerfJitProfiler, ENABLE_VARIABLE,
};

fn profiler() -> PerfJitProfiler {
    PerfJitProfiler::new("1", Machine::X86_64, 7, 0).unwrap().0
}

#[test]
fn profiler_is_on_only_when_set_to_one() {
    assert_eq!(ENABLE_VARIABLE, "ENABLE_PERF_JITDUMP");
    assert!(is_enabled("1"));
    assert!(PerfJitProfiler::new("1", Machine::X86_64, 1, 0).is_some());
    for setting in ["", "0", "11", "true", " 1", "\u{661}"] {
        assert!(!is_enabled(setting), "{setting}");
        assert!(PerfJitProfiler::new(setting, Machine::X86_64, 1, 0).is_none(), "{setting}");
    }
}

#[test]
fn dump_file_is_that_of_the_process() {
    let (_, dump) = PerfJitProfiler::new("1", Machine::X86_64, 12_340, 5).unwrap();
    assert_eq!(dump.path, "/tmp/jit-12340.dump");
    let (_, dump) = PerfJitProfiler::new("1", Machine::X86_64, 0, 5).unwrap();
    assert_eq!(dump.path, "/tmp/jit-0.dump");
}

#[test]
fn header_has_known_bytes() {
    let (state, dump) =
        PerfJitProfiler::new("1", Machine::X86_64, 0x0102_0304, 0x1122_3344_5566_7788).unwrap();
    assert_eq!(state.registered(), 0);
    assert_eq!(
        dump.header,
        [
            0x44, 0x54, 0x69, 0x4a, // magic
            1, 0, 0, 0, // version
            40, 0, 0, 0, // size
            62, 0, 0, 0, // machine
            0, 0, 0, 0, // padding
            4, 3, 2, 1, // process
            0x88, 0x77, 0x66, 0x55, 0x44, 0x33, 0x22, 0x11, // time
            0, 0, 0, 0, 0, 0, 0, 0, // flags
        ]
    );
    assert_eq!(dump.header[8] as usize, dump.header.len());
}

#[test]
fn machines_have_their_numbers() {
    assert_eq!(Machine::X86_64.elf_mach(), 62);
    assert_eq!(Machine::Aarch64.elf_mach(), 183);
    let (_, dump) = PerfJitProfiler::new("1", Machine::Aarch64, 1, 0).unwrap();
    assert_eq!(dump.header[12..16], [183, 0, 0, 0]);
}

#[test]
fn header_fields_stand_in_order() {
    let header = JitHeader {
        magic: 1,
        version: 2,
        total_size: 3,
        elf_mach: 4,
        pad1: 5,
        pid: 6,
        timestamp: 7,
        flags: 8,
    };
    let data = header.to_bytes();
    let words: Vec<u32> =
        data[..24].chunks(4).map(|c| u32::from_le_bytes(c.try_into().unwrap())).collect();
    assert_eq!(words, [1, 2, 3, 4, 5, 6]);
    assert_eq!(data[24..], [7, 0, 0, 0, 0, 0, 0, 0, 8, 0, 0, 0, 0, 0, 0, 0]);
}

#[test]
fn record_has_known_bytes() {
    let mut profiler = profiler();
    assert!(profiler.can_register("f\u{e9}", &[0x90, 0xc3]));
    let record =
        profiler.register_function("f\u{e9}", 0x7f00_1234, &[0x90, 0xc3], 0x11, 0x22, 0x33);
    assert_eq!(
        record,
        [
            0, 0, 0, 0, // code load
            62, 0, 0, 0, // 56 + 4 + 2
            0x33, 0, 0, 0, 0, 0, 0, 0, // time
            0x11, 0, 0, 0, // process
            0x22, 0, 0, 0, // thread
            0x34, 0x12, 0, 0x7f, 0, 0, 0, 0, // virtual address
            0x34, 0x12, 0, 0x7f, 0, 0, 0, 0, // address
            2, 0, 0, 0, 0, 0, 0, 0, // length of the code
            1, 0, 0, 0, 0, 0, 0, 0, // number of the function
            b'f', 0xc3, 0xa9, 0, // name
            0x90, 0xc3, // code
        ]
    );
}

#[test]
fn records_state_their_length() {
    let mut profiler = profiler();
    let mut dump = Vec::new();
    for (name, len) in [("", 0), ("a", 1), ("some_function", 300)] {
        let record = profiler.register_function(name, 0, &vec![1; len], 0, 0, 0);
        assert_eq!(record.len(), 56 + name.len() + 1 + len);
        dump.extend(record);
    }
    let mut at = 0;
    let mut records = 0;
    while at < dump.len() {
        assert_eq!(dump[at + 48..at + 56], (records + 1u64).to_le_bytes());
        at += u32::from_le_bytes(dump[at + 4..at + 8].try_into().unwrap()) as usize;
        records += 1;
    }
    assert_eq!((at, records), (dump.len(), 3));
}

#[test]
fn functions_are_numbered_from_one() {
    let mut profiler = profiler();
    for number in 1..=3u64 {
        let record = profiler.register_function("f", 0, &[], 0, 0, 0);
        assert_eq!(record[48..56], number.to_le_bytes());
        assert_eq!(profiler.registered(), number);
    }
}

#[test]
fn timestamps_are_in_nanoseconds() {
    assert_eq!(timestamp_nanos(0, 0), 0);
    assert_eq!(timestamp_nanos(0, 999_999_999), 999_999_999);
    assert_eq!(timestamp_nanos(12, 345), 12_000_000_345);
}
