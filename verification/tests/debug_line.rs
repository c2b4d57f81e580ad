use sp1_jit::cache::InstrMapEntry;
use sp1_jit::debug_line::{build_debug_line_section, has_fitting_lines};

fn entry(instr_index: u32, riscv_pc: u64, start_offset: u32, end_offset: u32) -> InstrMapEntry {
    InstrMapEntry { instr_index, riscv_pc, start_offset, end_offset }
}

// What follows the length of the unit, up to the line program.
fn header() -> Vec<u8> {
    let mut data = vec![4, 0, 36, 0, 0, 0];
    data.extend_from_slice(&[1, 1, 1, 0, 1, 13]);
    data.extend_from_slice(&[0, 1, 1, 1, 1, 0, 0, 0, 1, 0, 0, 1]);
    data.push(0);
    data.extend_from_slice(b"riscv_pc.map\0");
    data.extend_from_slice(&[0, 0, 0, 0]);
    data
}

fn section(program: &[u8]) -> Vec<u8> {
    let header = header();
    let mut data = ((header.len() + program.len()) as u32).to_le_bytes().to_vec();
    data.extend_from_slice(&header);
    data.extend_from_slice(program);
    data
}

// The rows of a section, read as a debugger reads them: an address and a line each; and the
// address that the table ends at.
fn rows(section: &[u8]) -> (Vec<(u64, i64)>, u64) {
    assert_eq!(u32::from_le_bytes(section[0..4].try_into().unwrap()) as usize, section.len() - 4);
    let header_length = u32::from_le_bytes(section[6..10].try_into().unwrap()) as usize;
    let mut at = 10 + header_length;
    let (mut address, mut file, mut line) = (0u64, 1u8, 1i64);
    let mut rows = Vec::new();
    loop {
        match section[at] {
            0 => {
                let len = section[at + 1] as usize;
                match section[at + 2] {
                    1 => {
                        assert_eq!(at + 2 + len, section.len());
                        return (rows, address);
                    }
                    2 => {
                        address = u64::from_le_bytes(section[at + 3..at + 11].try_into().unwrap());
                    }
                    other => panic!("extended opcode {other}"),
                }
                at += 2 + len;
            }
            1 => {
                assert_eq!(file, 1);
                rows.push((address, line));
                at += 1;
            }
            3 => {
                at += 1;
                let (mut delta, mut shift) = (0i128, 0);
                loop {
                    let byte = section[at];
                    at += 1;
                    delta |= i128::from(byte & 0x7f) << shift;
                    shift += 7;
                    if byte & 0x80 == 0 {
                        if byte & 0x40 != 0 {
                            delta -= 1i128 << shift;
                        }
                        break;
                    }
                }
                line += delta as i64;
            }
            4 => {
                file = section[at + 1];
                at += 2;
            }
            other => panic!("opcode {other}"),
        }
    }
}

#[test]
fn empty_map_has_no_row() {
    let data = build_debug_line_section(&[]);
    assert_eq!(data, section(&[4, 1, 0, 1, 1]));
    assert_eq!(data.len(), 51);
    assert_eq!(data[0..4], [47, 0, 0, 0]);
    assert_eq!(rows(&data), (Vec::new(), 0));
}

#[test]
fn one_instruction_has_known_bytes() {
    let data = build_debug_line_section(&[entry(0, 100, 0x1234, 0x1240)]);
    let program = [
        4, 1, // file
        0, 9, 2, 0x34, 0x12, 0, 0, 0, 0, 0, 0, // address
        3, 0xe4, 0x00, // line 1 + 100
        1, // row
        0, 9, 2, 0x40, 0x12, 0, 0, 0, 0, 0, 0, // end address
        0, 1, 1, // end
    ];
    assert_eq!(data, section(&program));
}

#[test]
fn line_stays_where_the_pc_stays() {
    let data = build_debug_line_section(&[entry(0, 0, 3, 5), entry(1, 0, 5, 9)]);
    let program = [
        4, 1, 0, 9, 2, 3, 0, 0, 0, 0, 0, 0, 0, 1, 0, 9, 2, 5, 0, 0, 0, 0, 0, 0, 0, 1, 0, 9, 2, 9,
        0, 0, 0, 0, 0, 0, 0, 0, 1, 1,
    ];
    assert_eq!(data, section(&program));
}

#[test]
fn line_goes_back_with_the_pc() {
    let data = build_debug_line_section(&[entry(0, 8, 0, 4), entry(1, 4, 4, 8)]);
    let program = [
        4, 1, 0, 9, 2, 0, 0, 0, 0, 0, 0, 0, 0, 3, 8, 1, 0, 9, 2, 4, 0, 0, 0, 0, 0, 0, 0, 3, 0x7c,
        1, 0, 9, 2, 8, 0, 0, 0, 0, 0, 0, 0, 0, 1, 1,
    ];
    assert_eq!(data, section(&program));
}

#[test]
fn rows_are_read_back() {
    let map = [
        entry(0, 0x1000, 16, 40),
        entry(1, 0x1004, 40, 41),
        entry(2, 0x7fff_ffff_0000, 41, 1000),
        entry(3, 0, 1000, u32::MAX),
        entry(4, u64::MAX, u32::MAX, u32::MAX),
    ];
    assert!(has_fitting_lines(&map));
    let expected: Vec<(u64, i64)> =
        map.iter().map(|e| (u64::from(e.start_offset), e.riscv_pc as i64 + 1)).collect();
    assert_eq!(rows(&build_debug_line_section(&map)), (expected, u64::from(u32::MAX)));
}

#[test]
fn lines_that_do_not_fit_are_found() {
    let max = i64::MAX as u64;
    assert!(has_fitting_lines(&[]));
    assert!(has_fitting_lines(&[entry(0, max - 1, 0, 1)]));
    // The line would be one more than the largest.
    assert!(!has_fitting_lines(&[entry(0, max, 0, 1)]));
    // The smallest line is one more than the smallest number.
    assert!(has_fitting_lines(&[entry(0, max + 1, 0, 1)]));
    // The step from the largest line to the smallest does not fit.
    assert!(!has_fitting_lines(&[entry(0, max - 1, 0, 1), entry(1, max + 1, 1, 2)]));
    assert!(!has_fitting_lines(&[entry(0, max + 1, 0, 1), entry(1, max - 1, 1, 2)]));
}

// The lines that a lookup of an address finds.
fn lookup(section: &[u8], address: u64) -> Vec<i64> {
    let (rows, end) = rows(section);
    (0..rows.len())
        .filter(|i| {
            let next = rows.get(i + 1).map_or(end, |row| row.0);
            rows[*i].0 <= address && address < next
        })
        .map(|i| rows[i].1)
        .collect()
}

#[test]
fn every_byte_of_every_range_is_mapped() {
    let map = [entry(0, 100, 4, 9), entry(1, 104, 9, 9), entry(2, 108, 9, 10), entry(3, 112, 12, 20)];
    let data = build_debug_line_section(&map);
    for e in &map {
        for address in e.start_offset..e.end_offset {
            assert_eq!(lookup(&data, u64::from(address)), [e.riscv_pc as i64 + 1], "{address}");
        }
    }
    assert!(lookup(&data, 3).is_empty());
    assert!(lookup(&data, 20).is_empty());
}

#[test]
fn only_range_is_mapped() {
    let data = build_debug_line_section(&[entry(0, 100, 16, 18)]);
    assert_eq!(lookup(&data, 16), [101]);
    assert_eq!(lookup(&data, 17), [101]);
    assert!(lookup(&data, 18).is_empty());
}
