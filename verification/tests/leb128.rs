use sp1_jit::leb128::{encode_sleb128, encode_uleb128};

fn uleb128(value: u64) -> Vec<u8> {
    let mut buf = Vec::new();
    encode_uleb128(&mut buf, value);
    buf
}

fn sleb128(value: i64) -> Vec<u8> {
    let mut buf = Vec::new();
    encode_sleb128(&mut buf, value);
    buf
}

fn read_uleb128(data: &[u8]) -> (u128, usize) {
    let mut value = 0u128;
    let mut shift = 0;
    for (i, byte) in data.iter().enumerate() {
        value |= u128::from(byte & 0x7f) << shift;
        shift += 7;
        if byte & 0x80 == 0 {
            return (value, i + 1);
        }
    }
    panic!("unterminated");
}

fn read_sleb128(data: &[u8]) -> (i128, usize) {
    let mut value = 0i128;
    let mut shift = 0;
    for (i, byte) in data.iter().enumerate() {
        value |= i128::from(byte & 0x7f) << shift;
        shift += 7;
        if byte & 0x80 == 0 {
            if byte & 0x40 != 0 {
                value -= 1i128 << shift;
            }
            return (value, i + 1);
        }
    }
    panic!("unterminated");
}

#[test]
fn unsigned_values_have_known_bytes() {
    assert_eq!(uleb128(0), [0x00]);
    assert_eq!(uleb128(1), [0x01]);
    assert_eq!(uleb128(127), [0x7f]);
    assert_eq!(uleb128(128), [0x80, 0x01]);
    assert_eq!(uleb128(624_485), [0xe5, 0x8e, 0x26]);
    let mut max = vec![0xff; 9];
    max.push(0x01);
    assert_eq!(uleb128(u64::MAX), max);
}

#[test]
fn signed_values_have_known_bytes() {
    assert_eq!(sleb128(0), [0x00]);
    assert_eq!(sleb128(2), [0x02]);
    assert_eq!(sleb128(-1), [0x7f]);
    assert_eq!(sleb128(-2), [0x7e]);
    assert_eq!(sleb128(63), [0x3f]);
    assert_eq!(sleb128(64), [0xc0, 0x00]);
    assert_eq!(sleb128(-64), [0x40]);
    assert_eq!(sleb128(-65), [0xbf, 0x7f]);
    assert_eq!(sleb128(127), [0xff, 0x00]);
    assert_eq!(sleb128(-127), [0x81, 0x7f]);
    assert_eq!(sleb128(128), [0x80, 0x01]);
    assert_eq!(sleb128(-128), [0x80, 0x7f]);
    assert_eq!(sleb128(-123_456), [0xc0, 0xbb, 0x78]);
    let mut max = vec![0xff; 9];
    max.push(0x00);
    assert_eq!(sleb128(i64::MAX), max);
    let mut min = vec![0x80; 9];
    min.push(0x7f);
    assert_eq!(sleb128(i64::MIN), min);
}

#[test]
fn encoders_append() {
    let mut buf = vec![9, 9];
    encode_uleb128(&mut buf, 300);
    encode_sleb128(&mut buf, -3);
    assert_eq!(buf, [9, 9, 0xac, 0x02, 0x7d]);
}

#[test]
fn unsigned_values_are_read_back() {
    for value in [0, 1, 5, 127, 128, 129, 16_383, 16_384, u64::MAX / 3, u64::MAX] {
        let mut data = uleb128(value);
        let len = data.len();
        data.push(0xaa);
        assert_eq!(read_uleb128(&data), (u128::from(value), len));
    }
}

#[test]
fn signed_values_are_read_back() {
    for value in [0, 1, -1, 63, 64, -64, -65, 8191, 8192, -8193, i64::MAX, i64::MIN] {
        let mut data = sleb128(value);
        let len = data.len();
        data.push(0x15);
        assert_eq!(read_sleb128(&data), (i128::from(value), len));
    }
}
