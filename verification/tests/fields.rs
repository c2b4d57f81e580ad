use sp1_jit::bytes::{patch_u32, push_bytes, push_le};
use sp1_jit::runner::{after_chunk, Input, Output, RunState};
use sp1_jit::text::{append_decimal, push_hex};
use std::collections::VecDeque;
use std::sync::Arc;
use std::time::Duration;

fn hex(value: u64) -> String {
    let mut buf = Vec::new();
    push_hex(&mut buf, value);
    String::from_utf8(buf).unwrap()
}

fn decimal(value: u64) -> String {
    let mut text = String::new();
    append_decimal(&mut text, value);
    text
}

#[test]
fn hexadecimal_is_that_of_std() {
    for value in [0, 1, 9, 10, 15, 16, 255, 256, 0xdead_beef, u64::MAX] {
        assert_eq!(hex(value), format!("{value:x}"));
    }
}

#[test]
fn decimal_is_that_of_std() {
    for value in [0, 1, 9, 10, 11, 99, 100, 12_345, u64::MAX] {
        assert_eq!(decimal(value), format!("{value}"));
    }
}

#[test]
fn fields_are_little_endian() {
    let mut buf = vec![1];
    push_le(&mut buf, 0x0102_0304_0506_0708, 8);
    push_le(&mut buf, 0x0a0b_0c0d, 4);
    push_le(&mut buf, 0xffff_0e0f, 2);
    push_le(&mut buf, 7, 0);
    assert_eq!(buf, [1, 8, 7, 6, 5, 4, 3, 2, 1, 0xd, 0xc, 0xb, 0xa, 0xf, 0xe]);
}

#[test]
fn bytes_are_appended_and_patched() {
    let mut buf = vec![1];
    push_bytes(&mut buf, &[2, 3, 4, 5, 6, 7]);
    patch_u32(&mut buf, 2, 0x8899_aabb);
    assert_eq!(buf, [1, 2, 0xbb, 0xaa, 0x99, 0x88, 7]);
}

#[test]
fn runner_values_are_cloned() {
    let input = Input {
        program: Arc::new(5u8),
        is_debug: true,
        max_trace_size: Some(3),
        input: VecDeque::from(vec![vec![1], vec![2, 3]]),
        shm_slot_size: 4,
        id: String::from("run"),
        max_memory_size: 6,
        memory_limit: 7,
        print_perf: false,
    };
    assert_eq!(format!("{:?}", input.clone()), format!("{input:?}"));
    let output = Output {
        public_values_stream: vec![1],
        hints: vec![(2, vec![3])],
        global_clk: 4,
        exit_code: 5,
        perfs: vec![(String::from("run"), Duration::from_millis(6))],
    };
    assert_eq!(format!("{:?}", output.clone()), format!("{output:?}"));
}

// Runs through chunks: the number that were executed, and the error.
fn run(chunks: Vec<Result<Option<u8>, &'static str>>) -> (usize, Option<&'static str>) {
    for (i, chunk) in chunks.into_iter().enumerate() {
        if let RunState::Ended(error) = after_chunk(chunk) {
            return (i, error);
        }
    }
    panic!("still running");
}

#[test]
fn run_ends_at_the_first_chunk_that_leaves_nothing() {
    assert!(matches!(after_chunk::<u8, u8>(Ok(Some(1))), RunState::Running));
    assert_eq!(run(vec![Ok(None), Err("late")]), (0, None));
    assert_eq!(run(vec![Ok(Some(1)), Ok(Some(2)), Ok(None), Ok(Some(3))]), (2, None));
}

#[test]
fn run_ends_at_the_first_error() {
    assert_eq!(run(vec![Ok(Some(1)), Err("memory"), Err("late")]), (1, Some("memory")));
}
