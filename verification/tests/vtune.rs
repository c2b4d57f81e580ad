use sp1_jit::vtune::{Event, MethodLoad, VtuneJitProfiler};

fn profiler() -> VtuneJitProfiler {
    VtuneJitProfiler::new(1).unwrap()
}

fn load(event: Event) -> MethodLoad {
    match event {
        Event::Load(load) => load,
        Event::Unload(_) => panic!("not a load"),
    }
}

#[test]
fn profiler_is_there_only_when_sampling() {
    assert!(VtuneJitProfiler::new(1).is_some());
    assert!(VtuneJitProfiler::new(0).is_none());
    assert!(VtuneJitProfiler::new(2).is_none());
}

#[test]
fn function_is_told() {
    let event = profiler().register_function(42, "jit", 0xdead_0000, 123);
    assert_eq!(event.event_type(), 13);
    let load = load(event);
    assert_eq!(load.method_id, 42);
    assert_eq!(load.method_name, b"jit\0");
    assert_eq!(load.method_load_address, 0xdead_0000);
    assert_eq!(load.method_size, 123);
    assert_eq!(load.line_number_size, 0);
    assert_eq!(load.class_id, 0);
}

#[test]
fn size_is_told_in_32_bits() {
    let event = profiler().register_function(1, "f", 0, 0x1_0000_0005);
    assert_eq!(load(event).method_size, 5);
}

#[test]
fn name_with_a_zero_is_unknown() {
    for name in ["a\0b", "\0", "ab\0"] {
        let event = profiler().register_function(1, name, 0, 0);
        assert_eq!(load(event).method_name, b"unknown_jit_func\0");
    }
}

#[test]
fn told_names_end_at_their_only_zero() {
    for name in ["", "x", "na\0me", "f\u{e9}"] {
        let told = load(profiler().register_function(1, name, 0, 0)).method_name;
        assert_eq!(told.iter().position(|b| *b == 0), Some(told.len() - 1));
    }
}

#[test]
fn registration_holds_only_when_accepted() {
    assert_eq!(profiler().registration(7, 1), Some(7));
    assert_eq!(profiler().registration(7, 0), None);
    assert_eq!(profiler().registration(7, -1), None);
    assert_eq!(profiler().registration(7, 2), None);
}

#[test]
fn unloading_is_told() {
    let event = profiler().unregister_function(9);
    assert_eq!(event.event_type(), 14);
    assert!(matches!(event, Event::Unload(9)));
}
