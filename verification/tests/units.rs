use micro_c::error::{error, print};
use micro_c::fs::open_file_or_lib;
use micro_c::regalloc::RegisterAllocator;
use micro_c::stackframe::StackFrame;

#[test]
fn registers_are_stable_and_round_robin() {
    let mut ra = RegisterAllocator::new(vec!["r0".to_string(), "r1".to_string()]);
    assert_eq!(ra.allocate("t0"), "r0");
    assert_eq!(ra.allocate("t1"), "r1");
    assert_eq!(ra.allocate("t0"), "r0");
    assert_eq!(ra.allocate("t2"), "r0");
    assert_eq!(ra.allocate("t3"), "r1");
    assert_eq!(ra.allocate("t1"), "r1");
}

#[test]
fn stack_slots_are_stable_and_aligned() {
    let mut f = StackFrame::new();
    assert_eq!(f.frame_size(), 16);
    assert_eq!(f.allocate("a"), 8);
    assert_eq!(f.allocate("b"), 16);
    assert_eq!(f.allocate("a"), 8);
    assert_eq!(f.get("b"), 16);
    assert_eq!(f.frame_size(), 32);
    assert_eq!(f.allocate("c"), 24);
    assert_eq!(f.frame_size(), 32);
}

#[test]
fn opens_the_system_library() {
    let (text, err) = open_file_or_lib("Sys");
    assert_eq!(text, "extern fn printf(fmt, value);\nextern fn malloc(size);\nextern fn free(ptr);\n");
    assert_eq!(err, None);
    let (text2, _) = open_file_or_lib("sys");
    assert_eq!(text2, text);
    let (none, err2) = open_file_or_lib("Net");
    assert_eq!(none, "");
    assert_eq!(err2, Some("cant open file Net".to_string()));
}

#[test]
fn marks_errors_and_prints_nothing() {
    let mut log: Vec<String> = Vec::new();
    error(&mut log, "boom");
    error(&mut log, "");
    assert_eq!(log, vec!["!! boom".to_string(), "!! ".to_string()]);
    print("ignored");
}

#[test]
fn frame_offsets_are_the_multiples_of_eight_once_each() {
    let mut f = StackFrame::new();
    let names = ["p", "q", "p", "r", "q", "s"];
    let mut given = Vec::new();
    for n in names.iter() {
        given.push(f.allocate(n));
    }
    assert_eq!(given, vec![8, 16, 8, 24, 16, 32]);
    for (n, o) in names.iter().zip(given.iter()) {
        assert_eq!(f.get(n), *o);
    }
    assert_eq!(f.frame_size(), 48);
    let mut g = StackFrame::new();
    let sizes: Vec<i32> = (0..4)
        .map(|k| {
            if k > 0 {
                g.allocate(&format!("v{}", k));
            }
            g.frame_size()
        })
        .collect();
    assert_eq!(sizes, vec![16, 16, 32, 32]);
}
