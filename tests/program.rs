use bf_rust::{BfError, Pause, Program, WrapPolicy, ITERATION_LIMIT};

const TINY_MEM_SIZE: usize = 1 << 8;

fn args(source: &str) -> Vec<String> {
    vec![String::from(""), String::from(source)]
}

fn run_text(source: &str, capacity: usize, policy: WrapPolicy, input: &[u8]) -> Result<String, BfError> {
    Program::with_capacity(source, capacity, policy).unwrap().run(input)
}

fn run_raw(source: &str, capacity: usize, policy: WrapPolicy, input: &[u8]) -> Result<Vec<u8>, BfError> {
    Program::with_capacity(source, capacity, policy).unwrap().run_bytes(input)
}

#[test]
fn test_empty_program() {
    let memory = vec![0u8; TINY_MEM_SIZE];
    let prog = Program::new(&[String::from(""), String::from("")], memory);
    let out = prog.unwrap().run(&[]);
    assert_eq!(String::default(), out.unwrap());
}

#[test]
fn test_increment() {
    let memory = vec![0u8; TINY_MEM_SIZE];
    let prog = Program::new(&[String::from(""), String::from("+.")], memory);
    let out = prog.unwrap().run(&[]);
    let exp = &[0x01u8];
    assert_eq!(String::from_utf8_lossy(exp), out.unwrap());
}

#[test]
fn test_infinite_loop() {
    let memory = vec![0u8; TINY_MEM_SIZE];
    let prog = Program::new(&[String::from(""), String::from("[]")], memory);
    let out = prog.unwrap().run(&[]);
    assert_eq!(String::default(), out.unwrap());
}

#[test]
fn empty_program_any_capacity() {
    for cap in [1usize, 2, 256, 32768, 1 << 16] {
        for policy in [WrapPolicy::Unchecked, WrapPolicy::Guarded] {
            assert_eq!(run_raw("", cap, policy, &[]), Ok(vec![]));
            assert_eq!(run_text("", cap, policy, &[]), Ok(String::new()));
        }
    }
}

#[test]
fn increment_gives_byte_one() {
    assert_eq!(run_raw("+.", 4, WrapPolicy::Guarded, &[]), Ok(vec![0x01]));
}

#[test]
fn decrement_from_zero_gives_byte_ff() {
    assert_eq!(run_raw("-.", 4, WrapPolicy::Unchecked, &[]), Ok(vec![0xFF]));
}

#[test]
fn guarded_refuses_decrement_of_untouched_zero() {
    assert_eq!(run_raw("-.", 4, WrapPolicy::Guarded, &[]), Err(BfError::WrappingMemoryAccess));
    assert_eq!(run_text("-.", 256, WrapPolicy::Guarded, &[]), Err(BfError::WrappingMemoryAccess));
}

#[test]
fn guarded_refuses_cell_wrap_of_read_cell() {
    assert_eq!(run_raw(",+.", 4, WrapPolicy::Guarded, &[255]), Err(BfError::WrappingMemoryAccess));
    assert_eq!(run_raw(",-.", 4, WrapPolicy::Guarded, &[0]), Err(BfError::WrappingMemoryAccess));
    assert_eq!(run_raw(",+.", 4, WrapPolicy::Unchecked, &[255]), Ok(vec![0]));
}

#[test]
fn guarded_wraps_written_cell_value() {
    assert_eq!(run_raw("+--.", 4, WrapPolicy::Guarded, &[]), Ok(vec![0xFF]));
}

#[test]
fn new_clears_the_tape() {
    let mut p = Program::new(&args(".>."), vec![7u8; 4]).unwrap();
    assert_eq!(p.run_bytes(&[]), Ok(vec![0, 0]));
}

#[test]
fn second_run_gives_same_output() {
    let mut p = Program::new(&args("+."), vec![0u8; 4]).unwrap();
    let first = p.run(&[]);
    let second = p.run(&[]);
    assert_eq!(first, Ok(String::from("\u{1}")));
    assert_eq!(first, second);
}

#[test]
fn lone_ff_byte_is_not_text() {
    assert_eq!(run_text("-.", 4, WrapPolicy::Unchecked, &[]), Err(BfError::InvalidEncoding));
}

#[test]
fn cell_wraps_past_255() {
    let source = format!("{}.", "+".repeat(256));
    assert_eq!(run_raw(&source, 2, WrapPolicy::Guarded, &[]), Ok(vec![0]));
}

#[test]
fn multibyte_output_decodes() {
    let source = format!("{}.>{}.", "+".repeat(0xC3), "+".repeat(0xA9));
    assert_eq!(run_text(&source, 4, WrapPolicy::Guarded, &[]), Ok(String::from("\u{e9}")));
}

#[test]
fn loop_skipped_on_zero_cell() {
    assert_eq!(run_raw("[+.]", 4, WrapPolicy::Guarded, &[]), Ok(vec![]));
    assert_eq!(run_raw("[].", 4, WrapPolicy::Guarded, &[]), Ok(vec![0]));
}

#[test]
fn lone_open_bracket_is_unbalanced() {
    let r = Program::new(&args("["), vec![0u8; TINY_MEM_SIZE]);
    assert_eq!(r.err(), Some(BfError::UnbalancedProgram));
}

#[test]
fn lone_close_bracket_is_unbalanced() {
    let r = Program::new(&args("]"), vec![0u8; TINY_MEM_SIZE]);
    assert_eq!(r.err(), Some(BfError::UnbalancedProgram));
}

#[test]
fn crossed_brackets_are_unbalanced() {
    for source in ["][", "[[]", "[]]", "+[->]]["] {
        let r = Program::with_capacity(source, 8, WrapPolicy::Unchecked);
        assert_eq!(r.err(), Some(BfError::UnbalancedProgram));
    }
}

#[test]
fn wrong_argument_count_is_refused() {
    let one = vec![String::from("+.")];
    assert_eq!(Program::new(&one, vec![0u8; 4]).err(), Some(BfError::InvalidArguments));
    let three = vec![String::new(), String::from("+."), String::new()];
    assert_eq!(Program::new(&three, vec![0u8; 4]).err(), Some(BfError::InvalidArguments));
}

#[test]
fn empty_tape_is_refused() {
    assert_eq!(Program::new(&args("+."), vec![]).err(), Some(BfError::InvalidArguments));
    assert_eq!(
        Program::with_capacity("+.", 0, WrapPolicy::Guarded).err(),
        Some(BfError::InvalidArguments)
    );
}

#[test]
fn iteration_cap_stops_without_error() {
    assert_eq!(ITERATION_LIMIT, 1000);
    assert_eq!(run_text("+[]", 4, WrapPolicy::Guarded, &[]), Ok(String::new()));
    let out = run_raw("+[.]", 4, WrapPolicy::Guarded, &[]).unwrap();
    assert_eq!(out.len(), 1001);
    assert!(out.iter().all(|b| *b == 1));
}

#[test]
fn guarded_refuses_leaving_untouched_cell_over_left_edge() {
    assert_eq!(run_raw("<", 4, WrapPolicy::Guarded, &[]), Err(BfError::WrappingMemoryAccess));
}

#[test]
fn guarded_refuses_leaving_untouched_cell_over_right_edge() {
    assert_eq!(run_raw(">>", 2, WrapPolicy::Guarded, &[]), Err(BfError::WrappingMemoryAccess));
}

#[test]
fn guarded_allows_wrap_from_written_cell() {
    assert_eq!(run_raw("+<++.", 4, WrapPolicy::Guarded, &[]), Ok(vec![2]));
    assert_eq!(run_raw("+<.", 256, WrapPolicy::Guarded, &[]), Ok(vec![0]));
    assert_eq!(run_raw(">+>+.", 2, WrapPolicy::Guarded, &[]), Ok(vec![1]));
}

#[test]
fn unchecked_wraps_silently() {
    assert_eq!(run_raw("<+.", 4, WrapPolicy::Unchecked, &[]), Ok(vec![1]));
    assert_eq!(run_raw(">>+.", 2, WrapPolicy::Unchecked, &[]), Ok(vec![1]));
}

#[test]
fn long_move_sequences_stay_on_tape() {
    let source = format!("{}+.{}.", ">".repeat(1003), "<".repeat(2006));
    assert_eq!(run_raw(&source, 7, WrapPolicy::Unchecked, &[]), Ok(vec![1, 0]));
    let back = format!("{}+.{}.", ">".repeat(1003), "<".repeat(1001));
    assert_eq!(run_raw(&back, 7, WrapPolicy::Unchecked, &[]), Ok(vec![1, 1]));
}

#[test]
fn input_bytes_are_read_in_turn() {
    assert_eq!(run_text(",.,+.", 4, WrapPolicy::Guarded, b"AB"), Ok(String::from("AC")));
}

#[test]
fn missing_input_fails() {
    assert_eq!(run_text(",.", 4, WrapPolicy::Guarded, &[]), Err(BfError::InputFailure));
}

#[test]
fn runs_agree() {
    let source = "++++++[>++++++++<-]>+.+.+.";
    let a = run_text(source, 16, WrapPolicy::Guarded, &[]);
    let b = run_text(source, 16, WrapPolicy::Guarded, b"ignored");
    assert_eq!(a, Ok(String::from("123")));
    assert_eq!(a, b);
}

#[test]
fn resume_pauses_for_input() {
    let mut p = Program::with_capacity("+.,.", 4, WrapPolicy::Guarded).unwrap();
    assert_eq!(p.resume(), Ok(Pause::AwaitingInput));
    p.feed(b'x');
    assert_eq!(p.resume(), Ok(Pause::Halted));
    assert_eq!(p.output_text(), Ok(String::from("\u{1}x")));
}

#[test]
fn policy_can_be_switched() {
    let p = Program::new(&args("<+."), vec![0u8; 4]).unwrap();
    let mut q = p.with_policy(WrapPolicy::Unchecked);
    assert_eq!(q.run_bytes(&[]), Ok(vec![1]));
}

#[test]
fn error_messages() {
    assert_eq!(BfError::UnbalancedProgram.message(), "Unbalanced program");
    assert_eq!(BfError::WrappingMemoryAccess.message(), "Wrapping memory access");
    assert_eq!(BfError::InvalidEncoding.message(), "Bad UTF-8 encoding");
    assert_eq!(BfError::InvalidArguments.message(), "Incorrect number of arguments");
    assert_eq!(BfError::InputFailure.message(), "Bad IO read");
}

#[test]
fn moves_wrap_modulo_capacity() {
    for cap in 1usize..6 {
        for k in 0usize..20 {
            let expected = if k % cap == 0 { vec![1] } else { vec![0] };
            let right = format!("+{}.", ">".repeat(k));
            let left = format!("+{}.", "<".repeat(k));
            assert_eq!(run_raw(&right, cap, WrapPolicy::Unchecked, &[]), Ok(expected.clone()));
            assert_eq!(run_raw(&left, cap, WrapPolicy::Unchecked, &[]), Ok(expected));
        }
    }
}
