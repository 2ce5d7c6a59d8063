use tape_machine::brackets::{
    get_matching_backward_instruction_pointer, get_matching_forward_instruction_pointer,
};
use tape_machine::codec::decode_state;
use tape_machine::input::convert_stdin_to_u8;
use tape_machine::machine::{MachineError, MachineState, Outcome, TAPE_LEN};
use tape_machine::program::validate_program;
use tape_machine::session::{get_or_start_program_content, handle_request};

const HELLO: &str = "++++++++[>++++[>++>+++>+++>+<<<<-]>+>+>->>+[<]<-]>>.>---.+++++++..+++.>>.<-.<.+++.------.--------.>>+.>++.";

fn text(chars: &[char]) -> String {
    chars.iter().collect()
}

#[test]
fn handler_handles() {
    let res = handle_request(HELLO, None, None).expect("expected Ok(_) value");
    assert_eq!(text(&res.program_code), String::from(HELLO));
    assert_eq!(text(&res.stdout), String::from("Hello World!\n"));
}

#[test]
fn test_convert_stdin_to_u8_255() {
    assert_eq!(convert_stdin_to_u8("255"), Ok(255));
}

#[test]
fn test_convert_stdin_to_u8_cap_a() {
    assert_eq!(convert_stdin_to_u8("A"), Ok(65));
}

#[test]
fn test_convert_stdin_to_u8_a() {
    assert_eq!(convert_stdin_to_u8("a"), Ok(97));
}

#[test]
fn test_convert_stdin_to_u8_cap_aa() {
    assert_eq!(convert_stdin_to_u8("AA"), Err(false));
}

#[test]
fn test_convert_stdin_to_u8_256() {
    assert_eq!(convert_stdin_to_u8("256"), Err(false));
}

#[test]
fn test_convert_stdin_to_u8_0() {
    assert_eq!(convert_stdin_to_u8("0"), Ok(0));
}

#[test]
fn test_convert_stdin_to_u8_neg1() {
    assert_eq!(convert_stdin_to_u8("-1"), Err(false));
}

#[test]
fn input_decoding_edge_cases() {
    assert_eq!(convert_stdin_to_u8("+7"), Ok(7));
    assert_eq!(convert_stdin_to_u8("007"), Ok(7));
    assert_eq!(convert_stdin_to_u8("7"), Ok(7));
    assert_eq!(convert_stdin_to_u8(""), Err(false));
    assert_eq!(convert_stdin_to_u8("\u{e9}"), Ok(233));
    assert_eq!(convert_stdin_to_u8("\u{101}"), Err(false));
    assert_eq!(convert_stdin_to_u8(" 7"), Err(false));
}

#[test]
fn validator_accepts_and_rejects() {
    assert!(validate_program("+-<>.,[]"));
    assert!(validate_program(HELLO));
    assert!(!validate_program(""));
    assert!(!validate_program("+a"));
    assert!(!validate_program("+\n"));
    assert!(!validate_program("+ -"));
}

#[test]
fn start_splits_program_into_symbols() {
    let s = MachineState::start("+-[]").ok().unwrap();
    assert_eq!(s.program_code, vec!['+', '-', '[', ']']);
    assert_eq!(s.tape.len(), TAPE_LEN);
    assert_eq!(s.instruction_pointer, 0);
    assert_eq!(s.data_pointer, 0);
    assert!(!s.expecting_input);
    assert!(s.stdout.is_empty());
    assert_eq!(MachineState::start("x+").err(), Some(MachineError::InvalidProgram));
    assert_eq!(MachineState::start("").err(), Some(MachineError::InvalidProgram));
}

#[test]
fn increment_wraps_to_zero() {
    let mut s = MachineState::start("-+").ok().unwrap();
    assert_eq!(s.execute_program(None), Ok(Outcome::Finished));
    assert_eq!(s.tape[0], 0);
    let mut t = MachineState::start("-").ok().unwrap();
    assert_eq!(t.execute_program(None), Ok(Outcome::Finished));
    assert_eq!(t.tape[0], 255);
}

#[test]
fn decrement_wraps_to_255_and_prints_it() {
    let res = handle_request("-.", None, None).ok().unwrap();
    assert_eq!(res.stdout, vec!['\u{ff}']);
}

#[test]
fn bracket_scans_find_each_other() {
    let p: Vec<char> = "+[[-]>[+]]<".chars().collect();
    assert_eq!(get_matching_forward_instruction_pointer(&p, 1), Some(9));
    assert_eq!(get_matching_backward_instruction_pointer(&p, 9), Some(1));
    assert_eq!(get_matching_forward_instruction_pointer(&p, 2), Some(4));
    assert_eq!(get_matching_backward_instruction_pointer(&p, 4), Some(2));
    assert_eq!(get_matching_forward_instruction_pointer(&p, 6), Some(8));
    assert_eq!(get_matching_backward_instruction_pointer(&p, 8), Some(6));
}

#[test]
fn bracket_scans_report_unmatched() {
    let p: Vec<char> = "[[]".chars().collect();
    assert_eq!(get_matching_forward_instruction_pointer(&p, 0), None);
    let q: Vec<char> = "[]]".chars().collect();
    assert_eq!(get_matching_backward_instruction_pointer(&q, 2), None);
}

#[test]
fn unmatched_brackets_abort_the_run() {
    assert_eq!(handle_request("[", None, None).err(), Some(MachineError::UnmatchedBracket));
    assert_eq!(handle_request("+]", None, None).err(), Some(MachineError::UnmatchedBracket));
}

#[test]
fn pointer_leaving_the_tape_is_an_error() {
    assert_eq!(handle_request("<", None, None).err(), Some(MachineError::PointerOutOfRange));
    let right: String = ">".repeat(TAPE_LEN - 1);
    assert!(handle_request(&right, None, None).is_ok());
    let off: String = ">".repeat(TAPE_LEN);
    assert_eq!(handle_request(&off, None, None).err(), Some(MachineError::PointerOutOfRange));
}

#[test]
fn endless_loop_hits_the_step_limit() {
    assert_eq!(handle_request("+[]", None, None).err(), Some(MachineError::StepLimitExceeded));
}

#[test]
fn invalid_program_is_rejected() {
    assert_eq!(handle_request("hello", None, None).err(), Some(MachineError::InvalidProgram));
    assert_eq!(handle_request("", None, None).err(), Some(MachineError::InvalidProgram));
}

#[test]
fn hello_world_never_suspends() {
    let res = handle_request(HELLO, None, None).ok().unwrap();
    assert!(!res.expecting_input);
    assert_eq!(res.outcome, Outcome::Finished);
}

#[test]
fn suspension_then_resume() {
    let first = handle_request(",.", None, None).ok().unwrap();
    assert!(first.expecting_input);
    assert_eq!(first.outcome, Outcome::AwaitingInput);
    assert!(first.stdout.is_empty());
    let second = handle_request(",.", Some(&first.serialized_state), Some("65")).ok().unwrap();
    assert_eq!(text(&second.stdout), "A");
    assert!(!second.expecting_input);
    assert_eq!(second.outcome, Outcome::Finished);
}

#[test]
fn resumed_input_matches_hard_coded_value() {
    let first = handle_request(",+.", None, None).ok().unwrap();
    let resumed = handle_request(",+.", Some(&first.serialized_state), Some("65")).ok().unwrap();
    let hard_coded = format!("{}+.", "+".repeat(65));
    let direct = handle_request(&hard_coded, None, None).ok().unwrap();
    assert_eq!(text(&resumed.stdout), "B");
    assert_eq!(resumed.stdout, direct.stdout);
}

#[test]
fn rejected_input_keeps_waiting() {
    let first = handle_request(">,.", None, None).ok().unwrap();
    let second = handle_request(">,.", Some(&first.serialized_state), Some("AA")).ok().unwrap();
    assert_eq!(second.outcome, Outcome::InputRejected);
    assert!(second.expecting_input);
    assert_eq!(text(&second.stdout), "Valid inputs are either 1..255 or a single character.");
    let third = handle_request(">,.", Some(&second.serialized_state), Some("a")).ok().unwrap();
    assert_eq!(
        text(&third.stdout),
        "Valid inputs are either 1..255 or a single character.a"
    );
    assert!(!third.expecting_input);
}

#[test]
fn serialized_state_round_trips() {
    let mut s = MachineState::start("+++>++.<,.").ok().unwrap();
    assert_eq!(s.execute_program(None), Ok(Outcome::AwaitingInput));
    let bytes = s.encode_state();
    let d = decode_state(&bytes).ok().unwrap();
    assert_eq!(d.program_code, s.program_code);
    assert_eq!(d.instruction_pointer, s.instruction_pointer);
    assert_eq!(d.instruction_pointer, 8);
    assert_eq!(d.data_pointer, s.data_pointer);
    assert_eq!(d.tape, s.tape);
    assert_eq!(d.tape[0], 3);
    assert_eq!(d.tape[1], 2);
    assert_eq!(d.stdout, s.stdout);
    assert_eq!(d.stdout, vec!['\u{2}']);
    assert_eq!(d.expecting_input, s.expecting_input);
    assert_eq!(d.encode_state(), bytes);
}

#[test]
fn malformed_state_is_rejected() {
    assert_eq!(decode_state(&vec![1, 2, 3]).err(), Some(MachineError::MalformedState));
    let s = MachineState::start("+").ok().unwrap();
    let mut bytes = s.encode_state();
    bytes.push(0);
    assert_eq!(decode_state(&bytes).err(), Some(MachineError::MalformedState));
    let mut flipped = s.encode_state();
    let last = flipped.len() - 1;
    flipped[last] = 1;
    assert_eq!(decode_state(&flipped).err(), Some(MachineError::MalformedState));
    assert_eq!(
        get_or_start_program_content(Some(&vec![0u8]), "+").err(),
        Some(MachineError::MalformedState)
    );
}

#[test]
fn fresh_start_ignores_nothing_but_the_program() {
    let s = get_or_start_program_content(None, ",").ok().unwrap();
    assert_eq!(s.program_code, vec![',']);
    assert_eq!(get_or_start_program_content(None, "?").err(), Some(MachineError::InvalidProgram));
}

#[test]
fn token_with_invalid_program_is_an_invalid_program() {
    let s = MachineState::start("+").ok().unwrap();
    let mut bytes = s.encode_state();
    bytes[4] = b'a';
    assert_eq!(decode_state(&bytes).err(), Some(MachineError::InvalidProgram));
    assert_eq!(
        handle_request("+", Some(&bytes), None).err(),
        Some(MachineError::InvalidProgram)
    );
    let mut empty = s.encode_state();
    empty.remove(4);
    empty[0] = 0;
    assert_eq!(decode_state(&empty).err(), Some(MachineError::InvalidProgram));
}
