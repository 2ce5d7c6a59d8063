use crate::brackets::{
    backward_match, forward_match, get_matching_backward_instruction_pointer,
    get_matching_forward_instruction_pointer, lemma_backward_match_bounds,
    lemma_forward_match_bounds,
};
use crate::input::{convert_stdin_to_u8, decoded_input};
use crate::program::{is_valid_program, program_symbols};
use vstd::prelude::*;

verus! {

/// Number of cells on the tape.
pub const TAPE_LEN: usize = 30000;

/// Most instructions one invocation executes before it gives up.
pub const MAX_STEPS: u64 = 10000000;

/// Why an invocation could not produce a state.
#[derive(Clone, Copy, Debug, PartialEq, Eq, Structural)]
pub enum MachineError {
    /// The program text is empty or holds a character outside the alphabet.
    InvalidProgram,
    /// A serialized state could not be read back.
    MalformedState,
    /// A bracket scan ran off the program without finding its pair.
    UnmatchedBracket,
    /// The data pointer would leave the tape.
    PointerOutOfRange,
    /// The instruction pointer reached a character that is not an instruction.
    InvalidInstruction,
    /// The invocation executed `MAX_STEPS` instructions without finishing or suspending.
    StepLimitExceeded,
}

/// How an invocation that kept its state ended.
#[derive(Clone, Copy, Debug, PartialEq, Eq, Structural)]
pub enum Outcome {
    /// The instruction pointer reached the end of the program.
    Finished,
    /// An input instruction suspended the machine.
    AwaitingInput,
    /// The machine waits for input and the value handed in was not a byte.
    InputRejected,
}

/// The whole state of a machine between two invocations.
pub struct MachineState {
    pub program_code: Vec<char>,
    pub instruction_pointer: u32,
    pub tape: Vec<u8>,
    pub stdout: Vec<char>,
    pub data_pointer: u32,
    pub expecting_input: bool,
}

/// The mathematical picture of a machine state.
pub struct Config {
    pub program: Seq<char>,
    pub ip: int,
    pub dp: int,
    pub tape: Seq<u8>,
    pub out: Seq<char>,
    pub awaiting: bool,
}

impl View for MachineState {
    type V = Config;

    open spec fn view(&self) -> Config {
        Config {
            program: self.program_code@,
            ip: self.instruction_pointer as int,
            dp: self.data_pointer as int,
            tape: self.tape@,
            out: self.stdout@,
            awaiting: self.expecting_input,
        }
    }
}

/// A character that one output byte can stand for.
pub open spec fn is_byte_char(c: char) -> bool {
    (c as u32) <= 255
}

/// The states that the machine can be in.
pub open spec fn config_wf(c: Config) -> bool {
    &&& is_valid_program(c.program)
    &&& c.program.len() <= u32::MAX
    &&& 0 <= c.ip <= c.program.len()
    &&& c.tape.len() == TAPE_LEN
    &&& 0 <= c.dp < TAPE_LEN
    &&& forall|i: int| 0 <= i < c.out.len() ==> #[trigger] is_byte_char(c.out[i])
    &&& c.awaiting ==> c.ip < c.program.len() && c.program[c.ip] == ','
}

/// A fresh machine on a program: every pointer at zero, the tape blank, no output.
pub open spec fn initial_config(program: Seq<char>) -> Config {
    Config {
        program,
        ip: 0,
        dp: 0,
        tape: Seq::new(TAPE_LEN as nat, |i: int| 0u8),
        out: Seq::empty(),
        awaiting: false,
    }
}

/// A cell after `+`: 255 wraps around to 0.
pub open spec fn cell_inc(v: u8) -> u8 {
    if v == 255 {
        0
    } else {
        (v + 1) as u8
    }
}

/// A cell after `-`: 0 wraps around to 255.
pub open spec fn cell_dec(v: u8) -> u8 {
    if v == 0 {
        255
    } else {
        (v - 1) as u8
    }
}

/// Executes the instruction at the instruction pointer of a running machine.
pub open spec fn step(c: Config) -> Result<Config, MachineError> {
    let ins = c.program[c.ip];
    let cell = c.tape[c.dp];
    if ins == '>' {
        if c.dp + 1 < TAPE_LEN {
            Ok(Config { dp: c.dp + 1, ip: c.ip + 1, ..c })
        } else {
            Err(MachineError::PointerOutOfRange)
        }
    } else if ins == '<' {
        if c.dp > 0 {
            Ok(Config { dp: c.dp - 1, ip: c.ip + 1, ..c })
        } else {
            Err(MachineError::PointerOutOfRange)
        }
    } else if ins == '+' {
        Ok(Config { tape: c.tape.update(c.dp, cell_inc(cell)), ip: c.ip + 1, ..c })
    } else if ins == '-' {
        Ok(Config { tape: c.tape.update(c.dp, cell_dec(cell)), ip: c.ip + 1, ..c })
    } else if ins == '.' {
        Ok(Config { out: c.out.push(cell as char), ip: c.ip + 1, ..c })
    } else if ins == ',' {
        Ok(Config { awaiting: true, ..c })
    } else if ins == '[' {
        if cell == 0 {
            match forward_match(c.program, c.ip + 1, 0) {
                Some(j) => Ok(Config { ip: j + 1, ..c }),
                None => Err(MachineError::UnmatchedBracket),
            }
        } else {
            Ok(Config { ip: c.ip + 1, ..c })
        }
    } else if ins == ']' {
        if cell != 0 {
            match backward_match(c.program, c.ip - 1, 0) {
                Some(i) => Ok(Config { ip: i + 1, ..c }),
                None => Err(MachineError::UnmatchedBracket),
            }
        } else {
            Ok(Config { ip: c.ip + 1, ..c })
        }
    } else {
        Err(MachineError::InvalidInstruction)
    }
}

/// A machine stops when it waits for input or its instruction pointer passed the program.
pub open spec fn stopped(c: Config) -> bool {
    c.awaiting || c.ip >= c.program.len()
}

/// Runs the machine until it stops, for at most `fuel` instructions.
pub open spec fn run(c: Config, fuel: nat) -> Result<Config, MachineError>
    decreases fuel,
{
    if stopped(c) {
        Ok(c)
    } else if fuel == 0 {
        Err(MachineError::StepLimitExceeded)
    } else {
        match step(c) {
            Ok(n) => run(n, (fuel - 1) as nat),
            Err(e) => Err(e),
        }
    }
}

/// The message that replaces the output when an input value is rejected.
pub open spec fn input_hint() -> Seq<char> {
    "Valid inputs are either 1..255 or a single character."@
}

/// The state after an input value was stored in the current cell, past the `,` that asked.
pub open spec fn accept_input(c: Config, v: u8) -> Config {
    Config { tape: c.tape.update(c.dp, v), awaiting: false, ip: c.ip + 1, ..c }
}

/// The outcome that a stopped machine reports.
pub open spec fn outcome_of(c: Config) -> Outcome {
    if c.awaiting {
        Outcome::AwaitingInput
    } else {
        Outcome::Finished
    }
}

/// One invocation: a waiting machine first takes its input value, then the machine runs.
pub open spec fn invoke(c: Config, stdin: Option<Seq<char>>) -> Result<(Config, Outcome), MachineError> {
    if c.awaiting {
        let v = match stdin {
            Some(s) => decoded_input(s),
            None => None,
        };
        match v {
            Some(b) => match run(accept_input(c, b), MAX_STEPS as nat) {
                Ok(n) => Ok((n, outcome_of(n))),
                Err(e) => Err(e),
            },
            None => Ok((Config { out: input_hint(), ..c }, Outcome::InputRejected)),
        }
    } else {
        match run(c, MAX_STEPS as nat) {
            Ok(n) => Ok((n, outcome_of(n))),
            Err(e) => Err(e),
        }
    }
}

/// The view of an optional input text.
pub open spec fn stdin_view(stdin: Option<&str>) -> Option<Seq<char>> {
    match stdin {
        Some(s) => Some(s@),
        None => None,
    }
}

/// A step that succeeds keeps the state one that the machine can be in.
pub proof fn lemma_step_wf(c: Config)
    requires
        config_wf(c),
        !stopped(c),
    ensures
        step(c) is Ok ==> config_wf(step(c).unwrap()),
{
    let ins = c.program[c.ip];
    if ins == '[' && c.tape[c.dp] == 0 {
        if let Some(j) = forward_match(c.program, c.ip + 1, 0) {
            lemma_forward_match_bounds(c.program, c.ip + 1, 0, j);
        }
    } else if ins == ']' && c.tape[c.dp] != 0 {
        if let Some(i) = backward_match(c.program, c.ip - 1, 0) {
            lemma_backward_match_bounds(c.program, c.ip - 1, 0, i);
        }
    } else if ins == '.' {
        let n = step(c).unwrap();
        assert forall|i: int| 0 <= i < n.out.len() implies #[trigger] is_byte_char(n.out[i]) by {
            if i < c.out.len() {
                assert(n.out[i] == c.out[i]);
            }
        }
    }
}

/// `+` on a cell that holds 255 leaves 0 in it.
pub proof fn lemma_increment_wraps(c: Config)
    requires
        config_wf(c),
        !stopped(c),
        c.program[c.ip] == '+',
        c.tape[c.dp] == 255,
    ensures
        step(c) is Ok,
        step(c).unwrap().tape[c.dp] == 0,
{
}

/// `-` on a cell that holds 0 leaves 255 in it.
pub proof fn lemma_decrement_wraps(c: Config)
    requires
        config_wf(c),
        !stopped(c),
        c.program[c.ip] == '-',
        c.tape[c.dp] == 0,
    ensures
        step(c) is Ok,
        step(c).unwrap().tape[c.dp] == 255,
{
}

impl MachineState {
    /// A fresh machine on a program text: `InvalidProgram` unless the text is valid and its
    /// positions can be counted by the 32-bit instruction pointer.
    pub fn start(program_code: &str) -> (r: Result<MachineState, MachineError>)
        ensures
            match r {
                Ok(s) => is_valid_program(program_code@) && program_code@.len() <= u32::MAX && s@ == initial_config(program_code@)
                    && s.wf(),
                Err(e) => !(is_valid_program(program_code@) && program_code@.len() <= u32::MAX)
                    && e == MachineError::InvalidProgram,
            },
    {
        match program_symbols(program_code) {
            None => Err(MachineError::InvalidProgram),
            Some(program) => {
                if program.len() > 4294967295 {
                    return Err(MachineError::InvalidProgram);
                }
                let tape: Vec<u8> = vec![0u8; TAPE_LEN];
                let s = MachineState {
                    program_code: program,
                    instruction_pointer: 0,
                    tape,
                    stdout: Vec::new(),
                    data_pointer: 0,
                    expecting_input: false,
                };
                assert(s@.tape =~= initial_config(program_code@).tape);
                Ok(s)
            },
        }
    }

    /// The state is one that the machine can be in.
    pub open spec fn wf(&self) -> bool {
        config_wf(self@)
    }

    /// Executes the instruction at the instruction pointer.
    fn step_once(&mut self) -> (r: Result<(), MachineError>)
        requires
            old(self).wf(),
            !stopped(old(self)@),
        ensures
            match step(old(self)@) {
                Ok(n) => r is Ok && final(self)@ == n && final(self).wf(),
                Err(e) => r == Err::<(), MachineError>(e),
            },
    {
        proof {
            lemma_step_wf(self@);
        }
        let ip = self.instruction_pointer;
        let dp = self.data_pointer as usize;
        let ins = self.program_code[ip as usize];
        let cell = self.tape[dp];
        if ins == '>' {
            if dp + 1 < TAPE_LEN {
                self.data_pointer = self.data_pointer + 1;
            } else {
                return Err(MachineError::PointerOutOfRange);
            }
        } else if ins == '<' {
            if dp > 0 {
                self.data_pointer = self.data_pointer - 1;
            } else {
                return Err(MachineError::PointerOutOfRange);
            }
        } else if ins == '+' {
            let v: u8 = if cell == 255 {
                0
            } else {
                cell + 1
            };
            self.tape.set(dp, v);
        } else if ins == '-' {
            let v: u8 = if cell == 0 {
                255
            } else {
                cell - 1
            };
            self.tape.set(dp, v);
        } else if ins == '.' {
            self.stdout.push(cell as char);
        } else if ins == ',' {
            self.expecting_input = true;
            return Ok(());
        } else if ins == '[' {
            if cell == 0 {
                match get_matching_forward_instruction_pointer(&self.program_code, ip) {
                    Some(j) => {
                        self.instruction_pointer = j + 1;
                        return Ok(());
                    },
                    None => {
                        return Err(MachineError::UnmatchedBracket);
                    },
                }
            }
        } else if ins == ']' {
            if cell != 0 {
                match get_matching_backward_instruction_pointer(&self.program_code, ip) {
                    Some(i) => {
                        self.instruction_pointer = i + 1;
                        return Ok(());
                    },
                    None => {
                        return Err(MachineError::UnmatchedBracket);
                    },
                }
            }
        } else {
            return Err(MachineError::InvalidInstruction);
        }
        self.instruction_pointer = ip + 1;
        Ok(())
    }

    /// Runs the machine until it stops, executing at most `MAX_STEPS` instructions.
    fn run_to_stop(&mut self) -> (r: Result<Outcome, MachineError>)
        requires
            old(self).wf(),
        ensures
            match run(old(self)@, MAX_STEPS as nat) {
                Ok(n) => r == Ok::<Outcome, MachineError>(outcome_of(n)) && final(self)@ == n
                    && final(self).wf(),
                Err(e) => r == Err::<Outcome, MachineError>(e),
            },
    {
        let mut fuel: u64 = MAX_STEPS;
        loop
            invariant
                self.wf(),
                run(old(self)@, MAX_STEPS as nat) == run(self@, fuel as nat),
            decreases fuel,
        {
            if self.expecting_input || self.instruction_pointer as usize >= self.program_code.len() {
                if self.expecting_input {
                    return Ok(Outcome::AwaitingInput);
                } else {
                    return Ok(Outcome::Finished);
                }
            }
            if fuel == 0 {
                return Err(MachineError::StepLimitExceeded);
            }
            match self.step_once() {
                Ok(()) => {},
                Err(e) => {
                    return Err(e);
                },
            }
            fuel = fuel - 1;
        }
    }

    /// One invocation: a machine that waits for input first stores the decoded value in the
    /// current cell and moves past the `,` that asked for it, then runs until it finishes,
    /// suspends on input or fails. An input value that is missing or stands for no byte
    /// leaves the machine waiting, with the output replaced by a hint.
    pub fn execute_program(&mut self, stdin: Option<&str>) -> (r: Result<Outcome, MachineError>)
        requires
            old(self).wf(),
        ensures
            match invoke(old(self)@, stdin_view(stdin)) {
                Ok((n, o)) => r == Ok::<Outcome, MachineError>(o) && final(self)@ == n
                    && final(self).wf(),
                Err(e) => r == Err::<Outcome, MachineError>(e),
            },
    {
        if self.expecting_input {
            let decoded = match stdin {
                Some(s) => convert_stdin_to_u8(s),
                None => Err(false),
            };
            match decoded {
                Ok(v) => {
                    let dp = self.data_pointer as usize;
                    self.tape.set(dp, v);
                    self.expecting_input = false;
                    self.instruction_pointer = self.instruction_pointer + 1;
                },
                Err(_) => {
                    self.stdout = input_hint_chars();
                    return Ok(Outcome::InputRejected);
                },
            }
        }
        self.run_to_stop()
    }
}

/// The hint shown when an input value is rejected, as characters.
fn input_hint_chars() -> (r: Vec<char>)
    ensures
        r@ == input_hint(),
        forall|i: int| 0 <= i < r@.len() ==> #[trigger] is_byte_char(r@[i]),
{
    let text = "Valid inputs are either 1..255 or a single character.";
    proof {
        reveal_strlit("Valid inputs are either 1..255 or a single character.");
    }
    let mut out: Vec<char> = Vec::new();
    let mut i: usize = 0;
    let n = text.unicode_len();
    while i < n
        invariant
            n == text@.len(),
            text@ == input_hint(),
            i <= n,
            out@ == text@.subrange(0, i as int),
        decreases n - i,
    {
        out.push(text.get_char(i));
        i = i + 1;
    }
    assert(out@ =~= text@);
    out
}

} // verus!
