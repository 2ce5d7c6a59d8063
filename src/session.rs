use crate::codec::{decode_config, decode_state, encode_config};
use crate::machine::{
    initial_config, invoke, stdin_view, Config, MachineError, MachineState, Outcome,
};
use crate::program::is_valid_program;
use vstd::prelude::*;

verus! {

/// What one invocation hands back to its caller.
pub struct Response {
    pub program_code: Vec<char>,
    pub stdout: Vec<char>,
    pub serialized_state: Vec<u8>,
    pub expecting_input: bool,
    pub outcome: Outcome,
}

/// The state an invocation starts from: the serialized state when one is given, else a
/// fresh machine on the program text. Either way a program that fails validation gives
/// `InvalidProgram`; a serialized state that cannot be read back gives `MalformedState`.
pub open spec fn load_config(serialized_state: Option<Seq<u8>>, program_code: Seq<char>) -> Result<
    Config,
    MachineError,
> {
    match serialized_state {
        Some(b) => decode_config(b),
        None => if is_valid_program(program_code) && program_code.len() <= u32::MAX {
            Ok(initial_config(program_code))
        } else {
            Err(MachineError::InvalidProgram)
        },
    }
}

/// The view of an optional serialized state.
pub open spec fn token_view(serialized_state: Option<&Vec<u8>>) -> Option<Seq<u8>> {
    match serialized_state {
        Some(b) => Some(b@),
        None => None,
    }
}

/// Reads the serialized state back when one is given, else starts a fresh machine on the
/// program text.
pub fn get_or_start_program_content(serialized_state: Option<&Vec<u8>>, program_code: &str) -> (r:
    Result<MachineState, MachineError>)
    ensures
        match load_config(token_view(serialized_state), program_code@) {
            Ok(c) => r is Ok && r.unwrap()@ == c && r.unwrap().wf(),
            Err(e) => r == Err::<MachineState, MachineError>(e),
        },
{
    match serialized_state {
        Some(b) => decode_state(b),
        None => MachineState::start(program_code),
    }
}

/// One request: load or start the machine, run it with the optional input value, and hand
/// back the program, the output, the serialized state and whether input is awaited.
pub fn handle_request(
    program_code: &str,
    serialized_state: Option<&Vec<u8>>,
    stdin: Option<&str>,
) -> (r: Result<Response, MachineError>)
    ensures
        match load_config(token_view(serialized_state), program_code@) {
            Err(e) => r == Err::<Response, MachineError>(e),
            Ok(c) => match invoke(c, stdin_view(stdin)) {
                Err(e) => r == Err::<Response, MachineError>(e),
                Ok((n, o)) => r is Ok && r.unwrap().program_code@ == n.program
                    && r.unwrap().stdout@ == n.out && r.unwrap().serialized_state@
                    == encode_config(n) && r.unwrap().expecting_input == n.awaiting
                    && r.unwrap().outcome == o,
            },
        },
{
    let mut state = get_or_start_program_content(serialized_state, program_code)?;
    let outcome = state.execute_program(stdin)?;
    let serialized = state.encode_state();
    Ok(
        Response {
            program_code: state.program_code,
            stdout: state.stdout,
            serialized_state: serialized,
            expecting_input: state.expecting_input,
            outcome,
        },
    )
}

} // verus!
