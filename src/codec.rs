use crate::machine::{config_wf, is_byte_char, Config, MachineError, MachineState, TAPE_LEN};
use crate::program::{is_symbol, is_valid_program, program_symbols};
use vstd::bytes::{
    lemma_auto_spec_u32_to_from_le_bytes, lemma_auto_spec_u64_to_from_le_bytes,
    spec_u32_from_le_bytes, spec_u32_to_le_bytes, spec_u64_from_le_bytes, spec_u64_to_le_bytes,
    u32_from_le_bytes, u32_to_le_bytes, u64_from_le_bytes, u64_to_le_bytes,
};
use vstd::prelude::*;
use vstd::slice::slice_subrange;

verus! {

/// The byte that stands for a character of code point at most 255.
pub open spec fn char_byte(c: char) -> u8 {
    (c as u32) as u8
}

/// The byte that stands for a flag.
pub open spec fn flag_byte(f: bool) -> u8 {
    if f {
        1
    } else {
        0
    }
}

/// The serialized form of a machine state: the program's length (4 bytes, little endian) and
/// its symbols, the instruction and data pointers (4 bytes each), the tape, the output's
/// length (8 bytes) and its characters, and the awaiting-input flag.
pub open spec fn encode_config(c: Config) -> Seq<u8> {
    spec_u32_to_le_bytes(c.program.len() as u32) + c.program.map_values(|x: char| char_byte(x))
        + spec_u32_to_le_bytes(c.ip as u32) + spec_u32_to_le_bytes(c.dp as u32) + c.tape
        + spec_u64_to_le_bytes(c.out.len() as u64) + c.out.map_values(|x: char| char_byte(x))
        + seq![flag_byte(c.awaiting)]
}

/// Where the tape starts in a serialized state whose program has `n` symbols.
pub open spec fn tape_start(n: int) -> int {
    n + 12
}

/// The fields that bytes in the layout of `encode_config` hold; `None` when the bytes do not
/// have that layout.
pub open spec fn read_layout(b: Seq<u8>) -> Option<Config> {
    if b.len() < 4 {
        None
    } else {
        let n = spec_u32_from_le_bytes(b.subrange(0, 4)) as int;
        let t = tape_start(n);
        let m_at = t + TAPE_LEN;
        if b.len() < m_at + 8 {
            None
        } else {
            let m = spec_u64_from_le_bytes(b.subrange(m_at, m_at + 8)) as int;
            if b.len() != m_at + 8 + m + 1 {
                None
            } else {
                let c = Config {
                    program: b.subrange(4, 4 + n).map_values(|x: u8| x as char),
                    ip: spec_u32_from_le_bytes(b.subrange(4 + n, 8 + n)) as int,
                    dp: spec_u32_from_le_bytes(b.subrange(8 + n, 12 + n)) as int,
                    tape: b.subrange(t, m_at),
                    out: b.subrange(m_at + 8, m_at + 8 + m).map_values(|x: u8| x as char),
                    awaiting: b[b.len() - 1] == 1,
                };
                if b[b.len() - 1] <= 1 {
                    Some(c)
                } else {
                    None
                }
            }
        }
    }
}

/// Reads a serialized state back: `MalformedState` when the bytes do not have the layout of
/// `encode_config` or describe no state the machine can be in, `InvalidProgram` when they do
/// have that layout but the program they hold fails validation.
pub open spec fn decode_config(b: Seq<u8>) -> Result<Config, MachineError> {
    match read_layout(b) {
        None => Err(MachineError::MalformedState),
        Some(c) => if !is_valid_program(c.program) {
            Err(MachineError::InvalidProgram)
        } else if config_wf(c) {
            Ok(c)
        } else {
            Err(MachineError::MalformedState)
        },
    }
}

fn push_bytes(out: &mut Vec<u8>, src: &[u8])
    ensures
        final(out)@ == old(out)@ + src@,
{
    let mut i: usize = 0;
    while i < src.len()
        invariant
            i <= src@.len(),
            out@ == old(out)@ + src@.subrange(0, i as int),
        decreases src@.len() - i,
    {
        out.push(src[i]);
        i = i + 1;
        assert(src@.subrange(0, i as int) =~= src@.subrange(0, i - 1) + seq![src@[i - 1]]);
    }
    assert(src@.subrange(0, src@.len() as int) =~= src@);
}

fn push_chars(out: &mut Vec<u8>, src: &Vec<char>)
    ensures
        final(out)@ == old(out)@ + src@.map_values(|x: char| char_byte(x)),
{
    let ghost target = src@.map_values(|x: char| char_byte(x));
    let mut i: usize = 0;
    while i < src.len()
        invariant
            i <= src@.len(),
            target == src@.map_values(|x: char| char_byte(x)),
            out@ == old(out)@ + target.subrange(0, i as int),
        decreases src@.len() - i,
    {
        let c = src[i];
        #[verifier::truncate]
        let b = (c as u32) as u8;
        out.push(b);
        i = i + 1;
        assert(target.subrange(0, i as int) =~= target.subrange(0, i - 1) + seq![target[i - 1]]);
    }
    assert(target.subrange(0, src@.len() as int) =~= target);
}

impl MachineState {
    /// Serializes the state into the layout of `encode_config`.
    pub fn encode_state(&self) -> (r: Vec<u8>)
        requires
            self.wf(),
        ensures
            r@ == encode_config(self@),
    {
        let mut out = u32_to_le_bytes(self.program_code.len() as u32);
        push_chars(&mut out, &self.program_code);
        let ip = u32_to_le_bytes(self.instruction_pointer);
        push_bytes(&mut out, ip.as_slice());
        let dp = u32_to_le_bytes(self.data_pointer);
        push_bytes(&mut out, dp.as_slice());
        push_bytes(&mut out, self.tape.as_slice());
        let m = u64_to_le_bytes(self.stdout.len() as u64);
        push_bytes(&mut out, m.as_slice());
        push_chars(&mut out, &self.stdout);
        out.push(if self.expecting_input {
            1u8
        } else {
            0u8
        });
        out
    }
}

fn bytes_to_chars(src: &[u8]) -> (r: Vec<char>)
    ensures
        r@ == src@.map_values(|x: u8| x as char),
{
    let ghost target = src@.map_values(|x: u8| x as char);
    let mut out: Vec<char> = Vec::new();
    let mut i: usize = 0;
    while i < src.len()
        invariant
            i <= src@.len(),
            target == src@.map_values(|x: u8| x as char),
            out@ == target.subrange(0, i as int),
        decreases src@.len() - i,
    {
        out.push(src[i] as char);
        i = i + 1;
        assert(target.subrange(0, i as int) =~= target.subrange(0, i - 1) + seq![target[i - 1]]);
    }
    assert(target.subrange(0, src@.len() as int) =~= target);
    out
}

/// Relies on `String`'s `FromIterator<char>`: the string holds the characters in order.
#[verifier::external_body]
fn text_of(chars: &Vec<char>) -> (r: String)
    ensures
        r@ == chars@,
{
    chars.iter().collect()
}

/// Reads a serialized state back, with the error that `decode_config` gives: the program it
/// holds goes through validation and grapheme splitting as a fresh program text does.
pub fn decode_state(bytes: &Vec<u8>) -> (r: Result<MachineState, MachineError>)
    ensures
        match decode_config(bytes@) {
            Ok(c) => r is Ok && r.unwrap()@ == c && r.unwrap().wf(),
            Err(e) => r == Err::<MachineState, MachineError>(e),
        },
{
    let b = bytes.as_slice();
    let len = b.len();
    if len < 4 {
        return Err(MachineError::MalformedState);
    }
    let n = u32_from_le_bytes(slice_subrange(b, 0, 4)) as usize;
    if n > len || len - n < 12 + TAPE_LEN + 8 {
        return Err(MachineError::MalformedState);
    }
    let t = n + 12;
    let m_at = t + TAPE_LEN;
    let m64 = u64_from_le_bytes(slice_subrange(b, m_at, m_at + 8));
    let rest = len - (m_at + 8);
    if rest == 0 || m64 != (rest - 1) as u64 {
        return Err(MachineError::MalformedState);
    }
    let m = rest - 1;
    let raw_program = bytes_to_chars(slice_subrange(b, 4, 4 + n));
    let instruction_pointer = u32_from_le_bytes(slice_subrange(b, 4 + n, 8 + n));
    let data_pointer = u32_from_le_bytes(slice_subrange(b, 8 + n, 12 + n));
    let mut tape: Vec<u8> = Vec::new();
    push_bytes(&mut tape, slice_subrange(b, t, m_at));
    let stdout = bytes_to_chars(slice_subrange(b, m_at + 8, m_at + 8 + m));
    let flag = b[len - 1];
    if flag > 1 {
        return Err(MachineError::MalformedState);
    }
    let program_code = match program_symbols(text_of(&raw_program).as_str()) {
        Some(p) => p,
        None => {
            return Err(MachineError::InvalidProgram);
        },
    };
    let s = MachineState {
        program_code,
        instruction_pointer,
        tape,
        stdout,
        data_pointer,
        expecting_input: flag == 1,
    };
    proof {
        assert(s.tape@ =~= bytes@.subrange(t as int, m_at as int));
        assert forall|i: int| 0 <= i < s.stdout@.len() implies #[trigger] is_byte_char(
            s.stdout@[i],
        ) by {
            let x = bytes@.subrange(m_at + 8, m_at + 8 + m)[i];
            assert(s.stdout@[i] == x as char);
        }
    }
    if instruction_pointer as usize > n || data_pointer as usize >= TAPE_LEN {
        return Err(MachineError::MalformedState);
    }
    if s.expecting_input && (instruction_pointer as usize == n || s.program_code[
        instruction_pointer as usize] != ',') {
        return Err(MachineError::MalformedState);
    }
    Ok(s)
}

proof fn lemma_chars_round_trip(s: Seq<char>)
    requires
        forall|i: int| 0 <= i < s.len() ==> #[trigger] is_byte_char(s[i]),
    ensures
        s.map_values(|x: char| char_byte(x)).map_values(|x: u8| x as char) == s,
{
    broadcast use vstd::utf8::char_u32_cast;

    let a = s.map_values(|x: char| char_byte(x));
    let r = a.map_values(|x: u8| x as char);
    assert forall|i: int| 0 <= i < s.len() implies r[i] == s[i] by {
        let c = s[i];
        assert(is_byte_char(c));
        let u = c as u32;
        assert(u <= 255);
        let v = u as u8;
        assert(v as u32 == u);
        assert((v as char) as u32 == v as u32);
        assert(a[i] == v);
        assert(r[i] == v as char);
        vstd::utf8::char_u32_cast(c, c as u32);
        vstd::utf8::char_u32_cast(v as char, (v as char) as u32);
    }
    assert(r =~= s);
}

/// Serializing a state and reading it back gives the same state, every field included.
pub proof fn lemma_round_trip(c: Config)
    requires
        config_wf(c),
        c.out.len() <= u64::MAX,
    ensures
        decode_config(encode_config(c)) == Ok::<Config, MachineError>(c),
{
    lemma_auto_spec_u32_to_from_le_bytes();
    lemma_auto_spec_u64_to_from_le_bytes();
    let b = encode_config(c);
    let n = c.program.len() as int;
    let m = c.out.len() as int;
    let t = tape_start(n);
    let m_at = t + TAPE_LEN;
    assert forall|i: int| 0 <= i < n implies #[trigger] is_byte_char(c.program[i]) by {
        assert(is_symbol(c.program[i]));
    }
    lemma_chars_round_trip(c.program);
    lemma_chars_round_trip(c.out);
    assert(b.len() == m_at + 8 + m + 1);
    assert(b.subrange(0, 4) =~= spec_u32_to_le_bytes(n as u32));
    assert(b.subrange(4, 4 + n) =~= c.program.map_values(|x: char| char_byte(x)));
    assert(b.subrange(4 + n, 8 + n) =~= spec_u32_to_le_bytes(c.ip as u32));
    assert(b.subrange(8 + n, 12 + n) =~= spec_u32_to_le_bytes(c.dp as u32));
    assert(b.subrange(t, m_at) =~= c.tape);
    assert(b.subrange(m_at, m_at + 8) =~= spec_u64_to_le_bytes(m as u64));
    assert(b.subrange(m_at + 8, m_at + 8 + m) =~= c.out.map_values(|x: char| char_byte(x)));
    assert(b[b.len() - 1] == flag_byte(c.awaiting));
    let d = read_layout(b).unwrap();
    assert(d.program =~= c.program);
    assert(d.out =~= c.out);
    assert(d == c);
}

} // verus!
