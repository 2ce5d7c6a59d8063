use crate::brackets::{backward_match, forward_match};
use crate::codec::{decode_config, encode_config, lemma_round_trip};
use crate::input::decoded_input;
use crate::machine::{
    accept_input, config_wf, lemma_step_wf, initial_config, invoke, run, step, stopped, Config,
    MachineError, Outcome, MAX_STEPS,
};
use crate::program::{is_symbol, is_valid_program};
use vstd::prelude::*;

verus! {

/// A fresh machine on `program` whose first cell already holds `v`.
pub open spec fn preloaded_config(program: Seq<char>, v: u8) -> Config {
    Config { tape: initial_config(program).tape.update(0, v), ..initial_config(program) }
}

/// `c` runs `,` followed by `d`'s program, one instruction ahead of `d`, in the same data state.
pub open spec fn runs_behind_input(c: Config, d: Config) -> bool {
    &&& c.program == seq![','] + d.program
    &&& c.ip == d.ip + 1
    &&& c.dp == d.dp
    &&& c.tape == d.tape
    &&& c.out == d.out
    &&& c.awaiting == d.awaiting
}

proof fn lemma_forward_match_shift(q: Seq<char>, pos: int, depth: nat)
    requires
        pos >= 0,
    ensures
        forward_match(seq![','] + q, pos + 1, depth) == match forward_match(q, pos, depth) {
            Some(j) => Some(j + 1),
            None => None::<int>,
        },
    decreases q.len() - pos,
{
    let p = seq![','] + q;
    if pos < q.len() {
        assert(p[pos + 1] == q[pos]);
        let next: nat = if q[pos] == '[' {
            depth + 1
        } else if q[pos] == ']' && depth > 0 {
            (depth - 1) as nat
        } else {
            depth
        };
        if !(q[pos] == ']' && depth == 0) {
            lemma_forward_match_shift(q, pos + 1, next);
        }
    }
}

proof fn lemma_backward_match_shift(q: Seq<char>, pos: int, depth: nat)
    requires
        pos >= -1,
        pos < q.len(),
    ensures
        backward_match(seq![','] + q, pos + 1, depth) == match backward_match(q, pos, depth) {
            Some(j) => Some(j + 1),
            None => None::<int>,
        },
    decreases pos + 1,
{
    let p = seq![','] + q;
    if pos == -1 {
        assert(p[0] == ',');
        assert(backward_match(p, -1, depth) is None);
    } else {
        assert(p[pos + 1] == q[pos]);
        let next: nat = if q[pos] == ']' {
            depth + 1
        } else if q[pos] == '[' && depth > 0 {
            (depth - 1) as nat
        } else {
            depth
        };
        if !(q[pos] == '[' && depth == 0) {
            lemma_backward_match_shift(q, pos - 1, next);
        }
    }
}

proof fn lemma_step_shift(c: Config, d: Config)
    requires
        runs_behind_input(c, d),
        0 <= d.ip < d.program.len(),
        0 <= d.dp < d.tape.len(),
    ensures
        match (step(c), step(d)) {
            (Ok(c2), Ok(d2)) => runs_behind_input(c2, d2),
            (Err(e1), Err(e2)) => e1 == e2,
            _ => false,
        },
{
    assert(c.program[c.ip] == d.program[d.ip]);
    lemma_forward_match_shift(d.program, d.ip + 1, 0);
    lemma_backward_match_shift(d.program, d.ip - 1, 0);
    let ins = d.program[d.ip];
    if ins == '.' {
        assert(step(c).unwrap().out == step(d).unwrap().out);
    }
}

proof fn lemma_run_shift(c: Config, d: Config, fuel: nat)
    requires
        runs_behind_input(c, d),
        config_wf(d),
    ensures
        match (run(c, fuel), run(d, fuel)) {
            (Ok(c2), Ok(d2)) => runs_behind_input(c2, d2),
            (Err(e1), Err(e2)) => e1 == e2,
            _ => false,
        },
    decreases fuel,
{
    assert(stopped(c) == stopped(d));
    if !stopped(d) && fuel > 0 {
        lemma_step_shift(c, d);
        if let (Ok(c2), Ok(d2)) = (step(c), step(d)) {
            lemma_step_wf(d);
            lemma_run_shift(c2, d2, (fuel - 1) as nat);
        }
    }
}

/// Resuming with an input value a machine that suspended on a leading `,` does what the rest
/// of the program does when it starts with that value in its first cell: both fail with the
/// same error, or both stop with the same output and the same outcome. The suspended state
/// survives serialization unchanged on the way.
pub proof fn lemma_resume_matches_preloaded(q: Seq<char>, s: Seq<char>)
    requires
        is_valid_program(q),
        q.len() + 1 <= u32::MAX,
        decoded_input(s) is Some,
    ensures
        invoke(initial_config(seq![','] + q), None) is Ok,
        invoke(initial_config(seq![','] + q), None).unwrap().1 == Outcome::AwaitingInput,
        decode_config(encode_config(invoke(initial_config(seq![','] + q), None).unwrap().0))
            == Ok::<Config, MachineError>(invoke(initial_config(seq![','] + q), None).unwrap().0),
        match (
            invoke(invoke(initial_config(seq![','] + q), None).unwrap().0, Some(s)),
            invoke(preloaded_config(q, decoded_input(s).unwrap()), None),
        ) {
            (Ok(r1), Ok(r2)) => r1.0.out == r2.0.out && r1.1 == r2.1,
            (Err(e1), Err(e2)) => e1 == e2,
            _ => false,
        },
{
    let p = seq![','] + q;
    let v = decoded_input(s).unwrap();
    let c0 = initial_config(p);
    assert(p[0] == ',');
    assert forall|i: int| 0 <= i < p.len() implies #[trigger] is_symbol(p[i]) by {
        if i > 0 {
            assert(p[i] == q[i - 1]);
        }
    }
    assert(config_wf(c0));
    lemma_step_wf(c0);
    let c1 = step(c0).unwrap();
    assert(run(c1, (MAX_STEPS - 1) as nat) == Ok::<Config, MachineError>(c1));
    assert(invoke(c0, None) == Ok::<(Config, Outcome), MachineError>((c1, Outcome::AwaitingInput)));
    lemma_round_trip(c1);
    let a = accept_input(c1, v);
    let d = preloaded_config(q, v);
    assert(a.tape =~= d.tape);
    assert(runs_behind_input(a, d));
    assert(config_wf(d));
    lemma_run_shift(a, d, MAX_STEPS as nat);
}

} // verus!
