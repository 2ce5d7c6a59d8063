use vstd::prelude::*;

verus! {

/// How a symbol moves the bracket nesting level.
pub open spec fn nesting_delta(c: char) -> int {
    if c == '[' {
        1
    } else if c == ']' {
        -1
    } else {
        0
    }
}

/// Open brackets minus close brackets among the positions `a..b` of `p`.
pub open spec fn net_open(p: Seq<char>, a: int, b: int) -> int
    decreases b - a,
{
    if b <= a {
        0
    } else {
        net_open(p, a, b - 1) + nesting_delta(p[b - 1])
    }
}

/// Forward scan: starting at `pos` with `depth` unclosed inner brackets, the position of the
/// first `]` met at depth zero, or `None` when the scan runs off the end.
pub open spec fn forward_match(p: Seq<char>, pos: int, depth: nat) -> Option<int>
    decreases p.len() - pos,
{
    if pos < 0 || pos >= p.len() {
        None
    } else if p[pos] == '[' {
        forward_match(p, pos + 1, depth + 1)
    } else if p[pos] == ']' {
        if depth == 0 {
            Some(pos)
        } else {
            forward_match(p, pos + 1, (depth - 1) as nat)
        }
    } else {
        forward_match(p, pos + 1, depth)
    }
}

/// Backward scan: starting at `pos` with `depth` unopened inner brackets, the position of the
/// first `[` met at depth zero, or `None` when the scan runs off the start.
pub open spec fn backward_match(p: Seq<char>, pos: int, depth: nat) -> Option<int>
    decreases pos + 1,
{
    if pos < 0 || pos >= p.len() {
        None
    } else if p[pos] == ']' {
        backward_match(p, pos - 1, depth + 1)
    } else if p[pos] == '[' {
        if depth == 0 {
            Some(pos)
        } else {
            backward_match(p, pos - 1, (depth - 1) as nat)
        }
    } else {
        backward_match(p, pos - 1, depth)
    }
}

/// Finds the `]` that closes the `[` at `ip`, scanning forward; `None` when it is unmatched.
pub fn get_matching_forward_instruction_pointer(program: &Vec<char>, ip: u32) -> (r: Option<u32>)
    requires
        program@.len() <= u32::MAX,
        ip < program@.len(),
    ensures
        r.is_some() == forward_match(program@, ip + 1, 0).is_some(),
        r.is_some() ==> forward_match(program@, ip + 1, 0) == Some(r.unwrap() as int),
{
    let mut pos: usize = ip as usize + 1;
    let mut depth: usize = 0;
    while pos < program.len()
        invariant
            ip + 1 <= pos <= program@.len() <= u32::MAX,
            depth <= pos - (ip + 1),
            forward_match(program@, ip + 1, 0) == forward_match(program@, pos as int, depth as nat),
        decreases program@.len() - pos,
    {
        let c = program[pos];
        if c == '[' {
            depth = depth + 1;
        } else if c == ']' {
            if depth == 0 {
                return Some(pos as u32);
            }
            depth = depth - 1;
        }
        pos = pos + 1;
    }
    None
}

/// Finds the `[` that opens the `]` at `ip`, scanning backward; `None` when it is unmatched.
pub fn get_matching_backward_instruction_pointer(program: &Vec<char>, ip: u32) -> (r: Option<
    u32,
>)
    requires
        program@.len() <= u32::MAX,
        ip < program@.len(),
    ensures
        r.is_some() == backward_match(program@, ip - 1, 0).is_some(),
        r.is_some() ==> backward_match(program@, ip - 1, 0) == Some(r.unwrap() as int),
{
    let mut pos: usize = ip as usize;
    let mut depth: usize = 0;
    while pos > 0
        invariant
            pos <= ip < program@.len() <= u32::MAX,
            depth <= ip - pos,
            backward_match(program@, ip - 1, 0) == backward_match(
                program@,
                pos - 1,
                depth as nat,
            ),
        decreases pos,
    {
        let c = program[pos - 1];
        if c == ']' {
            depth = depth + 1;
        } else if c == '[' {
            if depth == 0 {
                return Some((pos - 1) as u32);
            }
            depth = depth - 1;
        }
        pos = pos - 1;
    }
    None
}

/// A forward scan that succeeds stops at a position of the program at or past its start.
pub proof fn lemma_forward_match_bounds(p: Seq<char>, pos: int, depth: nat, j: int)
    requires
        forward_match(p, pos, depth) == Some(j),
    ensures
        pos <= j < p.len(),
{
    lemma_forward_match_sound(p, pos, depth, j);
}

/// A backward scan that succeeds stops at a position of the program at or before its start.
pub proof fn lemma_backward_match_bounds(p: Seq<char>, pos: int, depth: nat, i: int)
    requires
        backward_match(p, pos, depth) == Some(i),
    ensures
        0 <= i <= pos,
    decreases pos + 1,
{
    if !(p[pos] == '[' && depth == 0) {
        let next_depth: nat = if p[pos] == ']' {
            depth + 1
        } else if p[pos] == '[' {
            (depth - 1) as nat
        } else {
            depth
        };
        lemma_backward_match_bounds(p, pos - 1, next_depth, i);
    }
}

proof fn lemma_net_open_split(p: Seq<char>, a: int, b: int, c: int)
    requires
        a <= b <= c,
    ensures
        net_open(p, a, c) == net_open(p, a, b) + net_open(p, b, c),
    decreases c - b,
{
    if c > b {
        lemma_net_open_split(p, a, b, c - 1);
    }
}

proof fn lemma_forward_match_sound(p: Seq<char>, pos: int, depth: nat, j: int)
    requires
        forward_match(p, pos, depth) == Some(j),
    ensures
        pos <= j < p.len(),
        p[j] == ']',
        depth + net_open(p, pos, j) == 0,
        forall|k: int| pos <= k <= j ==> depth + #[trigger] net_open(p, pos, k) >= 0,
    decreases p.len() - pos,
{
    if p[pos] == ']' && depth == 0 {
        assert(j == pos);
    } else {
        let next_depth: nat = if p[pos] == '[' {
            depth + 1
        } else if p[pos] == ']' {
            (depth - 1) as nat
        } else {
            depth
        };
        assert(forward_match(p, pos + 1, next_depth) == Some(j));
        lemma_forward_match_sound(p, pos + 1, next_depth, j);
        assert(next_depth == depth + nesting_delta(p[pos]));
        assert forall|k: int| pos + 1 <= k <= j implies net_open(p, pos, k) == nesting_delta(p[pos])
            + net_open(p, pos + 1, k) by {
            lemma_net_open_split(p, pos, pos + 1, k);
            assert(net_open(p, pos, pos + 1) == net_open(p, pos, pos) + nesting_delta(p[pos]));
        }
        assert forall|k: int| pos <= k <= j implies depth + #[trigger] net_open(p, pos, k) >= 0 by {
            if k > pos {
                assert(next_depth + net_open(p, pos + 1, k) >= 0);
            }
        }
    }
}

proof fn lemma_backward_match_complete(p: Seq<char>, pos: int, depth: nat, i: int)
    requires
        0 <= i <= pos < p.len(),
        p[i] == '[',
        depth - net_open(p, i + 1, pos + 1) == 0,
        forall|k: int|
            i < k <= pos && p[k] == '[' ==> depth - #[trigger] net_open(p, k + 1, pos + 1) > 0,
    ensures
        backward_match(p, pos, depth) == Some(i),
    decreases pos - i,
{
    if pos > i {
        assert(depth - net_open(p, pos + 1, pos + 1) == depth);
        let next_depth: nat = if p[pos] == ']' {
            depth + 1
        } else if p[pos] == '[' {
            (depth - 1) as nat
        } else {
            depth
        };
        assert(next_depth == depth - nesting_delta(p[pos]));
        assert forall|k: int|
            i < k <= pos - 1 && p[k] == '[' implies next_depth - #[trigger] net_open(
                p,
                k + 1,
                pos,
            ) > 0 by {
            assert(net_open(p, k + 1, pos + 1) == net_open(p, k + 1, pos) + nesting_delta(p[pos]));
        }
        lemma_backward_match_complete(p, pos - 1, next_depth, i);
    }
}

/// Matching brackets agree in both directions: when the forward scan from a `[` finds its
/// closing `]`, the backward scan from that `]` finds the same `[` again.
pub proof fn lemma_bracket_symmetry(p: Seq<char>, i: int)
    requires
        0 <= i < p.len(),
        p[i] == '[',
        forward_match(p, i + 1, 0).is_some(),
    ensures
        backward_match(p, forward_match(p, i + 1, 0).unwrap() - 1, 0) == Some(i),
{
    let j = forward_match(p, i + 1, 0).unwrap();
    lemma_forward_match_sound(p, i + 1, 0, j);
    assert forall|k: int| i < k <= j - 1 && p[k] == '[' implies 0 - #[trigger] net_open(
        p,
        k + 1,
        j,
    ) > 0 by {
        lemma_net_open_split(p, i + 1, k + 1, j);
        assert(net_open(p, i + 1, k + 1) == net_open(p, i + 1, k) + 1);
        assert(net_open(p, i + 1, k) >= 0);
    }
    lemma_backward_match_complete(p, j - 1, 0, i);
}

} // verus!
