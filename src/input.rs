use vstd::prelude::*;

verus! {

/// A decimal digit character.
pub open spec fn is_digit(c: char) -> bool {
    '0' <= c && c <= '9'
}

/// The value of a string of decimal digits, most significant first.
pub open spec fn digits_value(s: Seq<char>) -> nat
    decreases s.len(),
{
    if s.len() == 0 {
        0
    } else {
        digits_value(s.drop_last()) * 10 + ((s.last() as u32) - ('0' as u32)) as nat
    }
}

/// The digits of a decimal text once an optional leading `+` is taken off.
pub open spec fn unsigned_digits(s: Seq<char>) -> Seq<char> {
    if s.len() > 0 && s[0] == '+' {
        s.drop_first()
    } else {
        s
    }
}

/// A text read as a base-10 integer that fits in a byte: an optional `+` and at least one digit.
pub open spec fn decimal_u8(s: Seq<char>) -> Option<u8> {
    let d = unsigned_digits(s);
    if d.len() > 0 && (forall|i: int| 0 <= i < d.len() ==> #[trigger] is_digit(d[i]))
        && digits_value(d) <= 255 {
        Some(digits_value(d) as u8)
    } else {
        None
    }
}

/// The byte that an input text stands for: a decimal number in 0..=255, or else a single
/// character whose code point is in 0..=255.
pub open spec fn decoded_input(s: Seq<char>) -> Option<u8> {
    match decimal_u8(s) {
        Some(v) => Some(v),
        None => if s.len() == 1 && (s[0] as u32) <= 255 {
            Some((s[0] as u32) as u8)
        } else {
            None
        },
    }
}

/// Relies on `str::parse::<u8>` (u8's `FromStr`): an optional `+` followed by one or more
/// decimal digits whose value fits in a byte parses to that value; anything else is an error.
#[verifier::external_body]
fn parse_u8(s: &str) -> (r: Option<u8>)
    ensures
        r == decimal_u8(s@),
{
    s.parse::<u8>().ok()
}

/// Decodes one input value for the machine; `Err(false)` when the text stands for no byte.
pub fn convert_stdin_to_u8(stdin: &str) -> (r: Result<u8, bool>)
    ensures
        match decoded_input(stdin@) {
            Some(v) => r == Ok::<u8, bool>(v),
            None => r == Err::<u8, bool>(false),
        },
{
    match parse_u8(stdin) {
        Some(v) => Ok(v),
        None => {
            if stdin.unicode_len() == 1 {
                let c = stdin.get_char(0);
                if (c as u32) <= 255 {
                    Ok((c as u32) as u8)
                } else {
                    Err(false)
                }
            } else {
                Err(false)
            }
        },
    }
}

} // verus!
