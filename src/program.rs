use regex::Regex;
use unicode_segmentation::UnicodeSegmentation;
use vstd::prelude::*;

verus! {

/// The eight instruction symbols of the language.
pub open spec fn is_symbol(c: char) -> bool {
    c == '+' || c == '-' || c == '<' || c == '>' || c == '.' || c == ',' || c == '[' || c == ']'
}

/// Every character of `s` is an instruction symbol.
pub open spec fn all_symbols(s: Seq<char>) -> bool {
    forall|i: int| 0 <= i < s.len() ==> #[trigger] is_symbol(s[i])
}

/// A program text is accepted when it is non-empty and made of instruction symbols only.
pub open spec fn is_valid_program(s: Seq<char>) -> bool {
    s.len() > 0 && all_symbols(s)
}

/// Relies on regex::Regex::new and Regex::is_match: the anchored pattern accepts exactly
/// the non-empty texts whose characters all belong to the instruction alphabet
/// (`$` in this crate's syntax matches only at the end of the haystack).
#[verifier::external_body]
fn alphabet_pattern_matches(code: &str) -> (r: bool)
    ensures
        r == is_valid_program(code@),
{
    Regex::new(r"^[\+\-<>\.,\[\]]+$").unwrap().is_match(code)
}

/// Decides whether a program text may be executed.
pub fn validate_program(code: &str) -> (r: bool)
    ensures
        r == is_valid_program(code@),
{
    if code.unicode_len() > 0 {
        alphabet_pattern_matches(code)
    } else {
        false
    }
}

/// The extended grapheme clusters of a text, in order.
pub uninterp spec fn graphemes_of(s: Seq<char>) -> Seq<Seq<char>>;

/// Relies on UnicodeSegmentation::graphemes(true): the extended grapheme clusters of the
/// text in order, each handed back as its characters. The instruction symbols are ASCII
/// characters of cluster-break class Other, so a text made of them alone has one cluster
/// per character.
#[verifier::external_body]
fn split_graphemes(code: &str) -> (r: Vec<Vec<char>>)
    ensures
        r@.len() == graphemes_of(code@).len(),
        forall|i: int| 0 <= i < r@.len() ==> (#[trigger] r@[i])@ == graphemes_of(code@)[i],
        all_symbols(code@) ==> r@.len() == code@.len() && forall|i: int|
            0 <= i < r@.len() ==> (#[trigger] r@[i])@ == seq![code@[i]],
{
    code.graphemes(true).map(|g| g.chars().collect()).collect()
}

/// The instruction sequence of a list of grapheme clusters: each cluster must be one symbol.
pub open spec fn clusters_are_symbols(gs: Seq<Seq<char>>) -> bool {
    forall|i: int| 0 <= i < gs.len() ==> (#[trigger] gs[i]).len() == 1 && is_symbol(gs[i][0])
}

/// Flattens clusters that each hold a single instruction symbol into one symbol per position.
pub fn symbols_from_graphemes(gs: &Vec<Vec<char>>) -> (r: Option<Vec<char>>)
    ensures
        r.is_some() == clusters_are_symbols(gs@.map_values(|g: Vec<char>| g@)),
        r.is_some() ==> r.unwrap()@.len() == gs@.len()
            && forall|i: int| 0 <= i < gs@.len() ==> r.unwrap()@[i] == (#[trigger] gs@[i])@[0],
{
    let ghost views = gs@.map_values(|g: Vec<char>| g@);
    let mut out: Vec<char> = Vec::new();
    let mut i: usize = 0;
    while i < gs.len()
        invariant
            i <= gs@.len(),
            views == gs@.map_values(|g: Vec<char>| g@),
            out@.len() == i,
            forall|j: int| 0 <= j < i ==> out@[j] == (#[trigger] gs@[j])@[0],
            forall|j: int| 0 <= j < i ==> (#[trigger] views[j]).len() == 1 && is_symbol(views[j][0]),
        decreases gs@.len() - i,
    {
        let g = &gs[i];
        if g.len() != 1 {
            assert(views[i as int] == g@);
            return None;
        }
        let c = g[0];
        if !(c == '+' || c == '-' || c == '<' || c == '>' || c == '.' || c == ',' || c == '['
            || c == ']') {
            assert(views[i as int] == g@);
            return None;
        }
        out.push(c);
        i = i + 1;
    }
    Some(out)
}

/// Turns a program text into its symbols, one per grapheme cluster, when it is valid.
pub fn program_symbols(code: &str) -> (r: Option<Vec<char>>)
    ensures
        r.is_some() == is_valid_program(code@),
        r.is_some() ==> r.unwrap()@ == code@,
{
    if !validate_program(code) {
        return None;
    }
    let gs = split_graphemes(code);
    proof {
        assert(gs@.map_values(|g: Vec<char>| g@) =~= graphemes_of(code@));
    }
    let r = symbols_from_graphemes(&gs);
    match r {
        Some(v) => {
            assert forall|i: int| 0 <= i < v@.len() implies v@[i] == code@[i] by {
                assert(gs@[i]@ == seq![code@[i]]);
            }
            assert(v@ =~= code@);
            Some(v)
        },
        None => None,
    }
}

} // verus!
