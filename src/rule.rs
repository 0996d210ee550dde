use vstd::prelude::*;
use crate::text::{
    chars_of, count_digits, count_white, digit_run, digits_to_usize, digits_value, is_digit, white_run,
};

verus! {

/// Direction in which the head moves after a transition.
#[derive(Clone, Copy, Debug, PartialEq, Eq, Structural)]
pub enum Move {
    Left,
    Right,
    Stop,
}

/// The move written by a trailing letter: `R`, `L` and `S` are
/// `Right`, `Left` and `Stop`; any other letter falls back to `Stop`.
pub open spec fn move_of(m: char) -> Move {
    if m == 'R' {
        Move::Right
    } else if m == 'L' {
        Move::Left
    } else {
        Move::Stop
    }
}

/// Executable counterpart of `move_of`.
pub fn move_from_letter(m: char) -> (r: Move)
    ensures
        r == move_of(m),
{
    if m == 'R' {
        Move::Right
    } else if m == 'L' {
        Move::Left
    } else {
        Move::Stop
    }
}


/// One deterministic transition: in `state`, reading `reading_char`,
/// write `place_char`, move the head by `next_move` and go to `next_state`.
#[derive(Clone, Copy, Debug, PartialEq, Eq, Structural)]
pub struct Command {
    pub state: usize,
    pub next_state: usize,
    pub reading_char: char,
    pub place_char: char,
    pub next_move: Move,
}

/// Why a line could not be read as a transition.
#[derive(Clone, Copy, Debug, PartialEq, Eq, Structural)]
pub enum ParseError {
    /// The line is not laid out as `q<digits>(<c>) -> q<digits>(<c>)<m>`,
    /// with any whitespace around the arrow.
    Malformed,
    /// A state number does not fit in a `usize`.
    StateOutOfRange,
}

/// Index of the `(` that follows the first state number.
pub open spec fn first_open(s: Seq<char>) -> int {
    1 + digit_run(s, 1) as int
}

/// Index of the `-` of the arrow: the `)` after the read symbol is
/// followed by any run of whitespace, possibly empty.
pub open spec fn arrow_at(s: Seq<char>) -> int {
    first_open(s) + 3 + white_run(s, first_open(s) + 3) as int
}

/// Index of the `q` of the second state: the arrow is followed by any run
/// of whitespace, possibly empty.
pub open spec fn second_q(s: Seq<char>) -> int {
    arrow_at(s) + 2 + white_run(s, arrow_at(s) + 2) as int
}

/// Index of the `(` that follows the second state number.
pub open spec fn second_open(s: Seq<char>) -> int {
    second_q(s) + 1 + digit_run(s, second_q(s) + 1) as int
}

/// `s` reads `q<digits>(<r>)<ws>-><ws>q<digits>(<w>)<m>`, where each `<ws>`
/// is any run of whitespace, possibly empty, and `r`, `w` and `m` are single
/// characters other than a line break.
pub open spec fn is_rule_layout(s: Seq<char>) -> bool {
    let p = first_open(s);
    let a = arrow_at(s);
    let t = second_q(s);
    let q = second_open(s);
    &&& s.len() == q + 4
    &&& s[0] == 'q'
    &&& p > 1
    &&& s[p] == '('
    &&& s[p + 1] != '\n'
    &&& s[p + 2] == ')'
    &&& s[a] == '-'
    &&& s[a + 1] == '>'
    &&& s[t] == 'q'
    &&& q > t + 1
    &&& s[q] == '('
    &&& s[q + 1] != '\n'
    &&& s[q + 2] == ')'
    &&& s[q + 3] != '\n'
}

/// The state the rule laid out in `s` starts from.
pub open spec fn source_state(s: Seq<char>) -> nat {
    digits_value(s.subrange(1, first_open(s)))
}

/// The state the rule laid out in `s` leads to.
pub open spec fn target_state(s: Seq<char>) -> nat {
    digits_value(s.subrange(second_q(s) + 1, second_open(s)))
}

/// Both state numbers of the rule laid out in `s` fit in a `usize`.
pub open spec fn states_fit(s: Seq<char>) -> bool {
    source_state(s) <= usize::MAX && target_state(s) <= usize::MAX
}

/// The rule laid out in `s`.
pub open spec fn rule_of(s: Seq<char>) -> Command {
    Command {
        state: source_state(s) as usize,
        next_state: target_state(s) as usize,
        reading_char: s[first_open(s) + 1],
        place_char: s[second_open(s) + 1],
        next_move: move_of(s[second_open(s) + 3]),
    }
}

/// Reads the transition written in `s`.
pub fn parse_rule_chars(s: &Vec<char>) -> (r: Result<Command, ParseError>)
    ensures
        r is Ok <==> is_rule_layout(s@) && states_fit(s@),
        r matches Ok(c) ==> c == rule_of(s@),
        r matches Err(e) ==> e == if is_rule_layout(s@) {
            ParseError::StateOutOfRange
        } else {
            ParseError::Malformed
        },
{
    let n = s.len();
    if n < 2 || s[0] != 'q' {
        return Err(ParseError::Malformed);
    }
    let d1 = count_digits(s, 1);
    if d1 == 0 {
        return Err(ParseError::Malformed);
    }
    let p = 1 + d1;
    if n - p < 3 || s[p] != '(' || s[p + 1] == '\n' || s[p + 2] != ')' {
        return Err(ParseError::Malformed);
    }
    let a = p + 3 + count_white(s, p + 3);
    if n - a < 2 || s[a] != '-' || s[a + 1] != '>' {
        return Err(ParseError::Malformed);
    }
    let t = a + 2 + count_white(s, a + 2);
    if t >= n || s[t] != 'q' {
        return Err(ParseError::Malformed);
    }
    let d2 = count_digits(s, t + 1);
    if d2 == 0 {
        return Err(ParseError::Malformed);
    }
    let q = t + 1 + d2;
    if n - q != 4 {
        return Err(ParseError::Malformed);
    }
    if s[q] != '(' || s[q + 1] == '\n' || s[q + 2] != ')' || s[q + 3] == '\n' {
        return Err(ParseError::Malformed);
    }
    proof {
        digits_in_run(s@, 1);
        digits_in_run(s@, t + 1);
    }
    let state = digits_to_usize(s, 1, p);
    let next_state = digits_to_usize(s, t + 1, q);
    match (state, next_state) {
        (Some(a), Some(b)) => Ok(
            Command {
                state: a,
                next_state: b,
                reading_char: s[p + 1],
                place_char: s[q + 1],
                next_move: move_from_letter(s[q + 3]),
            },
        ),
        _ => Err(ParseError::StateOutOfRange),
    }
}

/// Every character counted by `digit_run(s, i)` is a digit.
proof fn digits_in_run(s: Seq<char>, i: int)
    requires
        0 <= i,
    ensures
        forall|k: int| i <= k < i + digit_run(s, i) ==> is_digit(#[trigger] s[k]),
    decreases s.len() - i,
{
    if 0 <= i < s.len() && is_digit(s[i]) {
        digits_in_run(s, i + 1);
    }
}

/// Reads a transition line `q<S>(<r>) -> q<N>(<w>)<M>`; any whitespace,
/// or none, may stand on either side of the arrow.
///
/// `M` is `R`, `L` or `S` for `Right`, `Left` or `Stop`; any other single
/// character gives `Stop`. A line laid out otherwise is `Malformed`; a state
/// number too large for a `usize` is `StateOutOfRange`.
pub fn parse_command(line: &str) -> (r: Result<Command, ParseError>)
    ensures
        r is Ok <==> is_rule_layout(line@) && states_fit(line@),
        r matches Ok(c) ==> c == rule_of(line@),
        r matches Err(e) ==> e == if is_rule_layout(line@) {
            ParseError::StateOutOfRange
        } else {
            ParseError::Malformed
        },
{
    let s = chars_of(line);
    parse_rule_chars(&s)
}

} // verus!
