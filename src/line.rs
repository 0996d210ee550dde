use vstd::prelude::*;
use crate::rule::is_rule_layout;
use crate::symbols::{sort_dedup, sorted_unique};
use crate::text::{chars_of, count_spaces, space_run};

verus! {

/// The shape a line is recognised as.
#[derive(Clone, Copy, Debug, PartialEq, Eq, Structural)]
pub enum LineKind {
    Transition,
    Alphabet,
    Tape,
    Ignored,
}

/// Keyword that opens an alphabet declaration.
pub open spec fn alphabet_keyword() -> Seq<char> {
    seq!['a', 'l', 'p', 'h', 'a', 'b', 'e', 't', ':']
}

/// Keyword that opens a tape declaration.
pub open spec fn tape_keyword() -> Seq<char> {
    seq!['t', 'a', 'p', 'e', ':']
}

/// Index of the `(` of a declaration whose keyword has length `k`: the
/// keyword is followed by any number of spaces.
pub open spec fn decl_open(s: Seq<char>, k: int) -> int {
    k + space_run(s, k) as int
}

/// `s` reads `<kw> *(<text>)`, where `text` holds no line break.
pub open spec fn is_decl(s: Seq<char>, kw: Seq<char>) -> bool {
    let o = decl_open(s, kw.len() as int);
    &&& s.len() >= o + 2
    &&& s.subrange(0, kw.len() as int) == kw
    &&& s[o] == '('
    &&& s[s.len() - 1] == ')'
    &&& forall|i: int| o < i < s.len() - 1 ==> s[i] != '\n'
}

/// The text between the `(` of a declaration and the final `)`.
pub open spec fn decl_content(s: Seq<char>, kw: Seq<char>) -> Seq<char> {
    s.subrange(decl_open(s, kw.len() as int) + 1, s.len() - 1)
}

/// `s` reads `alphabet: (<text>)`.
pub open spec fn is_alphabet_line(s: Seq<char>) -> bool {
    is_decl(s, alphabet_keyword())
}

/// `s` reads `tape: (*<text>)`.
pub open spec fn is_tape_line(s: Seq<char>) -> bool {
    &&& is_decl(s, tape_keyword())
    &&& decl_content(s, tape_keyword()).len() > 0
    &&& decl_content(s, tape_keyword())[0] == '*'
}

/// `s` reads `q<digits>(<r>) -> q<digits>(<w>)<M>` with `M` one of `R`, `L`, `S`.
pub open spec fn is_transition_line(s: Seq<char>) -> bool {
    &&& is_rule_layout(s)
    &&& (s.last() == 'R' || s.last() == 'L' || s.last() == 'S')
}

/// The shape of `s`; the first that matches, in the order transition,
/// alphabet, tape, wins.
pub open spec fn kind_of(s: Seq<char>) -> LineKind {
    if is_transition_line(s) {
        LineKind::Transition
    } else if is_alphabet_line(s) {
        LineKind::Alphabet
    } else if is_tape_line(s) {
        LineKind::Tape
    } else {
        LineKind::Ignored
    }
}

/// The alphabet declared by an alphabet line: its distinct characters in
/// ascending order.
pub open spec fn alphabet_of(s: Seq<char>) -> Seq<char> {
    sorted_unique(decl_content(s, alphabet_keyword()))
}

/// The tape declared by a tape line, its leading `*` included.
pub open spec fn tape_of(s: Seq<char>) -> Seq<char> {
    decl_content(s, tape_keyword())
}

/// Relies on `String`'s `FromIterator<&char>`: the string holds the
/// characters in the order given.
#[verifier::external_body]
fn string_from_chars(v: &Vec<char>) -> (r: String)
    ensures
        r@ == v@,
{
    v.iter().collect()
}

/// Whether `s` reads `<kw> *(<text>)` with no line break in `text`.
fn matches_decl(s: &Vec<char>, kw: &Vec<char>) -> (r: bool)
    ensures
        r == is_decl(s@, kw@),
{
    let n = s.len();
    let k = kw.len();
    if n < k {
        return false;
    }
    let mut i: usize = 0;
    while i < k
        invariant
            k == kw@.len(),
            k <= n == s@.len(),
            i <= k,
            forall|j: int| 0 <= j < i ==> s@[j] == kw@[j],
        decreases k - i,
    {
        if s[i] != kw[i] {
            assert(s@.subrange(0, k as int)[i as int] != kw@[i as int]);
            return false;
        }
        i = i + 1;
    }
    assert(s@.subrange(0, k as int) =~= kw@);
    let o = k + count_spaces(s, k);
    if n - o < 2 || s[o] != '(' || s[n - 1] != ')' {
        return false;
    }
    let mut j: usize = o + 1;
    while j < n - 1
        invariant
            o + 1 <= j <= n - 1,
            n == s@.len(),
            o == decl_open(s@, kw@.len() as int),
            forall|m: int| o < m < j ==> s@[m] != '\n',
        decreases n - 1 - j,
    {
        if s[j] == '\n' {
            assert(s@[j as int] == '\n');
            return false;
        }
        j = j + 1;
    }
    true
}

fn alphabet_keyword_chars() -> (r: Vec<char>)
    ensures
        r@ == alphabet_keyword(),
{
    let r = vec!['a', 'l', 'p', 'h', 'a', 'b', 'e', 't', ':'];
    assert(r@ =~= alphabet_keyword());
    r
}

fn tape_keyword_chars() -> (r: Vec<char>)
    ensures
        r@ == tape_keyword(),
{
    let r = vec!['t', 'a', 'p', 'e', ':'];
    assert(r@ =~= tape_keyword());
    r
}

/// Decides which shape `s` has.
pub fn classify_chars(s: &Vec<char>) -> (r: LineKind)
    ensures
        r == kind_of(s@),
{
    let n = s.len();
    if n > 0 && (s[n - 1] == 'R' || s[n - 1] == 'L' || s[n - 1] == 'S') {
        match crate::rule::parse_rule_chars(s) {
            Err(crate::rule::ParseError::Malformed) => {},
            _ => {
                return LineKind::Transition;
            },
        }
    }
    if matches_decl(s, &alphabet_keyword_chars()) {
        return LineKind::Alphabet;
    }
    let tk = tape_keyword_chars();
    if matches_decl(s, &tk) {
        let o = 5 + count_spaces(s, 5);
        if o + 2 < n && s[o + 1] == '*' {
            return LineKind::Tape;
        }
    }
    LineKind::Ignored
}

/// Decides which of the three shapes (transition, alphabet, tape) the
/// trimmed line `line` has, or that it has none.
pub fn classify_line(line: &str) -> (r: LineKind)
    ensures
        r == kind_of(line@),
{
    classify_chars(&chars_of(line))
}

/// The characters `s[from..to]`.
fn copy_range(s: &Vec<char>, from: usize, to: usize) -> (r: Vec<char>)
    requires
        from <= to <= s@.len(),
    ensures
        r@ == s@.subrange(from as int, to as int),
{
    let mut r: Vec<char> = Vec::new();
    let mut i: usize = from;
    while i < to
        invariant
            from <= i <= to <= s@.len(),
            r@ == s@.subrange(from as int, i as int),
        decreases to - i,
    {
        r.push(s[i]);
        i = i + 1;
    }
    r
}

/// Reads an alphabet line (`is_tape` false) or a tape line (`is_tape`
/// true). An alphabet is the sorted set of the characters between the
/// parentheses; a tape is those characters as written, its leading `*`
/// included.
pub fn parse_alphabet_or_tape(line: &str, is_tape: bool) -> (r: String)
    requires
        if is_tape {
            is_tape_line(line@)
        } else {
            is_alphabet_line(line@)
        },
    ensures
        r@ == if is_tape {
            tape_of(line@)
        } else {
            alphabet_of(line@)
        },
{
    let s = chars_of(line);
    let k: usize = if is_tape { 5 } else { 9 };
    assert(tape_keyword().len() == 5 && alphabet_keyword().len() == 9);
    let ghost kw = if is_tape { tape_keyword() } else { alphabet_keyword() };
    assert(is_decl(s@, kw));
    assert(k == kw.len());
    let n = s.len();
    assert(k <= n);
    let o = k + count_spaces(&s, k);
    assert(o == decl_open(s@, kw.len() as int));
    assert(n >= o + 2);
    let content = copy_range(&s, o + 1, n - 1);
    if is_tape {
        string_from_chars(&content)
    } else {
        string_from_chars(&sort_dedup(&content))
    }
}

} // verus!
